use skillratings::glicko2::Glicko2Rating;
use vstd::prelude::*;

use crate::challonge::{ChallongeTournamentEvent, EventView, SetView, StandingView};
use crate::confidence::{confidence_cap, next_confidence, Confidence};
use crate::constants::MAX_REQUESTS_PER_MINUTE;
use crate::elo::{chain_path, glicko2_chain, lemma_chain_extends, rate_glicko2, MatchOutcome, RatingRules};

verus! {

/// A player as the ranking database holds them.
pub struct DatabaseUserWithElo {
    pub username: String,
    pub startgg_uid: i64,
    pub elo: Glicko2Rating,
    pub confidence: Confidence,
}

/// The absolute difference of two scores.
pub open spec fn score_gap(first_score: int, second_score: int) -> int {
    if first_score >= second_score { first_score - second_score } else { second_score - first_score }
}

/// The outcome of a Challonge set for its first player: a win exactly when
/// they took more games.
pub open spec fn challonge_outcome(first_score: int, second_score: int) -> MatchOutcome {
    if first_score > second_score { MatchOutcome::Win } else { MatchOutcome::Loss }
}

/// Rates a Challonge set between two players found in the database: the
/// ratings get one Glicko-2 update per game of score difference, a win for the
/// first player when they took more games (with the ranking's rules); each confidence
/// rises by one (capped at 100) whatever the score; the names become the
/// bracket's names. With a score difference of 0 the ratings stay as they were.
pub fn rate_challonge_set(
    player_1: &DatabaseUserWithElo,
    player_2: &DatabaseUserWithElo,
    name_1: String,
    name_2: String,
    score_1: i64,
    score_2: i64,
    rules: &RatingRules,
) -> (rated: (DatabaseUserWithElo, DatabaseUserWithElo))
    requires
        i64::MIN <= score_1 - score_2 <= i64::MAX,
        i64::MIN <= score_2 - score_1 <= i64::MAX,
        player_1.confidence.0 == confidence_cap() || player_1.confidence.0 < i64::MAX,
        player_2.confidence.0 == confidence_cap() || player_2.confidence.0 < i64::MAX,
    ensures
        ({
            &&& rated.0.username@ == name_1@
            &&& rated.1.username@ == name_2@
            &&& rated.0.startgg_uid == player_1.startgg_uid
            &&& rated.1.startgg_uid == player_2.startgg_uid
            &&& rated.0.confidence.0 == next_confidence(player_1.confidence.0 as int)
            &&& rated.1.confidence.0 == next_confidence(player_2.confidence.0 as int)
            &&& glicko2_chain(
                player_1.elo,
                player_2.elo,
                challonge_outcome(score_1 as int, score_2 as int),
                rules.config(),
                score_gap(score_1 as int, score_2 as int) as nat,
                (rated.0.elo, rated.1.elo),
            )
        }),
{
    let d1 = score_1 - score_2;
    let d2 = score_2 - score_1;
    let repeat = if d1 >= d2 { d1 } else { d2 };
    let outcome = if score_1 > score_2 { MatchOutcome::Win } else { MatchOutcome::Loss };
    let mut new_player_1 = player_1.elo;
    let mut new_player_2 = player_2.elo;
    proof {
        let start = (player_1.elo, player_2.elo);
        assert(chain_path(seq![start], player_1.elo, player_2.elo, outcome, rules.config(), 0, start));
    }
    let mut i: i64 = 0;
    while i < repeat
        invariant
            0 <= i <= repeat,
            repeat == score_gap(score_1 as int, score_2 as int),
            outcome == challonge_outcome(score_1 as int, score_2 as int),
            glicko2_chain(player_1.elo, player_2.elo, outcome, rules.config(), i as nat, (new_player_1, new_player_2)),
        decreases repeat - i,
    {
        let ghost before = (new_player_1, new_player_2);
        let rated = rate_glicko2(&new_player_1, &new_player_2, outcome, rules);
        new_player_1 = rated.0;
        new_player_2 = rated.1;
        proof {
            lemma_chain_extends(player_1.elo, player_2.elo, outcome, rules.config(), i as nat, before, rated);
        }
        i = i + 1;
    }
    (
        DatabaseUserWithElo {
            username: name_1,
            elo: new_player_1,
            confidence: player_1.confidence.update(),
            startgg_uid: player_1.startgg_uid,
        },
        DatabaseUserWithElo {
            username: name_2,
            elo: new_player_2,
            confidence: player_2.confidence.update(),
            startgg_uid: player_2.startgg_uid,
        },
    )
}

/// A Challonge set as the database stores it: winner first, then loser, then
/// the bracket's link.
pub struct ChallongeSetRecord {
    pub winner_name: String,
    pub winner_id: i64,
    pub winner_score: i64,
    pub loser_name: String,
    pub loser_id: i64,
    pub loser_score: i64,
    pub tournament_slug: String,
}

/// The value of a stored set: winner, loser, link.
pub struct RecordView {
    pub winner: StandingView,
    pub loser: StandingView,
    pub slug: Seq<char>,
}

impl ChallongeSetRecord {
    pub open spec fn view(&self) -> RecordView {
        RecordView {
            winner: StandingView { name: self.winner_name@, id: self.winner_id, score: self.winner_score },
            loser: StandingView { name: self.loser_name@, id: self.loser_id, score: self.loser_score },
            slug: self.tournament_slug@,
        }
    }
}

/// The stored form of a set: the first player is the winner when they took
/// more games, else the second player is (a tie counts for the second).
pub open spec fn set_record(s: SetView, slug: Seq<char>) -> RecordView {
    if s.first.score > s.second.score {
        RecordView { winner: s.first, loser: s.second, slug }
    } else {
        RecordView { winner: s.second, loser: s.first, slug }
    }
}

/// The stored forms of the sets of some brackets, bracket by bracket, in order.
pub open spec fn records_of(events: Seq<EventView>) -> Seq<RecordView>
    decreases events.len(),
{
    if events.len() == 0 {
        Seq::empty()
    } else {
        let last = events.last();
        records_of(events.drop_last()) + last.sets.map_values(|s: SetView| set_record(s, last.slug))
    }
}

/// The values of a list of brackets.
pub open spec fn events_view(events: Seq<ChallongeTournamentEvent>) -> Seq<EventView> {
    events.map_values(|e: ChallongeTournamentEvent| e.view())
}

/// The rows to store for the sets of the given brackets.
pub fn challonge_set_records(events: &Vec<ChallongeTournamentEvent>) -> (records: Vec<ChallongeSetRecord>)
    ensures
        records@.map_values(|r: ChallongeSetRecord| r.view()) == records_of(events_view(events@)),
{
    let ghost evs = events_view(events@);
    let mut records: Vec<ChallongeSetRecord> = Vec::new();
    let mut i: usize = 0;
    while i < events.len()
        invariant
            0 <= i <= events.len(),
            evs == events_view(events@),
            records@.map_values(|r: ChallongeSetRecord| r.view()) == records_of(evs.take(i as int)),
        decreases events.len() - i,
    {
        let event = &events[i];
        let ghost ev = evs[i as int];
        assert(ev == event.view());
        let ghost before = records@.map_values(|r: ChallongeSetRecord| r.view());
        let mut j: usize = 0;
        while j < event.sets.len()
            invariant
                0 <= j <= event.sets.len(),
                ev == event.view(),
                records@.map_values(|r: ChallongeSetRecord| r.view()) == before + ev.sets.take(
                    j as int,
                ).map_values(|s: SetView| set_record(s, ev.slug)),
            decreases event.sets.len() - j,
        {
            let set = &event.sets[j];
            assert(ev.sets[j as int] == set.view());
            let a = &set.standings[0];
            let b = &set.standings[1];
            let record = if a.score > b.score {
                ChallongeSetRecord {
                    winner_name: a.name.clone(),
                    winner_id: a.id,
                    winner_score: a.score,
                    loser_name: b.name.clone(),
                    loser_id: b.id,
                    loser_score: b.score,
                    tournament_slug: event.slug.clone(),
                }
            } else {
                ChallongeSetRecord {
                    winner_name: b.name.clone(),
                    winner_id: b.id,
                    winner_score: b.score,
                    loser_name: a.name.clone(),
                    loser_id: a.id,
                    loser_score: a.score,
                    tournament_slug: event.slug.clone(),
                }
            };
            let ghost prev = records@;
            records.push(record);
            assert(records@.map_values(|r: ChallongeSetRecord| r.view()) =~= prev.map_values(
                |r: ChallongeSetRecord| r.view(),
            ).push(record.view()));
            assert(ev.sets.take(j + 1).map_values(|s: SetView| set_record(s, ev.slug)) =~= ev.sets.take(
                j as int,
            ).map_values(|s: SetView| set_record(s, ev.slug)).push(set_record(ev.sets[j as int], ev.slug)));
            j = j + 1;
        }
        assert(ev.sets.take(event.sets.len() as int) =~= ev.sets);
        assert(evs.take(i + 1).drop_last() =~= evs.take(i as int));
        i = i + 1;
    }
    assert(evs.take(events.len() as int) =~= evs);
    records
}

/// The rate-limit schedule of the user-profile pass: one request per player,
/// a minute's wait before every fiftieth, and a count of the waits still ahead.
pub struct UserInfoSchedule {
    requests: usize,
    rl_avoids: usize,
    users_left: usize,
}

impl UserInfoSchedule {
    pub closed spec fn requests(&self) -> int {
        self.requests as int
    }

    pub closed spec fn avoids_left(&self) -> int {
        self.rl_avoids as int
    }

    pub closed spec fn users_left(&self) -> int {
        self.users_left as int
    }

    /// The schedule's invariant: the waits still ahead are exactly those that
    /// the requests still to make will hit.
    pub open spec fn wf(&self) -> bool {
        &&& 0 <= self.requests() < MAX_REQUESTS_PER_MINUTE
        &&& self.avoids_left() == (self.requests() + self.users_left()) / (MAX_REQUESTS_PER_MINUTE as int)
    }

    /// The schedule for a pass over `user_count` players: `user_count / 50` waits ahead.
    pub fn new(user_count: usize) -> (s: Self)
        ensures
            s.wf(),
            s.requests() == 0,
            s.users_left() == user_count,
            s.avoids_left() == user_count as int / (MAX_REQUESTS_PER_MINUTE as int),
    {
        UserInfoSchedule { requests: 0, rl_avoids: user_count / MAX_REQUESTS_PER_MINUTE, users_left: user_count }
    }

    /// The waits still ahead.
    pub fn avoids_left_now(&self) -> (n: usize)
        ensures
            n == self.avoids_left(),
    {
        self.rl_avoids
    }

    /// The players still to fetch.
    pub fn users_left_now(&self) -> (n: usize)
        ensures
            n == self.users_left(),
    {
        self.users_left
    }

    /// Counts the request for the next player; true when the client must
    /// first wait a minute, which uses up one of the waits ahead.
    pub fn before_request(&mut self) -> (wait: bool)
        requires
            old(self).wf(),
            old(self).users_left() > 0,
        ensures
            final(self).wf(),
            final(self).users_left() == old(self).users_left() - 1,
            wait == (old(self).requests() + 1 >= MAX_REQUESTS_PER_MINUTE),
            final(self).requests() == if wait { 0 } else { old(self).requests() + 1 },
            final(self).avoids_left() == if wait { old(self).avoids_left() - 1 } else { old(self).avoids_left() },
    {
        self.requests = self.requests + 1;
        self.users_left = self.users_left - 1;
        if self.requests >= MAX_REQUESTS_PER_MINUTE {
            self.rl_avoids = self.rl_avoids - 1;
            self.requests = 0;
            true
        } else {
            false
        }
    }
}

/// The waits counted ahead never run out: whenever the next request must wait,
/// at least one wait is still counted; and once every player has been fetched
/// no wait is left over.
pub proof fn law_waits_match_requests(requests: int, avoids_left: int, users_left: int)
    requires
        0 <= requests < MAX_REQUESTS_PER_MINUTE,
        users_left >= 0,
        avoids_left == (requests + users_left) / (MAX_REQUESTS_PER_MINUTE as int),
    ensures
        users_left > 0 && requests + 1 >= MAX_REQUESTS_PER_MINUTE ==> avoids_left >= 1,
        users_left == 0 ==> avoids_left == 0,
{
}

/// A stored set never lists a winner with fewer games than its loser.
pub proof fn law_winner_took_at_least_as_many_games(s: SetView, slug: Seq<char>)
    ensures
        set_record(s, slug).winner.score >= set_record(s, slug).loser.score,
        set_record(s, slug).slug == slug,
{
}

/// A stored set keeps each player's name, id and score together: the winner
/// and the loser are the set's two standings, whole, one each; the winner is
/// the first player exactly when they took more games, so the winner never
/// has fewer games than the loser, and on a tie the second player is stored
/// as the winner.
pub proof fn law_record_keeps_each_standing_whole(s: SetView, slug: Seq<char>)
    ensures
        ({
            let r = set_record(s, slug);
            &&& (r.winner == s.first && r.loser == s.second) || (r.winner == s.second && r.loser == s.first)
            &&& r.winner.score >= r.loser.score
            &&& s.first.score > s.second.score ==> r.winner == s.first
            &&& s.first.score <= s.second.score ==> r.winner == s.second && r.loser == s.first
            &&& r.slug == slug
        }),
{
}

/// The rows stored for one bracket are one per set, in the bracket's order,
/// each holding that set's two standings whole (winner first) and the
/// bracket's link.
pub proof fn law_bracket_rows_follow_its_sets(ev: EventView)
    ensures
        records_of(seq![ev]).len() == ev.sets.len(),
        forall|j: int|
            0 <= j < ev.sets.len() ==> {
                let r = #[trigger] records_of(seq![ev])[j];
                &&& (r.winner == ev.sets[j].first && r.loser == ev.sets[j].second) || (r.winner
                    == ev.sets[j].second && r.loser == ev.sets[j].first)
                &&& r.winner.score >= r.loser.score
                &&& r.slug == ev.slug
            },
{
    let single = seq![ev];
    assert(single.drop_last() =~= Seq::<EventView>::empty());
    assert(single.last() == ev);
    assert(records_of(single.drop_last()) =~= Seq::<RecordView>::empty());
    assert(records_of(single) =~= ev.sets.map_values(|s: SetView| set_record(s, ev.slug)));
}

/// The rows of several brackets are those of the first brackets followed by
/// those of the last one: no bracket's rows are dropped, repeated or moved.
pub proof fn law_rows_of_brackets_follow_one_another(events: Seq<EventView>, ev: EventView)
    ensures
        records_of(events.push(ev)) == records_of(events) + records_of(seq![ev]),
{
    let single = seq![ev];
    assert(events.push(ev).drop_last() =~= events);
    assert(single.drop_last() =~= Seq::<EventView>::empty());
    assert(records_of(single.drop_last()) =~= Seq::<RecordView>::empty());
    assert(records_of(single) =~= ev.sets.map_values(|s: SetView| set_record(s, ev.slug)));
}

} // verus!
