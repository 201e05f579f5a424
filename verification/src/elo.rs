use std::collections::HashMap;

use skillratings::glicko2::{glicko2, Glicko2Config, Glicko2Rating};
use skillratings::Outcomes;
use vstd::prelude::*;

use crate::confidence::{confidence_cap, next_confidence, Confidence};
use crate::startgg::TournamentSet;

verus! {

broadcast use vstd::std_specs::hash::group_hash_axioms;

/// The Glicko-2 rating of a player, as the `skillratings` crate computes it.
/// Verus sees nothing inside it: the ranking only carries it from one call to
/// the next.
#[verifier::external_type_specification]
#[verifier::external_body]
pub struct ExGlicko2Rating(Glicko2Rating);

/// The constants of the Glicko-2 computation (tau and convergence tolerance).
/// Verus sees nothing inside it.
#[verifier::external_type_specification]
#[verifier::external_body]
pub struct ExGlicko2Config(Glicko2Config);

/// The result of a set from the first player's point of view.
#[derive(Clone, Copy, PartialEq, Eq, Structural, Debug)]
pub enum MatchOutcome {
    Win,
    Loss,
}

/// The Glicko-2 rules the ranking rates with: the configuration of
/// `Glicko2Config::new()` (tau 0.5, convergence tolerance 0.000001 in the
/// crate's source). The field is private and only `standard` sets it, so no
/// other configuration reaches `rate_glicko2`.
pub struct RatingRules {
    config: Glicko2Config,
}

impl RatingRules {
    /// The configuration the rules hold.
    pub closed spec fn config(&self) -> Glicko2Config {
        self.config
    }

    /// The ranking's rules.
    pub fn standard() -> (r: Self) {
        RatingRules { config: standard_glicko2_config() }
    }
}

/// Calls `skillratings::glicko2::Glicko2Config::new`. Nothing is claimed of the value.
#[verifier::external_body]
fn standard_glicko2_config() -> Glicko2Config {
    Glicko2Config::new()
}

/// Holds when `rated` is a pair of ratings that `skillratings::glicko2::glicko2`
/// can return for the two ratings, the outcome for the first player and the
/// configuration. A relation, not a function: the floating-point functions
/// it uses (`exp`, `ln`, `powi`, `hypot`) need not give the same result on
/// every machine.
pub uninterp spec fn glicko2_outcome(
    player_one: Glicko2Rating,
    player_two: Glicko2Rating,
    outcome: MatchOutcome,
    config: Glicko2Config,
    rated: (Glicko2Rating, Glicko2Rating),
) -> bool;

/// Calls `skillratings::glicko2::glicko2` on the two ratings, the outcome
/// (converted variant for variant) and the configuration of the rules.
/// Claimed: the pair returned is an outcome of that call, as the relation
/// `glicko2_outcome` records; nothing is claimed of the numbers. The call
/// returns: with the standard configuration (tau 0.5) the volatility
/// iteration of the crate's source ends; no other configuration reaches it.
#[verifier::external_body]
pub(crate) fn rate_glicko2(
    player_one: &Glicko2Rating,
    player_two: &Glicko2Rating,
    outcome: MatchOutcome,
    rules: &RatingRules,
) -> (rated: (Glicko2Rating, Glicko2Rating))
    ensures
        glicko2_outcome(*player_one, *player_two, outcome, rules.config(), rated),
{
    let converted = match outcome {
        MatchOutcome::Win => Outcomes::WIN,
        MatchOutcome::Loss => Outcomes::LOSS,
    };
    glicko2(player_one, player_two, &converted, &rules.config)
}

/// `path` walks from the pair `(player_one, player_two)` to `result` in `k`
/// Glicko-2 updates with the same outcome and configuration: each pair on it
/// is an outcome of the update on the pair before.
pub open spec fn chain_path(
    path: Seq<(Glicko2Rating, Glicko2Rating)>,
    player_one: Glicko2Rating,
    player_two: Glicko2Rating,
    outcome: MatchOutcome,
    config: Glicko2Config,
    k: nat,
    result: (Glicko2Rating, Glicko2Rating),
) -> bool {
    &&& path.len() == k + 1
    &&& path[0] == (player_one, player_two)
    &&& path[k as int] == result
    &&& forall|j: int|
        0 < j <= k ==> glicko2_outcome(path[j - 1].0, path[j - 1].1, outcome, config, #[trigger] path[j])
}

/// The ratings after `k` Glicko-2 updates in a row with the same outcome and
/// configuration: `result` is reached from the pair by a chain of `k` outcomes.
pub open spec fn glicko2_chain(
    player_one: Glicko2Rating,
    player_two: Glicko2Rating,
    outcome: MatchOutcome,
    config: Glicko2Config,
    k: nat,
    result: (Glicko2Rating, Glicko2Rating),
) -> bool {
    exists|path: Seq<(Glicko2Rating, Glicko2Rating)>|
        #[trigger] chain_path(path, player_one, player_two, outcome, config, k, result)
}

/// Calls `skillratings::glicko2::Glicko2Rating::new`, the rating of a player
/// that has not played (1500, 350, 0.06 in the crate's source). Nothing is
/// claimed of the value.
#[verifier::external_body]
fn initial_rating() -> Glicko2Rating {
    Glicko2Rating::new()
}

/// The games between the two players of a set: the absolute score difference.
pub open spec fn repeat_count(t: TournamentSet) -> int {
    let d = t.first().score - t.second().score;
    if d >= 0 { d } else { -d }
}

/// The outcome of a set for its first listed player.
pub open spec fn set_outcome(t: TournamentSet) -> MatchOutcome {
    if t.first().has_won { MatchOutcome::Win } else { MatchOutcome::Loss }
}

/// A set whose score difference fits in an `i64` either way round.
pub open spec fn scores_in_range(t: TournamentSet) -> bool {
    &&& i64::MIN <= t.first().score - t.second().score <= i64::MAX
    &&& i64::MIN <= t.second().score - t.first().score <= i64::MAX
}

/// The table with a fresh entry (confidence 0, `initial`) for `id` if it has none.
pub open spec fn with_player(
    m: Map<i64, (Confidence, Glicko2Rating)>,
    id: i64,
    initial: Glicko2Rating,
) -> Map<i64, (Confidence, Glicko2Rating)> {
    if m.contains_key(id) { m } else { m.insert(id, (Confidence(0), initial)) }
}

/// The table before the games of a set are rated: both players have an entry.
pub open spec fn seated(
    m: Map<i64, (Confidence, Glicko2Rating)>,
    t: TournamentSet,
    initial: Glicko2Rating,
) -> Map<i64, (Confidence, Glicko2Rating)> {
    with_player(with_player(m, t.first().id, initial), t.second().id, initial)
}

/// The confidence a player holds before a set: the stored one, or 0 when first seen.
pub open spec fn confidence_before(m: Map<i64, (Confidence, Glicko2Rating)>, id: i64) -> int {
    if m.contains_key(id) { m[id].0.0 as int } else { 0 }
}

/// The confidence a player of the set holds after it: one more (stopping at
/// 100) when the score difference is positive, the same otherwise. A set
/// counts once toward confidence however many games it had.
pub open spec fn confidence_after_set(m: Map<i64, (Confidence, Glicko2Rating)>, t: TournamentSet, id: i64) -> int {
    if repeat_count(t) > 0 {
        next_confidence(confidence_before(m, id))
    } else {
        confidence_before(m, id)
    }
}

/// One rating step between `a` and `b` in the table: both ratings are
/// replaced by an outcome of Glicko-2 on them; confidences move up by one
/// (capped at 100) when `bump` holds. When `a == b` the second write wins.
pub open spec fn rating_step(
    m: Map<i64, (Confidence, Glicko2Rating)>,
    m2: Map<i64, (Confidence, Glicko2Rating)>,
    a: i64,
    b: i64,
    outcome: MatchOutcome,
    config: Glicko2Config,
    bump: bool,
) -> bool {
    let ca = if bump { Confidence(next_confidence(m[a].0.0 as int) as i64) } else { m[a].0 };
    let cb = if bump { Confidence(next_confidence(m[b].0.0 as int) as i64) } else { m[b].0 };
    exists|rated: (Glicko2Rating, Glicko2Rating)|
        #[trigger] glicko2_outcome(m[a].1, m[b].1, outcome, config, rated) && m2 == m.insert(
            a,
            (ca, rated.0),
        ).insert(b, (cb, rated.1))
}

/// `path` leads from `m0` to `mk` in `k` rating steps; only the first moves
/// confidences.
pub open spec fn steps_path(
    path: Seq<Map<i64, (Confidence, Glicko2Rating)>>,
    m0: Map<i64, (Confidence, Glicko2Rating)>,
    mk: Map<i64, (Confidence, Glicko2Rating)>,
    a: i64,
    b: i64,
    outcome: MatchOutcome,
    config: Glicko2Config,
    k: nat,
) -> bool {
    &&& path.len() == k + 1
    &&& path[0] == m0
    &&& path[k as int] == mk
    &&& forall|j: int| 0 < j <= k ==> rating_step(path[j - 1], #[trigger] path[j], a, b, outcome, config, j == 1)
}

/// `k` rating steps lead from `m0` to `mk`; only the first moves confidences.
pub open spec fn rating_steps(
    m0: Map<i64, (Confidence, Glicko2Rating)>,
    mk: Map<i64, (Confidence, Glicko2Rating)>,
    a: i64,
    b: i64,
    outcome: MatchOutcome,
    config: Glicko2Config,
    k: nat,
) -> bool {
    exists|path: Seq<Map<i64, (Confidence, Glicko2Rating)>>|
        #[trigger] steps_path(path, m0, mk, a, b, outcome, config, k)
}

/// What rating a set does to the table, for every result of the Glicko-2
/// updates: the two players have an entry afterwards, no other entry
/// changes, the players' confidences move as `confidence_after_set` says, and
/// when the score difference is 0 their ratings are left as they were (or the
/// initial rating for a new player).
pub open spec fn set_rated(
    old_m: Map<i64, (Confidence, Glicko2Rating)>,
    new_m: Map<i64, (Confidence, Glicko2Rating)>,
    t: TournamentSet,
    initial: Glicko2Rating,
) -> bool {
    let a = t.first().id;
    let b = t.second().id;
    &&& new_m.dom() == old_m.dom().insert(a).insert(b)
    &&& forall|o: i64| o != a && o != b && old_m.contains_key(o) ==> #[trigger] new_m[o] == old_m[o]
    &&& new_m[a].0.0 == confidence_after_set(old_m, t, a)
    &&& new_m[b].0.0 == confidence_after_set(old_m, t, b)
    &&& repeat_count(t) == 0 ==> new_m == seated(old_m, t, initial)
}

/// Every stored confidence lies between 0 and the cap.
pub open spec fn confidences_in_range(m: Map<i64, (Confidence, Glicko2Rating)>) -> bool {
    forall|k: i64| m.contains_key(k) ==> 0 <= #[trigger] m[k].0.0 <= confidence_cap()
}

/// The table's invariant kept by rating: confidences stay between 0 and 100
/// whatever set is rated.
pub proof fn law_rating_keeps_confidence_in_range(
    old_m: Map<i64, (Confidence, Glicko2Rating)>,
    new_m: Map<i64, (Confidence, Glicko2Rating)>,
    t: TournamentSet,
    initial: Glicko2Rating,
)
    requires
        confidences_in_range(old_m),
        set_rated(old_m, new_m, t, initial),
    ensures
        confidences_in_range(new_m),
{
    let a = t.first().id;
    let b = t.second().id;
    assert forall|k: i64| new_m.contains_key(k) implies 0 <= #[trigger] new_m[k].0.0 <= confidence_cap() by {
        if k != a && k != b {
            assert(old_m.dom().insert(a).insert(b).contains(k));
        }
    }
}

/// One more Glicko-2 update extends a chain of `k` updates to one of `k + 1`.
pub(crate) proof fn lemma_chain_extends(
    player_one: Glicko2Rating,
    player_two: Glicko2Rating,
    outcome: MatchOutcome,
    config: Glicko2Config,
    k: nat,
    mid: (Glicko2Rating, Glicko2Rating),
    result: (Glicko2Rating, Glicko2Rating),
)
    requires
        glicko2_chain(player_one, player_two, outcome, config, k, mid),
        glicko2_outcome(mid.0, mid.1, outcome, config, result),
    ensures
        glicko2_chain(player_one, player_two, outcome, config, k + 1, result),
{
    let path = choose|path: Seq<(Glicko2Rating, Glicko2Rating)>|
        #[trigger] chain_path(path, player_one, player_two, outcome, config, k, mid);
    let longer = path.push(result);
    assert forall|j: int| 0 < j <= k + 1 implies glicko2_outcome(
        longer[j - 1].0,
        longer[j - 1].1,
        outcome,
        config,
        #[trigger] longer[j],
    ) by {
        if j <= k {
            assert(longer[j] == path[j]);
            assert(longer[j - 1] == path[j - 1]);
        }
    }
    assert(chain_path(longer, player_one, player_two, outcome, config, k + 1, result));
}

/// When the two players of a set differ, their ratings after it are those
/// that `k` Glicko-2 updates in a row give from their ratings before it, with
/// the set's outcome and the table's configuration.
pub proof fn law_distinct_players_follow_glicko2_chain(
    m0: Map<i64, (Confidence, Glicko2Rating)>,
    mk: Map<i64, (Confidence, Glicko2Rating)>,
    a: i64,
    b: i64,
    outcome: MatchOutcome,
    config: Glicko2Config,
    k: nat,
)
    requires
        a != b,
        rating_steps(m0, mk, a, b, outcome, config, k),
    ensures
        glicko2_chain(m0[a].1, m0[b].1, outcome, config, k, (mk[a].1, mk[b].1)),
{
    let path = choose|path: Seq<Map<i64, (Confidence, Glicko2Rating)>>|
        #[trigger] steps_path(path, m0, mk, a, b, outcome, config, k);
    let pairs = Seq::new(k + 1, |j: int| (path[j][a].1, path[j][b].1));
    assert forall|j: int| 0 < j <= k implies glicko2_outcome(
        pairs[j - 1].0,
        pairs[j - 1].1,
        outcome,
        config,
        #[trigger] pairs[j],
    ) by {
        let prev = path[j - 1];
        let next = path[j];
        assert(rating_step(prev, next, a, b, outcome, config, j == 1));
        let ca = if j == 1 { Confidence(next_confidence(prev[a].0.0 as int) as i64) } else { prev[a].0 };
        let cb = if j == 1 { Confidence(next_confidence(prev[b].0.0 as int) as i64) } else { prev[b].0 };
        let rated = choose|rated: (Glicko2Rating, Glicko2Rating)|
            #[trigger] glicko2_outcome(prev[a].1, prev[b].1, outcome, config, rated) && next == prev.insert(
                a,
                (ca, rated.0),
            ).insert(b, (cb, rated.1));
        assert(next[a].1 == rated.0 && next[b].1 == rated.1);
        assert(pairs[j] == rated);
    }
    assert(chain_path(pairs, m0[a].1, m0[b].1, outcome, config, k, (mk[a].1, mk[b].1)));
}

/// Rating a set between two different players applies exactly as many
/// Glicko-2 updates as the absolute difference of their scores (a 3-0 set
/// three, a 2-2 set none), each with the set's result for the first player
/// (a win when they won the set), starting from their ratings before the set
/// (the initial rating for a player not yet in the table).
pub proof fn law_rating_applies_one_update_per_game_of_difference(
    old_m: Map<i64, (Confidence, Glicko2Rating)>,
    new_m: Map<i64, (Confidence, Glicko2Rating)>,
    t: TournamentSet,
    initial: Glicko2Rating,
    config: Glicko2Config,
)
    requires
        t.first().id != t.second().id,
        rating_steps(
            seated(old_m, t, initial),
            new_m,
            t.first().id,
            t.second().id,
            set_outcome(t),
            config,
            repeat_count(t) as nat,
        ),
    ensures
        glicko2_chain(
            if old_m.contains_key(t.first().id) { old_m[t.first().id].1 } else { initial },
            if old_m.contains_key(t.second().id) { old_m[t.second().id].1 } else { initial },
            if t.first().has_won { MatchOutcome::Win } else { MatchOutcome::Loss },
            config,
            (if t.first().score >= t.second().score {
                t.first().score - t.second().score
            } else {
                t.second().score - t.first().score
            }) as nat,
            (new_m[t.first().id].1, new_m[t.second().id].1),
        ),
{
    law_distinct_players_follow_glicko2_chain(
        seated(old_m, t, initial),
        new_m,
        t.first().id,
        t.second().id,
        set_outcome(t),
        config,
        repeat_count(t) as nat,
    );
}

/// A rated set raises each player's confidence by exactly one, stopping at
/// 100, when the scores differ, and leaves it as it was (0 for a new player)
/// when they are level; however many games the set had, it counts once.
pub proof fn law_rating_counts_a_set_once_toward_confidence(
    old_m: Map<i64, (Confidence, Glicko2Rating)>,
    new_m: Map<i64, (Confidence, Glicko2Rating)>,
    t: TournamentSet,
    initial: Glicko2Rating,
    id: i64,
)
    requires
        confidences_in_range(old_m),
        set_rated(old_m, new_m, t, initial),
        id == t.first().id || id == t.second().id,
    ensures
        ({
            let before = if old_m.contains_key(id) { old_m[id].0.0 as int } else { 0 };
            &&& t.first().score != t.second().score ==> new_m[id].0.0 == (if before < 100 {
                before + 1
            } else {
                100
            })
            &&& t.first().score == t.second().score ==> new_m[id].0.0 == before
        }),
{
}

/// Rating a set adds its two players to the table when they are new and
/// changes no other player's entry.
pub proof fn law_rating_touches_only_the_set_players(
    old_m: Map<i64, (Confidence, Glicko2Rating)>,
    new_m: Map<i64, (Confidence, Glicko2Rating)>,
    t: TournamentSet,
    initial: Glicko2Rating,
    other: i64,
)
    requires
        set_rated(old_m, new_m, t, initial),
    ensures
        new_m.contains_key(t.first().id),
        new_m.contains_key(t.second().id),
        other != t.first().id && other != t.second().id ==> (new_m.contains_key(other) <==> old_m.contains_key(
            other,
        )),
        other != t.first().id && other != t.second().id && old_m.contains_key(other) ==> new_m[other]
            == old_m[other],
{
    assert(old_m.dom().insert(t.first().id).insert(t.second().id).contains(t.first().id));
}

/// The rating table of every player seen so far, keyed by start.gg user id.
pub struct Elo {
    users: HashMap<i64, (Confidence, Glicko2Rating)>,
    initial: Glicko2Rating,
    rules: RatingRules,
}

impl View for Elo {
    type V = Map<i64, (Confidence, Glicko2Rating)>;

    closed spec fn view(&self) -> Self::V {
        self.users@
    }
}

impl Elo {
    /// The rating a player gets when first seen.
    pub closed spec fn initial(&self) -> Glicko2Rating {
        self.initial
    }

    /// The Glicko-2 configuration the table rates with.
    pub closed spec fn config(&self) -> Glicko2Config {
        self.rules.config()
    }

    /// The table's invariant: confidences between 0 and 100.
    pub open spec fn wf(&self) -> bool {
        confidences_in_range(self@)
    }

    /// An empty table that rates with the ranking's rules.
    pub fn new() -> (e: Self)
        ensures
            e@ == Map::<i64, (Confidence, Glicko2Rating)>::empty(),
            e.wf(),
    {
        Elo { users: HashMap::new(), initial: initial_rating(), rules: RatingRules::standard() }
    }

    /// Rates one set: both players get an entry if they have none (confidence 0,
    /// the initial rating); then, once per game of score difference, both
    /// ratings are updated together by Glicko-2 with the set's outcome; the
    /// first of these updates also raises both confidences by one (capped at 100).
    pub fn update_player_elo(&mut self, t: &TournamentSet)
        requires
            old(self).wf(),
            scores_in_range(*t),
        ensures
            final(self).wf(),
            final(self).initial() == old(self).initial(),
            final(self).config() == old(self).config(),
            set_rated(old(self)@, final(self)@, *t, old(self).initial()),
            rating_steps(
                seated(old(self)@, *t, old(self).initial()),
                final(self)@,
                t.first().id,
                t.second().id,
                set_outcome(*t),
                old(self).config(),
                repeat_count(*t) as nat,
            ),
            t.first().id != t.second().id ==> glicko2_chain(
                seated(old(self)@, *t, old(self).initial())[t.first().id].1,
                seated(old(self)@, *t, old(self).initial())[t.second().id].1,
                if t.first().has_won { MatchOutcome::Win } else { MatchOutcome::Loss },
                old(self).config(),
                (if t.first().score >= t.second().score {
                    t.first().score - t.second().score
                } else {
                    t.second().score - t.first().score
                }) as nat,
                (final(self)@[t.first().id].1, final(self)@[t.second().id].1),
            ),
    {
        let a = t.standings[0].id;
        let b = t.standings[1].id;
        let d1 = t.standings[0].score - t.standings[1].score;
        let d2 = t.standings[1].score - t.standings[0].score;
        let repeat = if d1 >= d2 { d1 } else { d2 };
        let outcome = if t.standings[0].has_won { MatchOutcome::Win } else { MatchOutcome::Loss };
        if !self.users.contains_key(&a) {
            self.users.insert(a, (Confidence::new(), self.initial));
        }
        if !self.users.contains_key(&b) {
            self.users.insert(b, (Confidence::new(), self.initial));
        }
        let ghost start = self.users@;
        assert(start == seated(old(self)@, *t, self.initial));
        assert(start.dom() =~= old(self)@.dom().insert(a).insert(b));
        assert(start[a].0.0 == confidence_before(old(self)@, a));
        assert(start[b].0.0 == confidence_before(old(self)@, b));
        let ghost mut path = seq![start];
        let mut i: i64 = 0;
        while i < repeat
            invariant
                0 <= i <= repeat,
                repeat == repeat_count(*t),
                a == t.first().id,
                b == t.second().id,
                self.initial == old(self).initial,
                self.rules == old(self).rules,
                outcome == set_outcome(*t),
                steps_path(path, start, self.users@, a, b, outcome, self.rules.config(), i as nat),
                start.contains_key(a),
                start.contains_key(b),
                confidences_in_range(start),
                self.users@.dom() == start.dom(),
                forall|o: i64| o != a && o != b && start.contains_key(o) ==> #[trigger] self.users@[o] == start[o],
                i == 0 ==> self.users@ == start,
                i > 0 ==> self.users@[a].0.0 == next_confidence(start[a].0.0 as int),
                i > 0 ==> self.users@[b].0.0 == next_confidence(start[b].0.0 as int),
            decreases repeat - i,
        {
            let ghost before = self.users@;
            let ra = self.users.get(&a).unwrap().1;
            let rb = self.users.get(&b).unwrap().1;
            let rated = rate_glicko2(&ra, &rb, outcome, &self.rules);
            let ca;
            let cb;
            if i == 0 {
                ca = self.users.get(&a).unwrap().0.update();
                cb = self.users.get(&b).unwrap().0.update();
            } else {
                ca = self.users.get(&a).unwrap().0;
                cb = self.users.get(&b).unwrap().0;
            }
            self.users.insert(a, (ca, rated.0));
            self.users.insert(b, (cb, rated.1));
            assert(self.users@.dom() =~= before.dom());
            assert(rating_step(before, self.users@, a, b, outcome, self.rules.config(), i == 0));
            proof {
                let longer = path.push(self.users@);
                assert forall|j: int| 0 < j <= i + 1 implies rating_step(
                    longer[j - 1],
                    #[trigger] longer[j],
                    a,
                    b,
                    outcome,
                    self.rules.config(),
                    j == 1,
                ) by {
                    if j <= i {
                        assert(longer[j] == path[j]);
                        assert(longer[j - 1] == path[j - 1]);
                    }
                }
                path = longer;
            }
            i = i + 1;
        }
        proof {
            assert(steps_path(path, start, self.users@, a, b, outcome, self.rules.config(), repeat as nat));
            if a != b {
                law_distinct_players_follow_glicko2_chain(
                    start,
                    self.users@,
                    a,
                    b,
                    outcome,
                    self.rules.config(),
                    repeat as nat,
                );
            }
            if repeat > 0 {
                assert forall|k: i64| self.users@.contains_key(k) implies 0 <= #[trigger] self.users@[k].0.0
                    <= confidence_cap() by {
                    if k != a && k != b {
                        assert(start.contains_key(k));
                    }
                }
            }
        }
    }

    /// A copy of the whole table.
    pub fn get_users(&self) -> (users: HashMap<i64, (Confidence, Glicko2Rating)>)
        ensures
            users@ == self@,
    {
        self.users.clone()
    }
}

} // verus!
