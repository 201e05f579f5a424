use vstd::prelude::*;
use vstd::string::StringExecFns;

use crate::selection::{lemma_select_next, lemma_selects_nothing, selects_in_order};
use crate::text::{parse_i64, parsed_i64};

verus! {

/// A bracket read from Challonge: its completed sets and its link.
#[derive(Debug)]
pub struct ChallongeTournamentEvent {
    pub sets: Vec<ChallongeTournamentSet>,
    pub slug: String,
}

/// A completed set of a Challonge bracket.
#[derive(Debug)]
pub struct ChallongeTournamentSet {
    pub standings: [ChallongeTournamentSetStanding; 2],
}

/// One side of a Challonge set: the player's display name, participant id and games won.
#[derive(Debug, Clone)]
pub struct ChallongeTournamentSetStanding {
    pub name: String,
    pub id: i64,
    pub score: i64,
}

/// The value of a standing.
pub struct StandingView {
    pub name: Seq<char>,
    pub id: i64,
    pub score: i64,
}

/// The value of a set: its two standings in order.
pub struct SetView {
    pub first: StandingView,
    pub second: StandingView,
}

/// The value of a bracket.
pub struct EventView {
    pub sets: Seq<SetView>,
    pub slug: Seq<char>,
}

impl ChallongeTournamentSetStanding {
    pub open spec fn view(&self) -> StandingView {
        StandingView { name: self.name@, id: self.id, score: self.score }
    }

    /// A copy with the same name, id and score.
    pub fn duplicate(&self) -> (c: Self)
        ensures
            c.view() == self.view(),
    {
        ChallongeTournamentSetStanding { name: self.name.clone(), id: self.id, score: self.score }
    }
}

impl ChallongeTournamentSet {
    pub open spec fn view(&self) -> SetView {
        SetView { first: self.standings@[0].view(), second: self.standings@[1].view() }
    }
}

/// The values of a list of sets.
pub open spec fn sets_view(sets: Seq<ChallongeTournamentSet>) -> Seq<SetView> {
    sets.map_values(|s: ChallongeTournamentSet| s.view())
}

impl ChallongeTournamentEvent {
    pub open spec fn view(&self) -> EventView {
        EventView { sets: sets_view(self.sets@), slug: self.slug@ }
    }
}

/// What the bracket page shows of one player slot of a match: the participant
/// id attribute, the text of the score element, the score element's inner HTML
/// (read only when its text is not a number), and the player's name.
pub struct ChallongeSlotText {
    pub participant_id: String,
    pub score_text: String,
    pub score_html: Option<String>,
    pub name: String,
}

/// The value of a slot.
pub struct SlotView {
    pub participant_id: Seq<char>,
    pub score_text: Seq<char>,
    pub score_html: Option<Seq<char>>,
    pub name: Seq<char>,
}

impl ChallongeSlotText {
    pub open spec fn view(&self) -> SlotView {
        SlotView {
            participant_id: self.participant_id@,
            score_text: self.score_text@,
            score_html: match self.score_html {
                Some(h) => Some(h@),
                None => None,
            },
            name: self.name@,
        }
    }
}

/// The values of the slots of every match on a page, in page order.
pub open spec fn page_view(matches: Seq<Vec<ChallongeSlotText>>) -> Seq<Seq<SlotView>> {
    matches.map_values(|m: Vec<ChallongeSlotText>| m@.map_values(|s: ChallongeSlotText| s.view()))
}

/// A score cell's value: its text as a number, or else its inner HTML as a number.
pub open spec fn cell_score(score_text: Seq<char>, score_html: Option<Seq<char>>) -> Option<i64> {
    match parsed_i64(score_text) {
        Some(v) => Some(v),
        None => match score_html {
            Some(h) => parsed_i64(h),
            None => None,
        },
    }
}

/// A slot's score: its text as a number, or else its inner HTML as a number.
pub open spec fn slot_score(s: SlotView) -> Option<i64> {
    cell_score(s.score_text, s.score_html)
}

/// Whether a score cell's inner HTML must be read: its text is not a number.
pub fn score_needs_html(score_text: &str) -> (needed: bool)
    ensures
        needed == (parsed_i64(score_text@) is None),
{
    parse_i64(score_text).is_none()
}

/// Whether reading a match stops at a score cell: neither its text nor its
/// inner HTML (where it was read) is a number.
pub fn score_unreadable(score_text: &str, score_html: &Option<String>) -> (unreadable: bool)
    ensures
        unreadable == (cell_score(
            score_text@,
            match score_html {
                Some(h) => Some(h@),
                None => None,
            },
        ) is None),
{
    if parse_i64(score_text).is_some() {
        return false;
    }
    match score_html {
        Some(h) => parse_i64(h.as_str()).is_none(),
        None => true,
    }
}

/// How many slots of a match, from the first, have a score.
pub open spec fn scored_prefix(slots: Seq<SlotView>) -> nat
    decreases slots.len(),
{
    if slots.len() == 0 {
        0
    } else if slot_score(slots[0]) is None {
        0
    } else {
        1 + scored_prefix(slots.drop_first())
    }
}

/// Every slot of the match has a score.
pub open spec fn match_scored(slots: Seq<SlotView>) -> bool {
    scored_prefix(slots) == slots.len()
}

/// The standing that a scored slot gives.
pub open spec fn slot_standing(s: SlotView) -> StandingView {
    StandingView {
        name: s.name,
        id: parsed_i64(s.participant_id).unwrap(),
        score: slot_score(s).unwrap(),
    }
}

/// A scored match becomes a set when it has at least two slots and the first
/// player's score is not 0 (a 0 there marks a match that was not played).
pub open spec fn match_kept(slots: Seq<SlotView>) -> bool {
    slots.len() >= 2 && slot_score(slots[0]).unwrap() != 0
}

/// The sets that the kept matches give, in page order, each from its first two slots.
pub open spec fn kept_sets(page: Seq<Seq<SlotView>>) -> Seq<SetView>
    decreases page.len(),
{
    if page.len() == 0 {
        Seq::empty()
    } else {
        let m = page.last();
        let rest = kept_sets(page.drop_last());
        if match_kept(m) {
            rest.push(SetView { first: slot_standing(m[0]), second: slot_standing(m[1]) })
        } else {
            rest
        }
    }
}

/// Pages on which reading the bracket does not fail: in every match, the
/// slots that precede the first unreadable score carry a numeric participant
/// id, and a match with exactly one such slot has a score of 0 in it.
pub open spec fn page_readable(page: Seq<Seq<SlotView>>) -> bool {
    forall|i: int|
        0 <= i < page.len() ==> {
            let p = scored_prefix(#[trigger] page[i]);
            &&& forall|j: int| 0 <= j < p ==> parsed_i64(page[i][j].participant_id) is Some
            &&& p == 1 ==> slot_score(page[i][0]).unwrap() == 0
        }
}

/// The bracket that a page gives: nothing when it has no completed match or
/// when some score can be read neither from its text nor from its HTML; else
/// the sets of its kept matches, under the page's link.
pub open spec fn page_event(page: Seq<Seq<SlotView>>, link: Seq<char>) -> Option<EventView> {
    if page.len() == 0 {
        None
    } else if exists|i: int| 0 <= i < page.len() && !match_scored(#[trigger] page[i]) {
        None
    } else {
        Some(EventView { sets: kept_sets(page), slug: link })
    }
}

/// Whether match `k` of a page is played: it has at least two slots and its
/// first score is not 0 (whatever the second score is).
pub open spec fn match_played(page: Seq<Seq<SlotView>>) -> spec_fn(int) -> bool {
    |k: int| page[k].len() >= 2 && slot_score(page[k][0]) != Some(0i64)
}

/// The set that match `k` of a page gives: its first two slots, each with its
/// name, its participant id as a number and its score.
pub open spec fn match_set(page: Seq<Seq<SlotView>>) -> spec_fn(int) -> SetView {
    |k: int|
        SetView {
            first: StandingView {
                name: page[k][0].name,
                id: parsed_i64(page[k][0].participant_id).unwrap(),
                score: slot_score(page[k][0]).unwrap(),
            },
            second: StandingView {
                name: page[k][1].name,
                id: parsed_i64(page[k][1].participant_id).unwrap(),
                score: slot_score(page[k][1]).unwrap(),
            },
        }
}

proof fn lemma_played_matches_of_prefix(page: Seq<Seq<SlotView>>, n: nat) -> (idx: Seq<int>)
    requires
        n <= page.len(),
        forall|k: int| 0 <= k < n ==> match_scored(#[trigger] page[k]),
    ensures
        selects_in_order(kept_sets(page.take(n as int)), n as int, match_played(page), match_set(page), idx),
    decreases n,
{
    if n == 0 {
        assert(page.take(0) =~= Seq::<Seq<SlotView>>::empty());
        lemma_selects_nothing(match_played(page), match_set(page));
        Seq::empty()
    } else {
        let m = (n - 1) as nat;
        let prev = lemma_played_matches_of_prefix(page, m);
        lemma_select_next(kept_sets(page.take(m as int)), m as int, match_played(page), match_set(page), prev);
        let prefix = page.take(n as int);
        assert(prefix.drop_last() =~= page.take(m as int));
        assert(prefix.last() == page[m as int]);
        let slots = page[m as int];
        assert(match_scored(slots));
        if slots.len() > 0 {
            assert(slot_score(slots[0]) is Some);
        }
        if match_played(page)(m as int) {
            prev.push(m as int)
        } else {
            prev
        }
    }
}

/// A bracket read from a page holds one set for exactly each played match
/// (at least two slots, first score not 0, whatever the second score), in
/// page order, each made of the match's first two slots; a match is left out
/// only when it has fewer than two slots or its first score is 0.
pub proof fn law_bracket_keeps_every_played_match(page: Seq<Seq<SlotView>>, link: Seq<char>) -> (idx: Seq<int>)
    requires
        page_event(page, link) is Some,
    ensures
        page_event(page, link).unwrap().slug == link,
        selects_in_order(
            page_event(page, link).unwrap().sets,
            page.len() as int,
            match_played(page),
            match_set(page),
            idx,
        ),
{
    assert(page.take(page.len() as int) =~= page);
    lemma_played_matches_of_prefix(page, page.len())
}

/// A page gives a bracket exactly when it has at least one match and every
/// slot of every match has a score, read from its text or else its inner HTML.
pub proof fn law_bracket_read_when_every_score_reads(page: Seq<Seq<SlotView>>, link: Seq<char>)
    ensures
        page_event(page, link) is Some <==> page.len() > 0 && forall|k: int, i: int|
            0 <= k < page.len() && 0 <= i < page[k].len() ==> cell_score(
                #[trigger] page[k][i].score_text,
                page[k][i].score_html,
            ) is Some,
{
    assert forall|k: int| 0 <= k < page.len() implies (match_scored(#[trigger] page[k]) <==> forall|i: int|
        0 <= i < page[k].len() ==> cell_score(page[k][i].score_text, page[k][i].score_html) is Some) by {
        let slots = page[k];
        if forall|i: int| 0 <= i < slots.len() ==> cell_score(slots[i].score_text, slots[i].score_html) is Some {
            assert forall|i: int| 0 <= i < slots.len() implies slot_score(#[trigger] slots[i]) is Some by {
                assert(cell_score(slots[i].score_text, slots[i].score_html) is Some);
            }
            lemma_scored_prefix(slots, slots.len() as int);
        } else {
            let i = choose|i: int| 0 <= i < slots.len() && !(cell_score(slots[i].score_text, slots[i].score_html) is Some);
            lemma_first_unscored(slots, i);
        }
    }
}

proof fn lemma_scored_prefix(slots: Seq<SlotView>, j: int)
    requires
        0 <= j <= slots.len(),
        forall|k: int| 0 <= k < j ==> slot_score(#[trigger] slots[k]) is Some,
    ensures
        scored_prefix(slots) >= j,
        scored_prefix(slots) <= slots.len(),
        j < slots.len() && slot_score(slots[j]) is None ==> scored_prefix(slots) == j,
    decreases j,
{
    if j > 0 {
        let rest = slots.drop_first();
        assert forall|k: int| 0 <= k < j - 1 implies slot_score(#[trigger] rest[k]) is Some by {
            assert(rest[k] == slots[k + 1]);
        }
        lemma_scored_prefix(rest, j - 1);
        assert(slot_score(slots[0]) is Some);
    } else {
        lemma_prefix_bounded(slots);
    }
}

proof fn lemma_first_unscored(slots: Seq<SlotView>, i: int)
    requires
        0 <= i < slots.len(),
        slot_score(slots[i]) is None,
    ensures
        scored_prefix(slots) <= i,
    decreases i,
{
    if i > 0 && slot_score(slots[0]) is Some {
        let rest = slots.drop_first();
        assert(rest[i - 1] == slots[i]);
        lemma_first_unscored(rest, i - 1);
    }
}

proof fn lemma_prefix_bounded(slots: Seq<SlotView>)
    ensures
        scored_prefix(slots) <= slots.len(),
    decreases slots.len(),
{
    if slots.len() > 0 {
        lemma_prefix_bounded(slots.drop_first());
    }
}

fn score_of(slot: &ChallongeSlotText) -> (r: Option<i64>)
    ensures
        r == slot_score(slot.view()),
{
    match parse_i64(slot.score_text.as_str()) {
        Some(v) => Some(v),
        None => match &slot.score_html {
            Some(h) => parse_i64(h.as_str()),
            None => None,
        },
    }
}

/// Reads the bracket of one Challonge page from the slots of its completed
/// matches, in page order.
pub fn assemble_page_event(matches: &Vec<Vec<ChallongeSlotText>>, link: String) -> (r: Option<
    ChallongeTournamentEvent,
>)
    requires
        page_readable(page_view(matches@)),
    ensures
        match (r, page_event(page_view(matches@), link@)) {
            (Some(e), Some(v)) => e.view() == v,
            (None, None) => true,
            _ => false,
        },
{
    let ghost page = page_view(matches@);
    if matches.len() == 0 {
        return None;
    }
    let mut sets: Vec<ChallongeTournamentSet> = Vec::new();
    let mut throw_away = false;
    let mut i: usize = 0;
    while i < matches.len()
        invariant
            0 <= i <= matches.len(),
            page == page_view(matches@),
            page_readable(page),
            !throw_away ==> forall|k: int| 0 <= k < i ==> match_scored(#[trigger] page[k]),
            !throw_away ==> sets_view(sets@) == kept_sets(page.take(i as int)),
            throw_away ==> exists|k: int| 0 <= k < i && !match_scored(#[trigger] page[k]),
        decreases matches.len() - i,
    {
        let slots = &matches[i];
        let ghost m = page[i as int];
        assert(m == slots@.map_values(|s: ChallongeSlotText| s.view()));
        let mut first: Option<ChallongeTournamentSetStanding> = None;
        let mut second: Option<ChallongeTournamentSetStanding> = None;
        let mut count: usize = 0;
        let mut broke = false;
        let mut j: usize = 0;
        while j < slots.len()
            invariant
                0 <= j <= slots.len(),
                m == slots@.map_values(|s: ChallongeSlotText| s.view()),
                m.len() == slots.len(),
                !broke ==> count == j,
                !broke ==> forall|k: int| 0 <= k < j ==> slot_score(#[trigger] m[k]) is Some,
                broke ==> scored_prefix(m) == count && count < m.len(),
                scored_prefix(m) >= count,
                count >= 1 ==> (first matches Some(f) && f.view() == slot_standing(m[0])),
                count >= 2 ==> (second matches Some(g) && g.view() == slot_standing(m[1])),
                forall|k: int| 0 <= k < scored_prefix(m) ==> parsed_i64(m[k].participant_id) is Some,
            decreases slots.len() - j,
        {
            if broke {
                j = slots.len();
            } else {
                let score = score_of(&slots[j]);
                assert(slots@[j as int].view() == m[j as int]);
                match score {
                    None => {
                        proof {
                            lemma_scored_prefix(m, j as int);
                        }
                        broke = true;
                        j = slots.len();
                    },
                    Some(score) => {
                        proof {
                            lemma_scored_prefix(m, j as int + 1);
                        }
                        let id = match parse_i64(slots[j].participant_id.as_str()) {
                            Some(id) => id,
                            None => {
                                assert(false);
                                0
                            },
                        };
                        let standing = ChallongeTournamentSetStanding {
                            name: slots[j].name.clone(),
                            id,
                            score,
                        };
                        if count == 0 {
                            first = Some(standing);
                        } else if count == 1 {
                            second = Some(standing);
                        }
                        count = count + 1;
                        j = j + 1;
                    },
                }
            }
        }
        if !broke {
            proof {
                lemma_scored_prefix(m, m.len() as int);
            }
        }
        assert(page.take(i + 1).drop_last() =~= page.take(i as int));
        if broke {
            throw_away = true;
        }
        if count == 0 {
        } else {
            let f = first.unwrap();
            if f.score == 0 {
            } else {
                assert(count >= 2);
                let g = second.unwrap();
                sets.push(ChallongeTournamentSet { standings: [f, g] });
            }
        }
        if !throw_away {
            assert(sets_view(sets@) =~= kept_sets(page.take(i + 1)));
        }
        i = i + 1;
    }
    assert(page.take(matches.len() as int) =~= page);
    if !throw_away {
        Some(ChallongeTournamentEvent { sets, slug: link })
    } else {
        None
    }
}

/// Whether a page can be read without failing, as `page_readable` says.
pub fn page_is_readable(matches: &Vec<Vec<ChallongeSlotText>>) -> (ok: bool)
    ensures
        ok == page_readable(page_view(matches@)),
{
    let ghost page = page_view(matches@);
    let mut i: usize = 0;
    while i < matches.len()
        invariant
            0 <= i <= matches.len(),
            page == page_view(matches@),
            forall|k: int|
                0 <= k < i ==> {
                    let p = scored_prefix(#[trigger] page[k]);
                    &&& forall|j: int| 0 <= j < p ==> parsed_i64(page[k][j].participant_id) is Some
                    &&& p == 1 ==> slot_score(page[k][0]).unwrap() == 0
                },
        decreases matches.len() - i,
    {
        let slots = &matches[i];
        let ghost m = page[i as int];
        assert(m == slots@.map_values(|s: ChallongeSlotText| s.view()));
        let mut first_score: i64 = 0;
        let mut j: usize = 0;
        let mut scored = true;
        while j < slots.len() && scored
            invariant
                0 <= j <= slots.len(),
                0 <= i < matches.len(),
                page == page_view(matches@),
                m == page[i as int],
                m == slots@.map_values(|s: ChallongeSlotText| s.view()),
                m.len() == slots.len(),
                scored ==> forall|k: int| 0 <= k < j ==> slot_score(#[trigger] m[k]) is Some,
                !scored ==> scored_prefix(m) == j - 1 && j >= 1,
                forall|k: int| 0 <= k < j && (scored || k < j - 1) ==> parsed_i64(#[trigger] m[k].participant_id) is Some,
                j >= 1 && (scored || j >= 2) ==> first_score == slot_score(m[0]).unwrap(),
            decreases slots.len() - j,
        {
            assert(slots@[j as int].view() == m[j as int]);
            match score_of(&slots[j]) {
                None => {
                    proof {
                        lemma_scored_prefix(m, j as int);
                    }
                    scored = false;
                },
                Some(score) => {
                    if parse_i64(slots[j].participant_id.as_str()).is_none() {
                        proof {
                            lemma_scored_prefix(m, j as int + 1);
                            assert(m[j as int].participant_id == slots@[j as int].participant_id@);
                            assert(page[i as int] == m);
                            assert(!page_readable(page));
                        }
                        return false;
                    }
                    if j == 0 {
                        first_score = score;
                    }
                },
            }
            j = j + 1;
        }
        let ghost p = scored_prefix(m);
        let count = if scored { j } else { j - 1 };
        if scored {
            proof {
                lemma_scored_prefix(m, j as int);
            }
        }
        assert(p == count);
        if count == 1 && first_score != 0 {
            return false;
        }
        i = i + 1;
    }
    true
}

/// The page that frames one bracket's Challonge module so that it can be read.
pub open spec fn frame_page_text(link: Seq<char>) -> Seq<char> {
    "<!DOCTYPE html><html lang=\"en\"><head><meta charset=\"UTF-8\"><meta name=\"viewport\" content=\"width=device-width, initial-scale=1.0\"><title>FateRank</title></head><body>"@
        + link + "<br><iframe src=\"https://challonge.com/"@ + link
        + "/module\" width=\"100%\" height=\"500\" frameborder=\"0\" scrolling=\"auto\" allowtransparency=\"true\"></iframe>"@
        + "</body></html>"@
}

/// The HTML page that shows the bracket at `link` in a frame.
pub fn frame_page(link: &str) -> (page: String)
    ensures
        page@ == frame_page_text(link@),
{
    let mut page = "<!DOCTYPE html><html lang=\"en\"><head><meta charset=\"UTF-8\"><meta name=\"viewport\" content=\"width=device-width, initial-scale=1.0\"><title>FateRank</title></head><body>".to_owned();
    page.append(link);
    page.append("<br><iframe src=\"https://challonge.com/");
    page.append(link);
    page.append("/module\" width=\"100%\" height=\"500\" frameborder=\"0\" scrolling=\"auto\" allowtransparency=\"true\"></iframe>");
    page.append("</body></html>");
    page
}

} // verus!
