use vstd::prelude::*;

use crate::text::decimal;
use crate::challonge_tournaments::{
    rumble_week_skipped, ChallongeTournament, HouseOfCasuals, WeeklyRebelRumble,
};

verus! {

/// The series that the search is going through.
#[derive(Clone, Copy, PartialEq, Eq, Structural, Debug)]
pub enum Series {
    Rumble,
    Casuals,
    Done,
}

/// The search for Challonge brackets: Weekly Rebel Rumble weeks first, then
/// House of Casuals weeks, each series from its first week on. Within a week
/// the candidate links are tried in order until one gives a bracket; a week
/// in which none does ends the series. The Rumble week that was not held is
/// passed over.
pub struct BracketSearch {
    series: Series,
    index: i64,
    position: usize,
}

/// The highest week index the search goes to: the Rumble's first week plus
/// the index must fit in an `i64`.
pub open spec fn max_week_index() -> int {
    i64::MAX - 32
}

/// How many candidate links a week of the series has.
pub open spec fn candidate_count(series: Series) -> int {
    match series {
        Series::Rumble => WeeklyRebelRumble::spec_event_names(0).len() as int,
        Series::Casuals => HouseOfCasuals::spec_event_names(0).len() as int,
        Series::Done => 0,
    }
}

/// The candidate link of week `index` (counted from the first week) at `position`.
pub open spec fn candidate_link(series: Series, index: int, position: int) -> Seq<char> {
    match series {
        Series::Rumble => WeeklyRebelRumble::spec_event_names(
            WeeklyRebelRumble::spec_first_week() + index,
        )[position],
        _ => HouseOfCasuals::spec_event_names(HouseOfCasuals::spec_first_week() + index)[position],
    }
}

/// The week index that follows `index` in the series: the next one, passing
/// over the Rumble week that was not held.
pub open spec fn following_week(series: Series, index: int) -> int {
    if series == Series::Rumble && rumble_week_skipped(index + 1) {
        index + 2
    } else {
        index + 1
    }
}

/// The state after the outcome of trying the current candidate is known.
pub open spec fn search_step(series: Series, index: int, position: int, found: bool) -> (
    Series,
    int,
    int,
) {
    if found {
        (series, following_week(series, index), 0)
    } else if position + 1 < candidate_count(series) {
        (series, index, position + 1)
    } else if series == Series::Rumble {
        (Series::Casuals, 0, 0)
    } else {
        (Series::Done, 0, 0)
    }
}

impl BracketSearch {
    pub closed spec fn series(&self) -> Series {
        self.series
    }

    pub closed spec fn index(&self) -> int {
        self.index as int
    }

    pub closed spec fn position(&self) -> int {
        self.position as int
    }

    /// The search's invariant: the week is within range, the position names a
    /// candidate, and the Rumble week that was not held is never current.
    pub open spec fn wf(&self) -> bool {
        &&& 0 <= self.index() <= max_week_index()
        &&& self.series() != Series::Done ==> 0 <= self.position() < candidate_count(self.series())
        &&& self.series() == Series::Rumble ==> !rumble_week_skipped(self.index())
    }

    /// The search at its start: the first Rumble week, first candidate.
    pub fn new() -> (s: Self)
        ensures
            s.wf(),
            s.series() == Series::Rumble,
            s.index() == 0,
            s.position() == 0,
    {
        BracketSearch { series: Series::Rumble, index: 0, position: 0 }
    }

    /// The current week, counted from the series' first week.
    pub fn week_index(&self) -> (i: i64)
        ensures
            i == self.index(),
    {
        self.index
    }

    /// Whether the search is over.
    pub fn is_done(&self) -> (done: bool)
        ensures
            done == (self.series() == Series::Done),
    {
        self.series == Series::Done
    }

    /// The link to try next, or `None` once the search is over.
    pub fn next_link(&self) -> (link: Option<String>)
        requires
            self.wf(),
        ensures
            self.series() == Series::Done ==> link is None,
            self.series() != Series::Done ==> (link matches Some(l) && l@ == candidate_link(
                self.series(),
                self.index(),
                self.position(),
            )),
    {
        match self.series {
            Series::Rumble => {
                let mut names = WeeklyRebelRumble::get_possible_event_names(self.index);
                let p = self.position;
                Some(names.remove(p))
            },
            Series::Casuals => {
                let mut names = HouseOfCasuals::get_possible_event_names(self.index);
                let p = self.position;
                Some(names.remove(p))
            },
            Series::Done => None,
        }
    }

    /// Takes the outcome of trying the current candidate: whether its page
    /// gave a bracket.
    pub fn record(&mut self, found: bool)
        requires
            old(self).wf(),
            old(self).series() != Series::Done,
            found ==> old(self).index() + 1 <= max_week_index(),
        ensures
            final(self).wf(),
            (final(self).series(), final(self).index(), final(self).position()) == search_step(
                old(self).series(),
                old(self).index(),
                old(self).position(),
                found,
            ),
    {
        if found {
            let mut next = self.index + 1;
            if self.series == Series::Rumble && WeeklyRebelRumble::is_skipped_week(next) {
                next = next + 1;
            }
            self.index = next;
            self.position = 0;
        } else {
            let count: usize = match self.series {
                Series::Rumble => 5,
                _ => 1,
            };
            if self.position + 1 < count {
                self.position = self.position + 1;
            } else {
                self.series = match self.series {
                    Series::Rumble => Series::Casuals,
                    _ => Series::Done,
                };
                self.index = 0;
                self.position = 0;
            }
        }
    }
}

/// The search never offers the Rumble week that was not held, and every link
/// it offers is a candidate of the current week: both hold of every state
/// that the search reaches from its start, since each step keeps `wf`.
pub proof fn law_search_step_keeps_invariant(series: Series, index: int, position: int, found: bool)
    requires
        0 <= index <= max_week_index(),
        found ==> index + 1 <= max_week_index(),
        series != Series::Done,
        0 <= position < candidate_count(series),
        series == Series::Rumble ==> !rumble_week_skipped(index),
    ensures
        ({
            let (s, i, p) = search_step(series, index, position, found);
            &&& 0 <= i <= max_week_index()
            &&& s != Series::Done ==> 0 <= p < candidate_count(s)
            &&& s == Series::Rumble ==> !rumble_week_skipped(i)
            &&& found ==> s == series && i > index && p == 0
            &&& !found ==> (s == series && i == index && p == position + 1) || p == 0
        }),
{
}


/// A found bracket moves the search to the first link of the next week of
/// the same series: in House of Casuals always week index + 1, whose link is
/// `houseofcasuals` and the week number 24 + index + 1; in the Rumble also
/// index + 1, except that the week numbered 46 (never held) is passed over.
pub proof fn law_found_bracket_moves_to_next_week(series: Series, index: int, position: int)
    requires
        series != Series::Done,
    ensures
        search_step(series, index, position, true).0 == series,
        search_step(series, index, position, true).2 == 0,
        series == Series::Casuals ==> search_step(series, index, position, true).1 == index + 1,
        series == Series::Casuals ==> candidate_link(series, search_step(series, index, position, true).1, 0)
            == "houseofcasuals"@ + decimal(24 + index + 1),
        series == Series::Rumble && 32 + index + 1 != 46 ==> search_step(series, index, position, true).1
            == index + 1,
        series == Series::Rumble && 32 + index + 1 == 46 ==> search_step(series, index, position, true).1
            == index + 2,
{
}

/// A link that gives no bracket moves the search to the week's next link;
/// after the fifth Rumble link of a week the search turns to House of
/// Casuals from its first week, and after the one link of a House of Casuals
/// week the search is over.
pub proof fn law_missing_bracket_tries_next_link(series: Series, index: int, position: int)
    requires
        series != Series::Done,
        0 <= position,
    ensures
        series == Series::Rumble && position < 4 ==> search_step(series, index, position, false) == (
            Series::Rumble,
            index,
            position + 1,
        ),
        series == Series::Rumble && position >= 4 ==> search_step(series, index, position, false) == (
            Series::Casuals,
            0int,
            0int,
        ),
        series == Series::Casuals ==> search_step(series, index, position, false) == (Series::Done, 0int, 0int),
{
}

/// The links of the Rumble week at index `index` are those of week number
/// 32 + index on the five platforms, tried in the order sw, xbl, psn, nso,
/// pc; a House of Casuals week has the one link of week number 24 + index.
pub proof fn law_week_links(index: int)
    ensures
        candidate_count(Series::Rumble) == 5,
        candidate_count(Series::Casuals) == 1,
        candidate_link(Series::Rumble, index, 0) == "wrr"@ + decimal(32 + index) + "bbtagsw"@,
        candidate_link(Series::Rumble, index, 1) == "wrr"@ + decimal(32 + index) + "bbtagxbl"@,
        candidate_link(Series::Rumble, index, 2) == "wrr"@ + decimal(32 + index) + "bbtagpsn"@,
        candidate_link(Series::Rumble, index, 3) == "wrr"@ + decimal(32 + index) + "bbtagnso"@,
        candidate_link(Series::Rumble, index, 4) == "wrr"@ + decimal(32 + index) + "bbtagpc"@,
        candidate_link(Series::Casuals, index, 0) == "houseofcasuals"@ + decimal(24 + index),
{
}

} // verus!
