use vstd::prelude::*;

use crate::text::{decimal, decimal_between};

verus! {

/// A weekly series run on Challonge, whose bracket links are made from the week number.
pub trait ChallongeTournament {
    /// The week number of the series' first event.
    spec fn spec_first_week() -> int;

    /// The links that the event of week `week` may have, in the order they are tried.
    spec fn spec_event_names(week: int) -> Seq<Seq<char>>;

    /// Returns a vector of all the possible event names for this event: those
    /// of week `get_first_week() + index`.
    fn get_possible_event_names(index: i64) -> (names: Vec<String>)
        requires
            i64::MIN <= Self::spec_first_week() + index <= i64::MAX,
        ensures
            names@.len() == Self::spec_event_names(Self::spec_first_week() + index).len(),
            forall|i: int|
                0 <= i < names@.len() ==> #[trigger] names@[i]@ == Self::spec_event_names(
                    Self::spec_first_week() + index,
                )[i],
    ;

    /// The week number of the series' first event.
    fn get_first_week() -> (w: i64)
        ensures
            w == Self::spec_first_week(),
    ;
}

/// The Weekly Rebel Rumble, held on five platforms, from week 32 on.
pub struct WeeklyRebelRumble {}

/// The week (32 + index) in which the Weekly Rebel Rumble was not held.
pub open spec fn rumble_week_skipped(index: int) -> bool {
    index + 32 == 46
}

impl WeeklyRebelRumble {
    /// Whether the week `index` weeks after the first one was not held.
    pub fn is_skipped_week(index: i64) -> (skipped: bool)
        requires
            index <= i64::MAX - 32,
        ensures
            skipped == rumble_week_skipped(index as int),
    {
        match index + 32 as i64 {
            46 => { true },
            _ => { false },
        }
    }
}

impl ChallongeTournament for WeeklyRebelRumble {
    open spec fn spec_first_week() -> int {
        32
    }

    /// `wrr<week>bbtag` followed by the platform: sw, xbl, psn, nso, pc.
    open spec fn spec_event_names(week: int) -> Seq<Seq<char>> {
        seq![
            "wrr"@ + decimal(week) + "bbtagsw"@,
            "wrr"@ + decimal(week) + "bbtagxbl"@,
            "wrr"@ + decimal(week) + "bbtagpsn"@,
            "wrr"@ + decimal(week) + "bbtagnso"@,
            "wrr"@ + decimal(week) + "bbtagpc"@,
        ]
    }

    fn get_possible_event_names(index: i64) -> (names: Vec<String>) {
        let first_week = WeeklyRebelRumble::get_first_week();
        let week = first_week + index;
        let names = vec![
            decimal_between("wrr", week, "bbtagsw"),
            decimal_between("wrr", week, "bbtagxbl"),
            decimal_between("wrr", week, "bbtagpsn"),
            decimal_between("wrr", week, "bbtagnso"),
            decimal_between("wrr", week, "bbtagpc"),
        ];
        assert(names@.len() == 5);
        names
    }

    fn get_first_week() -> (w: i64) {
        32
    }
}

/// House of Casuals, one bracket a week from week 24 on.
pub struct HouseOfCasuals {}

impl ChallongeTournament for HouseOfCasuals {
    open spec fn spec_first_week() -> int {
        24
    }

    /// `houseofcasuals<week>`.
    open spec fn spec_event_names(week: int) -> Seq<Seq<char>> {
        seq!["houseofcasuals"@ + decimal(week)]
    }

    fn get_possible_event_names(index: i64) -> (names: Vec<String>) {
        let first_week = HouseOfCasuals::get_first_week();
        let names = vec![decimal_between("houseofcasuals", first_week + index, "")];
        proof {
            assert(""@ =~= Seq::<char>::empty()) by {
                reveal_strlit("");
            }
            assert(names@[0]@ =~= "houseofcasuals"@ + decimal(first_week + index));
        }
        names
    }

    fn get_first_week() -> (w: i64) {
        24
    }
}

} // verus!
