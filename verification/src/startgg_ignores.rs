use vstd::prelude::*;

use crate::startgg::{TournamentSet, TournamentSetStanding};

verus! {

/// Sets whose result start.gg reports wrongly, with the result that is used instead.
pub struct IgnoredSet {}

/// The corrected sides (first, second) of a set that start.gg reports wrongly.
pub open spec fn corrected_standings(set_id: i64) -> Option<(TournamentSetStanding, TournamentSetStanding)> {
    if set_id == 106458660 {
        // CEO: Ryazo 3 - 1 Yui
        Some((
            TournamentSetStanding { id: 1321163, has_won: true, score: 3 },
            TournamentSetStanding { id: 682369, has_won: false, score: 1 },
        ))
    } else if set_id == 106458667 {
        // CEO: Rainch 3 - 0 Ronan Healy
        Some((
            TournamentSetStanding { id: 162430, has_won: true, score: 3 },
            TournamentSetStanding { id: 48752, has_won: false, score: 0 },
        ))
    } else if set_id == 106458668 {
        // CEO: Yui 1 - 3, listed with Ronan Healy's id on the winning side
        Some((
            TournamentSetStanding { id: 682369, has_won: false, score: 1 },
            TournamentSetStanding { id: 48752, has_won: true, score: 3 },
        ))
    } else {
        None
    }
}

/// The set that a corrected result gives.
pub open spec fn corrected_set(set_id: i64) -> Option<TournamentSet> {
    match corrected_standings(set_id) {
        Some((a, b)) => Some(TournamentSet { standings: [a, b] }),
        None => None,
    }
}

impl IgnoredSet {
    /// The corrected result for a set that start.gg reports wrongly, or `None`
    /// for every other set.
    pub fn is_ignored_set(set_id: i64) -> (r: Option<TournamentSet>)
        ensures
            r == corrected_set(set_id),
    {
        match set_id {
            106458660 => {
                Some(
                    TournamentSet {
                        standings: [
                            TournamentSetStanding { id: 1321163, has_won: true, score: 3 },
                            TournamentSetStanding { id: 682369, has_won: false, score: 1 },
                        ],
                    },
                )
            },
            106458667 => {
                Some(
                    TournamentSet {
                        standings: [
                            TournamentSetStanding { id: 162430, has_won: true, score: 3 },
                            TournamentSetStanding { id: 48752, has_won: false, score: 0 },
                        ],
                    },
                )
            },
            106458668 => {
                Some(
                    TournamentSet {
                        standings: [
                            TournamentSetStanding { id: 682369, has_won: false, score: 1 },
                            TournamentSetStanding { id: 48752, has_won: true, score: 3 },
                        ],
                    },
                )
            },
            _ => {
                return None;
            },
        }
    }
}

} // verus!
