use vstd::prelude::*;

use crate::constants::MAX_REQUESTS_PER_MINUTE;

verus! {

/// One side of a set: the player's start.gg user id, whether they won the
/// set, and the number of games they took.
#[derive(Debug)]
pub struct TournamentSetStanding {
    pub id: i64,
    pub has_won: bool,
    pub score: i64,
}

/// A finished set between two players.
#[derive(Debug)]
pub struct TournamentSet {
    pub standings: [TournamentSetStanding; 2],
}

/// A completed event of a tournament with the sets that were read from it.
#[derive(Debug)]
pub struct TournamentEvent {
    pub id: i64,
    pub sets: Vec<TournamentSet>,
}

/// A tournament with its completed events.
#[derive(Debug)]
pub struct Tournament {
    pub id: i64,
    pub tournament_name: String,
    pub tournament_events: Vec<TournamentEvent>,
}

/// What the ranking shows of a player: id, gamer tag, profile slug and region.
pub struct UserStruct {
    pub user_id: i64,
    pub user_name: String,
    pub user_slug: String,
    pub user_region: Option<&'static str>,
}

impl TournamentSet {
    /// The first listed player's side.
    pub open spec fn first(self) -> TournamentSetStanding {
        self.standings@[0]
    }

    /// The second listed player's side.
    pub open spec fn second(self) -> TournamentSetStanding {
        self.standings@[1]
    }
}

/// The requests made to start.gg since the client last waited out the rate limit.
pub struct RequestCounter {
    request_amnt: i32,
}

/// The count after one more request: back to 0 when it reaches the limit.
pub open spec fn counted(count: int) -> int {
    if count + 1 >= MAX_REQUESTS_PER_MINUTE { 0 } else { count + 1 }
}

/// The count after `m` more requests, starting from `c`.
pub open spec fn count_from(c: int, m: nat) -> int
    decreases m,
{
    if m == 0 { c } else { counted(count_from(c, (m - 1) as nat)) }
}

impl RequestCounter {
    pub closed spec fn count(&self) -> int {
        self.request_amnt as int
    }

    /// The counter's invariant: fewer requests than the limit are pending.
    pub open spec fn wf(&self) -> bool {
        0 <= self.count() < MAX_REQUESTS_PER_MINUTE
    }

    /// A counter for a client that has made no request.
    pub fn new() -> (c: Self)
        ensures
            c.wf(),
            c.count() == 0,
    {
        RequestCounter { request_amnt: 0 }
    }

    /// Counts one request; true when the limit is reached and the client must
    /// wait a minute before sending it, after which the count starts again.
    pub fn register_request(&mut self) -> (wait: bool)
        requires
            old(self).wf(),
        ensures
            final(self).wf(),
            wait == (old(self).count() + 1 >= MAX_REQUESTS_PER_MINUTE),
            final(self).count() == counted(old(self).count()),
    {
        self.request_amnt = self.request_amnt + 1;
        if self.request_amnt >= MAX_REQUESTS_PER_MINUTE as i32 {
            self.request_amnt = 0;
            true
        } else {
            false
        }
    }
}

/// From any count `c` below the limit, `m` more requests leave the count at
/// `(c + m) % 50`, and request `m + 1` waits exactly when `c + m + 1` is a
/// multiple of 50: at most 50 requests go out between two waits, and from a
/// fresh counter the client waits on exactly every fiftieth request.
pub proof fn law_request_count(c: int, m: nat)
    requires
        0 <= c < MAX_REQUESTS_PER_MINUTE,
    ensures
        count_from(c, m) == (c + m) % (MAX_REQUESTS_PER_MINUTE as int),
        0 <= count_from(c, m) < MAX_REQUESTS_PER_MINUTE,
        (count_from(c, m) + 1 >= MAX_REQUESTS_PER_MINUTE) <==> (c + m + 1) % (MAX_REQUESTS_PER_MINUTE as int) == 0,
    decreases m,
{
    if m > 0 {
        law_request_count(c, (m - 1) as nat);
    }
}

} // verus!
