use vstd::prelude::*;

verus! {

/// The highest confidence a player can reach by playing; it stays there.
pub open spec fn confidence_cap() -> int {
    100
}

/// How sure the ranking is of a player's rating: one point per rated set, up to 100.
#[derive(Clone, Copy)]
pub struct Confidence(pub i64);

/// The confidence that follows `c` after one more rated set.
pub open spec fn next_confidence(c: int) -> int {
    if c != confidence_cap() { c + 1 } else { c }
}

impl Confidence {
    /// A player that has not been rated yet.
    pub fn new() -> (c: Confidence)
        ensures
            c.0 == 0,
    {
        Confidence(0)
    }

    /// The confidence stored for a player.
    pub fn from(v: i64) -> (c: Confidence)
        ensures
            c.0 == v,
    {
        Confidence(v)
    }

    /// The confidence after one more rated set: one higher, except at the cap of 100.
    pub fn update(&self) -> (c: Confidence)
        requires
            self.0 == confidence_cap() || self.0 < i64::MAX,
        ensures
            c.0 == next_confidence(self.0 as int),
    {
        if self.0 != 100 {
            return Confidence(self.0 + 1);
        }
        return Confidence(100)
    }
}

/// Confidence never passes the cap once it starts at or below it, never
/// decreases, and stops moving exactly at the cap.
pub proof fn lemma_confidence_saturates(c: int)
    requires
        c <= confidence_cap(),
    ensures
        next_confidence(c) <= confidence_cap(),
        next_confidence(c) >= c,
        next_confidence(c) == c <==> c == confidence_cap(),
{
}

/// The confidence after `n` more rated sets, starting from `c`.
pub open spec fn confidence_after(c: int, n: nat) -> int
    decreases n,
{
    if n == 0 {
        c
    } else {
        next_confidence(confidence_after(c, (n - 1) as nat))
    }
}

/// From a confidence between 0 and the cap, `n` more rated sets give
/// min(c + n, 100).
pub proof fn law_confidence_after_sets(c: int, n: nat)
    requires
        0 <= c <= confidence_cap(),
    ensures
        confidence_after(c, n) == if c + n <= confidence_cap() { c + n } else { confidence_cap() },
    decreases n,
{
    if n > 0 {
        law_confidence_after_sets(c, (n - 1) as nat);
    }
}

} // verus!
