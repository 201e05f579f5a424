use vstd::prelude::*;

verus! {

/// start.gg accepts this many requests a minute; after that many the client waits a minute.
pub const MAX_REQUESTS_PER_MINUTE: usize = 50;

} // verus!
