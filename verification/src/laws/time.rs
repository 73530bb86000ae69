//! Laws of time.

use crate::time;
use crate::time::{Duration, Instant};
use vstd::arithmetic::div_mod::*;
use vstd::prelude::*;

verus! {

/// The time since a point is what has to be added to it; a later point has
/// none.
pub proof fn law_nanos_since(earlier: Instant, later: Instant, nanos: nat)
    requires
        later.nanos() == earlier.nanos() + nanos,
    ensures
        later.nanos_since(earlier) == nanos,
        earlier.nanos_since(later) == 0,
{
}

/// A time stamp is the seconds that have passed in full: it is reached, and the
/// next one is not.
pub proof fn law_timestamp(span: Duration, secs: nat, nanos: nat)
    requires
        span.as_nanos() == secs * 1_000_000_000 + nanos,
        nanos < 1_000_000_000,
    ensures
        time::timestamp_of(Some(span)) == secs,
        time::timestamp_of(None) == 0,
{
    lemma_fundamental_div_mod_converse(
        span.as_nanos() as int,
        1_000_000_000,
        secs as int,
        nanos as int,
    );
}

} // verus!
