//! The capture functions with tracing left out: nothing is recorded and
//! every drain is empty, so call sites stay the same either way.

use vstd::prelude::*;

use crate::event::Events;

verus! {

/// Enable tracing: with tracing left out, this does nothing.
pub fn capture() {
}

/// Drain the events captured since `capture`: with tracing left out, there
/// are none.
pub fn drain() -> (r: Events)
    ensures
        r.enters@.len() == 0,
        r.leaves@.len() == 0,
{
    Events::new()
}

} // verus!
