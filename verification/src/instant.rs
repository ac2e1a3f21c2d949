//! Moments in time as the library holds them.
use vstd::prelude::*;

verus! {

/// A moment in UTC: whole seconds since the Unix epoch and the
/// nanoseconds past them.
#[derive(Debug, Clone, Copy, PartialEq, Eq)]
pub struct UtcInstant {
    pub seconds: i64,
    pub nanos: u32,
}

} // verus!
