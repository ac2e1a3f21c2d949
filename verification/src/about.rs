//! The "About Me" window carries no state of its own.
use vstd::prelude::*;

verus! {

/// The "About Me" window.
pub struct AboutMe {}

impl Default for AboutMe {
    fn default() -> (a: Self) {
        AboutMe {}
    }
}

} // verus!
