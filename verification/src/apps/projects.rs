//! State of the projects window: the stack filter and the search query.
use vstd::prelude::*;

verus! {

/// Projects window state.
pub struct Projects {
    pub stack_filter: Option<String>,
    pub query: String,
}

impl Default for Projects {
    /// No stack filter and an empty query.
    fn default() -> (p: Self)
        ensures
            p.stack_filter is None,
            p.query@ == Seq::<char>::empty(),
    {
        Projects { stack_filter: None, query: String::new() }
    }
}

} // verus!
