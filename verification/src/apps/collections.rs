//! Collections gallery: the search filter over item names and
//! attributions, and which card is selected.
use vstd::prelude::*;
use vstd::utf8::encode_utf8;

use crate::text::{find_bytes, lowercase, spec_find, str_eq, to_lowercase};

verus! {

/// `q` occurs in the lower-cased `text`.
pub open spec fn lower_contains(text: Seq<char>, q: Seq<char>) -> bool {
    spec_find(encode_utf8(lowercase(text)), encode_utf8(q)) is Some
}

/// What `filter_matches` decides: an empty query keeps everything;
/// otherwise the (already lower-cased) query must occur in the
/// lower-cased name or attribution.
pub open spec fn spec_filter_matches(q: Seq<char>, name: Seq<char>, attribution: Option<Seq<char>>) -> bool {
    q.len() == 0 || lower_contains(name, q) || match attribution {
        Some(a) => lower_contains(a, q),
        None => false,
    }
}

fn lower_contains_exec(text: &str, q: &str) -> (r: bool)
    ensures
        r == lower_contains(text@, q@),
{
    let lower = to_lowercase(text);
    find_bytes(lower.as_str().as_bytes(), q.as_bytes()).is_some()
}

/// Whether an item passes the gallery search box.
pub fn filter_matches(q: &str, name: &str, attribution: Option<&str>) -> (r: bool)
    ensures
        r == spec_filter_matches(
            q@,
            name@,
            match attribution {
                Some(a) => Some(a@),
                None => None,
            },
        ),
{
    if q.is_empty() {
        return true;
    }
    lower_contains_exec(name, q) || match attribution {
        Some(a) => lower_contains_exec(a, q),
        None => false,
    }
}

/// The selected card after `clicked` is clicked: clicking the selected
/// card again clears the selection; any other card becomes the selected
/// one.
pub fn toggle_selection(selected: Option<String>, clicked: String) -> (r: Option<String>)
    ensures
        (selected matches Some(s) && s@ == clicked@) ==> r is None,
        !(selected matches Some(s) && s@ == clicked@) ==> (r matches Some(c) && c@ == clicked@),
{
    match selected {
        Some(s) => if str_eq(s.as_str(), clicked.as_str()) {
            None
        } else {
            Some(clicked)
        },
        None => Some(clicked),
    }
}

} // verus!
