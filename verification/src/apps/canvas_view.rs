//! JSON Canvas documents: edge endpoints and attachment sides, and the
//! note id a file node opens. Loading the JSON and drawing happen in the
//! viewer.
use vstd::prelude::*;

use crate::text::str_eq;

verus! {

/// A canvas edge. Both the snake_case and the camelCase spellings of
/// the endpoint and side fields are accepted; the snake_case one wins.
#[derive(Debug, Clone)]
pub struct CanvasEdge {
    pub id: String,
    pub from_node: Option<String>,
    pub to_node: Option<String>,
    pub from_node_alt: Option<String>,
    pub to_node_alt: Option<String>,
    pub from_side: Option<String>,
    pub to_side: Option<String>,
    pub from_side_alt: Option<String>,
    pub to_side_alt: Option<String>,
    pub label: Option<String>,
}

/// The first present value of a preferred and an alternative field.
pub open spec fn spec_either(a: Option<String>, b: Option<String>) -> Option<Seq<char>> {
    match a {
        Some(s) => Some(s@),
        None => match b {
            Some(s) => Some(s@),
            None => None,
        },
    }
}

/// The side of a node an edge attaches to.
#[derive(Debug, Clone, Copy, PartialEq, Eq, Structural)]
pub enum Side {
    Top,
    Right,
    Bottom,
    Left,
}

/// Side names as they appear in canvas files.
pub open spec fn spec_side_parse(s: Option<Seq<char>>) -> Option<Side> {
    match s {
        None => None,
        Some(x) => if x == "top"@ {
            Some(Side::Top)
        } else if x == "right"@ {
            Some(Side::Right)
        } else if x == "bottom"@ {
            Some(Side::Bottom)
        } else if x == "left"@ {
            Some(Side::Left)
        } else {
            None
        },
    }
}

pub open spec fn opt_view(s: Option<&str>) -> Option<Seq<char>> {
    match s {
        Some(x) => Some(x@),
        None => None,
    }
}

impl Side {
    pub fn parse(s: Option<&str>) -> (r: Option<Side>)
        ensures
            r == spec_side_parse(opt_view(s)),
    {
        match s {
            None => None,
            Some(x) => {
                if str_eq(x, "top") {
                    Some(Side::Top)
                } else if str_eq(x, "right") {
                    Some(Side::Right)
                } else if str_eq(x, "bottom") {
                    Some(Side::Bottom)
                } else if str_eq(x, "left") {
                    Some(Side::Left)
                } else {
                    None
                }
            },
        }
    }
}

fn either<'a>(a: &'a Option<String>, b: &'a Option<String>) -> (r: Option<&'a str>)
    ensures
        opt_view(r) == spec_either(*a, *b),
{
    match a {
        Some(s) => Some(s.as_str()),
        None => match b {
            Some(s) => Some(s.as_str()),
            None => None,
        },
    }
}

impl CanvasEdge {
    /// The source node id.
    pub fn from(&self) -> (r: Option<&str>)
        ensures
            opt_view(r) == spec_either(self.from_node, self.from_node_alt),
    {
        either(&self.from_node, &self.from_node_alt)
    }

    /// The target node id.
    pub fn to(&self) -> (r: Option<&str>)
        ensures
            opt_view(r) == spec_either(self.to_node, self.to_node_alt),
    {
        either(&self.to_node, &self.to_node_alt)
    }

    /// The side the edge leaves its source from, when given and known.
    pub fn from_side_resolved(&self) -> (r: Option<Side>)
        ensures
            r == spec_side_parse(spec_either(self.from_side, self.from_side_alt)),
    {
        Side::parse(either(&self.from_side, &self.from_side_alt))
    }

    /// The side the edge enters its target on, when given and known.
    pub fn to_side_resolved(&self) -> (r: Option<Side>)
        ensures
            r == spec_side_parse(spec_either(self.to_side, self.to_side_alt)),
    {
        Side::parse(either(&self.to_side, &self.to_side_alt))
    }
}

/// `f` is a bare file name on every platform: not empty, not `.` or `..`,
/// and without `/`, `\` or `:`, so the path has this one component.
pub open spec fn plain_file_name(f: Seq<char>) -> bool {
    &&& f.len() > 0
    &&& f != seq!['.']
    &&& f != seq!['.', '.']
    &&& forall|i: int| 0 <= i < f.len() ==> f[i] != '/' && f[i] != '\\' && f[i] != ':'
}

/// The position of the last `c` in `f`, if any.
pub open spec fn last_index(f: Seq<char>, c: char) -> Option<int>
    decreases f.len(),
{
    if f.len() == 0 {
        None
    } else if f.last() == c {
        Some(f.len() - 1)
    } else {
        last_index(f.drop_last(), c)
    }
}

/// What follows the last `/` of a path (all of it when there is none).
pub open spec fn final_name(f: Seq<char>) -> Seq<char> {
    match last_index(f, '/') {
        Some(k) => f.skip(k + 1),
        None => f,
    }
}

/// `f` is a `/`-separated path, read alike on every platform: no `\`
/// and no `:` anywhere, ending in a bare file name.
pub open spec fn portable_path(f: Seq<char>) -> bool {
    &&& forall|i: int| 0 <= i < f.len() ==> f[i] != '\\' && f[i] != ':'
    &&& plain_file_name(final_name(f))
}

/// The stem of a file name: the part before its last `.`, or the whole
/// name when it has no `.` or its only `.` leads it.
pub open spec fn stem_of_name(f: Seq<char>) -> Seq<char> {
    match last_index(f, '.') {
        Some(k) => if k > 0 {
            f.take(k)
        } else {
            f
        },
        None => f,
    }
}

/// `Path::file_stem`, decoded as UTF-8: the file name without its final
/// extension. General path syntax depends on the platform, so a result is
/// promised only for a `/`-separated path whose last component is a bare
/// file name (`portable_path`; `/` separates components everywhere): the
/// stem the documentation of `file_stem` gives for that name.
#[verifier::external_body]
fn path_file_stem(file: &str) -> (r: Option<String>)
    ensures
        r is None ==> !portable_path(file@),
        r matches Some(s) ==> (portable_path(file@) ==> s@ == stem_of_name(final_name(file@))),
{
    std::path::Path::new(file).file_stem().and_then(|s| s.to_str()).map(|s| s.to_string())
}

/// The note id for a file name: its stem when it has one, else the
/// whole name.
pub fn note_id_from_stem(file: &str, stem: Option<String>) -> (r: String)
    ensures
        r@ == (match stem {
            Some(s) => s@,
            None => file@,
        }),
{
    match stem {
        Some(s) => s,
        None => String::from_str(file),
    }
}

/// The note a file node opens: the stem of its last path component, so
/// "Ideas.md", "notes/Ideas.md" and "Ideas" all open the note "Ideas".
pub fn file_to_note_id(file: &str) -> (r: String)
    ensures
        portable_path(file@) ==> r@ == stem_of_name(final_name(file@)),
{
    note_id_from_stem(file, path_file_stem(file))
}

} // verus!
