//! What one frame of the sidebar asks the garden to do, and the order of
//! the tag cloud.
use vstd::prelude::*;

use vstd::utf8::encode_utf8;

use crate::digital_garden::theme::{lemma_lex_total, lemma_lex_trans, name_le, name_le_exec};

verus! {

/// User actions collected while drawing the sidebar; the caller applies
/// them afterwards.
pub struct SidebarAction {
    pub clicked_note: Option<String>,
    /// The user asked to clear the active tag filter.
    pub clear_tag: bool,
    /// The user picked a tag to filter by.
    pub selected_tag: Option<String>,
}

impl Default for SidebarAction {
    /// Nothing to do.
    fn default() -> (a: Self)
        ensures
            a.clicked_note is None,
            !a.clear_tag,
            a.selected_tag is None,
    {
        SidebarAction { clicked_note: None, clear_tag: false, selected_tag: None }
    }
}

// ---------- tag cloud ----------

/// A tag and the number of notes carrying it.
pub open spec fn tag_view(s: Seq<(String, u32)>) -> Seq<(Seq<char>, u32)> {
    s.map_values(|t: (String, u32)| (t.0@, t.1))
}

/// `a` goes no later than `b` in the tag cloud: the tag on more notes
/// first, ties by name in `String` order.
pub open spec fn cloud_le(a: (Seq<char>, u32), b: (Seq<char>, u32)) -> bool {
    a.1 > b.1 || (a.1 == b.1 && name_le(a.0, b.0))
}

/// Insert `x` into a tag cloud in order, after every tag that does not
/// go later than it.
pub open spec fn insert_tag(sorted: Seq<(Seq<char>, u32)>, x: (Seq<char>, u32)) -> Seq<(Seq<char>, u32)>
    decreases sorted.len(),
{
    if sorted.len() == 0 {
        seq![x]
    } else if cloud_le(sorted.last(), x) {
        sorted.push(x)
    } else {
        insert_tag(sorted.drop_last(), x).push(sorted.last())
    }
}

/// The tags in cloud order (a stable sort by `cloud_le`).
pub open spec fn sort_tags(s: Seq<(Seq<char>, u32)>) -> Seq<(Seq<char>, u32)>
    decreases s.len(),
{
    if s.len() == 0 {
        s
    } else {
        insert_tag(sort_tags(s.drop_last()), s.last())
    }
}

proof fn lemma_insert_tag_at(sorted: Seq<(Seq<char>, u32)>, x: (Seq<char>, u32), j: int)
    requires
        0 <= j <= sorted.len(),
        forall|k: int| j <= k < sorted.len() ==> !cloud_le(#[trigger] sorted[k], x),
        j == 0 || cloud_le(sorted[j - 1], x),
    ensures
        insert_tag(sorted, x) == sorted.take(j).push(x) + sorted.skip(j),
    decreases sorted.len(),
{
    if sorted.len() == 0 {
        assert(sorted.take(j).push(x) + sorted.skip(j) =~= seq![x]);
    } else if j == sorted.len() {
        assert(sorted.take(j) =~= sorted);
        assert(sorted.take(j).push(x) + sorted.skip(j) =~= sorted.push(x));
    } else {
        let t = sorted.drop_last();
        assert(!cloud_le(sorted[sorted.len() - 1], x));
        lemma_insert_tag_at(t, x, j);
        assert(sorted.take(j).push(x) + sorted.skip(j) =~= (t.take(j).push(x) + t.skip(j)).push(
            sorted.last(),
        ));
    }
}

fn cloud_le_exec(a: &(String, u32), b: &(String, u32)) -> (r: bool)
    ensures
        r == cloud_le((a.0@, a.1), (b.0@, b.1)),
{
    a.1 > b.1 || (a.1 == b.1 && name_le_exec(a.0.as_str(), b.0.as_str()))
}

/// The tag cloud's order: tags on more notes first, ties by name.
pub fn tag_cloud_order(tags: Vec<(String, u32)>) -> (r: Vec<(String, u32)>)
    ensures
        tag_view(r@) == sort_tags(tag_view(tags@)),
{
    let ghost tv = tag_view(tags@);
    let mut out: Vec<(String, u32)> = Vec::new();
    let mut i: usize = 0;
    while i < tags.len()
        invariant
            i <= tags@.len(),
            tv == tag_view(tags@),
            tag_view(out@) == sort_tags(tv.take(i as int)),
        decreases tags@.len() - i,
    {
        let x = (tags[i].0.clone(), tags[i].1);
        let ghost ov = tag_view(out@);
        let ghost xv = (x.0@, x.1);
        assert(tv.take(i + 1).drop_last() =~= tv.take(i as int));
        assert(tv.take(i + 1).last() == xv);
        let mut j: usize = out.len();
        while j > 0 && !cloud_le_exec(&out[j - 1], &x)
            invariant
                j <= out@.len(),
                ov == tag_view(out@),
                xv == (x.0@, x.1),
                forall|k: int| j <= k < ov.len() ==> !cloud_le(#[trigger] ov[k], xv),
            decreases j,
        {
            j = j - 1;
        }
        proof {
            lemma_insert_tag_at(ov, xv, j as int);
        }
        out.insert(j, x);
        assert(tag_view(out@) =~= ov.take(j as int).push(xv) + ov.skip(j as int));
        i = i + 1;
    }
    assert(tv.take(tags@.len() as int) =~= tv);
    out
}

/// Each tag goes no later than every tag after it.
pub open spec fn tags_sorted(s: Seq<(Seq<char>, u32)>) -> bool {
    forall|i: int, j: int| 0 <= i < j < s.len() ==> cloud_le(s[i], s[j])
}

proof fn lemma_cloud_le_total(a: (Seq<char>, u32), b: (Seq<char>, u32))
    ensures
        cloud_le(a, b) || cloud_le(b, a),
{
    lemma_lex_total(encode_utf8(a.0), encode_utf8(b.0));
}

proof fn lemma_cloud_le_trans(a: (Seq<char>, u32), b: (Seq<char>, u32), c: (Seq<char>, u32))
    requires
        cloud_le(a, b),
        cloud_le(b, c),
    ensures
        cloud_le(a, c),
{
    if a.1 == b.1 && b.1 == c.1 {
        lemma_lex_trans(encode_utf8(a.0), encode_utf8(b.0), encode_utf8(c.0));
    }
}

/// Inserting adds `x` to the tags and keeps a sorted cloud sorted.
proof fn lemma_insert_tag_facts(s: Seq<(Seq<char>, u32)>, x: (Seq<char>, u32))
    ensures
        insert_tag(s, x).to_multiset() =~= s.to_multiset().insert(x),
        tags_sorted(s) ==> tags_sorted(insert_tag(s, x)),
    decreases s.len(),
{
    broadcast use vstd::seq_lib::group_to_multiset_ensures;

    let r = insert_tag(s, x);
    if s.len() == 0 {
        assert(r =~= Seq::<(Seq<char>, u32)>::empty().push(x));
        assert(s =~= Seq::<(Seq<char>, u32)>::empty());
    } else if cloud_le(s.last(), x) {
        if tags_sorted(s) {
            assert forall|i: int, j: int| 0 <= i < j < r.len() implies cloud_le(r[i], r[j]) by {
                if j == s.len() && i < s.len() - 1 {
                    lemma_cloud_le_trans(s[i], s[s.len() - 1], x);
                }
            }
        }
    } else {
        let t = s.drop_last();
        let last = s.last();
        let inner = insert_tag(t, x);
        lemma_insert_tag_facts(t, x);
        assert(s =~= t.push(last));
        assert(r == inner.push(last));
        if tags_sorted(s) {
            assert(tags_sorted(t));
            lemma_cloud_le_total(last, x);
            assert forall|i: int, j: int| 0 <= i < j < r.len() implies cloud_le(r[i], r[j]) by {
                if j == inner.len() {
                    let y = inner[i];
                    assert(inner.contains(y));
                    assert(inner.to_multiset().count(y) > 0);
                    if y != x {
                        assert(t.to_multiset().count(y) > 0);
                        assert(t.contains(y));
                        let p = choose|p: int| 0 <= p < t.len() && t[p] == y;
                        assert(s[p] == y);
                        assert(cloud_le(s[p], s[s.len() - 1]));
                    }
                }
            }
        }
    }
}

/// The tag cloud holds the same tags, each as often, in order: each tag
/// goes no later than every tag after it.
pub proof fn law_tag_cloud_sorted(s: Seq<(Seq<char>, u32)>)
    ensures
        sort_tags(s).to_multiset() =~= s.to_multiset(),
        sort_tags(s).len() == s.len(),
        tags_sorted(sort_tags(s)),
    decreases s.len(),
{
    broadcast use vstd::seq_lib::group_to_multiset_ensures;

    if s.len() > 0 {
        let t = s.drop_last();
        law_tag_cloud_sorted(t);
        lemma_insert_tag_facts(sort_tags(t), s.last());
        assert(s =~= t.push(s.last()));
    }
    assert(sort_tags(s).len() == sort_tags(s).to_multiset().len());
}

} // verus!
