//! The note graph: which notes are nodes, which edges they have, when
//! the layout has to start over, and the preview paragraph shown when
//! hovering a node. Positions, layout forces and drawing are floating
//! point and stay with the renderer.
use vstd::prelude::*;
use std::sync::Arc;

use crate::digital_garden::navigator::resolves_to;
use crate::digital_garden::note::{spec_title, Note, NoteLink};
use crate::digital_garden::note_directory::{answers, note_seq, published, resolve_step, NoteDirectory};

use crate::text::{
    str_eq, chars_of, find_chars, lemma_find_some, spec_find, spec_lines, string_of, strip_cr, trim,
    trim_end, trim_end_range, trim_range,
};

verus! {

pub open spec fn fm_open() -> Seq<char> {
    seq!['-', '-', '-', '\n']
}

pub open spec fn fm_close() -> Seq<char> {
    seq!['\n', '-', '-', '-', '\n']
}

pub open spec fn fm_close_crlf() -> Seq<char> {
    seq!['\n', '-', '-', '-', '\r', '\n']
}

/// The note body after a leading `---` front-matter block. When the
/// block is not closed the whole text is kept. The five characters after
/// the closing delimiter's start are skipped (so after a `\r\n` close a
/// line break remains).
pub open spec fn body_of(c: Seq<char>) -> Seq<char> {
    if c.len() >= 4 && c.take(4) == fm_open() {
        let st = c.skip(4);
        match spec_find(st, fm_close()) {
            Some(e) => st.skip(e + 5),
            None => match spec_find(st, fm_close_crlf()) {
                Some(e) => st.skip(e + 5),
                None => c,
            },
        }
    } else {
        c
    }
}

/// Join trimmed lines with single spaces until a blank line follows some
/// text, or until at least `max` characters are collected.
pub open spec fn para(lines: Seq<Seq<char>>, out: Seq<char>, max: nat) -> Seq<char>
    decreases lines.len(),
{
    if lines.len() == 0 {
        out
    } else {
        let t = trim(lines[0]);
        if t.len() == 0 {
            if out.len() > 0 {
                out
            } else {
                para(lines.drop_first(), out, max)
            }
        } else {
            let out2 = (if out.len() > 0 {
                out.push(' ')
            } else {
                out
            }) + t;
            if out2.len() >= max {
                out2
            } else {
                para(lines.drop_first(), out2, max)
            }
        }
    }
}

/// What `first_paragraph(content, max)` returns: the first paragraph of
/// the body, and, when longer than `max` characters, its first `max`
/// characters with trailing white space removed and an ellipsis added.
pub open spec fn spec_first_paragraph(content: Seq<char>, max: nat) -> Seq<char> {
    let out = para(spec_lines(body_of(content)), Seq::empty(), max);
    if out.len() > max {
        trim_end(out.take(max as int)).push('…')
    } else {
        out
    }
}

fn body_start(cv: &Vec<char>) -> (r: usize)
    ensures
        r <= cv@.len(),
        body_of(cv@) == cv@.skip(r as int),
{
    assert(cv@.skip(0) =~= cv@);
    if cv.len() < 4 || cv[0] != '-' || cv[1] != '-' || cv[2] != '-' || cv[3] != '\n' {
        assert(cv@.len() >= 4 ==> cv@.take(4) != fm_open()) by {
            if cv@.len() >= 4 && cv@.take(4) == fm_open() {
                assert(cv@.take(4)[0] == cv@[0]);
                assert(cv@.take(4)[1] == cv@[1]);
                assert(cv@.take(4)[2] == cv@[2]);
                assert(cv@.take(4)[3] == cv@[3]);
            }
        }
        return 0;
    }
    assert(cv@.take(4) =~= fm_open());
    let st = &cv.as_slice()[4..cv.len()];
    assert(st@ =~= cv@.skip(4));
    let close = vec!['\n', '-', '-', '-', '\n'];
    assert(close@ =~= fm_close());
    proof {
        lemma_find_some(st@, fm_close());
        lemma_find_some(st@, fm_close_crlf());
    }
    match find_chars(st, close.as_slice()) {
        Some(e) => {
            assert(cv@.skip(4).skip(e + 5) =~= cv@.skip(4 + e + 5));
            4 + e + 5
        },
        None => {
            let close2 = vec!['\n', '-', '-', '-', '\r', '\n'];
            assert(close2@ =~= fm_close_crlf());
            match find_chars(st, close2.as_slice()) {
                Some(e) => {
                    assert(cv@.skip(4).skip(e + 5) =~= cv@.skip(4 + e + 5));
                    4 + e + 5
                },
                None => 0,
            }
        },
    }
}

/// A short plain-text preview of a note: its first paragraph (after any
/// front matter), clamped to `max_chars` characters with an ellipsis.
pub fn first_paragraph(content: &str, max_chars: usize) -> (r: String)
    ensures
        r@ == spec_first_paragraph(content@, max_chars as nat),
{
    let cv = chars_of(content);
    let start = body_start(&cv);
    let ghost body = cv@.skip(start as int);
    let mut out: Vec<char> = Vec::new();
    let mut pos: usize = start;
    let newline = vec!['\n'];
    let mut done = false;
    while pos < cv.len() && !done
        invariant
            start <= pos <= cv@.len(),
            newline@ == seq!['\n'],
            body == cv@.skip(start as int),
            done ==> para(spec_lines(body), Seq::empty(), max_chars as nat) == out@,
            !done ==> para(spec_lines(body), Seq::empty(), max_chars as nat) == para(
                spec_lines(cv@.skip(pos as int)),
                out@,
                max_chars as nat,
            ),
        decreases cv@.len() - pos,
    {
        let rest = &cv.as_slice()[pos..cv.len()];
        assert(rest@ =~= cv@.skip(pos as int));
        proof {
            lemma_find_some(rest@, seq!['\n']);
        }
        let (line_end, next) = match find_chars(rest, newline.as_slice()) {
            Some(i) => {
                assert(rest@.subrange(i as int, i + 1) == seq!['\n']);
                assert(rest@.subrange(i as int, i + 1)[0] == rest@[i as int]);
                assert(rest@[i as int] == '\n');
                (pos + i, pos + i + 1)
            },
            None => (cv.len(), cv.len()),
        };
        let ghost rest_v = cv@.skip(pos as int);
        let ghost next_rest = cv@.skip(next as int);
        let mut e = line_end;
        let found = line_end < cv.len();
        if found && e > pos && cv[e - 1] == '\r' {
            e = e - 1;
        }
        proof {
            if found {
                let i = (line_end - pos) as int;
                assert(rest_v.take(i) =~= cv@.subrange(pos as int, line_end as int));
                assert(rest_v.skip(i + 1) =~= next_rest);
                assert(strip_cr(rest_v.take(i)) =~= cv@.subrange(pos as int, e as int));
                assert(spec_lines(rest_v) == seq![cv@.subrange(pos as int, e as int)] + spec_lines(
                    next_rest,
                ));
            } else {
                assert(rest_v =~= cv@.subrange(pos as int, e as int));
                assert(next_rest =~= Seq::<char>::empty());
                assert(spec_lines(rest_v) == seq![cv@.subrange(pos as int, e as int)]);
                assert(spec_lines(next_rest) =~= Seq::<Seq<char>>::empty());
                assert(seq![cv@.subrange(pos as int, e as int)] =~= seq![
                    cv@.subrange(pos as int, e as int),
                ] + Seq::<Seq<char>>::empty());
            }
        }
        let ghost lines_here = spec_lines(rest_v);
        let ghost tail = spec_lines(next_rest);
        assert(lines_here.drop_first() =~= tail);
        let (a, b) = trim_range(cv.as_slice(), pos, e);
        if a == b {
            if out.len() > 0 {
                done = true;
            }
        } else {
            let ghost before = out@;
            if out.len() > 0 {
                out.push(' ');
            }
            let ghost spaced = out@;
            let mut k: usize = a;
            while k < b
                invariant
                    a <= k <= b,
                    b <= cv@.len(),
                    out@ == spaced + cv@.subrange(a as int, k as int),
                decreases b - k,
            {
                out.push(cv[k]);
                assert(cv@.subrange(a as int, k + 1) =~= cv@.subrange(a as int, k as int).push(
                    cv@[k as int],
                ));
                k = k + 1;
            }
            if out.len() >= max_chars {
                done = true;
            }
        }
        pos = next;
    }
    let mut result = out;
    if result.len() > max_chars {
        let keep = trim_end_range(result.as_slice(), 0, max_chars);
        assert(result@.take(max_chars as int) =~= result@.subrange(0, max_chars as int));
        let mut cut: Vec<char> = Vec::new();
        let mut k: usize = 0;
        while k < keep
            invariant
                k <= keep,
                keep <= result@.len(),
                cut@ == result@.subrange(0, k as int),
            decreases keep - k,
        {
            cut.push(result[k]);
            assert(result@.subrange(0, k + 1) =~= result@.subrange(0, k as int).push(result@[k as int]));
            k = k + 1;
        }
        cut.push('…');
        result = cut;
    }
    string_of(result.as_slice())
}

// ---------- nodes and edges ----------

/// `id` is the id of a note that one of `links` resolves to among `ns`.
pub open spec fn linked_id(ns: Seq<Arc<Note>>, links: Seq<NoteLink>, id: Seq<char>) -> bool {
    exists|i: int, n: Arc<Note>|
        0 <= i < links.len() && #[trigger] resolves_to(ns, links[i].target_id@, n) && n.id@ == id
}

/// The texts of a list of strings.
pub open spec fn texts(v: Seq<String>) -> Seq<Seq<char>> {
    v.map_values(|s: String| s@)
}

/// No text occurs twice.
pub open spec fn no_repeats(v: Seq<Seq<char>>) -> bool {
    forall|i: int, j: int| 0 <= i < j < v.len() ==> v[i] != v[j]
}

/// A node of the note graph without its position: the note's id, its
/// title and the ids of the notes it links to.
pub struct GraphLinks {
    pub id: String,
    pub title: String,
    pub connections: Vec<String>,
}

/// `g` is the graph node of `note` in a directory holding `ns`: the note's
/// id and title, and as connections the ids of the notes that its links
/// resolve to (titles and slugs count, drafts do not), each once.
pub open spec fn node_of(g: GraphLinks, note: Note, ns: Seq<Arc<Note>>) -> bool {
    let c = texts(g.connections@);
    &&& g.id@ == note.id@
    &&& g.title@ == spec_title(note)
    &&& no_repeats(c)
    &&& forall|k: int| 0 <= k < c.len() ==> linked_id(ns, note.links@, #[trigger] c[k])
    &&& forall|id: Seq<char>| linked_id(ns, note.links@, id) ==> c.contains(id)
}

/// A link resolves to at most one note.
proof fn lemma_resolves_unique(ns: Seq<Arc<Note>>, q: Seq<char>, a: Arc<Note>, b: Arc<Note>)
    requires
        resolves_to(ns, q, a),
        resolves_to(ns, q, b),
    ensures
        a == b,
{
    let step = resolve_step(note_seq(ns), q)->0;
    let i = choose|i: int|
        0 <= i < ns.len() && ns[i] == a && answers(*a, q, step) && forall|j: int|
            0 <= j < i ==> !answers(*ns[j], q, step);
    let k = choose|k: int|
        0 <= k < ns.len() && ns[k] == b && answers(*b, q, step) && forall|j: int|
            0 <= j < k ==> !answers(*ns[j], q, step);
    if i < k {
        assert(!answers(*ns[i], q, step));
    } else if k < i {
        assert(!answers(*ns[k], q, step));
    }
}

/// Whether `v` holds a string with the text of `s`.
pub(crate) fn holds_text(v: &Vec<String>, s: &str) -> (r: bool)
    ensures
        r == texts(v@).contains(s@),
{
    let mut i: usize = 0;
    while i < v.len()
        invariant
            i <= v@.len(),
            forall|j: int| 0 <= j < i ==> v@[j]@ != s@,
        decreases v@.len() - i,
    {
        if str_eq(v[i].as_str(), s) {
            assert(texts(v@)[i as int] == s@);
            return true;
        }
        i = i + 1;
    }
    proof {
        if texts(v@).contains(s@) {
            let j = choose|j: int| 0 <= j < texts(v@).len() && texts(v@)[j] == s@;
            assert(v@[j]@ == s@);
        }
    }
    false
}

/// The graph node of `note`: its id, title and the distinct ids of the
/// notes its links resolve to.
pub fn graph_links(note: &Note, directory: &NoteDirectory) -> (r: GraphLinks)
    ensures
        node_of(r, *note, directory.notes@),
{
    let ghost ns = directory.notes@;
    let ghost links = note.links@;
    let mut conns: Vec<String> = Vec::new();
    let mut i: usize = 0;
    while i < note.links.len()
        invariant
            i <= links.len(),
            ns == directory.notes@,
            links == note.links@,
            no_repeats(texts(conns@)),
            forall|k: int| 0 <= k < conns@.len() ==> linked_id(ns, links, #[trigger] texts(conns@)[k]),
            forall|j: int, n: Arc<Note>|
                0 <= j < i && #[trigger] resolves_to(ns, links[j].target_id@, n) ==> texts(conns@).contains(n.id@),
        decreases links.len() - i,
    {
        let ghost before = conns@;
        match directory.resolve_link(note.links[i].target_id.as_str()) {
            Some(target) => {
                proof {
                    assert(resolve_step(note_seq(ns), links[i as int].target_id@) is Some);
                    assert(resolves_to(ns, links[i as int].target_id@, target));
                }
                if !holds_text(&conns, target.id.as_str()) {
                    conns.push(target.id.clone());
                    proof {
                        assert(texts(conns@) =~= texts(before).push(target.id@));
                        assert(texts(conns@)[before.len() as int] == target.id@);
                    }
                }
                proof {
                    assert forall|j: int, n: Arc<Note>|
                        0 <= j < i + 1 && #[trigger] resolves_to(ns, links[j].target_id@, n) implies texts(
                        conns@,
                    ).contains(n.id@) by {
                        if j == i {
                            lemma_resolves_unique(ns, links[j].target_id@, n, target);
                            let k = choose|k: int| 0 <= k < texts(conns@).len() && texts(conns@)[k] == target.id@;
                            assert(texts(conns@)[k] == n.id@);
                        } else {
                            let k = choose|k: int| 0 <= k < texts(before).len() && texts(before)[k] == n.id@;
                            assert(texts(conns@)[k] == n.id@);
                        }
                    }
                }
            },
            None => {
                proof {
                    assert forall|j: int, n: Arc<Note>|
                        0 <= j < i + 1 && #[trigger] resolves_to(ns, links[j].target_id@, n) implies texts(
                        conns@,
                    ).contains(n.id@) by {
                        if j == i {
                            assert(resolve_step(note_seq(ns), links[j].target_id@) is None);
                        }
                    }
                }
            },
        }
        i = i + 1;
    }
    proof {
        assert forall|id: Seq<char>| linked_id(ns, links, id) implies texts(conns@).contains(id) by {
            let (j, n) = choose|j: int, n: Arc<Note>|
                0 <= j < links.len() && #[trigger] resolves_to(ns, links[j].target_id@, n) && n.id@ == id;
        }
    }
    GraphLinks { id: note.id.clone(), title: note.title(), connections: conns }
}

/// The nodes of the note graph: one per published note, in directory
/// order.
pub fn graph_nodes(directory: &NoteDirectory) -> (r: Vec<GraphLinks>)
    ensures
        r@.len() == published(note_seq(directory.notes@)).len(),
        forall|k: int|
            0 <= k < r@.len() ==> node_of(#[trigger] r@[k], published(note_seq(directory.notes@))[k], directory.notes@),
{
    let notes = directory.published_notes();
    let ghost p = published(note_seq(directory.notes@));
    let mut out: Vec<GraphLinks> = Vec::new();
    let mut i: usize = 0;
    while i < notes.len()
        invariant
            i <= notes@.len(),
            note_seq(notes@) == p,
            p == published(note_seq(directory.notes@)),
            out@.len() == i,
            forall|k: int| 0 <= k < i ==> node_of(#[trigger] out@[k], p[k], directory.notes@),
        decreases notes@.len() - i,
    {
        let g = graph_links(&notes[i], directory);
        assert(p[i as int] == *notes@[i as int]);
        out.push(g);
        i = i + 1;
    }
    out
}

/// The set of texts in `v`.
pub open spec fn text_set(v: Seq<String>) -> Set<Seq<char>> {
    texts(v).to_set()
}

/// Whether every text of `a` is a text of `b`.
fn all_held(a: &Vec<String>, b: &Vec<String>) -> (r: bool)
    ensures
        r == text_set(a@).subset_of(text_set(b@)),
{
    let mut i: usize = 0;
    while i < a.len()
        invariant
            i <= a@.len(),
            forall|j: int| 0 <= j < i ==> texts(b@).contains(#[trigger] texts(a@)[j]),
        decreases a@.len() - i,
    {
        if !holds_text(b, a[i].as_str()) {
            proof {
                assert(texts(a@)[i as int] == a@[i as int]@);
                assert(text_set(a@).contains(a@[i as int]@));
            }
            return false;
        }
        i = i + 1;
    }
    proof {
        assert forall|x: Seq<char>| text_set(a@).contains(x) implies text_set(b@).contains(x) by {
            let j = choose|j: int| 0 <= j < texts(a@).len() && texts(a@)[j] == x;
        }
    }
    true
}

/// Whether a rebuilt graph starts its layout over: only when the set of
/// node ids changed (a content-only edit keeps the arrangement) and there
/// are at least two nodes to arrange.
pub fn needs_relayout(old_ids: &Vec<String>, new_ids: &Vec<String>) -> (r: bool)
    requires
        no_repeats(texts(new_ids@)),
    ensures
        r == (text_set(old_ids@) != text_set(new_ids@) && new_ids@.len() >= 2),
{
    let same = all_held(old_ids, new_ids) && all_held(new_ids, old_ids);
    proof {
        if same {
            assert(text_set(old_ids@) =~= text_set(new_ids@));
        }
    }
    !same && new_ids.len() >= 2
}

} // verus!
