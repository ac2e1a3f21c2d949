//! Markdown helpers that do not draw: HTML export, rewriting a task-list
//! checkbox in the source, the plain text of inline runs, and resolving
//! image URLs. Parsing is done by `pulldown-cmark`.
use vstd::prelude::*;

use crate::text::{
    byte_len, char_width, chars_of, find_chars, lemma_byte_len_prefix_mono, lemma_byte_len_push,
    lemma_find_some, occurs_at, spec_find, string_of,
};

verus! {

// ---------- HTML export ----------

/// What pulldown-cmark's HTML renderer produces for a document (tables,
/// strikethrough, task lists and footnotes enabled).
pub uninterp spec fn cmark_html(content: Seq<char>) -> Seq<char>;

/// `pulldown_cmark::html::push_html` over `Parser::new_ext` with tables,
/// strikethrough, task lists and footnotes: the CommonMark HTML of the
/// document. Only named here (`cmark_html`).
#[verifier::external_body]
fn render_html(content: &str) -> (r: String)
    ensures
        r@ == cmark_html(content@),
{
    let options = pulldown_cmark::Options::ENABLE_TABLES | pulldown_cmark::Options::ENABLE_STRIKETHROUGH
        | pulldown_cmark::Options::ENABLE_TASKLISTS | pulldown_cmark::Options::ENABLE_FOOTNOTES;
    let mut out = String::with_capacity(content.len());
    pulldown_cmark::html::push_html(&mut out, pulldown_cmark::Parser::new_ext(content, options));
    out
}

/// The note as HTML (for "Copy as HTML"); wiki-links pass through as text.
pub fn markdown_to_html(content: &str) -> (r: String)
    ensures
        r@ == cmark_html(content@),
{
    render_html(content)
}

// ---------- task toggling ----------

/// The parser's events over `content` with task lists enabled, each as
/// (the checkbox state for a task-list marker, else `None`; the source
/// byte range start; its end).
pub uninterp spec fn task_events(content: Seq<char>) -> Seq<(Option<bool>, usize, usize)>;

/// `Parser::new_ext(_, ENABLE_TASKLISTS).into_offset_iter()`: every event
/// with its source byte range, task-list markers told apart. Only named
/// here (`task_events`).
#[verifier::external_body]
fn offset_events(content: &str) -> (r: Vec<(Option<bool>, usize, usize)>)
    ensures
        r@ == task_events(content@),
{
    pulldown_cmark::Parser::new_ext(content, pulldown_cmark::Options::ENABLE_TASKLISTS)
        .into_offset_iter()
        .map(|(event, range)| (match event {
            pulldown_cmark::Event::TaskListMarker(checked) => Some(checked),
            _ => None,
        }, range.start, range.end))
        .collect()
}

/// The `index`-th task-list marker among `ev`: its state and byte range.
pub open spec fn nth_marker(ev: Seq<(Option<bool>, usize, usize)>, index: int) -> Option<(bool, usize, usize)>
    decreases ev.len(),
{
    if ev.len() == 0 {
        None
    } else {
        match ev[0].0 {
            Some(c) => if index == 0 {
                Some((c, ev[0].1, ev[0].2))
            } else {
                nth_marker(ev.drop_first(), index - 1)
            },
            None => nth_marker(ev.drop_first(), index),
        }
    }
}

/// The character index at byte offset `b` of `c`, when `b` is a
/// character boundary.
pub open spec fn char_at_byte(c: Seq<char>, b: int) -> Option<int> {
    if exists|k: int| 0 <= k <= c.len() && byte_len(c.take(k)) == b {
        Some(choose|k: int| 0 <= k <= c.len() && byte_len(c.take(k)) == b)
    } else {
        None
    }
}

/// `s` with its first occurrence of `from` replaced by `to`.
pub open spec fn replace_first(s: Seq<char>, from: Seq<char>, to: Seq<char>) -> Seq<char> {
    match spec_find(s, from) {
        Some(p) => if 0 <= p && p + from.len() <= s.len() {
            s.take(p) + to + s.skip(p + from.len())
        } else {
            s
        },
        None => s,
    }
}

pub open spec fn unchecked_box() -> Seq<char> {
    seq!['[', ' ', ']']
}

pub open spec fn checked_box() -> Seq<char> {
    seq!['[', 'x', ']']
}

pub open spec fn checked_box_upper() -> Seq<char> {
    seq!['[', 'X', ']']
}

/// The rewritten document when the `index`-th task of `content` (with
/// parser events `ev`) is flipped: its marker text has `[x]` and then
/// `[X]` (or `[ ]`) replaced once. `None` when there is no such task or
/// its range is not a valid slice of the text.
pub open spec fn spec_toggle(content: Seq<char>, ev: Seq<(Option<bool>, usize, usize)>, index: int) -> Option<Seq<char>> {
    match nth_marker(ev, index) {
        None => None,
        Some((checked, start, end)) => if start <= end {
            match (char_at_byte(content, start as int), char_at_byte(content, end as int)) {
                (Some(ks), Some(ke)) => {
                    let orig = content.subrange(ks, ke);
                    let flipped = if checked {
                        replace_first(replace_first(orig, checked_box(), unchecked_box()), checked_box_upper(), unchecked_box())
                    } else {
                        replace_first(orig, unchecked_box(), checked_box())
                    };
                    Some(content.take(ks) + flipped + content.skip(ke))
                },
                _ => None,
            }
        } else {
            None
        },
    }
}

proof fn lemma_char_at_byte_unique(c: Seq<char>, k: int)
    requires
        0 <= k <= c.len(),
    ensures
        char_at_byte(c, byte_len(c.take(k)) as int) == Some(k),
{
    let b = byte_len(c.take(k)) as int;
    assert(0 <= k <= c.len() && byte_len(c.take(k)) == b);
    let j = choose|j: int| 0 <= j <= c.len() && byte_len(c.take(j)) == b;
    if j < k {
        lemma_byte_len_prefix_mono(c, j, k);
    } else if j > k {
        lemma_byte_len_prefix_mono(c, k, j);
    }
}

/// The character index at byte offset `b`, if `b` is a boundary.
fn char_index_at(cv: &[char], b: usize) -> (r: Option<usize>)
    ensures
        match r {
            Some(k) => char_at_byte(cv@, b as int) == Some(k as int) && k <= cv@.len(),
            None => char_at_byte(cv@, b as int) is None,
        },
{
    let mut k: usize = 0;
    let mut pos: usize = 0;
    proof {
        assert(cv@.take(0) =~= Seq::<char>::empty());
        assert(vstd::utf8::encode_utf8(Seq::<char>::empty()) =~= Seq::<u8>::empty());
    }
    while k < cv.len() && pos < b
        invariant
            k <= cv@.len(),
            pos == byte_len(cv@.take(k as int)),
            pos <= b || k == 0,
            forall|j: int| 0 <= j < k ==> byte_len(cv@.take(j)) < b,
        decreases cv@.len() - k,
    {
        let w = char_width(cv[k]);
        proof {
            assert(cv@.take(k + 1) =~= cv@.take(k as int).push(cv@[k as int]));
            lemma_byte_len_push(cv@.take(k as int), cv@[k as int]);
        }
        if w > b - pos {
            proof {
                assert forall|j: int| 0 <= j <= cv@.len() implies byte_len(cv@.take(j)) != b by {
                    if j <= k {
                        if j < k {
                            lemma_byte_len_prefix_mono(cv@, j, k as int);
                        }
                    } else {
                        lemma_byte_len_prefix_mono(cv@, k + 1, j);
                    }
                }
            }
            return None;
        }
        pos = pos + w;
        k = k + 1;
    }
    if pos == b {
        proof {
            lemma_char_at_byte_unique(cv@, k as int);
        }
        Some(k)
    } else {
        proof {
            assert forall|j: int| 0 <= j <= cv@.len() implies byte_len(cv@.take(j)) != b by {
                if j < k {
                } else if j == k {
                } else {
                    lemma_byte_len_prefix_mono(cv@, k as int, j);
                }
            }
        }
        None
    }
}

fn replace_first_exec(s: &[char], from: &[char], to: &[char]) -> (r: Vec<char>)
    ensures
        r@ == replace_first(s@, from@, to@),
{
    proof {
        lemma_find_some(s@, from@);
    }
    let mut out: Vec<char> = Vec::new();
    match find_chars(s, from) {
        None => {
            let mut k: usize = 0;
            while k < s.len()
                invariant
                    k <= s@.len(),
                    out@ == s@.take(k as int),
                decreases s@.len() - k,
            {
                out.push(s[k]);
                assert(s@.take(k + 1) =~= s@.take(k as int).push(s@[k as int]));
                k = k + 1;
            }
            assert(s@.take(s@.len() as int) =~= s@);
            out
        },
        Some(p) => {
            assert(occurs_at(s@, from@, p as int));
            let mut k: usize = 0;
            while k < p
                invariant
                    k <= p,
                    p + from@.len() <= s@.len(),
                    out@ == s@.take(k as int),
                decreases p - k,
            {
                out.push(s[k]);
                assert(s@.take(k + 1) =~= s@.take(k as int).push(s@[k as int]));
                k = k + 1;
            }
            let ghost mid = out@;
            let mut t: usize = 0;
            while t < to.len()
                invariant
                    t <= to@.len(),
                    p + from@.len() <= s@.len(),
                    out@ == mid + to@.take(t as int),
                decreases to@.len() - t,
            {
                out.push(to[t]);
                assert(to@.take(t + 1) =~= to@.take(t as int).push(to@[t as int]));
                t = t + 1;
            }
            assert(to@.take(to@.len() as int) =~= to@);
            let ghost mid2 = out@;
            let _slen = s.len();
            let mut k2: usize = p + from.len();
            while k2 < s.len()
                invariant
                    p + from@.len() <= k2 <= s@.len(),
                    out@ == mid2 + s@.subrange(p + from@.len(), k2 as int),
                decreases s@.len() - k2,
            {
                out.push(s[k2]);
                assert(s@.subrange(p + from@.len(), k2 + 1) =~= s@.subrange(p + from@.len(), k2 as int).push(s@[k2 as int]));
                k2 = k2 + 1;
            }
            assert(s@.subrange(p + from@.len(), s@.len() as int) =~= s@.skip(p + from@.len()));
            out
        },
    }
}

/// Flip task `index` of `content`, given the parser's events for it.
pub fn toggle_task_with_events(content: &str, events: &[(Option<bool>, usize, usize)], index: usize) -> (r: Option<String>)
    ensures
        match r {
            Some(s) => spec_toggle(content@, events@, index as int) == Some(s@),
            None => spec_toggle(content@, events@, index as int) is None,
        },
{
    let mut k: usize = 0;
    let mut idx: usize = 0;
    assert(events@.skip(0) =~= events@);
    while k < events.len()
        invariant
            k <= events@.len(),
            idx <= index,
            nth_marker(events@, index as int) == nth_marker(events@.skip(k as int), index - idx),
        decreases events@.len() - k,
    {
        assert(events@.skip(k as int).drop_first() =~= events@.skip(k + 1));
        let (marker, start, end) = events[k];
        match marker {
            Some(checked) => {
                if idx == index {
                    if start > end {
                        return None;
                    }
                    let cv = chars_of(content);
                    let ks = match char_index_at(cv.as_slice(), start) {
                        Some(ks) => ks,
                        None => {
                            return None;
                        },
                    };
                    let ke = match char_index_at(cv.as_slice(), end) {
                        Some(ke) => ke,
                        None => {
                            return None;
                        },
                    };
                    if ke < ks {
                        proof {
                            lemma_char_at_byte_unique(content@, ks as int);
                            lemma_char_at_byte_unique(content@, ke as int);
                            lemma_byte_len_prefix_mono(content@, ke as int, ks as int);
                        }
                        return None;
                    }
                    let orig = &cv.as_slice()[ks..ke];
                    let unchecked = vec!['[', ' ', ']'];
                    let lower_x = vec!['[', 'x', ']'];
                    let upper_x = vec!['[', 'X', ']'];
                    assert(unchecked@ =~= unchecked_box());
                    assert(lower_x@ =~= checked_box());
                    assert(upper_x@ =~= checked_box_upper());
                    let flipped = if checked {
                        let once = replace_first_exec(orig, lower_x.as_slice(), unchecked.as_slice());
                        replace_first_exec(once.as_slice(), upper_x.as_slice(), unchecked.as_slice())
                    } else {
                        replace_first_exec(orig, unchecked.as_slice(), lower_x.as_slice())
                    };
                    let mut out: Vec<char> = Vec::new();
                    let mut i: usize = 0;
                    while i < ks
                        invariant
                            i <= ks,
                            ks <= cv@.len(),
                            out@ == cv@.take(i as int),
                        decreases ks - i,
                    {
                        out.push(cv[i]);
                        assert(cv@.take(i + 1) =~= cv@.take(i as int).push(cv@[i as int]));
                        i = i + 1;
                    }
                    let ghost a = out@;
                    let mut j: usize = 0;
                    while j < flipped.len()
                        invariant
                            j <= flipped@.len(),
                            out@ == a + flipped@.take(j as int),
                        decreases flipped@.len() - j,
                    {
                        out.push(flipped[j]);
                        assert(flipped@.take(j + 1) =~= flipped@.take(j as int).push(flipped@[j as int]));
                        j = j + 1;
                    }
                    assert(flipped@.take(flipped@.len() as int) =~= flipped@);
                    let ghost b = out@;
                    let mut m: usize = ke;
                    while m < cv.len()
                        invariant
                            ke <= m <= cv@.len(),
                            out@ == b + cv@.subrange(ke as int, m as int),
                        decreases cv@.len() - m,
                    {
                        out.push(cv[m]);
                        assert(cv@.subrange(ke as int, m + 1) =~= cv@.subrange(ke as int, m as int).push(cv@[m as int]));
                        m = m + 1;
                    }
                    assert(cv@.subrange(ke as int, cv@.len() as int) =~= cv@.skip(ke as int));
                    assert(orig@ =~= cv@.subrange(ks as int, ke as int));
                    assert(cv@.take(ks as int) + flipped@ + cv@.skip(ke as int) =~= out@);
                    return Some(string_of(out.as_slice()));
                }
                idx = idx + 1;
            },
            None => {},
        }
        k = k + 1;
    }
    None
}

/// Flip the `index`-th task-list checkbox of `content`; `None` when
/// there is no such task.
pub fn toggle_task(content: &str, index: usize) -> (r: Option<String>)
    ensures
        match r {
            Some(s) => spec_toggle(content@, task_events(content@), index as int) == Some(s@),
            None => spec_toggle(content@, task_events(content@), index as int) is None,
        },
{
    let events = offset_events(content);
    toggle_task_with_events(content, events.as_slice(), index)
}

// ---------- inline runs ----------

/// One inline fragment of a rendered paragraph.
#[derive(Debug, Clone, PartialEq, Eq)]
pub enum Inline {
    Text { text: String, bold: bool, italic: bool, strikethrough: bool, code: bool },
    ExternalLink { text: String, url: String },
    WikiLink { text: String, target: String, alive: bool },
    /// A native image; `src` is already resolved to a loadable URL.
    Image { src: String, alt: String },
    /// A task-list checkbox; `index` is its position among the note's tasks.
    TaskCheckbox { index: usize, checked: bool },
    SoftBreak,
    HardBreak,
}

/// The plain text of one fragment.
pub open spec fn plain_piece(i: Inline) -> Seq<char> {
    match i {
        Inline::Text { text, .. } => text@,
        Inline::ExternalLink { text, .. } => text@,
        Inline::WikiLink { text, .. } => text@,
        Inline::Image { alt, .. } => alt@,
        Inline::TaskCheckbox { checked, .. } => if checked {
            "☑ "@
        } else {
            "☐ "@
        },
        Inline::SoftBreak => seq![' '],
        Inline::HardBreak => seq!['\n'],
    }
}

/// The plain text of a run: its fragments' texts, in order.
pub open spec fn plain_text(s: Seq<Inline>) -> Seq<char>
    decreases s.len(),
{
    if s.len() == 0 {
        Seq::empty()
    } else {
        plain_text(s.drop_last()) + plain_piece(s.last())
    }
}

/// Flatten inline fragments into plain text (for headings).
pub fn inlines_to_plain(inlines: &[Inline]) -> (r: String)
    ensures
        r@ == plain_text(inlines@),
{
    let mut out = String::new();
    let mut k: usize = 0;
    while k < inlines.len()
        invariant
            k <= inlines@.len(),
            out@ == plain_text(inlines@.take(k as int)),
        decreases inlines@.len() - k,
    {
        assert(inlines@.take(k + 1).drop_last() =~= inlines@.take(k as int));
        match &inlines[k] {
            Inline::Text { text, .. } => out.append(text.as_str()),
            Inline::ExternalLink { text, .. } => out.append(text.as_str()),
            Inline::WikiLink { text, .. } => out.append(text.as_str()),
            Inline::Image { alt, .. } => out.append(alt.as_str()),
            Inline::TaskCheckbox { checked, .. } => {
                if *checked {
                    out.append("☑ ");
                } else {
                    out.append("☐ ");
                }
            },
            Inline::SoftBreak => out.append(" "),
            Inline::HardBreak => out.append("\n"),
        }
        proof {
            reveal_strlit(" ");
            reveal_strlit("\n");
        }
        k = k + 1;
    }
    assert(inlines@.take(inlines@.len() as int) =~= inlines@);
    out
}

// ---------- image URLs ----------

/// `url` starts with one of the schemes loaders take as they are.
pub open spec fn is_absolute_url(url: Seq<char>) -> bool {
    ||| occurs_at(url, "http://"@, 0)
    ||| occurs_at(url, "https://"@, 0)
    ||| occurs_at(url, "file://"@, 0)
    ||| occurs_at(url, "data:"@, 0)
}

fn starts_with_chars(s: &[char], prefix: &str) -> (r: bool)
    ensures
        r == occurs_at(s@, prefix@, 0),
{
    let p = chars_of(prefix);
    if p.len() > s.len() {
        return false;
    }
    let mut j: usize = 0;
    while j < p.len()
        invariant
            p@ == prefix@,
            p@.len() <= s@.len(),
            j <= p@.len(),
            forall|k: int| 0 <= k < j ==> s@[k] == p@[k],
        decreases p@.len() - j,
    {
        if s[j] != p[j] {
            assert(!occurs_at(s@, p@, 0)) by {
                if occurs_at(s@, p@, 0) {
                    assert(s@.subrange(0, p@.len() as int)[j as int] == s@[j as int]);
                }
            }
            return false;
        }
        j = j + 1;
    }
    assert(s@.subrange(0, p@.len() as int) =~= p@);
    true
}

/// `Path::join`: `url` pushed onto `root`. How it is joined (separators,
/// an absolute `url` replacing the root, a Windows verbatim root
/// normalizing what is pushed) depends on the platform, so nothing is
/// promised of the path here.
#[verifier::external_body]
fn join_path(root: &std::path::PathBuf, url: &str) -> (r: std::path::PathBuf) {
    root.join(url)
}

/// A loadable URL for an image reference: `http(s)://`, `file://` and
/// `data:` URLs pass through; anything else is a path resolved against
/// the notes directory (`Path::join`, then `Path::display`), as a
/// `file://` URL. The joined path's text depends on the platform and is
/// not stated beyond the `file://` in front.
pub fn resolve_image_url(url: &str, directory: &crate::digital_garden::note_directory::NoteDirectory) -> (r: String)
    ensures
        is_absolute_url(url@) ==> r@ == url@,
        !is_absolute_url(url@) ==> r@.len() >= 7 && r@.take(7) == "file://"@,
{
    let uv = chars_of(url);
    if starts_with_chars(uv.as_slice(), "http://") || starts_with_chars(uv.as_slice(), "https://")
        || starts_with_chars(uv.as_slice(), "file://") || starts_with_chars(uv.as_slice(), "data:") {
        return String::from_str(url);
    }
    let mut out = String::from_str("file://");
    let ghost head = out@;
    let joined = crate::apps::wad_viewer::path_display(&join_path(&directory.root_path, url));
    out.append(joined.as_str());
    proof {
        reveal_strlit("file://");
    }
    assert(out@.take(7) =~= head);
    out
}

} // verus!
