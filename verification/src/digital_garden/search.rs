//! Relevance scoring for the note search: title, tag and body matches,
//! the body snippet around the first hit, and the helpers it needs.
//! Offsets are byte offsets into the UTF-8 text, as the renderer slices
//! by bytes.
use vstd::prelude::*;
use vstd::utf8::encode_utf8;

use std::sync::Arc;

use crate::command_palette::{
    add_opt, insert_desc, insert_ranked, law_sort_desc_sorted, lemma_sort_desc_members, sort_desc,
};
use crate::digital_garden::note::{spec_title, Note};
use crate::digital_garden::note_directory::{note_seq, published, NoteDirectory};
use crate::text::{
    byte_len, char_width, chars_eq, chars_of, find_bytes, lemma_byte_len_prefix_mono, lemma_encode_concat, lemma_byte_len_push, lemma_find_some, lowercase, occurs_at,
    spec_find, string_between, string_of, to_lowercase, trim, trim_range, utf8_width,
};

verus! {

// ---------- whitespace ----------

/// Unicode `White_Space`, the property `char::is_whitespace` tests.
pub open spec fn spec_is_whitespace(c: char) -> bool {
    let u = c as u32;
    ||| (0x09 <= u <= 0x0D)
    ||| u == 0x20
    ||| u == 0x85
    ||| u == 0xA0
    ||| u == 0x1680
    ||| (0x2000 <= u <= 0x200A)
    ||| u == 0x2028
    ||| u == 0x2029
    ||| u == 0x202F
    ||| u == 0x205F
    ||| u == 0x3000
}

/// Whether `c` is Unicode white space.
pub fn is_whitespace(c: char) -> (r: bool)
    ensures
        r == spec_is_whitespace(c),
{
    let u: u32 = c as u32;
    (0x09 <= u && u <= 0x0D) || u == 0x20 || u == 0x85 || u == 0xA0 || u == 0x1680 || (0x2000
        <= u && u <= 0x200A) || u == 0x2028 || u == 0x2029 || u == 0x202F || u == 0x205F || u
        == 0x3000
}

// ---------- byte-level string tests ----------

/// `t` begins with `q` (compared byte-wise, as `str::starts_with`).
pub open spec fn spec_starts_with(t: Seq<char>, q: Seq<char>) -> bool {
    occurs_at(encode_utf8(t), encode_utf8(q), 0)
}

/// `t` contains `q` (as `str::contains`).
pub open spec fn spec_contains(t: Seq<char>, q: Seq<char>) -> bool {
    spec_find(encode_utf8(t), encode_utf8(q)) is Some
}

fn starts_with(t: &str, q: &str) -> (r: bool)
    ensures
        r == spec_starts_with(t@, q@),
{
    let tb = t.as_bytes();
    let qb = q.as_bytes();
    if qb.len() > tb.len() {
        return false;
    }
    let mut j: usize = 0;
    while j < qb.len()
        invariant
            tb@ == encode_utf8(t@),
            qb@ == encode_utf8(q@),
            qb@.len() <= tb@.len(),
            j <= qb@.len(),
            forall|k: int| 0 <= k < j ==> tb@[k] == qb@[k],
        decreases qb@.len() - j,
    {
        if tb[j] != qb[j] {
            assert(!occurs_at(tb@, qb@, 0)) by {
                if occurs_at(tb@, qb@, 0) {
                    assert(tb@.subrange(0, qb@.len() as int)[j as int] == tb@[j as int]);
                }
            }
            return false;
        }
        j = j + 1;
    }
    assert(tb@.subrange(0, qb@.len() as int) =~= qb@);
    true
}

pub(crate) fn contains(t: &str, q: &str) -> (r: bool)
    ensures
        r == spec_contains(t@, q@),
{
    find_bytes(t.as_bytes(), q.as_bytes()).is_some()
}

// ---------- fuzzy matching ----------

/// Consecutive-character fuzzy match of `q` within `t` from target index
/// `k`, having matched `qi` query characters, the last one at byte
/// offset `last`. Each match scores 10, plus 5 when its byte offset is
/// the previous match's offset plus its own UTF-8 width; `None` unless
/// every query character is matched, in order.
pub open spec fn fuzzy_from(q: Seq<char>, t: Seq<char>, k: int, qi: int, last: Option<int>) -> Option<int>
    decreases t.len() - k,
{
    if k < 0 || k >= t.len() {
        if qi >= q.len() {
            Some(0)
        } else {
            None
        }
    } else if 0 <= qi < q.len() && q[qi] == t[k] {
        let i = byte_len(t.take(k)) as int;
        let bonus: int = match last {
            Some(p) => if i == p + utf8_width(t[k]) {
                5
            } else {
                0
            },
            None => 0,
        };
        add_opt(fuzzy_from(q, t, k + 1, qi + 1, Some(i)), 10 + bonus)
    } else {
        fuzzy_from(q, t, k + 1, qi, last)
    }
}

proof fn lemma_fuzzy_bounds(q: Seq<char>, t: Seq<char>, k: int, qi: int, last: Option<int>)
    requires
        0 <= k <= t.len(),
    ensures
        fuzzy_from(q, t, k, qi, last) matches Some(x) ==> 0 <= x <= 15 * (t.len() - k),
    decreases t.len() - k,
{
    if k < t.len() {
        if 0 <= qi < q.len() && q[qi] == t[k] {
            lemma_fuzzy_bounds(q, t, k + 1, qi + 1, Some(byte_len(t.take(k)) as int));
        } else {
            lemma_fuzzy_bounds(q, t, k + 1, qi, last);
        }
    }
}

/// The running score of the fuzzy scan from target index `k`, counted
/// whether or not every query character ends up matched.
pub open spec fn fuzzy_partial(q: Seq<char>, t: Seq<char>, k: int, qi: int, last: Option<int>) -> int
    decreases t.len() - k,
{
    if k < 0 || k >= t.len() {
        0
    } else if 0 <= qi < q.len() && q[qi] == t[k] {
        let i = byte_len(t.take(k)) as int;
        let bonus: int = match last {
            Some(p) => if i == p + utf8_width(t[k]) {
                5
            } else {
                0
            },
            None => 0,
        };
        10 + bonus + fuzzy_partial(q, t, k + 1, qi + 1, Some(i))
    } else {
        fuzzy_partial(q, t, k + 1, qi, last)
    }
}

/// The running score never goes down, and a full match scores exactly it.
proof fn lemma_fuzzy_partial(q: Seq<char>, t: Seq<char>, k: int, qi: int, last: Option<int>)
    requires
        0 <= k <= t.len(),
    ensures
        fuzzy_partial(q, t, k, qi, last) >= 0,
        fuzzy_from(q, t, k, qi, last) matches Some(x) ==> x == fuzzy_partial(q, t, k, qi, last),
    decreases t.len() - k,
{
    if k < t.len() {
        if 0 <= qi < q.len() && q[qi] == t[k] {
            lemma_fuzzy_partial(q, t, k + 1, qi + 1, Some(byte_len(t.take(k)) as int));
        } else {
            lemma_fuzzy_partial(q, t, k + 1, qi, last);
        }
    }
}

/// The fuzzy scan's running score stays within `i32` (the scan counts in
/// `i32`).
pub open spec fn fuzzy_fits(q: Seq<char>, t: Seq<char>) -> bool {
    fuzzy_partial(q, t, 0, 0, None) <= i32::MAX
}

pub open spec fn opt_usize(o: Option<usize>) -> Option<int> {
    match o {
        Some(p) => Some(p as int),
        None => None,
    }
}

/// The fuzzy scan, counting in a wider integer: the score when the
/// running score stays within `i32`, and whether it went past.
fn fuzzy_run(query: &str, target: &str) -> (r: (Option<i32>, bool))
    ensures
        r.1 == !fuzzy_fits(query@, target@),
        !r.1 ==> match r.0 {
            Some(x) => fuzzy_from(query@, target@, 0, 0, None) == Some(x as int),
            None => fuzzy_from(query@, target@, 0, 0, None) is None,
        },
{
    let q = chars_of(query);
    let t = chars_of(target);
    let ghost total = fuzzy_from(query@, target@, 0, 0, None);
    let ghost run = fuzzy_partial(query@, target@, 0, 0, None);
    let tbytes: usize = target.as_bytes().len();
    proof {
        assert(target@.take(0) =~= Seq::<char>::empty());
        assert(encode_utf8(Seq::<char>::empty()) =~= Seq::<u8>::empty());
    }
    let mut qi: usize = 0;
    let mut score: i64 = 0;
    let mut last: Option<usize> = None;
    let mut bpos: usize = 0;
    let mut k: usize = 0;
    while k < t.len()
        invariant
            q@ == query@,
            t@ == target@,
            k <= t@.len(),
            qi <= q@.len(),
            bpos == byte_len(t@.take(k as int)),
            byte_len(t@.take(k as int)) <= byte_len(t@),
            byte_len(t@) <= usize::MAX,
            last matches Some(p) ==> p < bpos,
            0 <= score <= i32::MAX,
            total == add_opt(fuzzy_from(q@, t@, k as int, qi as int, opt_usize(last)), score as int),
            run == score + fuzzy_partial(q@, t@, k as int, qi as int, opt_usize(last)),
            run == fuzzy_partial(query@, target@, 0, 0, None),
        decreases t@.len() - k,
    {
        let c = t[k];
        let w = char_width(c);
        proof {
            assert(t@.take(k + 1) =~= t@.take(k as int).push(c));
            lemma_byte_len_push(t@.take(k as int), c);
            lemma_byte_len_prefix_mono(t@, k + 1, t@.len() as int);
            assert(t@.take(t@.len() as int) =~= t@);
        }
        if qi < q.len() && q[qi] == c {
            qi = qi + 1;
            score = score + 10;
            match last {
                Some(prev) => {
                    if bpos == prev + w {
                        score = score + 5;
                    }
                },
                None => {},
            }
            last = Some(bpos);
        }
        bpos = bpos + w;
        k = k + 1;
        if score > 2147483647 {
            proof {
                lemma_fuzzy_partial(q@, t@, k as int, qi as int, opt_usize(last));
            }
            return (None, true);
        }
    }
    if qi >= q.len() {
        (Some(score as i32), false)
    } else {
        (None, false)
    }
}

/// Consecutive-character fuzzy score: every character of `query` must
/// appear in `target` in order; tighter matches score higher. The scan
/// counts in `i32`, so its running score must stay within it.
pub fn fuzzy_score(query: &str, target: &str) -> (r: Option<i32>)
    requires
        fuzzy_fits(query@, target@),
    ensures
        match r {
            Some(x) => fuzzy_from(query@, target@, 0, 0, None) == Some(x as int),
            None => fuzzy_from(query@, target@, 0, 0, None) is None,
        },
{
    fuzzy_run(query, target).0
}

// ---------- title and tag ----------

/// What `score_title` returns: exact title 1000, prefix 600, substring
/// 400, otherwise three times the fuzzy score (0 without a fuzzy match).
pub open spec fn spec_score_title(q: Seq<char>, t: Seq<char>) -> int {
    if t == q {
        1000
    } else if spec_starts_with(t, q) {
        600
    } else if spec_contains(t, q) {
        400
    } else {
        match fuzzy_from(q, t, 0, 0, None) {
            Some(s) => 3 * s,
            None => 0,
        }
    }
}

/// `score_title(q, t)` stays within `i32`: an exact, prefix or substring
/// match, or a fuzzy scan whose running score and tripled result fit.
pub open spec fn title_fits(q: Seq<char>, t: Seq<char>) -> bool {
    ||| t == q
    ||| spec_starts_with(t, q)
    ||| spec_contains(t, q)
    ||| fuzzy_fits(q, t) && match fuzzy_from(q, t, 0, 0, None) {
        Some(s) => 3 * s <= i32::MAX,
        None => true,
    }
}

/// The title score, or `None` where working it out would leave `i32`.
fn title_score_checked(query: &str, title: &str) -> (r: Option<i32>)
    ensures
        match r {
            Some(x) => title_fits(query@, title@) && x == spec_score_title(query@, title@),
            None => !title_fits(query@, title@),
        },
{
    let qv = chars_of(query);
    let tv = chars_of(title);
    if chars_eq(tv.as_slice(), qv.as_slice()) {
        return Some(1000);
    }
    if starts_with(title, query) {
        return Some(600);
    }
    if contains(title, query) {
        return Some(400);
    }
    let (f, over) = fuzzy_run(query, title);
    if over {
        return None;
    }
    proof {
        lemma_fuzzy_bounds(query@, title@, 0, 0, None);
    }
    match f {
        Some(s) => if s > 715827882 {
            None
        } else {
            Some(s * 3)
        },
        None => Some(0),
    }
}

/// Title match, the strongest signal.
pub fn score_title(query: &str, title: &str) -> (r: i32)
    requires
        title_fits(query@, title@),
    ensures
        r == spec_score_title(query@, title@),
{
    match title_score_checked(query, title) {
        Some(x) => x,
        None => 0,
    }
}

/// `q` without its leading `#` characters.
pub open spec fn strip_hashes(q: Seq<char>) -> Seq<char>
    decreases q.len(),
{
    if q.len() > 0 && q[0] == '#' {
        strip_hashes(q.drop_first())
    } else {
        q
    }
}

/// What `score_tag` returns: the query (leading `#`s dropped) equal to
/// the tag scores 300, contained in it 150, otherwise no match.
pub open spec fn spec_score_tag(q: Seq<char>, tag: Seq<char>) -> Option<i32> {
    let s = strip_hashes(q);
    if tag == s {
        Some(300)
    } else if spec_contains(tag, s) {
        Some(150)
    } else {
        None
    }
}

/// Tag match; "#foo" and "foo" both find the tag "foo".
pub fn score_tag(query: &str, tag: &str) -> (r: Option<i32>)
    ensures
        r == spec_score_tag(query@, tag@),
{
    let qv = chars_of(query);
    let mut i: usize = 0;
    assert(query@.skip(0) =~= query@);
    while i < qv.len() && qv[i] == '#'
        invariant
            i <= qv@.len(),
            qv@ == query@,
            strip_hashes(query@) == strip_hashes(query@.skip(i as int)),
        decreases qv@.len() - i,
    {
        assert(query@.skip(i + 1) =~= query@.skip(i as int).drop_first());
        i = i + 1;
    }
    let q = string_of(&qv.as_slice()[i..qv.len()]);
    assert(q@ =~= query@.skip(i as int));
    let tv = chars_of(tag);
    let sv = chars_of(q.as_str());
    if chars_eq(tv.as_slice(), sv.as_slice()) {
        return Some(300);
    }
    if contains(tag, q.as_str()) {
        return Some(150);
    }
    None
}

// ---------- char boundaries ----------

/// Largest character count `k >= from` whose prefix is at most `idx`
/// bytes long, scanning up from `from`.
pub open spec fn floor_from(s: Seq<char>, idx: int, k: int) -> int
    decreases s.len() - k,
{
    if 0 <= k < s.len() && byte_len(s.take(k + 1)) <= idx {
        floor_from(s, idx, k + 1)
    } else {
        k
    }
}

/// Smallest character count `k >= from` whose prefix is at least `idx`
/// bytes long (or the whole text).
pub open spec fn ceil_from(s: Seq<char>, idx: int, k: int) -> int
    decreases s.len() - k,
{
    if 0 <= k < s.len() && byte_len(s.take(k)) < idx {
        ceil_from(s, idx, k + 1)
    } else {
        k
    }
}

/// The nearest character boundary at or below byte `idx`.
pub open spec fn spec_floor_boundary(s: Seq<char>, idx: int) -> int {
    byte_len(s.take(floor_from(s, idx, 0))) as int
}

/// The nearest character boundary at or above byte `idx`; indices at or
/// past the end are returned unchanged.
pub open spec fn spec_ceil_boundary(s: Seq<char>, idx: int) -> int {
    if idx >= byte_len(s) {
        idx
    } else {
        byte_len(s.take(ceil_from(s, idx, 0))) as int
    }
}

proof fn lemma_floor_from_range(s: Seq<char>, idx: int, k: int)
    requires
        0 <= k <= s.len(),
    ensures
        k <= floor_from(s, idx, k) <= s.len(),
    decreases s.len() - k,
{
    if 0 <= k < s.len() && byte_len(s.take(k + 1)) <= idx {
        lemma_floor_from_range(s, idx, k + 1);
    }
}

proof fn lemma_ceil_from_range(s: Seq<char>, idx: int, k: int)
    requires
        0 <= k <= s.len(),
    ensures
        k <= ceil_from(s, idx, k) <= s.len(),
    decreases s.len() - k,
{
    if 0 <= k < s.len() && byte_len(s.take(k)) < idx {
        lemma_ceil_from_range(s, idx, k + 1);
    }
}

/// Character index and byte offset of the floor boundary.
fn floor_chars(cv: &[char], idx: usize) -> (r: (usize, usize))
    ensures
        r.0 == floor_from(cv@, idx as int, 0),
        r.1 == byte_len(cv@.take(r.0 as int)),
        r.1 <= idx,
{
    let mut k: usize = 0;
    let mut b: usize = 0;
    proof {
        assert(cv@.take(0) =~= Seq::<char>::empty());
        assert(encode_utf8(Seq::<char>::empty()) =~= Seq::<u8>::empty());
    }
    while k < cv.len()
        invariant
            k <= cv@.len(),
            b == byte_len(cv@.take(k as int)),
            b <= idx,
            floor_from(cv@, idx as int, 0) == floor_from(cv@, idx as int, k as int),
        decreases cv@.len() - k,
    {
        let w = char_width(cv[k as usize]);
        proof {
            assert(cv@.take(k + 1) =~= cv@.take(k as int).push(cv@[k as int]));
            lemma_byte_len_push(cv@.take(k as int), cv@[k as int]);
        }
        if w > idx - b {
            return (k, b);
        }
        b = b + w;
        k = k + 1;
    }
    (k, b)
}

/// Character index and byte offset of the ceiling boundary (for indices
/// within the text).
fn ceil_chars(cv: &[char], idx: usize) -> (r: (usize, usize))
    requires
        idx <= byte_len(cv@),
        byte_len(cv@) <= usize::MAX,
    ensures
        r.0 == ceil_from(cv@, idx as int, 0),
        r.1 == byte_len(cv@.take(r.0 as int)),
        r.0 <= cv@.len(),
        r.0 == cv@.len() || r.1 >= idx,
{
    let mut k: usize = 0;
    let mut b: usize = 0;
    proof {
        assert(cv@.take(0) =~= Seq::<char>::empty());
        assert(encode_utf8(Seq::<char>::empty()) =~= Seq::<u8>::empty());
    }
    while k < cv.len() && b < idx
        invariant
            k <= cv@.len(),
            b == byte_len(cv@.take(k as int)),
            idx <= byte_len(cv@),
            byte_len(cv@) <= usize::MAX,
            ceil_from(cv@, idx as int, 0) == ceil_from(cv@, idx as int, k as int),
        decreases cv@.len() - k,
    {
        let w = char_width(cv[k as usize]);
        proof {
            assert(cv@.take(k + 1) =~= cv@.take(k as int).push(cv@[k as int]));
            lemma_byte_len_push(cv@.take(k as int), cv@[k as int]);
            lemma_byte_len_prefix_mono(cv@, k + 1, cv@.len() as int);
            assert(cv@.take(cv@.len() as int) =~= cv@);
        }
        b = b + w;
        k = k + 1;
    }
    (k, b)
}

/// Round `idx` down to the nearest character boundary of `s`.
pub fn floor_char_boundary(s: &str, idx: usize) -> (r: usize)
    ensures
        r == spec_floor_boundary(s@, idx as int),
{
    let cv = chars_of(s);
    let (_, b) = floor_chars(cv.as_slice(), idx);
    b
}

/// Round `idx` up to the nearest character boundary of `s`; indices at
/// or past the end are returned unchanged.
pub fn ceil_char_boundary(s: &str, idx: usize) -> (r: usize)
    ensures
        r == spec_ceil_boundary(s@, idx as int),
{
    let len = s.as_bytes().len();
    if idx >= len {
        return idx;
    }
    let cv = chars_of(s);
    let (_, b) = ceil_chars(cv.as_slice(), idx);
    b
}

// ---------- whitespace flattening ----------

/// Flattening state: output so far, adjusted match offset, input bytes
/// consumed, and whether the previous character was turned into a space.
pub type FlatState = (Seq<char>, int, int, bool);

/// One character of `flatten_whitespace`: the first white-space
/// character of a run becomes one space; the rest of the run is dropped,
/// moving the offset back by each dropped character's width when it lies
/// before the match.
pub open spec fn flat_step(st: FlatState, c: char, match_offset: int) -> FlatState {
    let (out, off, pos, prev) = st;
    let len = utf8_width(c) as int;
    if spec_is_whitespace(c) {
        if !prev {
            (out.push(' '), off, pos + len, true)
        } else {
            let off2 = if pos < match_offset {
                if off >= len {
                    off - len
                } else {
                    0
                }
            } else {
                off
            };
            (out, off2, pos + len, true)
        }
    } else {
        (out.push(c), off, pos + len, false)
    }
}

pub open spec fn flat_fold(s: Seq<char>, match_offset: int) -> FlatState
    decreases s.len(),
{
    if s.len() == 0 {
        (Seq::empty(), match_offset, 0, false)
    } else {
        flat_step(flat_fold(s.drop_last(), match_offset), s.last(), match_offset)
    }
}

/// What `flatten_whitespace` returns: the flattened text and the match
/// offset, clamped to the flattened text's byte length.
pub open spec fn spec_flatten(s: Seq<char>, match_offset: int) -> (Seq<char>, int) {
    let st = flat_fold(s, match_offset);
    (st.0, if st.1 > byte_len(st.0) {
        byte_len(st.0) as int
    } else {
        st.1
    })
}

proof fn lemma_flat_fold_facts(s: Seq<char>, mo: int)
    requires
        0 <= mo,
    ensures
        flat_fold(s, mo).2 == byte_len(s),
        0 <= flat_fold(s, mo).1 <= mo,
        byte_len(flat_fold(s, mo).0) <= byte_len(s),
    decreases s.len(),
{
    if s.len() == 0 {
        assert(encode_utf8(Seq::<char>::empty()) =~= Seq::<u8>::empty());
    } else {
        let t = s.drop_last();
        let c = s.last();
        lemma_flat_fold_facts(t, mo);
        assert(s =~= t.push(c));
        lemma_byte_len_push(t, c);
        let st = flat_fold(t, mo);
        lemma_byte_len_push(st.0, c);
        lemma_byte_len_push(st.0, ' ');
        crate::text::lemma_width_bounds(c);
        crate::text::lemma_width_bounds(' ');
    }
}

/// The flattened text never holds two white-space characters in a row:
/// every run became one space.
pub proof fn law_flatten_single_spaces(s: Seq<char>, match_offset: int)
    ensures
        ({
            let out = flat_fold(s, match_offset).0;
            forall|i: int|
                0 <= i < out.len() - 1 ==> !(spec_is_whitespace(#[trigger] out[i]) && spec_is_whitespace(out[i + 1]))
        }),
        flat_fold(s, match_offset).3 <==> {
            let out = flat_fold(s, match_offset).0;
            out.len() > 0 && spec_is_whitespace(out.last())
        },
    decreases s.len(),
{
    if s.len() > 0 {
        law_flatten_single_spaces(s.drop_last(), match_offset);
        assert(spec_is_whitespace(' '));
    }
}

fn flatten_chars(s: &[char], match_offset: usize) -> (r: (Vec<char>, usize, usize))
    requires
        byte_len(s@) <= usize::MAX,
    ensures
        r.0@ == flat_fold(s@, match_offset as int).0,
        r.1 == flat_fold(s@, match_offset as int).1,
        r.2 == byte_len(r.0@),
{
    let mut out: Vec<char> = Vec::new();
    let mut out_bytes: usize = 0;
    let mut new_offset: usize = match_offset;
    let mut byte_pos: usize = 0;
    let mut prev_space = false;
    let mut k: usize = 0;
    proof {
        assert(s@.take(0) =~= Seq::<char>::empty());
        assert(encode_utf8(Seq::<char>::empty()) =~= Seq::<u8>::empty());
    }
    while k < s.len()
        invariant
            k <= s@.len(),
            (out@, new_offset as int, byte_pos as int, prev_space) == flat_fold(
                s@.take(k as int),
                match_offset as int,
            ),
            out_bytes == byte_len(out@),
            out_bytes <= byte_pos,
            byte_pos == byte_len(s@.take(k as int)),
            byte_len(s@.take(k as int)) <= byte_len(s@),
            byte_len(s@) <= usize::MAX,
        decreases s@.len() - k,
    {
        let c = s[k];
        let len = char_width(c);
        let ghost pre = s@.take(k as int);
        proof {
            assert(s@.take(k + 1) =~= pre.push(c));
            assert(s@.take(k + 1).drop_last() =~= pre);
            lemma_byte_len_push(pre, c);
            lemma_byte_len_prefix_mono(s@, k + 1, s@.len() as int);
            assert(s@.take(s@.len() as int) =~= s@);
            lemma_byte_len_push(out@, c);
            lemma_byte_len_push(out@, ' ');
        }
        if is_whitespace(c) {
            if !prev_space {
                out.push(' ');
                out_bytes = out_bytes + 1;
                prev_space = true;
            } else {
                if byte_pos < match_offset {
                    new_offset = if new_offset >= len {
                        new_offset - len
                    } else {
                        0
                    };
                }
            }
        } else {
            out.push(c);
            out_bytes = out_bytes + len;
            prev_space = false;
        }
        byte_pos = byte_pos + len;
        k = k + 1;
    }
    assert(s@.take(s@.len() as int) =~= s@);
    (out, new_offset, out_bytes)
}

/// Collapse white space so a snippet renders on one line: every run of
/// white space becomes one space, and `match_offset` (a byte offset into
/// `s`) keeps pointing at the same text.
pub fn flatten_whitespace(s: &str, match_offset: usize) -> (r: (String, usize))
    ensures
        (r.0@, r.1 as int) == spec_flatten(s@, match_offset as int),
{
    let cv = chars_of(s);
    let _len = s.as_bytes().len();
    let (out, off, out_bytes) = flatten_chars(cv.as_slice(), match_offset);
    let text = string_of(out.as_slice());
    let clamped = if off > out_bytes {
        out_bytes
    } else {
        off
    };
    (text, clamped)
}


// ---------- body ----------

/// What `score_body(q, content)` returns: the score, the flattened
/// snippet, the match offset within the snippet and the match length (in
/// bytes). The query is searched for in the lower-cased content; a hit
/// at byte `pos` scores `100 + (200 - min(pos, 200)) / 4`, and the
/// snippet spans about 60 bytes either side of it, widened to character
/// boundaries, with an ellipsis on each side that was cut.
pub open spec fn spec_score_body(q: Seq<char>, content: Seq<char>) -> (int, Seq<char>, Option<int>, int) {
    let qlen = byte_len(q) as int;
    match spec_find(encode_utf8(lowercase(content)), encode_utf8(q)) {
        None => (0, Seq::empty(), None, qlen),
        Some(pos) => {
            let m = if pos < 200 {
                pos
            } else {
                200
            };
            let score = 100 + (200 - m) / 4;
            let clen = byte_len(content) as int;
            let lo = if pos >= 60 {
                pos - 60
            } else {
                0
            };
            let ks = floor_from(content, lo, 0);
            let start = byte_len(content.take(ks)) as int;
            let hi = if pos + qlen + 60 < clen {
                pos + qlen + 60
            } else {
                clen
            };
            let ke = ceil_from(content, hi, 0);
            let end = byte_len(content.take(ke)) as int;
            let body = content.subrange(ks, ke);
            let lead = if start > 0 {
                seq!['…'] + body
            } else {
                body
            };
            let snippet = if end < clen {
                lead.push('…')
            } else {
                lead
            };
            let off = pos - start + if start > 0 {
                3int
            } else {
                0int
            };
            let flat = spec_flatten(snippet, off);
            (score, flat.0, Some(flat.1), qlen)
        },
    }
}

/// Body match: a substring hit in the lower-cased body, scored by how
/// early it is, with a snippet around it for highlighting.
pub fn score_body(query: &str, content: &str) -> (r: (i32, String, Option<usize>, usize))
    ensures
        ({
            let s = spec_score_body(query@, content@);
            &&& r.0 as int == s.0
            &&& r.1@ == s.1
            &&& opt_usize(r.2) == s.2
            &&& r.3 as int == s.3
        }),
{
    let lower = to_lowercase(content);
    let qb = query.as_bytes();
    let qlen = qb.len();
    let lb = lower.as_str().as_bytes();
    proof {
        lemma_find_some(encode_utf8(lower@), encode_utf8(query@));
    }
    let pos = match find_bytes(lb, qb) {
        None => {
            return (0, String::new(), None, qlen);
        },
        Some(p) => p,
    };
    let m: usize = if pos < 200 {
        pos
    } else {
        200
    };
    let bonus: i32 = 200 - (m as i32);
    let score: i32 = 100 + bonus / 4;
    let cv = chars_of(content);
    let clen = content.as_bytes().len();
    let lo: usize = if pos >= 60 {
        pos - 60
    } else {
        0
    };
    let (ks, start) = floor_chars(cv.as_slice(), lo);
    let hi: usize = if pos + qlen + 60 < clen {
        pos + qlen + 60
    } else {
        clen
    };
    let (ke, end) = ceil_chars(cv.as_slice(), hi);
    proof {
        lemma_floor_from_range(cv@, lo as int, 0);
        if ke < ks {
            lemma_byte_len_prefix_mono(cv@, ke as int, ks as int);
            lemma_byte_len_prefix_mono(cv@, ks as int, cv@.len() as int);
            assert(cv@.take(cv@.len() as int) =~= cv@);
        }
    }
    let mut snippet: Vec<char> = Vec::new();
    if start > 0 {
        snippet.push('…');
    }
    let ghost lead_len = snippet@.len();
    let mut i: usize = ks;
    while i < ke
        invariant
            ks <= i <= ke,
            ke <= cv@.len(),
            snippet@.len() == lead_len + (i - ks),
            snippet@ == (if start > 0 {
                seq!['…']
            } else {
                Seq::<char>::empty()
            }) + cv@.subrange(ks as int, i as int),
        decreases ke - i,
    {
        snippet.push(cv[i]);
        assert(cv@.subrange(ks as int, i + 1) =~= cv@.subrange(ks as int, i as int).push(cv@[i as int]));
        i = i + 1;
    }
    assert(start > 0 ==> snippet@ =~= seq!['…'] + cv@.subrange(ks as int, ke as int));
    assert(start == 0 ==> snippet@ =~= cv@.subrange(ks as int, ke as int));
    if end < clen {
        snippet.push('…');
    }
    let mut off: usize = pos - start;
    if start > 0 {
        off = off + 3;
    }
    let text = string_of(snippet.as_slice());
    let (flat, foff) = flatten_whitespace(text.as_str(), off);
    (score, flat, Some(foff), qlen)
}

// ---------- the search ----------

/// The total of the tag scores of `tags` (each lower-cased) for `q`.
pub open spec fn tag_score_sum(q: Seq<char>, tags: Seq<String>) -> int
    decreases tags.len(),
{
    if tags.len() == 0 {
        0
    } else {
        tag_score_sum(q, tags.drop_last()) + match spec_score_tag(q, lowercase(tags.last()@)) {
            Some(x) => x as int,
            None => 0,
        }
    }
}

/// A note's relevance for the lower-cased query `q`: its lower-cased
/// title's score, plus its body's, plus its tags'.
pub open spec fn note_score(q: Seq<char>, n: Note) -> int {
    spec_score_title(q, lowercase(spec_title(n))) + spec_score_body(q, n.content@).0 + tag_score_sum(
        q,
        n.frontmatter.tags@,
    )
}

/// The score of a note can be worked out in `i32`: its total fits, and
/// so does the title's fuzzy scan.
pub open spec fn scorable(q: Seq<char>, n: Note) -> bool {
    title_fits(q, lowercase(spec_title(n))) && note_score(q, n) <= i32::MAX
}

/// Position and score of each note of `ns` that scores above zero.
pub open spec fn scored_notes(q: Seq<char>, ns: Seq<Note>) -> Seq<(usize, i32)>
    decreases ns.len(),
{
    if ns.len() == 0 {
        Seq::empty()
    } else {
        let r = scored_notes(q, ns.drop_last());
        let n = ns.last();
        if scorable(q, n) && note_score(q, n) > 0 {
            r.push(((ns.len() - 1) as usize, note_score(q, n) as i32))
        } else {
            r
        }
    }
}

/// The hits among `ns`, best first; equal scores keep note order.
pub open spec fn search_ranking(q: Seq<char>, ns: Seq<Note>) -> Seq<(usize, i32)> {
    sort_desc(scored_notes(q, ns))
}

/// A search hit with what is needed to show a highlighted snippet.
pub struct SearchResult {
    /// The note that matched.
    pub note: Arc<Note>,
    /// The body snippet around the match, with ellipses where it was cut;
    /// empty when the body did not match.
    pub snippet: String,
    /// Byte offset of the match within the snippet.
    pub match_offset: Option<usize>,
    /// Byte length of the match.
    pub match_len: usize,
    /// Relevance; higher sorts first.
    pub score: i32,
}

/// Hit `r` is the note at `e.0` of `ns`, with score `e.1` and its body
/// match.
pub open spec fn shows_hit(r: SearchResult, q: Seq<char>, ns: Seq<Note>, e: (usize, i32)) -> bool {
    let n = ns[e.0 as int];
    let b = spec_score_body(q, n.content@);
    &&& *r.note == n
    &&& r.score == e.1
    &&& r.snippet@ == b.1
    &&& opt_usize(r.match_offset) == b.2
    &&& r.match_len as int == b.3
}

// ---------- highlighting ----------

/// Byte offset `b` falls between two characters of `s` (or at an end).
pub open spec fn is_char_boundary(s: Seq<char>, b: int) -> bool {
    exists|k: int| 0 <= k <= s.len() && byte_len(s.take(k)) == b
}

/// The number of characters before byte offset `b`, for a boundary `b`.
pub open spec fn chars_before(s: Seq<char>, b: int) -> int {
    choose|k: int| 0 <= k <= s.len() && byte_len(s.take(k)) == b
}

/// How a snippet is shown: where the match offset and length both land on
/// character boundaries, the text before the match, the match and the text
/// after it; otherwise (`None`) the snippet is shown plain.
pub open spec fn spec_snippet_parts(s: Seq<char>, match_offset: Option<int>, match_len: int) -> Option<
    (Seq<char>, Seq<char>, Seq<char>),
> {
    match match_offset {
        Some(off) => if is_char_boundary(s, off) && is_char_boundary(s, off + match_len) {
            let i = chars_before(s, off);
            let j = chars_before(s, off + match_len);
            Some((s.take(i), s.subrange(i, j), s.skip(j)))
        } else {
            None
        },
        None => None,
    }
}

/// Prefix byte lengths tell prefixes apart.
proof fn lemma_prefix_bytes_injective(s: Seq<char>, i: int, j: int)
    requires
        0 <= i <= s.len(),
        0 <= j <= s.len(),
        byte_len(s.take(i)) == byte_len(s.take(j)),
    ensures
        i == j,
{
    if i < j {
        lemma_byte_len_prefix_mono(s, i, j);
    } else if j < i {
        lemma_byte_len_prefix_mono(s, j, i);
    }
}

/// The character index at byte offset `b`, if `b` is a boundary.
fn boundary_index(cv: &[char], b: usize) -> (r: Option<usize>)
    ensures
        match r {
            Some(k) => k <= cv@.len() && byte_len(cv@.take(k as int)) == b,
            None => !is_char_boundary(cv@, b as int),
        },
{
    let mut k: usize = 0;
    let mut acc: usize = 0;
    proof {
        assert(cv@.take(0) =~= Seq::<char>::empty());
        assert(encode_utf8(Seq::<char>::empty()) =~= Seq::<u8>::empty());
    }
    while k < cv.len()
        invariant
            k <= cv@.len(),
            acc == byte_len(cv@.take(k as int)),
            acc <= b,
            forall|j: int| 0 <= j < k ==> byte_len(#[trigger] cv@.take(j)) < b,
        decreases cv@.len() - k,
    {
        if acc == b {
            return Some(k);
        }
        let w = char_width(cv[k]);
        proof {
            assert(cv@.take(k + 1) =~= cv@.take(k as int).push(cv@[k as int]));
            lemma_byte_len_push(cv@.take(k as int), cv@[k as int]);
        }
        if w > b - acc {
            proof {
                assert forall|j: int| 0 <= j <= cv@.len() implies byte_len(#[trigger] cv@.take(j)) != b by {
                    if j > k {
                        lemma_byte_len_prefix_mono(cv@, k + 1, j);
                    }
                }
            }
            return None;
        }
        acc = acc + w;
        k = k + 1;
    }
    if acc == b {
        Some(k)
    } else {
        proof {
            assert forall|j: int| 0 <= j <= cv@.len() implies byte_len(#[trigger] cv@.take(j)) != b by {
                if j == k {
                } else {
                    assert(j < k);
                }
            }
        }
        None
    }
}

/// Split a snippet around its match for highlighting: the text before,
/// the match and the text after, or `None` where the offsets do not fit
/// the snippet on character boundaries (it is then shown plain).
pub fn snippet_parts(snippet: &str, match_offset: Option<usize>, match_len: usize) -> (r: Option<
    (String, String, String),
>)
    requires
        match_offset matches Some(off) ==> off + match_len <= usize::MAX,
    ensures
        match (r, spec_snippet_parts(snippet@, opt_usize(match_offset), match_len as int)) {
            (Some(p), Some(q)) => p.0@ == q.0 && p.1@ == q.1 && p.2@ == q.2,
            (None, None) => true,
            _ => false,
        },
{
    match match_offset {
        None => None,
        Some(off) => {
            let cv = chars_of(snippet);
            let end = off + match_len;
            match (boundary_index(&cv, off), boundary_index(&cv, end)) {
                (Some(i), Some(j)) => {
                    proof {
                        let ci = chars_before(cv@, off as int);
                        let cj = chars_before(cv@, end as int);
                        assert(is_char_boundary(cv@, off as int));
                        assert(is_char_boundary(cv@, end as int));
                        lemma_prefix_bytes_injective(cv@, i as int, ci);
                        lemma_prefix_bytes_injective(cv@, j as int, cj);
                        if j < i {
                            lemma_byte_len_prefix_mono(cv@, j as int, i as int);
                        }
                    }
                    let before = string_between(&cv, 0, i);
                    let hit = string_between(&cv, i, j);
                    let after = string_between(&cv, j, cv.len());
                    proof {
                        assert(cv@.subrange(0, i as int) =~= cv@.take(i as int));
                        assert(cv@.subrange(j as int, cv@.len() as int) =~= cv@.skip(j as int));
                    }
                    Some((before, hit, after))
                },
                _ => None,
            }
        },
    }
}

/// The search box: its query, the current hits and the selected one.
pub struct Search {
    /// The query being typed.
    pub query: String,
    /// The hits for the last query run, best first.
    pub results: Vec<SearchResult>,
    /// The selected hit.
    pub selected_index: Option<usize>,
    /// The query the current results were found for.
    pub last_run_query: String,
}

impl Default for Search {
    /// No query, no hits.
    fn default() -> (s: Self)
        ensures
            s.query@.len() == 0,
            s.results@.len() == 0,
            s.selected_index is None,
            s.last_run_query@.len() == 0,
    {
        Search { query: String::new(), results: Vec::new(), selected_index: None, last_run_query: String::new() }
    }
}

proof fn lemma_tag_sum_prefix(q: Seq<char>, tags: Seq<String>, j: int)
    requires
        0 <= j <= tags.len(),
    ensures
        0 <= tag_score_sum(q, tags.take(j)) <= tag_score_sum(q, tags),
    decreases tags.len(),
{
    if tags.len() > 0 {
        if j == tags.len() {
            assert(tags.take(j) =~= tags);
            lemma_tag_sum_prefix(q, tags.drop_last(), j - 1);
            assert(tags.drop_last().take(j - 1) =~= tags.drop_last());
        } else {
            lemma_tag_sum_prefix(q, tags.drop_last(), j);
            assert(tags.drop_last().take(j) =~= tags.take(j));
        }
    } else {
        assert(tags.take(j) =~= tags);
    }
}

/// A note's score for the lower-cased query `q` and its body match;
/// `None` when the score does not fit in `i32`.
fn score_note(q: &str, note: &Note) -> (r: Option<(i32, String, Option<usize>, usize)>)
    ensures
        match r {
            Some((s, snip, off, len)) => {
                let b = spec_score_body(q@, note.content@);
                &&& scorable(q@, *note)
                &&& s == note_score(q@, *note)
                &&& snip@ == b.1
                &&& opt_usize(off) == b.2
                &&& len as int == b.3
            },
            None => !scorable(q@, *note),
        },
{
    let title = to_lowercase(note.title().as_str());
    let ghost b = spec_score_body(q@, note.content@);
    let ghost t = spec_score_title(q@, title@);
    let (body, snip, off, len) = score_body(q, note.content.as_str());
    proof {
        lemma_fuzzy_bounds(q@, title@, 0, 0, None);
    }
    assert(spec_score_title(q@, title@) >= 0);
    assert(b.0 >= 0);
    let ts = match title_score_checked(q, title.as_str()) {
        Some(x) => x,
        None => return None,
    };
    let tags = &note.frontmatter.tags;
    let mut sum: i64 = 0;
    let mut j: usize = 0;
    while j < tags.len()
        invariant
            j <= tags@.len(),
            sum == tag_score_sum(q@, tags@.take(j as int)),
            0 <= sum <= i32::MAX,
            tags@ == note.frontmatter.tags@,
            spec_score_title(q@, lowercase(spec_title(*note))) >= 0,
            spec_score_body(q@, note.content@).0 >= 0,
        decreases tags@.len() - j,
    {
        assert(tags@.take(j + 1).drop_last() =~= tags@.take(j as int));
        let lt = to_lowercase(tags[j].as_str());
        let add: i64 = match score_tag(q, lt.as_str()) {
            Some(x) => x as i64,
            None => 0,
        };
        assert(tags@.take(j + 1).last() == tags@[j as int]);
        sum = sum + add;
        assert(sum == tag_score_sum(q@, tags@.take(j + 1)));
        if sum > 2147483647 {
            proof {
                lemma_tag_sum_prefix(q@, tags@, j + 1);
            }
            return None;
        }
        j = j + 1;
    }
    assert(tags@.take(tags@.len() as int) =~= tags@);
    let total: i64 = ts as i64 + body as i64 + sum;
    if total > 2147483647 {
        return None;
    }
    Some((total as i32, snip, off, len))
}

proof fn lemma_scored_members(q: Seq<char>, ns: Seq<Note>)
    requires
        ns.len() <= usize::MAX,
    ensures
        forall|k: int| #![trigger scored_notes(q, ns)[k]] 0 <= k < scored_notes(q, ns).len() ==> {
            let e = scored_notes(q, ns)[k];
            &&& 0 <= e.0 < ns.len()
            &&& scorable(q, ns[e.0 as int])
            &&& e.1 == note_score(q, ns[e.0 as int])
            &&& e.1 > 0
        },
    decreases ns.len(),
{
    if ns.len() > 0 {
        let p = ns.drop_last();
        lemma_scored_members(q, p);
        assert forall|k: int| #![trigger scored_notes(q, ns)[k]] 0 <= k < scored_notes(q, ns).len() implies {
            let e = scored_notes(q, ns)[k];
            &&& 0 <= e.0 < ns.len()
            &&& scorable(q, ns[e.0 as int])
            &&& e.1 == note_score(q, ns[e.0 as int])
            &&& e.1 > 0
        } by {
            let n = ns.last();
            if scorable(q, n) && note_score(q, n) > 0 {
                let x = ((ns.len() - 1) as usize, note_score(q, n) as i32);
                assert(scored_notes(q, ns) == scored_notes(q, p).push(x));
            } else {
                assert(scored_notes(q, ns) == scored_notes(q, p));
            }
            if k < scored_notes(q, p).len() {
                let e = scored_notes(q, p)[k];
                assert(scored_notes(q, ns)[k] == e);
                assert(ns[e.0 as int] == p[e.0 as int]);
            }
        }
    }
}

/// Whether `s` is empty or all white space.
fn is_blank(s: &str) -> (r: bool)
    ensures
        r == (trim(s@).len() == 0),
{
    let cv = chars_of(s);
    let (a, b) = trim_range(cv.as_slice(), 0, cv.len());
    assert(cv@.subrange(0, cv@.len() as int) =~= s@);
    a == b
}

impl Search {
    /// An empty search box.
    pub fn new() -> (s: Self)
        ensures
            s.query@.len() == 0,
            s.results@.len() == 0,
            s.selected_index is None,
            s.last_run_query@.len() == 0,
    {
        Search::default()
    }

    /// Arrow-down: the next hit, stopping at the last; the first hit when
    /// none is selected. Nothing changes without hits.
    pub fn select_next(&mut self)
        ensures
            final(self).query == old(self).query,
            final(self).results == old(self).results,
            final(self).last_run_query == old(self).last_run_query,
            final(self).selected_index == if old(self).results@.len() == 0 {
                old(self).selected_index
            } else {
                match old(self).selected_index {
                    Some(i) => Some(
                        if i + 1 < old(self).results@.len() {
                            (i + 1) as usize
                        } else {
                            (old(self).results@.len() - 1) as usize
                        },
                    ),
                    None => Some(0usize),
                }
            },
    {
        if self.results.len() == 0 {
            return;
        }
        let last = self.results.len() - 1;
        self.selected_index = match self.selected_index {
            Some(i) => Some(if i < last { i + 1 } else { last }),
            None => Some(0),
        };
    }

    /// Arrow-up: the previous hit, stopping at the first; the first hit
    /// when none is selected. Nothing changes without hits.
    pub fn select_prev(&mut self)
        ensures
            final(self).query == old(self).query,
            final(self).results == old(self).results,
            final(self).last_run_query == old(self).last_run_query,
            final(self).selected_index == if old(self).results@.len() == 0 {
                old(self).selected_index
            } else {
                match old(self).selected_index {
                    Some(i) => Some(if i > 0 { (i - 1) as usize } else { 0usize }),
                    None => Some(0usize),
                }
            },
    {
        if self.results.len() == 0 {
            return;
        }
        self.selected_index = match self.selected_index {
            Some(i) => Some(if i > 0 { i - 1 } else { 0 }),
            None => Some(0),
        };
    }

    /// Enter: the id of the selected hit's note, if a hit is selected.
    pub fn chosen_id(&self) -> (r: Option<String>)
        ensures
            match self.selected_index {
                Some(i) if i < self.results@.len() => r matches Some(id) && id@ == self.results@[i as int].note.id@,
                _ => r is None,
            },
    {
        match self.selected_index {
            Some(i) => if i < self.results.len() {
                Some(self.results[i].note.id.clone())
            } else {
                None
            },
            None => None,
        }
    }

    /// The clear button: no query, no hits, nothing selected.
    pub fn clear(&mut self)
        ensures
            final(self).query@.len() == 0,
            final(self).results@.len() == 0,
            final(self).selected_index is None,
            final(self).last_run_query == old(self).last_run_query,
    {
        self.query = String::new();
        self.results = Vec::new();
        self.selected_index = None;
    }

    /// Runs the query against the directory's published notes, unless it
    /// was already run. A blank query clears the hits; otherwise the hits
    /// are the notes scoring above zero for the lower-cased query, best
    /// first (ties in note order), and the first one is selected. A note
    /// whose score, or whose title's fuzzy count, would not fit in `i32`
    /// (see `scorable`) is left out.
    pub fn search(&mut self, note_directory: &NoteDirectory)
        ensures
            old(self).query@ == old(self).last_run_query@ ==> *final(self) == *old(self),
            old(self).query@ != old(self).last_run_query@ ==> {
                &&& final(self).query == old(self).query
                &&& final(self).last_run_query@ == old(self).query@
                &&& trim(old(self).query@).len() == 0 ==> final(self).results@.len() == 0
                    && final(self).selected_index is None
                &&& trim(old(self).query@).len() != 0 ==> {
                    let q = lowercase(old(self).query@);
                    let ns = published(note_seq(note_directory.notes@));
                    let ranking = search_ranking(q, ns);
                    &&& final(self).results@.len() == ranking.len()
                    &&& forall|k: int|
                        0 <= k < ranking.len() ==> shows_hit(#[trigger] final(self).results@[k], q, ns, ranking[k])
                    &&& final(self).selected_index == if ranking.len() == 0 {
                        None::<usize>
                    } else {
                        Some(0usize)
                    }
                }
            },
    {
        if str_eq_query(self.query.as_str(), self.last_run_query.as_str()) {
            return;
        }
        self.last_run_query = self.query.clone();
        if is_blank(self.query.as_str()) {
            self.results = Vec::new();
            self.selected_index = None;
            return;
        }
        let q = to_lowercase(self.query.as_str());
        let pubs = note_directory.published_notes();
        let ghost ns = note_seq(pubs@);
        let mut ranked: Vec<(usize, i32)> = Vec::new();
        let mut bodies: Vec<(String, Option<usize>, usize)> = Vec::new();
        let mut i: usize = 0;
        while i < pubs.len()
            invariant
                i <= pubs@.len(),
                ns == note_seq(pubs@),
                ranked@ == sort_desc(scored_notes(q@, ns.take(i as int))),
                bodies@.len() == i,
                forall|m: int| 0 <= m < i && scorable(q@, #[trigger] ns[m]) ==> {
                    let b = spec_score_body(q@, ns[m].content@);
                    &&& bodies@[m].0@ == b.1
                    &&& opt_usize(bodies@[m].1) == b.2
                    &&& bodies@[m].2 as int == b.3
                },
            decreases pubs@.len() - i,
        {
            let ghost prefix = ns.take(i as int);
            assert(ns.take(i + 1).drop_last() =~= prefix);
            assert(ns.take(i + 1).last() == ns[i as int]);
            assert(ns[i as int] == *pubs@[i as int]);
            match score_note(q.as_str(), &pubs[i]) {
                Some((s, snip, off, len)) => {
                    if s > 0 {
                        let ghost sc = scored_notes(q@, prefix);
                        assert(scored_notes(q@, ns.take(i + 1)) == sc.push((i, s)));
                        assert(sort_desc(sc.push((i, s))) == insert_desc(sort_desc(sc), (i, s))) by {
                            assert(sc.push((i, s)).drop_last() =~= sc);
                        }
                        insert_ranked(&mut ranked, (i, s));
                    }
                    bodies.push((snip, off, len));
                },
                None => {
                    bodies.push((String::new(), None, 0));
                },
            }
            i = i + 1;
        }
        assert(ns.take(ns.len() as int) =~= ns);
        proof {
            lemma_sort_desc_members(scored_notes(q@, ns));
            lemma_scored_members(q@, ns);
        }
        let ghost ranking = ranked@;
        let mut results: Vec<SearchResult> = Vec::new();
        let mut k: usize = 0;
        while k < ranked.len()
            invariant
                k <= ranked@.len(),
                ranked@ == ranking,
                ranking == search_ranking(q@, ns),
                ns == note_seq(pubs@),
                bodies@.len() == ns.len(),
                results@.len() == k,
                forall|a: int| 0 <= a < ranking.len() ==> exists|m: int|
                    0 <= m < scored_notes(q@, ns).len() && scored_notes(q@, ns)[m] == #[trigger] ranking[a],
                forall|m: int| #![trigger scored_notes(q@, ns)[m]] 0 <= m < scored_notes(q@, ns).len() ==> {
                    let e = scored_notes(q@, ns)[m];
                    &&& 0 <= e.0 < ns.len()
                    &&& scorable(q@, ns[e.0 as int])
                },
                forall|m: int| 0 <= m < ns.len() && scorable(q@, #[trigger] ns[m]) ==> {
                    let b = spec_score_body(q@, ns[m].content@);
                    &&& bodies@[m].0@ == b.1
                    &&& opt_usize(bodies@[m].1) == b.2
                    &&& bodies@[m].2 as int == b.3
                },
                forall|a: int| 0 <= a < k ==> shows_hit(#[trigger] results@[a], q@, ns, ranking[a]),
            decreases ranking.len() - k,
        {
            let (idx, score) = ranked[k];
            proof {
                let m = choose|m: int|
                    0 <= m < scored_notes(q@, ns).len() && scored_notes(q@, ns)[m] == ranking[k as int];
                assert(scored_notes(q@, ns)[m] == ranking[k as int]);
            }
            assert(ns[idx as int] == *pubs@[idx as int]);
            let hit = SearchResult {
                note: Arc::clone(&pubs[idx]),
                snippet: bodies[idx].0.clone(),
                match_offset: bodies[idx].1,
                match_len: bodies[idx].2,
                score,
            };
            results.push(hit);
            k = k + 1;
        }
        self.results = results;
        self.selected_index = if self.results.len() == 0 {
            None
        } else {
            Some(0)
        };
    }
}

/// Whether two strings hold the same text.
fn str_eq_query(a: &str, b: &str) -> (r: bool)
    ensures
        r == (a@ == b@),
{
    crate::text::str_eq(a, b)
}

/// Search hits come best first, and each is a note that scores above
/// zero for the query, shown with that score.
pub proof fn law_search_ranking(q: Seq<char>, ns: Seq<Note>)
    requires
        ns.len() <= usize::MAX,
    ensures
        forall|a: int, b: int|
            0 <= a < b < search_ranking(q, ns).len() ==> search_ranking(q, ns)[a].1 >= search_ranking(
                q,
                ns,
            )[b].1,
        forall|a: int| #![trigger search_ranking(q, ns)[a]] 0 <= a < search_ranking(q, ns).len() ==> {
            let e = search_ranking(q, ns)[a];
            &&& 0 <= e.0 < ns.len()
            &&& scorable(q, ns[e.0 as int])
            &&& e.1 == note_score(q, ns[e.0 as int])
            &&& e.1 > 0
        },
{
    law_sort_desc_sorted(scored_notes(q, ns));
    lemma_sort_desc_members(scored_notes(q, ns));
    lemma_scored_members(q, ns);
    assert forall|a: int| #![trigger search_ranking(q, ns)[a]] 0 <= a < search_ranking(q, ns).len() implies {
        let e = search_ranking(q, ns)[a];
        &&& 0 <= e.0 < ns.len()
        &&& scorable(q, ns[e.0 as int])
        &&& e.1 == note_score(q, ns[e.0 as int])
        &&& e.1 > 0
    } by {
        let m = choose|m: int|
            0 <= m < scored_notes(q, ns).len() && scored_notes(q, ns)[m] == search_ranking(q, ns)[a];
        assert(scored_notes(q, ns)[m] == search_ranking(q, ns)[a]);
    }
}

/// Tag scores: a tag equal to the query (leading `#`s dropped) scores
/// 300; a tag holding the query anywhere inside it, at its start, its end
/// or in the middle, scores at least 150; a tag that scores holds the
/// query somewhere and scores 300 or 150, 300 exactly when it is the
/// query; and a leading `#` on the query changes nothing.
pub proof fn law_tag_score(q: Seq<char>, pre: Seq<char>, post: Seq<char>, tag: Seq<char>)
    ensures
        spec_score_tag(q, strip_hashes(q)) == Some(300i32),
        spec_score_tag(q, pre + strip_hashes(q) + post) matches Some(v) && v >= 150,
        spec_score_tag(q, tag) matches Some(v) ==> (v == 300 || v == 150) && (v == 300 <==> tag == strip_hashes(q)),
        spec_score_tag(q, tag) is Some ==> exists|p: int| occurs_at(encode_utf8(tag), encode_utf8(strip_hashes(q)), p),
        spec_score_tag(seq!['#'] + q, tag) == spec_score_tag(q, tag),
{
    let s = strip_hashes(q);
    lemma_encode_concat(pre + s, post);
    lemma_encode_concat(pre, s);
    let h = encode_utf8(pre + s + post);
    let n = encode_utf8(s);
    let p = encode_utf8(pre).len() as int;
    assert(h.subrange(p, p + n.len()) =~= n);
    assert(occurs_at(h, n, p));
    lemma_find_some(h, n);
    lemma_find_some(encode_utf8(tag), n);
    if tag == s {
        assert(encode_utf8(tag).subrange(0, n.len() as int) =~= n);
        assert(occurs_at(encode_utf8(tag), n, 0));
    } else if spec_contains(tag, s) {
        let w = spec_find(encode_utf8(tag), n)->0;
        assert(occurs_at(encode_utf8(tag), n, w));
    }
    assert((seq!['#'] + q).drop_first() =~= q);
    assert(strip_hashes(seq!['#'] + q) == s);
}

} // verus!
