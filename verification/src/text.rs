//! Character-level text helpers shared by the parsers and scorers.
//!
//! Text is modelled as `Seq<char>`; byte offsets into a string are the
//! lengths of the UTF-8 encodings of its prefixes (`byte_len`).
use vstd::prelude::*;
use vstd::utf8::*;

use crate::digital_garden::search::{is_whitespace, spec_is_whitespace};

verus! {

broadcast use vstd::utf8::char_is_scalar;

/// Number of bytes in the UTF-8 encoding of `c`.
pub open spec fn utf8_width(c: char) -> nat {
    encode_scalar(c as u32).len()
}

/// Number of bytes in the UTF-8 encoding of `s`.
pub open spec fn byte_len(s: Seq<char>) -> nat {
    encode_utf8(s).len()
}

/// Encoding distributes over concatenation.
pub proof fn lemma_encode_concat(a: Seq<char>, b: Seq<char>)
    ensures
        encode_utf8(a + b) == encode_utf8(a) + encode_utf8(b),
    decreases a.len(),
{
    if a.len() == 0 {
        assert(a + b =~= b);
        assert(encode_utf8(a) =~= Seq::<u8>::empty());
        assert(encode_utf8(a) + encode_utf8(b) =~= encode_utf8(b));
    } else {
        assert((a + b).drop_first() =~= a.drop_first() + b);
        assert((a + b)[0] == a[0]);
        lemma_encode_concat(a.drop_first(), b);
        assert(encode_utf8(a + b) =~= encode_scalar(a[0] as u32) + encode_utf8(a.drop_first() + b));
        assert(encode_scalar(a[0] as u32) + (encode_utf8(a.drop_first()) + encode_utf8(b))
            =~= (encode_scalar(a[0] as u32) + encode_utf8(a.drop_first())) + encode_utf8(b));
    }
}

/// Byte length of a concatenation.
pub proof fn lemma_byte_len_concat(a: Seq<char>, b: Seq<char>)
    ensures
        byte_len(a + b) == byte_len(a) + byte_len(b),
{
    lemma_encode_concat(a, b);
}

/// Byte length of a one-character sequence.
pub proof fn lemma_byte_len_single(c: char)
    ensures
        byte_len(seq![c]) == utf8_width(c),
{
    assert(seq![c].drop_first() =~= Seq::<char>::empty());
    assert(encode_utf8(Seq::<char>::empty()) =~= Seq::<u8>::empty());
    assert(encode_utf8(seq![c]) =~= encode_scalar(c as u32) + Seq::<u8>::empty());
    assert(encode_scalar(c as u32) + Seq::<u8>::empty() =~= encode_scalar(c as u32));
}

/// Byte length grows by the pushed character's width.
pub proof fn lemma_byte_len_push(s: Seq<char>, c: char)
    ensures
        byte_len(s.push(c)) == byte_len(s) + utf8_width(c),
{
    assert(s.push(c) =~= s + seq![c]);
    lemma_byte_len_concat(s, seq![c]);
    lemma_byte_len_single(c);
}

/// Every character takes between one and four bytes.
pub proof fn lemma_width_bounds(c: char)
    ensures
        1 <= utf8_width(c) <= 4,
{
}

/// The byte length of a prefix is monotone in the prefix length.
pub proof fn lemma_byte_len_prefix_mono(s: Seq<char>, i: int, j: int)
    requires
        0 <= i <= j <= s.len(),
    ensures
        byte_len(s.take(i)) <= byte_len(s.take(j)),
        i < j ==> byte_len(s.take(i)) < byte_len(s.take(j)),
{
    assert(s.take(j) =~= s.take(i) + s.subrange(i, j));
    lemma_byte_len_concat(s.take(i), s.subrange(i, j));
    if i < j {
        assert(s.subrange(i, j) =~= seq![s[i]] + s.subrange(i + 1, j));
        lemma_byte_len_concat(seq![s[i]], s.subrange(i + 1, j));
        lemma_byte_len_single(s[i]);
    }
}

/// Byte length is at least the number of characters.
pub proof fn lemma_byte_len_ge_len(s: Seq<char>)
    ensures
        s.len() <= byte_len(s),
    decreases s.len(),
{
    if s.len() > 0 {
        let t = s.drop_last();
        assert(s =~= t.push(s.last()));
        lemma_byte_len_push(t, s.last());
        lemma_byte_len_ge_len(t);
    } else {
        assert(encode_utf8(s) =~= Seq::<u8>::empty());
    }
}

/// ASCII text has one byte per character.
pub proof fn lemma_byte_len_ascii(s: Seq<char>)
    requires
        forall|i: int| 0 <= i < s.len() ==> (s[i] as u32) < 128,
    ensures
        byte_len(s) == s.len(),
    decreases s.len(),
{
    if s.len() > 0 {
        let t = s.drop_last();
        assert(s =~= t.push(s.last()));
        lemma_byte_len_push(t, s.last());
        lemma_byte_len_ascii(t);
    } else {
        assert(encode_utf8(s) =~= Seq::<u8>::empty());
    }
}

/// The UTF-8 width of a character.
pub fn char_width(c: char) -> (w: usize)
    ensures
        w == utf8_width(c),
        1 <= w <= 4,
{
    let u: u32 = c as u32;
    if u < 0x80 {
        1
    } else if u < 0x800 {
        2
    } else if u < 0x10000 {
        3
    } else {
        4
    }
}

/// `String::push`: appends one character to the end of the string.
#[verifier::external_body]
pub(crate) fn push_char(s: &mut String, c: char)
    ensures
        final(s)@ == old(s)@.push(c),
{
    s.push(c)
}

/// Appends all of `cs` to `s`.
pub(crate) fn push_all(s: &mut String, cs: &Vec<char>)
    ensures
        final(s)@ == old(s)@ + cs@,
{
    let mut j: usize = 0;
    while j < cs.len()
        invariant
            j <= cs@.len(),
            s@ == old(s)@ + cs@.take(j as int),
        decreases cs@.len() - j,
    {
        push_char(s, cs[j]);
        assert(cs@.take(j + 1) =~= cs@.take(j as int).push(cs@[j as int]));
        j = j + 1;
    }
    assert(cs@.take(cs@.len() as int) =~= cs@);
}

/// The characters of `s`, in order.
pub fn chars_of(s: &str) -> (v: Vec<char>)
    ensures
        v@ == s@,
{
    let mut v: Vec<char> = Vec::new();
    let n = s.unicode_len();
    let mut i: usize = 0;
    while i < n
        invariant
            n == s@.len(),
            i <= n,
            v@ == s@.take(i as int),
        decreases n - i,
    {
        let c = s.get_char(i);
        v.push(c);
        assert(s@.take(i + 1) =~= s@.take(i as int).push(c));
        i = i + 1;
    }
    assert(s@.take(n as int) =~= s@);
    v
}

/// A string holding exactly the characters `cs`.
pub fn string_of(cs: &[char]) -> (r: String)
    ensures
        r@ == cs@,
{
    let mut r = String::new();
    let mut i: usize = 0;
    while i < cs.len()
        invariant
            i <= cs@.len(),
            r@ == cs@.take(i as int),
        decreases cs@.len() - i,
    {
        push_char(&mut r, cs[i]);
        assert(cs@.take(i + 1) =~= cs@.take(i as int).push(cs@[i as int]));
        i = i + 1;
    }
    assert(cs@.take(cs@.len() as int) =~= cs@);
    r
}

/// A string holding the characters of `cs` from `lo` up to `hi`.
pub fn string_between(cs: &[char], lo: usize, hi: usize) -> (r: String)
    requires
        lo <= hi <= cs@.len(),
    ensures
        r@ == cs@.subrange(lo as int, hi as int),
{
    let mut r = String::new();
    let mut i: usize = lo;
    while i < hi
        invariant
            lo <= i <= hi <= cs@.len(),
            r@ == cs@.subrange(lo as int, i as int),
        decreases hi - i,
    {
        push_char(&mut r, cs[i]);
        assert(cs@.subrange(lo as int, i + 1) =~= cs@.subrange(lo as int, i as int).push(cs@[i as int]));
        i = i + 1;
    }
    r
}

/// Whether two strings hold the same characters.
pub fn str_eq(a: &str, b: &str) -> (r: bool)
    ensures
        r == (a@ == b@),
{
    let av = chars_of(a);
    let bv = chars_of(b);
    chars_eq(&av, &bv)
}

/// Whether two character slices are equal.
pub fn chars_eq(a: &[char], b: &[char]) -> (r: bool)
    ensures
        r == (a@ == b@),
{
    if a.len() != b.len() {
        return false;
    }
    let mut i: usize = 0;
    while i < a.len()
        invariant
            a@.len() == b@.len(),
            i <= a@.len(),
            forall|k: int| 0 <= k < i ==> a@[k] == b@[k],
        decreases a@.len() - i,
    {
        if a[i] != b[i] {
            return false;
        }
        i = i + 1;
    }
    assert(a@ =~= b@);
    true
}


/// `n` occurs in `h` starting at index `p`.
pub open spec fn occurs_at<T>(h: Seq<T>, n: Seq<T>, p: int) -> bool {
    0 <= p && p + n.len() <= h.len() && h.subrange(p, p + n.len()) == n
}

/// The first index at which `n` occurs in `h` (0 for an empty `n`).
#[verifier::opaque]
pub open spec fn spec_find<T>(h: Seq<T>, n: Seq<T>) -> Option<int> {
    if exists|p: int| occurs_at(h, n, p) {
        Some(choose|p: int| occurs_at(h, n, p) && forall|q: int| 0 <= q < p ==> !occurs_at(h, n, q))
    } else {
        None
    }
}

pub proof fn lemma_find_hit<T>(h: Seq<T>, n: Seq<T>, p: int)
    requires
        occurs_at(h, n, p),
        forall|q: int| 0 <= q < p ==> !occurs_at(h, n, q),
    ensures
        spec_find(h, n) == Some(p),
{
    reveal(spec_find);
    let w = choose|w: int| occurs_at(h, n, w) && forall|q: int| 0 <= q < w ==> !occurs_at(h, n, q);
    assert(occurs_at(h, n, p) && forall|q: int| 0 <= q < p ==> !occurs_at(h, n, q));
    if w < p {
        assert(!occurs_at(h, n, w));
    } else if w > p {
        assert(!occurs_at(h, n, p));
    }
}

pub proof fn lemma_find_miss<T>(h: Seq<T>, n: Seq<T>)
    requires
        forall|q: int| !occurs_at(h, n, q),
    ensures
        spec_find(h, n) is None,
{
    reveal(spec_find);
}

proof fn lemma_first_occurrence<T>(h: Seq<T>, n: Seq<T>, p: int)
    requires
        occurs_at(h, n, p),
    ensures
        exists|w: int| occurs_at(h, n, w) && forall|q: int| 0 <= q < w ==> !occurs_at(h, n, q),
    decreases p,
{
    if exists|q: int| 0 <= q < p && occurs_at(h, n, q) {
        let q = choose|q: int| 0 <= q < p && occurs_at(h, n, q);
        lemma_first_occurrence(h, n, q);
    } else {
        assert(occurs_at(h, n, p) && forall|q: int| 0 <= q < p ==> !occurs_at(h, n, q));
    }
}

/// Facts about a found position.
pub proof fn lemma_find_some<T>(h: Seq<T>, n: Seq<T>)
    ensures
        spec_find(h, n) matches Some(p) ==> occurs_at(h, n, p) && forall|q: int|
            0 <= q < p ==> !occurs_at(h, n, q),
        spec_find(h, n) is None ==> forall|q: int| !occurs_at(h, n, q),
{
    reveal(spec_find);
    if exists|p: int| occurs_at(h, n, p) {
        let p = choose|p: int| occurs_at(h, n, p);
        lemma_first_occurrence(h, n, p);
    }
}

/// Byte search: the first index at which `n` occurs in `h`.
pub fn find_bytes(h: &[u8], n: &[u8]) -> (r: Option<usize>)
    ensures
        match r {
            Some(p) => spec_find(h@, n@) == Some(p as int),
            None => spec_find(h@, n@) is None,
        },
{
    if n.len() > h.len() {
        proof {
            lemma_find_miss(h@, n@);
        }
        return None;
    }
    let hlen = h.len();
    let last = h.len() - n.len();
    let mut p: usize = 0;
    loop
        invariant
            hlen == h@.len(),
            last == h@.len() - n@.len(),
            p <= last,
            forall|q: int| 0 <= q < p ==> !occurs_at(h@, n@, q),
        ensures
            forall|q: int| 0 <= q <= last ==> !occurs_at(h@, n@, q),
        decreases last - p,
    {
        let mut j: usize = 0;
        let mut ok = true;
        while j < n.len()
            invariant
                hlen == h@.len(),
                p <= last,
                last == h@.len() - n@.len(),
                j <= n@.len(),
                ok == (forall|k: int| 0 <= k < j ==> h@[p + k] == n@[k]),
            decreases n@.len() - j,
        {
            if h[p + j] != n[j] {
                ok = false;
            }
            j = j + 1;
        }
        if ok {
            assert(h@.subrange(p as int, p + n@.len()) =~= n@);
            proof {
                lemma_find_hit(h@, n@, p as int);
            }
            return Some(p);
        }
        assert(!occurs_at(h@, n@, p as int)) by {
            let k = choose|k: int| 0 <= k < n@.len() && h@[p + k] != n@[k];
            if occurs_at(h@, n@, p as int) {
                assert(h@.subrange(p as int, p + n@.len())[k] == h@[p + k]);
            }
        }
        if p == last {
            break;
        }
        p = p + 1;
    }
    proof {
        assert forall|q: int| !occurs_at(h@, n@, q) by {
            if q > last {
                assert(q + n@.len() > h@.len());
            }
        }
        lemma_find_miss(h@, n@);
    }
    None
}

/// Character search: the first index at which `n` occurs in `h`.
pub fn find_chars(h: &[char], n: &[char]) -> (r: Option<usize>)
    ensures
        match r {
            Some(p) => spec_find(h@, n@) == Some(p as int),
            None => spec_find(h@, n@) is None,
        },
{
    if n.len() > h.len() {
        proof {
            lemma_find_miss(h@, n@);
        }
        return None;
    }
    let hlen = h.len();
    let last = h.len() - n.len();
    let mut p: usize = 0;
    loop
        invariant
            hlen == h@.len(),
            last == h@.len() - n@.len(),
            p <= last,
            forall|q: int| 0 <= q < p ==> !occurs_at(h@, n@, q),
        ensures
            forall|q: int| 0 <= q <= last ==> !occurs_at(h@, n@, q),
        decreases last - p,
    {
        let mut j: usize = 0;
        let mut ok = true;
        while j < n.len()
            invariant
                hlen == h@.len(),
                p <= last,
                last == h@.len() - n@.len(),
                j <= n@.len(),
                ok == (forall|k: int| 0 <= k < j ==> h@[p + k] == n@[k]),
            decreases n@.len() - j,
        {
            if h[p + j] != n[j] {
                ok = false;
            }
            j = j + 1;
        }
        if ok {
            assert(h@.subrange(p as int, p + n@.len()) =~= n@);
            proof {
                lemma_find_hit(h@, n@, p as int);
            }
            return Some(p);
        }
        assert(!occurs_at(h@, n@, p as int)) by {
            let k = choose|k: int| 0 <= k < n@.len() && h@[p + k] != n@[k];
            if occurs_at(h@, n@, p as int) {
                assert(h@.subrange(p as int, p + n@.len())[k] == h@[p + k]);
            }
        }
        if p == last {
            break;
        }
        p = p + 1;
    }
    proof {
        assert forall|q: int| !occurs_at(h@, n@, q) by {
            if q > last {
                assert(q + n@.len() > h@.len());
            }
        }
        lemma_find_miss(h@, n@);
    }
    None
}


/// What `str::to_lowercase` makes of a string (Unicode lowercase mapping).
pub uninterp spec fn lowercase(s: Seq<char>) -> Seq<char>;

/// `str::to_lowercase`: the Unicode lowercase of the string. Only named
/// here (`lowercase`); the mapping table is not restated. Like every
/// `String`, the result holds at most `isize::MAX` bytes.
#[verifier::external_body]
pub(crate) fn to_lowercase(s: &str) -> (r: String)
    ensures
        r@ == lowercase(s@),
        byte_len(r@) <= isize::MAX,
{
    s.to_lowercase()
}


/// Whether `char::is_alphanumeric` holds of `c` (the Unicode Alphabetic
/// or Numeric property).
pub uninterp spec fn alphanumeric(c: char) -> bool;

/// `char::is_alphanumeric`. Only named here (`alphanumeric`); the
/// Unicode property tables are not restated.
#[verifier::external_body]
pub(crate) fn is_alphanumeric(c: char) -> (r: bool)
    ensures
        r == alphanumeric(c),
{
    c.is_alphanumeric()
}

/// The characters that `char::to_uppercase` yields for `c` (its Unicode
/// uppercase mapping, one to three characters).
pub uninterp spec fn uppercase(c: char) -> Seq<char>;

/// `char::to_uppercase`, collected. Only named here (`uppercase`).
#[verifier::external_body]
pub(crate) fn to_uppercase(c: char) -> (r: Vec<char>)
    ensures
        r@ == uppercase(c),
{
    c.to_uppercase().collect()
}

// ---------- trimming and lines ----------

/// `s` without leading white space.
pub open spec fn trim_start(s: Seq<char>) -> Seq<char>
    decreases s.len(),
{
    if s.len() > 0 && spec_is_whitespace(s[0]) {
        trim_start(s.drop_first())
    } else {
        s
    }
}

/// `s` without trailing white space.
pub open spec fn trim_end(s: Seq<char>) -> Seq<char>
    decreases s.len(),
{
    if s.len() > 0 && spec_is_whitespace(s.last()) {
        trim_end(s.drop_last())
    } else {
        s
    }
}

/// `s` without leading or trailing white space (as `str::trim`).
pub open spec fn trim(s: Seq<char>) -> Seq<char> {
    trim_end(trim_start(s))
}

/// The bounds `(a, b)` of `trim_end(s.subrange(lo, hi))` within `s`.
pub fn trim_end_range(s: &[char], lo: usize, hi: usize) -> (r: usize)
    requires
        lo <= hi <= s@.len(),
    ensures
        lo <= r <= hi,
        trim_end(s@.subrange(lo as int, hi as int)) == s@.subrange(lo as int, r as int),
{
    let mut b = hi;
    while b > lo && is_whitespace(s[b - 1])
        invariant
            lo <= b <= hi,
            hi <= s@.len(),
            trim_end(s@.subrange(lo as int, hi as int)) == trim_end(s@.subrange(lo as int, b as int)),
        decreases b,
    {
        assert(s@.subrange(lo as int, b - 1) =~= s@.subrange(lo as int, b as int).drop_last());
        b = b - 1;
    }
    b
}

/// The bounds of `trim(s.subrange(lo, hi))` within `s`.
pub fn trim_range(s: &[char], lo: usize, hi: usize) -> (r: (usize, usize))
    requires
        lo <= hi <= s@.len(),
    ensures
        lo <= r.0 <= r.1 <= hi,
        trim(s@.subrange(lo as int, hi as int)) == s@.subrange(r.0 as int, r.1 as int),
{
    let mut a = lo;
    while a < hi && is_whitespace(s[a])
        invariant
            lo <= a <= hi,
            hi <= s@.len(),
            trim_start(s@.subrange(lo as int, hi as int)) == trim_start(s@.subrange(a as int, hi as int)),
        decreases hi - a,
    {
        assert(s@.subrange(a + 1, hi as int) =~= s@.subrange(a as int, hi as int).drop_first());
        a = a + 1;
    }
    assert(trim_start(s@.subrange(a as int, hi as int)) == s@.subrange(a as int, hi as int));
    let b = trim_end_range(s, a, hi);
    (a, b)
}

/// A line without its line ending: a trailing `\r` goes only together
/// with the `\n` that ended the line.
pub open spec fn strip_cr(line: Seq<char>) -> Seq<char> {
    if line.len() > 0 && line.last() == '\r' {
        line.drop_last()
    } else {
        line
    }
}

/// The lines of `s`, as `str::lines` yields them: split at `\n`,
/// dropping a `\r` before it; a final line ending adds no empty line.
pub open spec fn spec_lines(s: Seq<char>) -> Seq<Seq<char>>
    decreases s.len(),
{
    if s.len() == 0 {
        Seq::empty()
    } else {
        match spec_find(s, seq!['\n']) {
            None => seq![s],
            Some(i) => if 0 <= i < s.len() {
                seq![strip_cr(s.take(i))] + spec_lines(s.skip(i + 1))
            } else {
                Seq::empty()
            },
        }
    }
}

} // verus!
