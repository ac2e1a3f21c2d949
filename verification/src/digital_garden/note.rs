//! Notes: their metadata, titles, and the wiki-links in their bodies.
use vstd::prelude::*;

use crate::instant::UtcInstant;
use crate::text::{
    alphanumeric, chars_of, find_chars, is_alphanumeric, lemma_find_some, occurs_at, push_all,
    push_char, spec_find, string_of, to_uppercase, trim, trim_range, uppercase,
};

verus! {

/// A `[[wiki-link]]` found in a note.
#[derive(Debug, Clone, PartialEq, Eq, Hash)]
pub struct NoteLink {
    /// The target note id.
    pub target_id: String,
    /// The text shown for the link.
    pub display_text: String,
    /// Whether this is an embed (`![[...]]`).
    pub is_embed: bool,
}

/// Target, display text and embed flag of a link.
pub type LinkView = (Seq<char>, Seq<char>, bool);

pub open spec fn link_view(l: NoteLink) -> LinkView {
    (l.target_id@, l.display_text@, l.is_embed)
}

pub open spec fn open_brackets() -> Seq<char> {
    seq!['[', '[']
}

pub open spec fn close_brackets() -> Seq<char> {
    seq![']', ']']
}

/// The link written as `text` between the brackets: `target|display`,
/// or just `target` (shown as itself); both parts trimmed.
pub open spec fn parse_link(text: Seq<char>, embed: bool) -> LinkView {
    match spec_find(text, seq!['|']) {
        Some(p) => (trim(text.take(p)), trim(text.skip(p + 1)), embed),
        None => (trim(text), trim(text), embed),
    }
}

/// The links found scanning `c` from `pos`: each `[[` up to the next
/// `]]`, scanning on after the `]]`; an unclosed `[[` ends the scan. An
/// embed is a link right after `!`. `None` when a link follows a
/// non-ASCII character, where the byte-wise check for `!` cannot be made.
pub open spec fn links_from(c: Seq<char>, pos: int, acc: Seq<LinkView>) -> Option<Seq<LinkView>>
    decreases c.len() - pos,
{
    if pos < 0 || pos > c.len() {
        Some(acc)
    } else {
        match spec_find(c.skip(pos), open_brackets()) {
            None => Some(acc),
            Some(s0) => {
                let start = pos + s0;
                match spec_find(c.skip(start), close_brackets()) {
                    None => Some(acc),
                    Some(e0) => {
                        let end = start + e0;
                        if start > 0 && start <= c.len() && (c[start - 1] as u32) >= 128 {
                            None
                        } else if end + 2 <= pos || end + 2 > c.len() || end < start + 2 {
                            Some(acc)
                        } else {
                            links_from(
                                c,
                                end + 2,
                                acc.push(
                                    parse_link(
                                        c.subrange(start + 2, end),
                                        start > 0 && c[start - 1] == '!',
                                    ),
                                ),
                            )
                        }
                    },
                }
            },
        }
    }
}

/// The content has no link right after a non-ASCII character (where
/// slicing the text by bytes, as link scanning does, would not land on a
/// character boundary).
pub open spec fn links_scannable(c: Seq<char>) -> bool {
    links_from(c, 0, Seq::empty()) is Some
}

pub(crate) fn make_link(cv: &Vec<char>, lo: usize, hi: usize, embed: bool) -> (r: NoteLink)
    requires
        lo <= hi <= cv@.len(),
    ensures
        link_view(r) == parse_link(cv@.subrange(lo as int, hi as int), embed),
{
    let text = &cv.as_slice()[lo..hi];
    assert(text@ =~= cv@.subrange(lo as int, hi as int));
    let bar = vec!['|'];
    proof {
        lemma_find_some(text@, seq!['|']);
    }
    assert(bar@ =~= seq!['|']);
    match find_chars(text, bar.as_slice()) {
        Some(p) => {
            assert(occurs_at(text@, seq!['|'], p as int));
            let (a, b) = trim_range(cv.as_slice(), lo, lo + p);
            let (c, d) = trim_range(cv.as_slice(), lo + p + 1, hi);
            assert(text@.take(p as int) =~= cv@.subrange(lo as int, lo + p));
            assert(text@.skip(p + 1) =~= cv@.subrange(lo + p + 1, hi as int));
            NoteLink {
                target_id: string_of(&cv.as_slice()[a..b]),
                display_text: string_of(&cv.as_slice()[c..d]),
                is_embed: embed,
            }
        },
        None => {
            let (a, b) = trim_range(cv.as_slice(), lo, hi);
            NoteLink {
                target_id: string_of(&cv.as_slice()[a..b]),
                display_text: string_of(&cv.as_slice()[a..b]),
                is_embed: embed,
            }
        },
    }
}

/// The links of `content` (see `links_from`), or `None` when a link
/// follows a non-ASCII character.
fn scan_links(content: &str) -> (r: Option<Vec<NoteLink>>)
    ensures
        match r {
            Some(v) => Some(v@.map_values(|l: NoteLink| link_view(l))) == links_from(content@, 0, Seq::empty()),
            None => links_from(content@, 0, Seq::empty()) is None,
        },
{
    let cv = chars_of(content);
    let mut links: Vec<NoteLink> = Vec::new();
    let mut pos: usize = 0;
    let open = vec!['[', '['];
    let close = vec![']', ']'];
    assert(open@ =~= open_brackets());
    assert(close@ =~= close_brackets());
    assert(links@.map_values(|l: NoteLink| link_view(l)) =~= Seq::<LinkView>::empty());
    loop
        invariant
            cv@ == content@,
            open@ == open_brackets(),
            close@ == close_brackets(),
            pos <= cv@.len(),
            links_from(content@, 0, Seq::empty()) == links_from(
                cv@,
                pos as int,
                links@.map_values(|l: NoteLink| link_view(l)),
            ),
        decreases cv@.len() - pos,
    {
        let ghost acc = links@.map_values(|l: NoteLink| link_view(l));
        let rest = &cv.as_slice()[pos..cv.len()];
        assert(rest@ =~= cv@.skip(pos as int));
        proof {
            lemma_find_some(rest@, open_brackets());
        }
        let s0 = match find_chars(rest, open.as_slice()) {
            None => {
                return Some(links);
            },
            Some(s0) => s0,
        };
        assert(occurs_at(rest@, open_brackets(), s0 as int));
        let start = pos + s0;
        let after = &cv.as_slice()[start..cv.len()];
        assert(after@ =~= cv@.skip(start as int));
        proof {
            lemma_find_some(after@, close_brackets());
        }
        let e0 = match find_chars(after, close.as_slice()) {
            None => {
                return Some(links);
            },
            Some(e0) => e0,
        };
        assert(occurs_at(after@, close_brackets(), e0 as int));
        let end = start + e0;
        if start > 0 && (cv[start - 1] as u32) >= 128 {
            return None;
        }
        if e0 < 2 {
            // The text at `start` is `[[`, so `]]` cannot begin there or
            // one character later.
            assert(after@.subrange(0, 2) == open_brackets()) by {
                assert(rest@.subrange(s0 as int, s0 + 2) =~= after@.subrange(0, 2));
            }
            assert(after@.subrange(e0 as int, e0 + 2) == close_brackets());
            if e0 == 0 {
                assert(after@.subrange(0, 2)[0] == after@[0]);
                assert(after@.subrange(e0 as int, e0 + 2)[0] == after@[0]);
            } else {
                assert(after@.subrange(0, 2)[1] == after@[1]);
                assert(after@.subrange(e0 as int, e0 + 2)[0] == after@[1]);
            }
            return Some(links);
        }
        let embed = start > 0 && cv[start - 1] == '!';
        let link = make_link(&cv, start + 2, end, embed);
        let ghost lv = link_view(link);
        links.push(link);
        assert(links@.map_values(|l: NoteLink| link_view(l)) =~= acc.push(lv));
        pos = end + 2;
    }
}

/// Every `[[target]]`, `[[target|display]]` and `![[embed]]` in `content`,
/// in order of appearance.
pub fn extract_links(content: &str) -> (r: Vec<NoteLink>)
    requires
        links_scannable(content@),
    ensures
        Some(r@.map_values(|l: NoteLink| link_view(l))) == links_from(content@, 0, Seq::empty()),
{
    match scan_links(content) {
        Some(v) => v,
        None => Vec::new(),
    }
}

// ---------- notes ----------

/// The metadata block at the top of a note.
#[derive(Debug, Clone)]
pub struct Frontmatter {
    /// Title of the note.
    pub title: Option<String>,
    /// Custom slug for the note's URL.
    pub slug: Option<String>,
    /// Whether the note is a draft.
    pub draft: bool,
    /// When the note was created.
    pub created: Option<UtcInstant>,
    /// When the note was last updated.
    pub updated: Option<UtcInstant>,
    /// Tags of the note.
    pub tags: Vec<String>,
}

impl Default for Frontmatter {
    /// No title, slug, dates or tags; not a draft.
    fn default() -> (f: Self)
        ensures
            f.title is None,
            f.slug is None,
            !f.draft,
            f.created is None,
            f.updated is None,
            f.tags@.len() == 0,
    {
        Frontmatter { title: None, slug: None, draft: false, created: None, updated: None, tags: Vec::new() }
    }
}

/// A note of the digital garden.
#[derive(Debug, Clone)]
pub struct Note {
    /// Unique identifier (the file name without extension).
    pub id: String,
    /// Path of the note file, relative to the notes directory.
    pub path: std::path::PathBuf,
    /// Its metadata.
    pub frontmatter: Frontmatter,
    /// The Markdown body.
    pub content: String,
    /// The wiki-links in the body.
    pub links: Vec<NoteLink>,
    /// Ids of the notes that link here.
    pub backlinks: Vec<String>,
}

/// `_` and `-` in a note id read as spaces.
pub open spec fn id_space(c: char) -> char {
    if c == '_' || c == '-' {
        ' '
    } else {
        c
    }
}

/// Title-casing the id `s` (separators read as spaces): the text so far
/// and whether the next alphanumeric character starts a word.
pub open spec fn title_case_state(s: Seq<char>) -> (Seq<char>, bool)
    decreases s.len(),
{
    if s.len() == 0 {
        (Seq::empty(), true)
    } else {
        let (out, cap) = title_case_state(s.drop_last());
        let c = id_space(s.last());
        if alphanumeric(c) {
            if cap {
                (out + uppercase(c), false)
            } else {
                (out.push(c), false)
            }
        } else {
            (out.push(c), true)
        }
    }
}

/// The title made from an id: `_` and `-` become spaces and each word's
/// first alphanumeric character is upper-cased.
pub open spec fn title_case(id: Seq<char>) -> Seq<char> {
    title_case_state(id).0
}

/// The title of a note: its frontmatter title, else its title-cased id.
pub open spec fn spec_title(n: Note) -> Seq<char> {
    match n.frontmatter.title {
        Some(t) => t@,
        None => title_case(n.id@),
    }
}

/// The slug of a note: its frontmatter slug, else its id.
pub open spec fn spec_slug(n: Note) -> Seq<char> {
    match n.frontmatter.slug {
        Some(s) => s@,
        None => n.id@,
    }
}

impl Note {
    /// The title of the note, falling back to its id in title case.
    pub fn title(&self) -> (r: String)
        ensures
            r@ == spec_title(*self),
    {
        match &self.frontmatter.title {
            Some(t) => t.clone(),
            None => {
                let cs = chars_of(&self.id);
                let mut title = String::new();
                let mut capitalize = true;
                let mut i: usize = 0;
                while i < cs.len()
                    invariant
                        i <= cs@.len(),
                        cs@ == self.id@,
                        (title@, capitalize) == title_case_state(cs@.take(i as int)),
                    decreases cs@.len() - i,
                {
                    assert(cs@.take(i + 1).drop_last() =~= cs@.take(i as int));
                    let raw = cs[i];
                    let c = if raw == '_' || raw == '-' {
                        ' '
                    } else {
                        raw
                    };
                    if is_alphanumeric(c) {
                        if capitalize {
                            let up = to_uppercase(c);
                            push_all(&mut title, &up);
                        } else {
                            push_char(&mut title, c);
                        }
                        capitalize = false;
                    } else {
                        push_char(&mut title, c);
                        capitalize = true;
                    }
                    i = i + 1;
                }
                assert(cs@.take(cs@.len() as int) =~= cs@);
                title
            },
        }
    }

    /// The slug of the note's URL: its frontmatter slug, else its id.
    pub fn slug(&self) -> (r: String)
        ensures
            r@ == spec_slug(*self),
    {
        match &self.frontmatter.slug {
            Some(s) => s.clone(),
            None => self.id.clone(),
        }
    }

    /// Whether the note is a draft.
    pub fn is_draft(&self) -> (r: bool)
        ensures
            r == self.frontmatter.draft,
    {
        self.frontmatter.draft
    }
}

// ---------- reading a note file ----------

/// The line that opens a frontmatter block, `---` with the content's
/// first line ending, and also closes it.
pub open spec fn fm_delimiter(c: Seq<char>) -> Option<Seq<char>> {
    if c.len() >= 4 && c.take(4) == seq!['-', '-', '-', '\n'] {
        Some(seq!['-', '-', '-', '\n'])
    } else if c.len() >= 5 && c.take(5) == seq!['-', '-', '-', '\r', '\n'] {
        Some(seq!['-', '-', '-', '\r', '\n'])
    } else {
        None
    }
}

/// The frontmatter text and the body after it, when the content opens
/// with a delimiter line that occurs again later.
pub open spec fn frontmatter_parts(c: Seq<char>) -> Option<(Seq<char>, Seq<char>)> {
    match fm_delimiter(c) {
        None => None,
        Some(d) => {
            let after = c.skip(d.len() as int);
            match spec_find(after, d) {
                None => None,
                Some(p) => Some((after.take(p), after.skip(p + d.len()))),
            }
        },
    }
}

/// Whether a note keeps its frontmatter: a block was found and `parsed`
/// holds what was read from it.
pub open spec fn keeps_frontmatter(content: Seq<char>, parsed: Option<Frontmatter>) -> bool {
    frontmatter_parts(content) is Some && parsed is Some
}

/// The body of a note: what follows the frontmatter block when the note
/// keeps its frontmatter, else the whole content.
pub open spec fn note_body(content: Seq<char>, parsed: Option<Frontmatter>) -> Seq<char> {
    if keeps_frontmatter(content, parsed) {
        frontmatter_parts(content).unwrap().1
    } else {
        content
    }
}

/// The frontmatter a note ends up with.
pub open spec fn note_frontmatter(f: Frontmatter, content: Seq<char>, parsed: Option<Frontmatter>) -> bool {
    if keeps_frontmatter(content, parsed) {
        f == parsed.unwrap()
    } else {
        f.title is None && f.slug is None && !f.draft && f.created is None && f.updated is None
            && f.tags@.len() == 0
    }
}

/// What a note read from `content` holds, besides its id and path.
pub open spec fn read_from(n: Note, content: Seq<char>, parsed: Option<Frontmatter>) -> bool {
    &&& note_frontmatter(n.frontmatter, content, parsed)
    &&& n.content@ == note_body(content, parsed)
    &&& Some(n.links@.map_values(|l: NoteLink| link_view(l))) == links_from(n.content@, 0, Seq::empty())
    &&& n.backlinks@.len() == 0
}

fn starts_with_chars(cv: &Vec<char>, p: &Vec<char>) -> (r: bool)
    ensures
        r == (cv@.len() >= p@.len() && cv@.take(p@.len() as int) == p@),
{
    if cv.len() < p.len() {
        return false;
    }
    let head = &cv.as_slice()[0..p.len()];
    assert(head@ =~= cv@.take(p@.len() as int));
    crate::text::chars_eq(head, p.as_slice())
}

/// Frontmatter text framed for the top of a note: `---`, a newline, the
/// YAML (which ends in its own newline), then `---` and a newline.
pub fn frame_frontmatter(yaml: &str) -> (r: String)
    ensures
        r@ == "---\n"@ + yaml@ + "---\n"@,
{
    let mut r = String::from_str("---\n");
    r.append(yaml);
    r.append("---\n");
    r
}

/// The frontmatter text of a note and the body after it: the content must
/// open with `---` and a line ending, and the same delimiter must occur
/// again; `None` otherwise.
pub fn split_frontmatter(content: &str) -> (r: Option<(String, String)>)
    ensures
        match r {
            Some((y, b)) => frontmatter_parts(content@) == Some((y@, b@)),
            None => frontmatter_parts(content@) is None,
        },
{
    let cv = chars_of(content);
    let lf = vec!['-', '-', '-', '\n'];
    let crlf = vec!['-', '-', '-', '\r', '\n'];
    assert(lf@ =~= seq!['-', '-', '-', '\n']);
    assert(crlf@ =~= seq!['-', '-', '-', '\r', '\n']);
    let d = if starts_with_chars(&cv, &lf) {
        lf
    } else if starts_with_chars(&cv, &crlf) {
        crlf
    } else {
        return None;
    };
    assert(fm_delimiter(content@) == Some(d@));
    let after = &cv.as_slice()[d.len()..cv.len()];
    assert(after@ =~= content@.skip(d@.len() as int));
    proof {
        lemma_find_some(after@, d@);
    }
    match find_chars(after, d.as_slice()) {
        None => None,
        Some(p) => {
            let y = string_of(&after[0..p]);
            let b = string_of(&after[p + d.len()..after.len()]);
            assert(after@.subrange(0, p as int) =~= after@.take(p as int));
            assert(after@.subrange(p + d@.len(), after@.len() as int) =~= after@.skip(p + d@.len()));
            Some((y, b))
        },
    }
}

/// `Path::file_stem`, as text: the file name without its extension. Path
/// syntax depends on the platform, so no result is promised here.
#[verifier::external_body]
fn file_stem_of(path: &std::path::PathBuf) -> (r: Option<String>) {
    path.file_stem().and_then(|s| s.to_str()).map(|s| s.to_string())
}

/// The `Debug` form of a path, as text. It depends on the platform's path
/// encoding, so no result is promised here.
#[verifier::external_body]
fn path_debug(path: &std::path::PathBuf) -> (r: String) {
    format!("{:?}", path)
}

impl Note {
    /// A note from its id, path and file content; `parsed` is the
    /// frontmatter read from the text `split_frontmatter` finds in the
    /// content, `None` when there is no such block or it did not parse.
    pub fn assemble(id: String, path: std::path::PathBuf, content: String, parsed: Option<Frontmatter>) -> (n: Note)
        requires
            links_scannable(note_body(content@, parsed)),
        ensures
            n.id@ == id@,
            n.path == path,
            read_from(n, content@, parsed),
    {
        let parts = split_frontmatter(content.as_str());
        let (frontmatter, body) = match (parts, parsed) {
            (Some((_, rest)), Some(f)) => (f, rest),
            (_, _) => (Frontmatter::default(), content),
        };
        let links = extract_links(body.as_str());
        Note { id, path, frontmatter, content: body, links, backlinks: Vec::new() }
    }

    /// The note stored at `path` whose file stem is `stem`: the stem
    /// becomes its id, and without one the file name is invalid. See
    /// `assemble` for `parsed`.
    pub fn from_stem(stem: Option<String>, path: &std::path::PathBuf, content: String, parsed: Option<Frontmatter>) -> (r: Result<Note, String>)
        requires
            links_scannable(note_body(content@, parsed)),
        ensures
            match stem {
                Some(s) => r matches Ok(n) && n.id@ == s@ && n.path == *path && read_from(n, content@, parsed),
                None => r matches Err(e) && e@.len() >= 18 && e@.take(18) == "Invalid filename: "@,
            },
    {
        match stem {
            Some(id) => Ok(Note::assemble(id, path.clone(), content, parsed)),
            None => {
                let mut e = "Invalid filename: ".to_owned();
                proof {
                    reveal_strlit("Invalid filename: ");
                }
                let ghost prefix = e@;
                let shown = chars_of(path_debug(path).as_str());
                push_all(&mut e, &shown);
                assert(e@.take(18) =~= prefix);
                Err(e)
            },
        }
    }

    /// The note stored at `path` with the given content: its id is the
    /// file stem (`Path::file_stem`, see `from_stem`), and a file name
    /// without one is an error. See `assemble` for `parsed`.
    pub fn from_file(path: &std::path::PathBuf, content: String, parsed: Option<Frontmatter>) -> (r: Result<Note, String>)
        requires
            links_scannable(note_body(content@, parsed)),
        ensures
            r matches Ok(n) ==> read_from(n, content@, parsed) && n.path == *path,
            r matches Err(e) ==> e@.len() >= 18 && e@.take(18) == "Invalid filename: "@,
    {
        Note::from_stem(file_stem_of(path), path, content, parsed)
    }
}

/// Whether the body a note keeps can have its links scanned (see
/// `links_scannable`), which reading the note requires.
pub fn note_body_is_scannable(content: &str, parsed: &Option<Frontmatter>) -> (r: bool)
    ensures
        r == links_scannable(note_body(content@, *parsed)),
{
    let body = match (split_frontmatter(content), parsed) {
        (Some((_, rest)), Some(_)) => rest,
        (_, _) => content.to_owned(),
    };
    scan_links(body.as_str()).is_some()
}

} // verus!
