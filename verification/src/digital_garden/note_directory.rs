//! The notes of a notes directory, the links between them, and its
//! folder tree.
use vstd::prelude::*;
use std::sync::Arc;

use crate::digital_garden::note::{spec_slug, spec_title, Note};
use crate::digital_garden::search::{contains, spec_contains};
use crate::digital_garden::theme::{name_le, name_le_exec, sort_names, sort_names_exec};
use crate::text::{lowercase, str_eq, to_lowercase};

verus! {

/// `std::path::PathBuf`, the location of a folder on disk.
#[verifier::external_type_specification]
#[verifier::external_body]
pub struct ExPathBuf(std::path::PathBuf);

/// `PathBuf::clone`: a path equal to the one cloned (the same
/// components, the same bytes).
pub assume_specification[ <std::path::PathBuf as Clone>::clone ](p: &std::path::PathBuf) -> (r: std::path::PathBuf)
    ensures
        r == *p,
;

/// A folder of the notes directory: its name, where it is, its
/// sub-folders and the ids of the notes it holds.
#[derive(Debug, Clone)]
pub struct Folder {
    pub name: String,
    pub path: std::path::PathBuf,
    pub folders: Vec<std::sync::Arc<Folder>>,
    pub notes: Vec<String>,
}

// ---------- the notes ----------

/// The text of each string.
pub open spec fn string_views(v: Seq<String>) -> Seq<Seq<char>> {
    v.map_values(|s: String| s@)
}

/// The notes behind the shared handles.
pub open spec fn note_seq(ns: Seq<Arc<Note>>) -> Seq<Note> {
    ns.map_values(|a: Arc<Note>| *a)
}

/// No id occurs twice.
pub open spec fn distinct_ids(ns: Seq<Note>) -> bool {
    forall|i: int, j: int| 0 <= i < j < ns.len() ==> ns[i].id@ != ns[j].id@
}

/// Whether note `n` has a link to the id `t`.
pub open spec fn links_to(n: Note, t: Seq<char>) -> bool {
    exists|j: int| 0 <= j < n.links@.len() && n.links@[j].target_id@ == t
}

/// Ids of the notes of `ns` that link to `t`, in order.
pub open spec fn sources(ns: Seq<Note>, t: Seq<char>) -> Seq<Seq<char>>
    decreases ns.len(),
{
    if ns.len() == 0 {
        Seq::empty()
    } else {
        let r = sources(ns.drop_last(), t);
        if links_to(ns.last(), t) {
            r.push(ns.last().id@)
        } else {
            r
        }
    }
}

/// `new` is `old` with backlinks filled in: each note that some note
/// links to lists the ids of those notes; the others keep theirs.
pub open spec fn backlinked(old: Seq<Note>, new: Seq<Note>) -> bool {
    &&& new.len() == old.len()
    &&& forall|k: int| #![trigger new[k]] 0 <= k < old.len() ==> {
        &&& new[k].id == old[k].id
        &&& new[k].path == old[k].path
        &&& new[k].frontmatter == old[k].frontmatter
        &&& new[k].content == old[k].content
        &&& new[k].links == old[k].links
        &&& string_views(new[k].backlinks@) == if sources(old, old[k].id@).len() > 0 {
            sources(old, old[k].id@)
        } else {
            string_views(old[k].backlinks@)
        }
    }
}

/// `ns` with `n` added: it replaces the note with the same id, if any,
/// else it goes at the end.
pub open spec fn insert_note(ns: Seq<Note>, n: Note) -> Seq<Note> {
    if exists|i: int| 0 <= i < ns.len() && ns[i].id@ == n.id@ {
        ns.update(choose|i: int| 0 <= i < ns.len() && ns[i].id@ == n.id@, n)
    } else {
        ns.push(n)
    }
}

/// The notes of a scan, one per id: a later note replaces an earlier one
/// with the same id.
pub open spec fn collect_notes(ns: Seq<Note>) -> Seq<Note>
    decreases ns.len(),
{
    if ns.len() == 0 {
        Seq::empty()
    } else {
        insert_note(collect_notes(ns.drop_last()), ns.last())
    }
}

/// Notes that are not drafts, in order.
pub open spec fn published(ns: Seq<Note>) -> Seq<Note>
    decreases ns.len(),
{
    if ns.len() == 0 {
        ns
    } else if ns.last().frontmatter.draft {
        published(ns.drop_last())
    } else {
        published(ns.drop_last()).push(ns.last())
    }
}

/// Whether note `n` carries the tag `tag`.
pub open spec fn has_tag(n: Note, tag: Seq<char>) -> bool {
    exists|j: int| 0 <= j < n.frontmatter.tags@.len() && n.frontmatter.tags@[j]@ == tag
}

/// Notes with the tag, in order.
pub open spec fn tagged(ns: Seq<Note>, tag: Seq<char>) -> Seq<Note>
    decreases ns.len(),
{
    if ns.len() == 0 {
        ns
    } else if has_tag(ns.last(), tag) {
        tagged(ns.drop_last(), tag).push(ns.last())
    } else {
        tagged(ns.drop_last(), tag)
    }
}

/// A published note whose lower-cased title, body or one of its
/// lower-cased tags contains `q`.
pub open spec fn matches_query(n: Note, q: Seq<char>) -> bool {
    &&& !n.frontmatter.draft
    &&& {
        ||| spec_contains(lowercase(spec_title(n)), q)
        ||| spec_contains(lowercase(n.content@), q)
        ||| exists|j: int|
            0 <= j < n.frontmatter.tags@.len() && spec_contains(lowercase(n.frontmatter.tags@[j]@), q)
    }
}

/// Notes matching `q`, in order.
pub open spec fn matching(ns: Seq<Note>, q: Seq<char>) -> Seq<Note>
    decreases ns.len(),
{
    if ns.len() == 0 {
        ns
    } else if matches_query(ns.last(), q) {
        matching(ns.drop_last(), q).push(ns.last())
    } else {
        matching(ns.drop_last(), q)
    }
}

proof fn lemma_note_seq_push(ns: Seq<Arc<Note>>, a: Arc<Note>)
    ensures
        note_seq(ns.push(a)) == note_seq(ns).push(*a),
{
    assert(note_seq(ns.push(a)) =~= note_seq(ns).push(*a));
}

proof fn lemma_note_seq_take(ns: Seq<Arc<Note>>, i: int)
    requires
        0 <= i < ns.len(),
    ensures
        note_seq(ns).take(i + 1).drop_last() == note_seq(ns).take(i),
        note_seq(ns).take(i + 1).last() == *ns[i],
        note_seq(ns)[i] == *ns[i],
        note_seq(ns).len() == ns.len(),
{
    assert(note_seq(ns).take(i + 1).drop_last() =~= note_seq(ns).take(i));
}

/// Manages the collection of notes and their relationships.
#[derive(Debug, Clone)]
pub struct NoteDirectory {
    /// Path of the root notes directory.
    pub root_path: std::path::PathBuf,
    /// All notes, each id once, in the order they were collected.
    pub notes: Vec<Arc<Note>>,
    /// The folder tree.
    pub folder_structure: Arc<Folder>,
}

impl NoteDirectory {
    /// No note id occurs twice.
    pub open spec fn wf(&self) -> bool {
        distinct_ids(note_seq(self.notes@))
    }

    /// The note with this id, if any (the first one when ids repeat).
    pub fn get_note(&self, id: &str) -> (r: Option<Arc<Note>>)
        ensures
            match r {
                Some(n) => exists|i: int|
                    0 <= i < self.notes@.len() && self.notes@[i] == n && n.id@ == id@ && forall|j: int|
                        0 <= j < i ==> self.notes@[j].id@ != id@,
                None => forall|i: int| 0 <= i < self.notes@.len() ==> self.notes@[i].id@ != id@,
            },
    {
        let mut i: usize = 0;
        while i < self.notes.len()
            invariant
                i <= self.notes@.len(),
                forall|j: int| 0 <= j < i ==> self.notes@[j].id@ != id@,
            decreases self.notes@.len() - i,
        {
            if str_eq(self.notes[i].id.as_str(), id) {
                return Some(Arc::clone(&self.notes[i]));
            }
            i = i + 1;
        }
        None
    }

    /// The first note whose slug is `slug`, if any.
    pub fn get_note_by_slug(&self, slug: &str) -> (r: Option<Arc<Note>>)
        ensures
            match r {
                Some(n) => exists|i: int|
                    0 <= i < self.notes@.len() && self.notes@[i] == n && spec_slug(*n) == slug@
                        && forall|j: int| 0 <= j < i ==> spec_slug(*self.notes@[j]) != slug@,
                None => forall|i: int| 0 <= i < self.notes@.len() ==> spec_slug(*self.notes@[i]) != slug@,
            },
    {
        let mut i: usize = 0;
        while i < self.notes.len()
            invariant
                i <= self.notes@.len(),
                forall|j: int| 0 <= j < i ==> spec_slug(*self.notes@[j]) != slug@,
            decreases self.notes@.len() - i,
        {
            let s = self.notes[i].slug();
            if str_eq(s.as_str(), slug) {
                return Some(Arc::clone(&self.notes[i]));
            }
            i = i + 1;
        }
        None
    }

    /// All notes that are not drafts, in order.
    pub fn published_notes(&self) -> (r: Vec<Arc<Note>>)
        ensures
            note_seq(r@) == published(note_seq(self.notes@)),
    {
        let ghost ns = note_seq(self.notes@);
        let mut r: Vec<Arc<Note>> = Vec::new();
        let mut i: usize = 0;
        assert(note_seq(r@) =~= Seq::<Note>::empty());
        while i < self.notes.len()
            invariant
                i <= self.notes@.len(),
                ns == note_seq(self.notes@),
                note_seq(r@) == published(ns.take(i as int)),
            decreases self.notes@.len() - i,
        {
            proof {
                lemma_note_seq_take(self.notes@, i as int);
            }
            if !self.notes[i].is_draft() {
                let a = Arc::clone(&self.notes[i]);
                proof {
                    lemma_note_seq_push(r@, a);
                }
                r.push(a);
            }
            i = i + 1;
        }
        assert(ns.take(ns.len() as int) =~= ns);
        r
    }

    /// All notes carrying the tag, in order.
    pub fn notes_with_tag(&self, tag: &str) -> (r: Vec<Arc<Note>>)
        ensures
            note_seq(r@) == tagged(note_seq(self.notes@), tag@),
    {
        let ghost ns = note_seq(self.notes@);
        let mut r: Vec<Arc<Note>> = Vec::new();
        let mut i: usize = 0;
        assert(note_seq(r@) =~= Seq::<Note>::empty());
        while i < self.notes.len()
            invariant
                i <= self.notes@.len(),
                ns == note_seq(self.notes@),
                note_seq(r@) == tagged(ns.take(i as int), tag@),
            decreases self.notes@.len() - i,
        {
            proof {
                lemma_note_seq_take(self.notes@, i as int);
            }
            let tags = &self.notes[i].frontmatter.tags;
            let mut found = false;
            let mut j: usize = 0;
            while j < tags.len()
                invariant
                    j <= tags@.len(),
                    found == exists|k: int| 0 <= k < j && tags@[k]@ == tag@,
                decreases tags@.len() - j,
            {
                if str_eq(tags[j].as_str(), tag) {
                    found = true;
                }
                j = j + 1;
            }
            assert(found == has_tag(*self.notes@[i as int], tag@));
            if found {
                let a = Arc::clone(&self.notes[i]);
                proof {
                    lemma_note_seq_push(r@, a);
                }
                r.push(a);
            }
            i = i + 1;
        }
        assert(ns.take(ns.len() as int) =~= ns);
        r
    }

    /// Published notes whose title, body or a tag contains the query,
    /// compared in lower case, in order.
    pub fn search(&self, query: &str) -> (r: Vec<Arc<Note>>)
        ensures
            note_seq(r@) == matching(note_seq(self.notes@), lowercase(query@)),
    {
        let q = to_lowercase(query);
        let ghost ns = note_seq(self.notes@);
        let mut r: Vec<Arc<Note>> = Vec::new();
        let mut i: usize = 0;
        assert(note_seq(r@) =~= Seq::<Note>::empty());
        while i < self.notes.len()
            invariant
                i <= self.notes@.len(),
                ns == note_seq(self.notes@),
                q@ == lowercase(query@),
                note_seq(r@) == matching(ns.take(i as int), q@),
            decreases self.notes@.len() - i,
        {
            proof {
                lemma_note_seq_take(self.notes@, i as int);
            }
            let note = &self.notes[i];
            let hit = if note.is_draft() {
                false
            } else if contains(to_lowercase(note.title().as_str()).as_str(), q.as_str()) {
                true
            } else if contains(to_lowercase(note.content.as_str()).as_str(), q.as_str()) {
                true
            } else {
                let tags = &note.frontmatter.tags;
                let mut found = false;
                let mut j: usize = 0;
                while j < tags.len()
                    invariant
                        j <= tags@.len(),
                        found == exists|k: int|
                            0 <= k < j && spec_contains(lowercase(tags@[k]@), q@),
                    decreases tags@.len() - j,
                {
                    if contains(to_lowercase(tags[j].as_str()).as_str(), q.as_str()) {
                        found = true;
                    }
                    j = j + 1;
                }
                found
            };
            assert(hit == matches_query(**note, q@));
            if hit {
                let a = Arc::clone(note);
                proof {
                    lemma_note_seq_push(r@, a);
                }
                r.push(a);
            }
            i = i + 1;
        }
        assert(ns.take(ns.len() as int) =~= ns);
        r
    }
}

// ---------- building a directory ----------

/// Two notes that differ at most in their backlinks.
pub open spec fn same_but_backlinks(a: Note, b: Note) -> bool {
    &&& a.id == b.id
    &&& a.path == b.path
    &&& a.frontmatter == b.frontmatter
    &&& a.content == b.content
    &&& a.links == b.links
}

proof fn lemma_sources_agree(a: Seq<Note>, b: Seq<Note>, t: Seq<char>)
    requires
        a.len() == b.len(),
        forall|m: int| 0 <= m < a.len() ==> same_but_backlinks(a[m], #[trigger] b[m]),
    ensures
        sources(a, t) == sources(b, t),
    decreases a.len(),
{
    if a.len() > 0 {
        lemma_sources_agree(a.drop_last(), b.drop_last(), t);
        assert(same_but_backlinks(a.last(), b.last()));
    }
}

/// Ids of the notes of `notes` that link to `t`, in order.
fn backlink_sources(notes: &Vec<Note>, t: &str) -> (r: Vec<String>)
    ensures
        string_views(r@) == sources(notes@, t@),
{
    let mut r: Vec<String> = Vec::new();
    let mut i: usize = 0;
    assert(string_views(r@) =~= Seq::<Seq<char>>::empty());
    while i < notes.len()
        invariant
            i <= notes@.len(),
            string_views(r@) == sources(notes@.take(i as int), t@),
        decreases notes@.len() - i,
    {
        assert(notes@.take(i + 1).drop_last() =~= notes@.take(i as int));
        let links = &notes[i].links;
        let mut found = false;
        let mut j: usize = 0;
        while j < links.len()
            invariant
                j <= links@.len(),
                found == exists|k: int| 0 <= k < j && links@[k].target_id@ == t@,
            decreases links@.len() - j,
        {
            if str_eq(links[j].target_id.as_str(), t) {
                found = true;
            }
            j = j + 1;
        }
        assert(found == links_to(notes@[i as int], t@));
        if found {
            let id = notes[i].id.clone();
            let ghost before = r@;
            r.push(id);
            assert(string_views(r@) =~= string_views(before).push(id@));
        }
        i = i + 1;
    }
    assert(notes@.take(notes@.len() as int) =~= notes@);
    r
}

/// Fills in backlinks: each note that other notes link to gets the ids
/// of those notes, in order.
fn compute_backlinks(notes: &mut Vec<Note>)
    ensures
        backlinked(old(notes)@, final(notes)@),
{
    let ghost orig = notes@;
    let n = notes.len();
    let mut k: usize = 0;
    while k < n
        invariant
            n == orig.len(),
            notes@.len() == n,
            k <= n,
            forall|m: int| 0 <= m < n ==> same_but_backlinks(orig[m], #[trigger] notes@[m]),
            forall|m: int| k <= m < n ==> #[trigger] notes@[m] == orig[m],
            forall|m: int| 0 <= m < k ==> string_views(#[trigger] notes@[m].backlinks@) == if sources(
                orig,
                orig[m].id@,
            ).len() > 0 {
                sources(orig, orig[m].id@)
            } else {
                string_views(orig[m].backlinks@)
            },
        decreases n - k,
    {
        proof {
            lemma_sources_agree(orig, notes@, orig[k as int].id@);
        }
        let srcs = backlink_sources(notes, notes[k].id.as_str());
        if srcs.len() > 0 {
            notes[k].backlinks = srcs;
        }
        k = k + 1;
    }
}

/// Position of the note with id `id`, if any.
fn find_id(ns: &Vec<Note>, id: &str) -> (r: Option<usize>)
    ensures
        match r {
            Some(j) => j < ns@.len() && ns@[j as int].id@ == id@,
            None => forall|i: int| 0 <= i < ns@.len() ==> ns@[i].id@ != id@,
        },
{
    let mut j: usize = 0;
    while j < ns.len()
        invariant
            j <= ns@.len(),
            forall|i: int| 0 <= i < j ==> ns@[i].id@ != id@,
        decreases ns@.len() - j,
    {
        if str_eq(ns[j].id.as_str(), id) {
            return Some(j);
        }
        j = j + 1;
    }
    None
}

proof fn lemma_insert_distinct(ns: Seq<Note>, n: Note)
    requires
        distinct_ids(ns),
    ensures
        distinct_ids(insert_note(ns, n)),
{
    if exists|i: int| 0 <= i < ns.len() && ns[i].id@ == n.id@ {
        let c = choose|i: int| 0 <= i < ns.len() && ns[i].id@ == n.id@;
        let r = ns.update(c, n);
        assert forall|i: int, j: int| 0 <= i < j < r.len() implies r[i].id@ != r[j].id@ by {
            if i == c {
                assert(ns[c].id@ == n.id@);
            } else if j == c {
                assert(ns[c].id@ == n.id@);
            }
        }
    }
}

impl NoteDirectory {
    /// The directory of the notes a scan of `root_path` found, in scan
    /// order: one note per id, a later one replacing an earlier one with
    /// the same id, and backlinks filled in.
    pub fn from_notes(root_path: std::path::PathBuf, scanned: Vec<Note>, folder_structure: Folder) -> (d: NoteDirectory)
        ensures
            d.root_path == root_path,
            *d.folder_structure == folder_structure,
            backlinked(collect_notes(scanned@), note_seq(d.notes@)),
            d.wf(),
    {
        let ghost orig = scanned@;
        let mut rest = scanned;
        let mut kept: Vec<Note> = Vec::new();
        let ghost mut c: int = 0;
        while rest.len() > 0
            invariant
                0 <= c <= orig.len(),
                rest@ == orig.skip(c),
                kept@ == collect_notes(orig.take(c)),
                distinct_ids(kept@),
            decreases rest@.len(),
        {
            assert(orig.take(c + 1).drop_last() =~= orig.take(c));
            assert(orig.take(c + 1).last() == rest@[0]);
            let n = rest.remove(0);
            proof {
                lemma_insert_distinct(kept@, n);
            }
            match find_id(&kept, n.id.as_str()) {
                Some(j) => {
                    let ghost before = kept@;
                    proof {
                        let w = choose|i: int| 0 <= i < before.len() && before[i].id@ == n.id@;
                        assert(before[j as int].id@ == n.id@);
                        if w != j {
                            if w < j {
                                assert(before[w].id@ != before[j as int].id@);
                            } else {
                                assert(before[j as int].id@ != before[w].id@);
                            }
                        }
                    }
                    kept[j] = n;
                    assert(kept@ =~= insert_note(before, n));
                },
                None => {
                    let ghost before = kept@;
                    kept.push(n);
                    assert(kept@ =~= insert_note(before, n));
                },
            }
            proof {
                c = c + 1;
                assert(orig.skip(c) =~= orig.skip(c - 1).drop_first());
            }
        }
        assert(orig.take(c) =~= orig);
        let ghost collected = kept@;
        compute_backlinks(&mut kept);
        let ghost full = kept@;
        let mut notes: Vec<Arc<Note>> = Vec::new();
        assert(note_seq(notes@) + kept@ =~= full);
        while kept.len() > 0
            invariant
                note_seq(notes@) + kept@ == full,
            decreases kept@.len(),
        {
            let n = kept.remove(0);
            let a = Arc::new(n);
            let ghost before = notes@;
            notes.push(a);
            proof {
                lemma_note_seq_push(before, a);
            }
            assert(note_seq(notes@) + kept@ =~= note_seq(before) + seq![n] + kept@);
        }
        assert(note_seq(notes@) =~= full);
        assert(distinct_ids(full)) by {
            assert forall|i: int, j: int| 0 <= i < j < full.len() implies full[i].id@ != full[j].id@ by {
                assert(full[i].id == collected[i].id);
                assert(full[j].id == collected[j].id);
            }
        }
        NoteDirectory { root_path, notes, folder_structure: Arc::new(folder_structure) }
    }
}

// ---------- backlinks ----------

proof fn lemma_sources_contains(ns: Seq<Note>, t: Seq<char>, x: Seq<char>)
    ensures
        sources(ns, t).contains(x) <==> exists|m: int| 0 <= m < ns.len() && ns[m].id@ == x && links_to(ns[m], t),
    decreases ns.len(),
{
    if ns.len() > 0 {
        let p = ns.drop_last();
        lemma_sources_contains(p, t, x);
        let r = sources(p, t);
        if links_to(ns.last(), t) {
            assert(r.push(ns.last().id@).last() == ns.last().id@);
            if r.push(ns.last().id@).contains(x) && !r.contains(x) {
                let k = choose|k: int| 0 <= k < r.len() + 1 && r.push(ns.last().id@)[k] == x;
                if k < r.len() {
                    assert(r[k] == x);
                }
            }
            if r.contains(x) {
                let k = choose|k: int| 0 <= k < r.len() && r[k] == x;
                assert(r.push(ns.last().id@)[k] == x);
            }
        }
        if exists|m: int| 0 <= m < ns.len() && ns[m].id@ == x && links_to(ns[m], t) {
            let m = choose|m: int| 0 <= m < ns.len() && ns[m].id@ == x && links_to(ns[m], t);
            if m < ns.len() - 1 {
                assert(p[m] == ns[m]);
            } else {
                assert(r.push(ns.last().id@)[r.len() as int] == x);
            }
        }
        if exists|m: int| 0 <= m < p.len() && p[m].id@ == x && links_to(p[m], t) {
            let m = choose|m: int| 0 <= m < p.len() && p[m].id@ == x && links_to(p[m], t);
            assert(ns[m] == p[m]);
        }
    }
}

/// Backlinks mirror links: once backlinks are filled in on notes that
/// had none (as read from their files), with every id once, a note lists
/// another among its backlinks exactly when that note links to it.
pub proof fn law_backlinks_mirror_links(old: Seq<Note>, new: Seq<Note>, t: int, s: int)
    requires
        backlinked(old, new),
        distinct_ids(old),
        forall|m: int| 0 <= m < old.len() ==> (#[trigger] old[m]).backlinks@.len() == 0,
        0 <= t < new.len(),
        0 <= s < new.len(),
    ensures
        string_views(new[t].backlinks@).contains(new[s].id@) <==> links_to(new[s], new[t].id@),
{
    let tid = old[t].id@;
    let sid = old[s].id@;
    assert(new[t].id == old[t].id);
    assert(new[s].id == old[s].id);
    assert(new[s].links == old[s].links);
    lemma_sources_contains(old, tid, sid);
    if sources(old, tid).len() > 0 {
        if sources(old, tid).contains(sid) {
            let m = choose|m: int| 0 <= m < old.len() && old[m].id@ == sid && links_to(old[m], tid);
            if m != s {
                if m < s {
                    assert(old[m].id@ != old[s].id@);
                } else {
                    assert(old[s].id@ != old[m].id@);
                }
            }
        }
    } else {
        assert(string_views(old[t].backlinks@) =~= Seq::<Seq<char>>::empty());
        if links_to(old[s], tid) {
            assert(sources(old, tid).contains(sid));
        }
    }
}

// ---------- the folder tree ----------

/// Insert `f` into folders sorted by name, after every folder whose name
/// is not greater.
pub open spec fn insert_folder(sorted: Seq<Arc<Folder>>, f: Arc<Folder>) -> Seq<Arc<Folder>>
    decreases sorted.len(),
{
    if sorted.len() == 0 {
        seq![f]
    } else if name_le(sorted.last().name@, f.name@) {
        sorted.push(f)
    } else {
        insert_folder(sorted.drop_last(), f).push(sorted.last())
    }
}

/// Folders sorted by name, folders of equal name in their first order.
pub open spec fn sort_folders(s: Seq<Arc<Folder>>) -> Seq<Arc<Folder>>
    decreases s.len(),
{
    if s.len() == 0 {
        s
    } else {
        insert_folder(sort_folders(s.drop_last()), s.last())
    }
}

proof fn lemma_insert_folder_at(sorted: Seq<Arc<Folder>>, f: Arc<Folder>, j: int)
    requires
        0 <= j <= sorted.len(),
        forall|k: int| j <= k < sorted.len() ==> !name_le((#[trigger] sorted[k]).name@, f.name@),
        j == 0 || name_le(sorted[j - 1].name@, f.name@),
    ensures
        insert_folder(sorted, f) == sorted.take(j).push(f) + sorted.skip(j),
    decreases sorted.len(),
{
    if sorted.len() == 0 {
        assert(sorted.take(j).push(f) + sorted.skip(j) =~= seq![f]);
    } else if j == sorted.len() {
        assert(sorted.take(j) =~= sorted);
        assert(sorted.take(j).push(f) + sorted.skip(j) =~= sorted.push(f));
    } else {
        let t = sorted.drop_last();
        assert(!name_le(sorted[sorted.len() - 1].name@, f.name@));
        lemma_insert_folder_at(t, f, j);
        assert(sorted.take(j).push(f) + sorted.skip(j) =~= (t.take(j).push(f) + t.skip(j)).push(
            sorted.last(),
        ));
    }
}

/// `Path::file_name`, as text. Path syntax depends on the platform, so no
/// result is promised here.
#[verifier::external_body]
fn file_name_of(path: &std::path::PathBuf) -> (r: Option<String>) {
    path.file_name().and_then(|s| s.to_str()).map(|s| s.to_string())
}

impl Folder {
    /// The folder at `path` with the given sub-folders and note ids, both
    /// sorted by name (sub-folders of equal name keep their order); it is
    /// named after the last part of its path, or "Root" when that has no
    /// name.
    pub fn scanned(path: std::path::PathBuf, folders: Vec<Arc<Folder>>, notes: Vec<String>) -> (f: Folder)
        ensures
            f.path == path,
            f.folders@ == sort_folders(folders@),
            string_views(f.notes@) == sort_names(string_views(notes@)),
    {
        let name = match file_name_of(&path) {
            Some(n) => n,
            None => "Root".to_owned(),
        };
        let mut out: Vec<Arc<Folder>> = Vec::new();
        let mut i: usize = 0;
        while i < folders.len()
            invariant
                i <= folders@.len(),
                out@ == sort_folders(folders@.take(i as int)),
            decreases folders@.len() - i,
        {
            let f = Arc::clone(&folders[i]);
            assert(folders@.take(i + 1).drop_last() =~= folders@.take(i as int));
            let ghost before = out@;
            let mut j: usize = out.len();
            while j > 0 && !name_le_exec(out[j - 1].name.as_str(), f.name.as_str())
                invariant
                    j <= out@.len(),
                    before == out@,
                    forall|k: int| j <= k < before.len() ==> !name_le((#[trigger] before[k]).name@, f.name@),
                decreases j,
            {
                j = j - 1;
            }
            proof {
                lemma_insert_folder_at(before, f, j as int);
            }
            out.insert(j, f);
            assert(out@ =~= before.take(j as int).push(f) + before.skip(j as int));
            i = i + 1;
        }
        assert(folders@.take(folders@.len() as int) =~= folders@);
        let sorted_notes = sort_names_exec(notes);
        assert(string_views(sorted_notes@) =~= sorted_notes@.map_values(|x: String| x@));
        Folder { name, path, folders: out, notes: sorted_notes }
    }
}

// ---------- resolving a wiki-link ----------

/// Whether a published note answers the link text `q` at the given
/// step: 0 its id is `q`, 1 its id is `q` ignoring case, 2 its slug is
/// `q`, 3 its title is `q` ignoring case.
pub open spec fn answers(n: Note, q: Seq<char>, step: int) -> bool {
    &&& !n.frontmatter.draft
    &&& if step == 0 {
        n.id@ == q
    } else if step == 1 {
        lowercase(n.id@) == lowercase(q)
    } else if step == 2 {
        spec_slug(n) == q
    } else {
        lowercase(spec_title(n)) == lowercase(q)
    }
}

/// Some note of `ns` answers `q` at `step`.
pub open spec fn answered(ns: Seq<Note>, q: Seq<char>, step: int) -> bool {
    exists|i: int| 0 <= i < ns.len() && answers(ns[i], q, step)
}

/// The first step at which some note answers `q`, if any.
pub open spec fn resolve_step(ns: Seq<Note>, q: Seq<char>) -> Option<int> {
    if answered(ns, q, 0) {
        Some(0)
    } else if answered(ns, q, 1) {
        Some(1)
    } else if answered(ns, q, 2) {
        Some(2)
    } else if answered(ns, q, 3) {
        Some(3)
    } else {
        None
    }
}

impl NoteDirectory {
    /// The first note answering `q` at `step` (see `answers`).
    fn find_answer(&self, q: &str, q_lower: &String, step: u8) -> (r: Option<Arc<Note>>)
        requires
            q_lower@ == lowercase(q@),
            step <= 3,
        ensures
            match r {
                Some(n) => exists|i: int|
                    0 <= i < self.notes@.len() && self.notes@[i] == n && answers(*n, q@, step as int)
                        && forall|j: int| 0 <= j < i ==> !answers(*self.notes@[j], q@, step as int),
                None => !answered(note_seq(self.notes@), q@, step as int),
            },
    {
        let mut i: usize = 0;
        while i < self.notes.len()
            invariant
                i <= self.notes@.len(),
                q_lower@ == lowercase(q@),
                step <= 3,
                forall|j: int| 0 <= j < i ==> !answers(*self.notes@[j], q@, step as int),
            decreases self.notes@.len() - i,
        {
            let n = &self.notes[i];
            let hit = if n.is_draft() {
                false
            } else if step == 0 {
                str_eq(n.id.as_str(), q)
            } else if step == 1 {
                str_eq(to_lowercase(n.id.as_str()).as_str(), q_lower.as_str())
            } else if step == 2 {
                str_eq(n.slug().as_str(), q)
            } else {
                str_eq(to_lowercase(n.title().as_str()).as_str(), q_lower.as_str())
            };
            if hit {
                return Some(Arc::clone(n));
            }
            i = i + 1;
        }
        proof {
            let ns = note_seq(self.notes@);
            assert forall|k: int| 0 <= k < ns.len() implies !answers(ns[k], q@, step as int) by {
                assert(ns[k] == *self.notes@[k]);
            }
        }
        None
    }

    /// The note a wiki-link's text refers to: among published notes, the
    /// first whose id is the text, else whose id matches it ignoring case,
    /// else whose slug is the text, else whose title matches it ignoring
    /// case.
    pub fn resolve_link(&self, q: &str) -> (r: Option<Arc<Note>>)
        ensures
            match resolve_step(note_seq(self.notes@), q@) {
                Some(step) => r matches Some(n) && exists|i: int|
                    0 <= i < self.notes@.len() && self.notes@[i] == n && answers(*n, q@, step)
                        && forall|j: int| 0 <= j < i ==> !answers(*self.notes@[j], q@, step),
                None => r is None,
            },
    {
        let q_lower = to_lowercase(q);
        let mut step: u8 = 0;
        while step <= 3
            invariant
                q_lower@ == lowercase(q@),
                step <= 4,
                forall|k: int| 0 <= k < step ==> !answered(note_seq(self.notes@), q@, k),
            decreases 4 - step,
        {
            match self.find_answer(q, &q_lower, step) {
                Some(n) => {
                    proof {
                        let i = choose|i: int|
                            0 <= i < self.notes@.len() && self.notes@[i] == n && answers(*n, q@, step as int)
                                && forall|j: int| 0 <= j < i ==> !answers(*self.notes@[j], q@, step as int);
                        assert(note_seq(self.notes@)[i] == *self.notes@[i]);
                        assert(answered(note_seq(self.notes@), q@, step as int));
                    }
                    return Some(n);
                },
                None => {},
            }
            step = step + 1;
        }
        None
    }
}

} // verus!
