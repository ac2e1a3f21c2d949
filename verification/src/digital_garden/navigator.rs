//! Which note the garden shows: opening a notes directory, following a
//! link, going back and forward, and keeping the shown note across a
//! re-scan.
use vstd::prelude::*;
use std::sync::Arc;

use crate::digital_garden::history::{spec_back, spec_can_go_back, spec_can_go_forward, spec_current, spec_forward, spec_push, History};
use crate::digital_garden::note::{Note, NoteLink};
use crate::digital_garden::note_directory::{answers, note_seq, published, resolve_step, NoteDirectory};

verus! {

/// `n` is the note that `q` resolves to among `ns` (see
/// `NoteDirectory::resolve_link`).
pub open spec fn resolves_to(ns: Seq<Arc<Note>>, q: Seq<char>, n: Arc<Note>) -> bool {
    match resolve_step(note_seq(ns), q) {
        Some(step) => exists|i: int|
            0 <= i < ns.len() && ns[i] == n && answers(*n, q, step) && forall|j: int|
                0 <= j < i ==> !answers(*ns[j], q, step),
        None => false,
    }
}

/// The text of an optional string.
pub open spec fn id_opt(o: Option<String>) -> Option<Seq<char>> {
    match o {
        Some(s) => Some(s@),
        None => None,
    }
}

/// Some note of `ns` has the id `id`.
pub open spec fn has_id(ns: Seq<Arc<Note>>, id: Seq<char>) -> bool {
    exists|i: int| 0 <= i < ns.len() && ns[i].id@ == id
}

/// `n` is the first note of `ns` with the id `id`.
pub open spec fn found_id(ns: Seq<Arc<Note>>, id: Seq<char>, n: Arc<Note>) -> bool {
    exists|i: int| 0 <= i < ns.len() && ns[i] == n && n.id@ == id && forall|j: int| 0 <= j < i ==> ns[j].id@ != id
}

/// The garden's navigation state: the directory, the shown note, the
/// back/forward history, the note selected in the sidebar and the tag
/// filter.
pub struct Navigator {
    pub notes_path: Option<std::path::PathBuf>,
    pub note_directory: Option<NoteDirectory>,
    pub current_note: Option<Arc<Note>>,
    pub history: History,
    pub selected_note: Option<String>,
    pub active_tag: Option<String>,
}

impl Navigator {
    /// The history is well formed.
    pub open spec fn wf(&self) -> bool {
        self.history.wf()
    }

    /// No directory, nothing shown.
    pub fn new() -> (n: Self)
        ensures
            n.wf(),
            n.notes_path is None,
            n.note_directory is None,
            n.current_note is None,
            n.history@.0.len() == 0,
            n.history@.1 == 0,
            n.selected_note is None,
            n.active_tag is None,
    {
        Navigator {
            notes_path: None,
            note_directory: None,
            current_note: None,
            history: History::new(),
            selected_note: None,
            active_tag: None,
        }
    }

    /// Drops the directory and everything derived from it.
    pub fn close_directory(&mut self)
        ensures
            final(self).wf(),
            final(self).notes_path is None,
            final(self).note_directory is None,
            final(self).current_note is None,
            final(self).history@.0.len() == 0,
            final(self).selected_note is None,
            final(self).active_tag is None,
    {
        self.notes_path = None;
        self.note_directory = None;
        self.current_note = None;
        self.history.clear();
        self.active_tag = None;
        self.selected_note = None;
    }

    /// Shows the note a link's text resolves to, recording its id in the
    /// history and selecting it in the sidebar; `None` (and nothing
    /// changes) without a directory or when nothing resolves.
    pub fn load_note(&mut self, note_id: &str) -> (r: Option<Arc<Note>>)
        requires
            old(self).wf(),
        ensures
            final(self).wf(),
            final(self).notes_path == old(self).notes_path,
            final(self).note_directory == old(self).note_directory,
            final(self).active_tag == old(self).active_tag,
            match old(self).note_directory {
                Some(d) if resolve_step(note_seq(d.notes@), note_id@) is Some => r matches Some(n)
                    && resolves_to(d.notes@, note_id@, n) && final(self).current_note == Some(n)
                    && final(self).history@ == spec_push(old(self).history@, n.id@)
                    && id_opt(final(self).selected_note) == Some(n.id@),
                _ => r is None && final(self).current_note == old(self).current_note && final(self).history@
                    == old(self).history@ && final(self).selected_note == old(self).selected_note,
            },
    {
        let note = match &self.note_directory {
            Some(directory) => match directory.resolve_link(note_id) {
                Some(n) => n,
                None => return None,
            },
            None => return None,
        };
        let canonical_id = note.id.clone();
        self.current_note = Some(Arc::clone(&note));
        self.history.push(canonical_id.clone());
        self.selected_note = Some(canonical_id);
        Some(note)
    }

    /// Shows the note with id `id` without touching the history.
    fn load_current_from_directory(&mut self, id: &str) -> (r: Option<Arc<Note>>)
        ensures
            final(self).notes_path == old(self).notes_path,
            final(self).note_directory == old(self).note_directory,
            final(self).history == old(self).history,
            final(self).active_tag == old(self).active_tag,
            match old(self).note_directory {
                Some(d) if has_id(d.notes@, id@) => r matches Some(n) && found_id(d.notes@, id@, n)
                    && final(self).current_note == Some(n) && id_opt(final(self).selected_note) == Some(id@),
                _ => r is None && final(self).current_note == old(self).current_note && final(self).selected_note
                    == old(self).selected_note,
            },
    {
        let note = match &self.note_directory {
            Some(directory) => match directory.get_note(id) {
                Some(n) => n,
                None => return None,
            },
            None => return None,
        };
        self.current_note = Some(Arc::clone(&note));
        self.selected_note = Some(id.to_owned());
        Some(note)
    }

    /// Steps back in the history and shows that note.
    pub fn navigate_back(&mut self) -> (r: Option<Arc<Note>>)
        requires
            old(self).wf(),
        ensures
            final(self).wf(),
            final(self).history@ == spec_back(old(self).history@),
            final(self).notes_path == old(self).notes_path,
            final(self).note_directory == old(self).note_directory,
            final(self).active_tag == old(self).active_tag,
            !spec_can_go_back(old(self).history@) ==> r is None && final(self).current_note == old(self).current_note
                && final(self).selected_note == old(self).selected_note,
            spec_can_go_back(old(self).history@) ==> ({
                let target = spec_current(spec_back(old(self).history@)).unwrap();
                match old(self).note_directory {
                    Some(d) if has_id(d.notes@, target) => r matches Some(n) && found_id(d.notes@, target, n)
                        && final(self).current_note == Some(n) && id_opt(final(self).selected_note) == Some(target),
                    _ => r is None && final(self).current_note == old(self).current_note
                        && final(self).selected_note == old(self).selected_note,
                }
            }),
    {
        let target = match self.history.back() {
            Some(t) => t.to_owned(),
            None => return None,
        };
        self.load_current_from_directory(target.as_str())
    }

    /// Steps forward in the history and shows that note.
    pub fn navigate_forward(&mut self) -> (r: Option<Arc<Note>>)
        requires
            old(self).wf(),
        ensures
            final(self).wf(),
            final(self).history@ == spec_forward(old(self).history@),
            final(self).notes_path == old(self).notes_path,
            final(self).note_directory == old(self).note_directory,
            final(self).active_tag == old(self).active_tag,
            !spec_can_go_forward(old(self).history@) ==> r is None && final(self).current_note
                == old(self).current_note && final(self).selected_note == old(self).selected_note,
            spec_can_go_forward(old(self).history@) ==> ({
                let target = spec_current(spec_forward(old(self).history@)).unwrap();
                match old(self).note_directory {
                    Some(d) if has_id(d.notes@, target) => r matches Some(n) && found_id(d.notes@, target, n)
                        && final(self).current_note == Some(n) && id_opt(final(self).selected_note) == Some(target),
                    _ => r is None && final(self).current_note == old(self).current_note
                        && final(self).selected_note == old(self).selected_note,
                }
            }),
    {
        let target = match self.history.forward() {
            Some(t) => t.to_owned(),
            None => return None,
        };
        self.load_current_from_directory(target.as_str())
    }
}

impl Navigator {
    /// Opens a freshly read notes directory: the history starts afresh,
    /// then the note "index" is shown if a link to it resolves, else the
    /// first published note (which starts the history).
    pub fn set_notes_directory(&mut self, path: std::path::PathBuf, directory: NoteDirectory)
        requires
            old(self).wf(),
        ensures
            final(self).wf(),
            final(self).notes_path == Some(path),
            final(self).note_directory == Some(directory),
            final(self).active_tag == old(self).active_tag,
            resolve_step(note_seq(directory.notes@), "index"@) is Some ==> (final(self).current_note matches Some(
                n,
            ) && resolves_to(directory.notes@, "index"@, n) && final(self).history@ == spec_push(
                (Seq::empty(), 0),
                n.id@,
            ) && id_opt(final(self).selected_note) == Some(n.id@)),
            resolve_step(note_seq(directory.notes@), "index"@) is None ==> ({
                let pubs = published(note_seq(directory.notes@));
                &&& final(self).selected_note == old(self).selected_note
                &&& pubs.len() > 0 ==> (final(self).current_note matches Some(n) && *n == pubs[0]
                    && final(self).history@ == (seq![pubs[0].id@], 0int))
                &&& pubs.len() == 0 ==> final(self).current_note == old(self).current_note
                    && final(self).history@.0.len() == 0
            }),
    {
        self.notes_path = Some(path);
        self.note_directory = Some(directory);
        self.history.clear();
        if self.load_note("index").is_none() {
            match &self.note_directory {
                Some(d) => {
                    let pubs = d.published_notes();
                    if pubs.len() > 0 {
                        let first = Arc::clone(&pubs[0]);
                        let first_id = first.id.clone();
                        assert(note_seq(pubs@)[0] == *pubs@[0]);
                        self.current_note = Some(first);
                        self.history.reset(first_id);
                    }
                },
                None => {},
            }
        }
    }

    /// Takes a re-read directory, keeping the shown note when a note with
    /// its id is still there, else showing the first published note, else
    /// nothing.
    pub fn replace_directory(&mut self, directory: NoteDirectory)
        ensures
            final(self).note_directory == Some(directory),
            final(self).notes_path == old(self).notes_path,
            final(self).history == old(self).history,
            final(self).selected_note == old(self).selected_note,
            final(self).active_tag == old(self).active_tag,
            match old(self).current_note {
                None => final(self).current_note is None,
                Some(c) => if has_id(directory.notes@, c.id@) {
                    final(self).current_note matches Some(n) && found_id(directory.notes@, c.id@, n)
                } else {
                    let pubs = published(note_seq(directory.notes@));
                    if pubs.len() > 0 {
                        final(self).current_note matches Some(n) && *n == pubs[0]
                    } else {
                        final(self).current_note is None
                    }
                },
            },
    {
        let current_id = match &self.current_note {
            Some(n) => Some(n.id.clone()),
            None => None,
        };
        self.note_directory = Some(directory);
        match current_id {
            Some(id) => {
                let d = match &self.note_directory {
                    Some(d) => d,
                    None => return,
                };
                match d.get_note(id.as_str()) {
                    Some(n) => {
                        self.current_note = Some(n);
                    },
                    None => {
                        let pubs = d.published_notes();
                        if pubs.len() > 0 {
                            assert(note_seq(pubs@)[0] == *pubs@[0]);
                            self.current_note = Some(Arc::clone(&pubs[0]));
                        } else {
                            self.current_note = None;
                        }
                    },
                }
            },
            None => {},
        }
    }
}

/// `out` lists, in order, the notes that the embeds (`![[...]]`) among
/// `links` resolve to; embeds that resolve to nothing are left out.
pub open spec fn embeds_resolve(ns: Seq<Arc<Note>>, links: Seq<NoteLink>, out: Seq<Arc<Note>>) -> bool
    decreases links.len(),
{
    if links.len() == 0 {
        out.len() == 0
    } else {
        let l = links.last();
        if l.is_embed && resolve_step(note_seq(ns), l.target_id@) is Some {
            &&& out.len() > 0
            &&& resolves_to(ns, l.target_id@, out.last())
            &&& embeds_resolve(ns, links.drop_last(), out.drop_last())
        } else {
            embeds_resolve(ns, links.drop_last(), out)
        }
    }
}

/// The notes a note embeds, in order, for showing below its body.
pub fn embedded_notes(note: &Note, directory: &NoteDirectory) -> (r: Vec<Arc<Note>>)
    ensures
        embeds_resolve(directory.notes@, note.links@, r@),
{
    let mut out: Vec<Arc<Note>> = Vec::new();
    let mut i: usize = 0;
    while i < note.links.len()
        invariant
            i <= note.links@.len(),
            embeds_resolve(directory.notes@, note.links@.take(i as int), out@),
        decreases note.links@.len() - i,
    {
        let ghost before = out@;
        assert(note.links@.take(i + 1).drop_last() =~= note.links@.take(i as int));
        assert(note.links@.take(i + 1).last() == note.links@[i as int]);
        let link = &note.links[i];
        if link.is_embed {
            match directory.resolve_link(link.target_id.as_str()) {
                Some(target) => {
                    out.push(target);
                    assert(out@.drop_last() =~= before);
                },
                None => {},
            }
        }
        i = i + 1;
    }
    assert(note.links@.take(note.links@.len() as int) =~= note.links@);
    out
}

} // verus!
