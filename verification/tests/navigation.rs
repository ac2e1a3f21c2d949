use std::path::PathBuf;

use digital_garden::command_palette::WindowKind;
use digital_garden::digital_garden::navigator::{embedded_notes, Navigator};
use digital_garden::digital_garden::note::Note;
use digital_garden::digital_garden::note_directory::{Folder, NoteDirectory};
use digital_garden::windows::{answer_confirm, PendingConfirm, WindowFlags};

fn note(id: &str, content: &str) -> Note {
    Note::assemble(id.into(), PathBuf::from(format!("{id}.md")), content.into(), None)
}

fn directory(notes: Vec<Note>) -> NoteDirectory {
    let root = PathBuf::from("/notes");
    NoteDirectory::from_notes(root.clone(), notes, Folder::scanned(root, Vec::new(), Vec::new()))
}

fn shown(nav: &Navigator) -> Option<String> {
    nav.current_note.as_ref().map(|n| n.id.clone())
}

#[test]
fn opening_a_directory_shows_its_index() {
    let mut nav = Navigator::new();
    let d = directory(vec![note("a", ""), note("index", "Start"), note("b", "")]);
    nav.set_notes_directory(PathBuf::from("/notes"), d);
    assert_eq!(shown(&nav), Some("index".into()));
    assert_eq!(nav.selected_note.as_deref(), Some("index"));
    assert_eq!(nav.history.current(), Some("index"));
}

#[test]
fn without_an_index_the_first_published_note_is_shown() {
    let mut nav = Navigator::new();
    let mut draft = note("a", "");
    draft.frontmatter.draft = true;
    nav.set_notes_directory(PathBuf::from("/notes"), directory(vec![draft, note("b", ""), note("c", "")]));
    assert_eq!(shown(&nav), Some("b".into()));
    assert_eq!(nav.history.current(), Some("b"));
    assert_eq!(nav.selected_note, None);
}

#[test]
fn links_back_and_forward() {
    let mut nav = Navigator::new();
    nav.set_notes_directory(
        PathBuf::from("/notes"),
        directory(vec![note("index", ""), note("elegy-campaign-player", ""), note("c", "")]),
    );
    // A link written as the title resolves to the canonical id.
    let n = nav.load_note("Elegy Campaign Player").unwrap();
    assert_eq!(n.id, "elegy-campaign-player");
    assert_eq!(nav.history.current(), Some("elegy-campaign-player"));
    assert!(nav.load_note("nowhere").is_none());
    assert_eq!(shown(&nav), Some("elegy-campaign-player".into()));
    nav.load_note("c").unwrap();
    assert_eq!(nav.navigate_back().unwrap().id, "elegy-campaign-player");
    assert_eq!(nav.navigate_back().unwrap().id, "index");
    assert!(nav.navigate_back().is_none());
    assert_eq!(nav.navigate_forward().unwrap().id, "elegy-campaign-player");
    assert_eq!(nav.selected_note.as_deref(), Some("elegy-campaign-player"));
}

#[test]
fn a_rescan_keeps_the_shown_note() {
    let mut nav = Navigator::new();
    nav.set_notes_directory(PathBuf::from("/notes"), directory(vec![note("index", ""), note("b", "old")]));
    nav.load_note("b");
    nav.replace_directory(directory(vec![note("index", ""), note("b", "new")]));
    assert_eq!(nav.current_note.as_ref().unwrap().content, "new");
    // The shown note was deleted: fall back to the first published one.
    nav.replace_directory(directory(vec![note("z", ""), note("index", "")]));
    assert_eq!(shown(&nav), Some("z".into()));
    nav.replace_directory(directory(vec![]));
    assert_eq!(shown(&nav), None);
    nav.close_directory();
    assert!(nav.note_directory.is_none());
    assert_eq!(nav.history.current(), None);
}

#[test]
fn embeds_resolve_in_order() {
    let host = note("host", "![[b]] then [[a]] then ![[missing]] and ![[A]]");
    let d = directory(vec![note("a", "A body"), note("b", "B body"), host]);
    let host = d.get_note("host").unwrap();
    let ids: Vec<String> = embedded_notes(&host, &d).iter().map(|n| n.id.clone()).collect();
    assert_eq!(ids, vec!["b", "a"]);
}

#[test]
fn window_flags_toggle() {
    let mut w = WindowFlags::default();
    assert!(w.is_open(WindowKind::About));
    assert!(!w.is_open(WindowKind::Calculator));
    w.toggle_window_open(WindowKind::Calculator);
    assert!(w.is_open(WindowKind::Calculator));
    w.toggle_window_open(WindowKind::Calculator);
    assert!(!w.is_open(WindowKind::Calculator));
    w.set_window_open(WindowKind::WadViewer);
    w.set_window_open(WindowKind::WadViewer);
    assert!(w.wad_viewer_is_open);
    assert!(w.about_is_open);
    assert!(!w.timestamp_converter_is_open);
}

#[test]
fn confirmation_runs_only_when_confirmed() {
    let p = Some(PendingConfirm::ChangeNotesFolder);
    assert_eq!(answer_confirm(p, true, false), (p, None));
    assert_eq!(answer_confirm(p, true, true), (p, None));
    assert_eq!(answer_confirm(p, false, true), (None, None));
    assert_eq!(answer_confirm(p, false, false), (None, p));
    assert_eq!(answer_confirm(None, true, false), (None, None));
    let (heading, _, label) = PendingConfirm::ResetEguiMemory.texts();
    assert_eq!(heading, "Reset egui memory?");
    assert_eq!(label, "Reset memory");
}
