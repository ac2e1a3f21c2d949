use std::path::PathBuf;
use std::sync::Arc;

use digital_garden::digital_garden::note::{frame_frontmatter, split_frontmatter, Frontmatter, Note, NoteLink};
use digital_garden::digital_garden::note_directory::{Folder, NoteDirectory};
use digital_garden::digital_garden::search::Search;
use digital_garden::digital_garden::watcher::{ReloadGate, DEFAULT_DEBOUNCE_MS};

fn note(id: &str, content: &str) -> Note {
    Note::assemble(id.to_string(), PathBuf::from(format!("{id}.md")), content.to_string(), None)
}

fn with_front(mut n: Note, title: Option<&str>, draft: bool, tags: &[&str]) -> Note {
    n.frontmatter.title = title.map(|t| t.to_string());
    n.frontmatter.draft = draft;
    n.frontmatter.tags = tags.iter().map(|t| t.to_string()).collect();
    n
}

fn empty_folder() -> Folder {
    Folder::scanned(PathBuf::from("/notes"), Vec::new(), Vec::new())
}

#[test]
fn title_falls_back_to_title_cased_id() {
    assert_eq!(note("my_first-note", "").title(), "My First Note");
    assert_eq!(note("über alles", "").title(), "Über Alles");
    assert_eq!(note("a1-b2__c", "").title(), "A1 B2  C");
    let titled = with_front(note("x", ""), Some("Custom"), false, &[]);
    assert_eq!(titled.title(), "Custom");
}

#[test]
fn slug_and_draft() {
    let mut n = note("plain", "");
    assert_eq!(n.slug(), "plain");
    assert!(!n.is_draft());
    n.frontmatter.slug = Some("custom-slug".into());
    n.frontmatter.draft = true;
    assert_eq!(n.slug(), "custom-slug");
    assert!(n.is_draft());
}

#[test]
fn frontmatter_is_split_off() {
    let (yaml, body) = split_frontmatter("---\ntitle: Hi\n---\nBody [[x]]").unwrap();
    assert_eq!(yaml, "title: Hi\n");
    assert_eq!(body, "Body [[x]]");
    let (yaml, body) = split_frontmatter("---\r\na: 1\r\n---\r\nrest").unwrap();
    assert_eq!(yaml, "a: 1\r\n");
    assert_eq!(body, "rest");
    assert!(split_frontmatter("no frontmatter").is_none());
    assert!(split_frontmatter("---\nunclosed").is_none());
    assert!(split_frontmatter("--- \nx\n---\n").is_none());
}

#[test]
fn note_from_file_keeps_parsed_frontmatter() {
    let parsed = Frontmatter { title: Some("Hi".into()), ..Frontmatter::default() };
    let content = "---\ntitle: Hi\n---\nSee [[other]]".to_string();
    let n = Note::from_file(&PathBuf::from("dir/hello.md"), content.clone(), Some(parsed)).unwrap();
    assert_eq!(n.id, "hello");
    assert_eq!(n.content, "See [[other]]");
    assert_eq!(n.title(), "Hi");
    assert_eq!(
        n.links,
        vec![NoteLink { target_id: "other".into(), display_text: "other".into(), is_embed: false }]
    );
    assert!(n.backlinks.is_empty());
    // A block that did not parse leaves the content whole.
    let m = Note::from_file(&PathBuf::from("hello.md"), content.clone(), None).unwrap();
    assert_eq!(m.content, content);
    assert_eq!(m.frontmatter.title, None);
    assert!(Note::from_file(&PathBuf::from("/"), String::new(), None).is_err());
    let e = Note::from_file(&PathBuf::from("/"), String::new(), None).unwrap_err();
    assert!(e.starts_with("Invalid filename: "));
}

fn directory() -> NoteDirectory {
    let notes = vec![
        with_front(note("index", "Welcome, see [[rust]] and [[garden]]."), Some("Home"), false, &["meta"]),
        with_front(note("rust", "Rust notes link back to [[index]]."), None, false, &["Lang", "systems"]),
        with_front(note("garden", "Tending the garden. [[rust|Rust]]"), None, true, &["meta"]),
        with_front(note("rust", "Replaced rust note, see [[index]]!"), None, false, &["lang"]),
    ];
    NoteDirectory::from_notes(PathBuf::from("/notes"), notes, empty_folder())
}

#[test]
fn later_notes_replace_earlier_ones() {
    let d = directory();
    assert_eq!(d.notes.len(), 3);
    let ids: Vec<&str> = d.notes.iter().map(|n| n.id.as_str()).collect();
    assert_eq!(ids, vec!["index", "rust", "garden"]);
    assert_eq!(d.get_note("rust").unwrap().content, "Replaced rust note, see [[index]]!");
    assert!(d.get_note("missing").is_none());
}

#[test]
fn backlinks_mirror_links() {
    let d = directory();
    let index = d.get_note("index").unwrap();
    assert_eq!(index.backlinks, vec!["rust".to_string()]);
    let rust = d.get_note("rust").unwrap();
    assert_eq!(rust.backlinks, vec!["index".to_string(), "garden".to_string()]);
    let garden = d.get_note("garden").unwrap();
    assert_eq!(garden.backlinks, vec!["index".to_string()]);
}

#[test]
fn directory_queries() {
    let d = directory();
    let published: Vec<String> = d.published_notes().iter().map(|n| n.id.clone()).collect();
    assert_eq!(published, vec!["index", "rust"]);
    let meta: Vec<String> = d.notes_with_tag("meta").iter().map(|n| n.id.clone()).collect();
    assert_eq!(meta, vec!["index", "garden"]);
    let found: Vec<String> = d.search("RUST").iter().map(|n| n.id.clone()).collect();
    assert_eq!(found, vec!["index", "rust"]);
    let by_tag: Vec<String> = d.search("LANG").iter().map(|n| n.id.clone()).collect();
    assert_eq!(by_tag, vec!["rust"]);
    // Drafts are never found.
    assert!(d.search("tending").is_empty());
    assert_eq!(d.get_note_by_slug("rust").unwrap().id, "rust");
    assert!(d.get_note_by_slug("nope").is_none());
    assert!(Arc::ptr_eq(&d.get_note("index").unwrap(), &d.notes[0]));
}

#[test]
fn folders_and_notes_are_sorted() {
    let b = Arc::new(Folder::scanned(PathBuf::from("/n/b"), Vec::new(), Vec::new()));
    let a = Arc::new(Folder::scanned(PathBuf::from("/n/a"), Vec::new(), Vec::new()));
    let f = Folder::scanned(PathBuf::from("/n"), vec![b, a], vec!["zeta".into(), "Alpha".into(), "beta".into()]);
    assert_eq!(f.name, "n");
    let names: Vec<&str> = f.folders.iter().map(|x| x.name.as_str()).collect();
    assert_eq!(names, vec!["a", "b"]);
    assert_eq!(f.notes, vec!["Alpha", "beta", "zeta"]);
    assert_eq!(Folder::scanned(PathBuf::from("/"), Vec::new(), Vec::new()).name, "Root");
}

#[test]
fn search_ranks_hits_best_first() {
    let d = directory();
    let mut s = Search::new();
    s.query = "rust".into();
    s.search(&d);
    let ids: Vec<&str> = s.results.iter().map(|r| r.note.id.as_str()).collect();
    // The exact title match (1000, plus 147 for the body hit at byte 9)
    // beats the body-only match (146, at byte 15).
    assert_eq!(ids, vec!["rust", "index"]);
    assert_eq!(s.results[0].score, 1147);
    assert_eq!(s.results[1].score, 146);
    assert_eq!(s.selected_index, Some(0));
    let hit = &s.results[1];
    assert_eq!(hit.snippet, "Welcome, see [[rust]] and [[garden]].");
    assert_eq!(hit.match_offset, Some(15));
    assert_eq!(hit.match_len, 4);
    // The same query again does nothing.
    s.results.clear();
    s.search(&d);
    assert!(s.results.is_empty());
    // A blank query clears the hits.
    s.query = "   ".into();
    s.search(&d);
    assert!(s.results.is_empty());
    assert_eq!(s.selected_index, None);
    // Tags count too: "#meta" finds the published note tagged "meta".
    s.query = "#meta".into();
    s.search(&d);
    let ids: Vec<&str> = s.results.iter().map(|r| r.note.id.as_str()).collect();
    assert_eq!(ids, vec!["index"]);
    assert_eq!(s.results[0].score, 300);
    s.query = "zzzz".into();
    s.search(&d);
    assert!(s.results.is_empty());
    assert_eq!(s.selected_index, None);
}

#[test]
fn reload_gate_debounces() {
    let ms = 1_000_000u128;
    let mut g = ReloadGate::new(DEFAULT_DEBOUNCE_MS);
    assert!(!g.consume_if_ready(false, 0));
    assert!(g.consume_if_ready(true, 5 * ms));
    assert!(!g.consume_if_ready(true, 100 * ms));
    assert!(!g.consume_if_ready(true, 304 * ms));
    assert!(g.consume_if_ready(true, 305 * ms));
    assert_eq!(g.last_reload, Some(305 * ms));
    // A clock reading before the last reload counts as no time passed.
    assert!(!g.consume_if_ready(true, ms));
    g.set_debounce_ms(0);
    assert!(g.consume_if_ready(true, ms));
}

#[test]
fn search_keyboard_moves_within_hits() {
    let d = directory();
    let mut s = Search::new();
    s.select_next();
    assert_eq!(s.selected_index, None);
    s.query = "rust".into();
    s.search(&d);
    assert_eq!(s.results.len(), 2);
    s.select_next();
    assert_eq!(s.selected_index, Some(1));
    s.select_next();
    assert_eq!(s.selected_index, Some(1));
    assert_eq!(s.chosen_id(), Some("index".to_string()));
    s.select_prev();
    s.select_prev();
    assert_eq!(s.selected_index, Some(0));
    assert_eq!(s.chosen_id(), Some("rust".to_string()));
    s.selected_index = None;
    assert_eq!(s.chosen_id(), None);
    s.select_prev();
    assert_eq!(s.selected_index, Some(0));
    s.clear();
    assert!(s.query.is_empty() && s.results.is_empty() && s.selected_index.is_none());
    assert_eq!(s.last_run_query, "rust");
}

#[test]
fn framed_frontmatter_splits_back() {
    let framed = frame_frontmatter("title: Hi\ndraft: true\n");
    assert_eq!(framed, "---\ntitle: Hi\ndraft: true\n---\n");
    let (yaml, body) = split_frontmatter(&(framed + "Body")).unwrap();
    assert!(yaml.contains("title: Hi"));
    assert_eq!(body.trim(), "Body");
}

#[test]
fn a_note_takes_its_id_from_the_file_stem() {
    let path = PathBuf::from("garden/plans.md");
    let n = Note::from_stem(Some("plans".to_string()), &path, "See [[ideas]].".to_string(), None).unwrap();
    assert_eq!(n.id, "plans");
    assert_eq!(n.path, path);
    let e = Note::from_stem(None, &PathBuf::from("/"), String::new(), None).unwrap_err();
    assert!(e.starts_with("Invalid filename: "));
}
