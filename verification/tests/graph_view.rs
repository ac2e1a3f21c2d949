use std::path::PathBuf;

use digital_garden::digital_garden::graph_view::{
    first_paragraph, graph_links, graph_nodes, needs_relayout,
};
use digital_garden::digital_garden::note::{Frontmatter, Note};
use digital_garden::digital_garden::note_directory::{Folder, NoteDirectory};

fn note(id: &str, content: &str) -> Note {
    Note::assemble(id.into(), PathBuf::from(format!("{id}.md")), content.into(), None)
}

fn draft(id: &str, content: &str) -> Note {
    let text = format!("---\ndraft: true\n---\n{content}");
    let fm = Frontmatter { draft: true, ..Frontmatter::default() };
    Note::assemble(id.into(), PathBuf::from(format!("{id}.md")), text, Some(fm))
}

fn directory(notes: Vec<Note>) -> NoteDirectory {
    let root = PathBuf::from("/notes");
    NoteDirectory::from_notes(root.clone(), notes, Folder::scanned(root, Vec::new(), Vec::new()))
}

fn strings(v: &[&str]) -> Vec<String> {
    v.iter().map(|s| s.to_string()).collect()
}

#[test]
fn first_paragraph_strips_frontmatter() {
    let content = "---\ntitle: X\n---\n\nHello world.\n\nSecond paragraph.";
    assert_eq!(first_paragraph(content, 200), "Hello world.");
}

#[test]
fn first_paragraph_truncates_long_content() {
    let content = "x".repeat(500);
    let preview = first_paragraph(&content, 50);
    assert!(preview.chars().count() <= 51);
    assert!(preview.ends_with('…'));
}

#[test]
fn first_paragraph_handles_no_frontmatter() {
    assert_eq!(first_paragraph("Just a line.", 200), "Just a line.");
}

#[test]
fn first_paragraph_joins_wrapped_lines_within_paragraph() {
    let content = "wrapped line one\nwrapped line two\n\nsecond para";
    assert_eq!(
        first_paragraph(content, 200),
        "wrapped line one wrapped line two"
    );
}

#[test]
fn first_paragraph_edge_cases() {
    // Trailing white space before the cut is dropped before the ellipsis.
    assert_eq!(first_paragraph("abc def", 4), "abc…");
    // Leading blank lines are skipped; CRLF endings are handled.
    assert_eq!(first_paragraph("\r\n  \r\n  hi there \r\nmore\r\n\r\nnext", 200), "hi there more");
    // An unclosed front-matter block is kept as text.
    assert_eq!(first_paragraph("---\ntitle", 200), "--- title");
    assert_eq!(first_paragraph("", 10), "");
    // Exactly max characters: no ellipsis.
    assert_eq!(first_paragraph("abcd", 4), "abcd");
}

#[test]
fn graph_edges_resolve_links_once_each() {
    let hub = note("hub", "[[alpha]] [[Alpha]] [[beta]] [[missing]] [[hidden]] [[alpha]]");
    let d = directory(vec![note("alpha", "a"), note("beta", "b"), draft("hidden", "h"), hub]);
    let hub = d.get_note("hub").unwrap();
    let g = graph_links(&hub, &d);
    assert_eq!(g.id, "hub");
    assert_eq!(g.title, "Hub");
    assert_eq!(g.connections, strings(&["alpha", "beta"]));
}

#[test]
fn graph_has_a_node_per_published_note() {
    let d = directory(vec![note("a", "[[b]]"), draft("d", "[[a]]"), note("b", "")]);
    let nodes = graph_nodes(&d);
    let ids: Vec<&str> = nodes.iter().map(|n| n.id.as_str()).collect();
    assert_eq!(ids, vec!["a", "b"]);
    assert_eq!(nodes[0].connections, strings(&["b"]));
    assert!(nodes[1].connections.is_empty());
}

#[test]
fn relayout_only_when_the_ids_change() {
    let ab = strings(&["a", "b"]);
    let ba = strings(&["b", "a"]);
    let abc = strings(&["a", "b", "c"]);
    assert!(!needs_relayout(&ab, &ba));
    assert!(needs_relayout(&ab, &abc));
    assert!(needs_relayout(&abc, &ab));
    assert!(needs_relayout(&Vec::new(), &ab));
    assert!(!needs_relayout(&ab, &strings(&["a"])));
}
