use digital_garden::digital_garden::note_directory::{Folder, NoteDirectory};
use digital_garden::digital_garden::markdown_parser::{
    inlines_to_plain, markdown_to_html, resolve_image_url, toggle_task, toggle_task_with_events,
    Inline,
};

#[test]
fn toggle_task_checks_unchecked() {
    let src = "- [ ] first\n- [ ] second\n";
    let out = toggle_task(src, 0).unwrap();
    assert_eq!(out, "- [x] first\n- [ ] second\n");
}

#[test]
fn toggle_task_unchecks_checked() {
    let src = "- [x] done\n- [ ] todo\n";
    let out = toggle_task(src, 0).unwrap();
    assert_eq!(out, "- [ ] done\n- [ ] todo\n");
}

#[test]
fn toggle_task_hits_correct_index() {
    let src = "- [ ] a\n- [ ] b\n- [ ] c\n";
    let out = toggle_task(src, 2).unwrap();
    assert_eq!(out, "- [ ] a\n- [ ] b\n- [x] c\n");
}

#[test]
fn toggle_task_out_of_range_returns_none() {
    let src = "- [ ] only one\n";
    assert!(toggle_task(src, 5).is_none());
}

#[test]
fn toggle_task_capital_x_is_treated_as_checked() {
    let src = "- [X] done\n";
    let out = toggle_task(src, 0).unwrap();
    assert_eq!(out, "- [ ] done\n");
}

#[test]
fn toggle_task_does_not_touch_non_task_brackets() {
    let src = "See [docs](x).\n- [ ] real task\n";
    let out = toggle_task(src, 0).unwrap();
    assert_eq!(out, "See [docs](x).\n- [x] real task\n");
}

#[test]
fn markdown_to_html_renders_basic_elements() {
    let html = markdown_to_html("# Heading\n\n*em* and **strong** and `code`.");
    assert!(html.contains("<h1>"));
    assert!(html.contains("<em>em</em>"));
    assert!(html.contains("<strong>strong</strong>"));
    assert!(html.contains("<code>code</code>"));
}

fn notes_dir() -> NoteDirectory {
    let root = std::path::PathBuf::from("/notes");
    NoteDirectory::from_notes(root.clone(), Vec::new(), Folder::scanned(root, Vec::new(), Vec::new()))
}

#[test]
fn resolve_image_url_passes_through_http() {
    let root = notes_dir();
    assert_eq!(resolve_image_url("http://x/a.png", &root), "http://x/a.png");
    assert_eq!(resolve_image_url("https://x/a.png", &root), "https://x/a.png");
    assert_eq!(resolve_image_url("data:image/png;base64,AA", &root), "data:image/png;base64,AA");
}

#[test]
fn relative_image_paths_become_file_urls() {
    let root = notes_dir();
    let url = resolve_image_url("img/a.png", &root);
    assert!(url.starts_with("file://"));
    assert!(url.ends_with("a.png"));
}

#[test]
fn toggling_with_given_events() {
    // Events: a non-marker, then markers at bytes 2..5 and 8..11.
    let src = "- [ ] a [x] b";
    let events = vec![(None, 0, 13), (Some(false), 2, 5), (Some(true), 8, 11)];
    assert_eq!(toggle_task_with_events(src, &events, 0).unwrap(), "- [x] a [x] b");
    assert_eq!(toggle_task_with_events(src, &events, 1).unwrap(), "- [ ] a [ ] b");
    assert!(toggle_task_with_events(src, &events, 2).is_none());
    // A range that is not a valid slice gives nothing.
    let bad = vec![(Some(false), 5, 2)];
    assert!(toggle_task_with_events(src, &bad, 0).is_none());
    let past_end = vec![(Some(false), 2, 99)];
    assert!(toggle_task_with_events(src, &past_end, 0).is_none());
}

#[test]
fn inline_runs_flatten_to_text() {
    let inlines = vec![
        Inline::TaskCheckbox { index: 0, checked: true },
        Inline::Text {
            text: "Read".into(),
            bold: true,
            italic: false,
            strikethrough: false,
            code: false,
        },
        Inline::SoftBreak,
        Inline::WikiLink { text: "Rust".into(), target: "rust".into(), alive: true },
        Inline::HardBreak,
        Inline::Image { src: "x.png".into(), alt: "pic".into() },
        Inline::ExternalLink { text: "site".into(), url: "http://s".into() },
        Inline::TaskCheckbox { index: 1, checked: false },
    ];
    assert_eq!(inlines_to_plain(&inlines), "☑ Read Rust\npicsite☐ ");
    assert_eq!(inlines_to_plain(&[]), "");
}
