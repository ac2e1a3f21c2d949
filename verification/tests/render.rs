use std::path::PathBuf;

use digital_garden::digital_garden::markdown_parser::Inline;
use digital_garden::digital_garden::note::Note;
use digital_garden::digital_garden::note_directory::{Folder, NoteDirectory};
use digital_garden::digital_garden::render_state::{
    render_blocks, Block, MdEvent, MdTag, MdTagEnd, RenderState,
};

fn dir() -> NoteDirectory {
    let root = PathBuf::from("/notes");
    let alpha = Note::assemble("alpha".into(), PathBuf::from("alpha.md"), "Alpha body".into(), None);
    let mut beta = Note::assemble("beta-note".into(), PathBuf::from("beta-note.md"), String::new(), None);
    beta.frontmatter.slug = Some("b".into());
    let mut draft = Note::assemble("draft".into(), PathBuf::from("draft.md"), String::new(), None);
    draft.frontmatter.draft = true;
    NoteDirectory::from_notes(root.clone(), vec![alpha, beta, draft], Folder::scanned(root, Vec::new(), Vec::new()))
}

fn text(t: &str) -> Inline {
    Inline::Text { text: t.into(), bold: false, italic: false, strikethrough: false, code: false }
}

fn run(state: &mut RenderState, events: Vec<MdEvent>) -> Vec<Block> {
    let mut out = Vec::new();
    for e in events {
        out.extend(state.handle(e));
    }
    out
}

#[test]
fn links_resolve_by_id_case_slug_and_title() {
    let d = dir();
    assert_eq!(d.resolve_link("alpha").unwrap().id, "alpha");
    assert_eq!(d.resolve_link("ALPHA").unwrap().id, "alpha");
    assert_eq!(d.resolve_link("b").unwrap().id, "beta-note");
    assert_eq!(d.resolve_link("beta note").unwrap().id, "beta-note");
    assert!(d.resolve_link("draft").is_none());
    assert!(d.resolve_link("missing").is_none());
}

#[test]
fn wiki_links_in_text_become_fragments() {
    let d = dir();
    let mut st = RenderState::new(&d);
    let blocks = run(
        &mut st,
        vec![
            MdEvent::Start(MdTag::Paragraph),
            MdEvent::Text("See [[alpha]] and [[ghost|Ghost]] ![[img]] end [[open".into()),
            MdEvent::End(MdTagEnd::Paragraph),
        ],
    );
    assert_eq!(
        blocks,
        vec![
            Block::Inlines {
                inlines: vec![
                    text("See "),
                    Inline::WikiLink { text: "alpha".into(), target: "alpha".into(), alive: true },
                    text(" and "),
                    Inline::WikiLink { text: "Ghost".into(), target: "ghost".into(), alive: false },
                    text(" "),
                    text(" end "),
                    text("[[open"),
                ],
                quote_depth: 0,
            },
            Block::Space(6),
        ]
    );
}

#[test]
fn styles_links_and_code() {
    let d = dir();
    let mut st = RenderState::new(&d);
    let blocks = run(
        &mut st,
        vec![
            MdEvent::Start(MdTag::Heading(2)),
            MdEvent::Text("Title ".into()),
            MdEvent::Code("x".into()),
            MdEvent::End(MdTagEnd::Heading(2)),
            MdEvent::Start(MdTag::Strong),
            MdEvent::Text("bold [[not]]".into()),
            MdEvent::End(MdTagEnd::Strong),
            MdEvent::Start(MdTag::Link("https://e.x".into())),
            MdEvent::Text("site".into()),
            MdEvent::End(MdTagEnd::Link),
            MdEvent::Start(MdTag::Link("wiki:alpha".into())),
            MdEvent::Code("a".into()),
            MdEvent::End(MdTagEnd::Link),
            MdEvent::Code("[[kept]]".into()),
            MdEvent::FootnoteReference("1".into()),
            MdEvent::Math("x^2".into()),
            MdEvent::Rule,
        ],
    );
    assert_eq!(
        blocks,
        vec![
            Block::Space(6),
            Block::Heading { level: 2, text: "Title x".into() },
            Block::Space(4),
            Block::Inlines {
                inlines: vec![
                    Inline::Text { text: "bold ".into(), bold: true, italic: false, strikethrough: false, code: false },
                    Inline::WikiLink { text: "not".into(), target: "not".into(), alive: false },
                    Inline::ExternalLink { text: "site".into(), url: "https://e.x".into() },
                    Inline::WikiLink { text: "a".into(), target: "alpha".into(), alive: true },
                    Inline::Text { text: "[[kept]]".into(), bold: false, italic: false, strikethrough: false, code: true },
                    text("[^1]"),
                    Inline::Text { text: "$x^2$".into(), bold: false, italic: false, strikethrough: false, code: true },
                ],
                quote_depth: 0,
            },
            Block::Rule,
        ]
    );
}

#[test]
fn lists_quotes_and_code_blocks() {
    let d = dir();
    let mut st = RenderState::new(&d);
    let blocks = run(
        &mut st,
        vec![
            MdEvent::Start(MdTag::List(Some(9))),
            MdEvent::Start(MdTag::Item),
            MdEvent::TaskListMarker(false),
            MdEvent::Text("a".into()),
            MdEvent::End(MdTagEnd::Item),
            MdEvent::Start(MdTag::Item),
            MdEvent::Start(MdTag::List(None)),
            MdEvent::Start(MdTag::Item),
            MdEvent::TaskListMarker(true),
            MdEvent::End(MdTagEnd::Item),
            MdEvent::End(MdTagEnd::List),
            MdEvent::End(MdTagEnd::Item),
            MdEvent::End(MdTagEnd::List),
            MdEvent::Start(MdTag::BlockQuote),
            MdEvent::Text("quoted".into()),
            MdEvent::End(MdTagEnd::BlockQuote),
            MdEvent::Start(MdTag::CodeBlock(Some(String::new()))),
            MdEvent::Text("let [[x]] = 1;\n".into()),
            MdEvent::End(MdTagEnd::CodeBlock),
            MdEvent::Start(MdTag::CodeBlock(Some("rust".into()))),
            MdEvent::End(MdTagEnd::CodeBlock),
        ],
    );
    assert_eq!(
        blocks,
        vec![
            Block::ListItem {
                bullet: "9. ".into(),
                depth: 0,
                inlines: vec![Inline::TaskCheckbox { index: 0, checked: false }, text("a")],
            },
            Block::ListItem {
                bullet: "•  ".into(),
                depth: 1,
                inlines: vec![Inline::TaskCheckbox { index: 1, checked: true }],
            },
            Block::Space(2),
            Block::ListItem { bullet: "10. ".into(), depth: 0, inlines: vec![] },
            Block::Space(2),
            Block::Inlines { inlines: vec![text("quoted")], quote_depth: 1 },
            Block::CodeBlock { code: "let [[x]] = 1;\n".into(), lang: String::new() },
            Block::Space(4),
            Block::CodeBlock { code: String::new(), lang: "rust".into() },
            Block::Space(4),
        ]
    );
    assert_eq!(st.task_index, 2);
    assert_eq!(st.quote_depth, 0);
}

#[test]
fn tables_and_images() {
    let d = dir();
    let mut st = RenderState::new(&d);
    let blocks = run(
        &mut st,
        vec![
            MdEvent::Start(MdTag::Table),
            MdEvent::Start(MdTag::TableHead),
            MdEvent::Start(MdTag::TableCell),
            MdEvent::Text("H".into()),
            MdEvent::End(MdTagEnd::TableCell),
            MdEvent::End(MdTagEnd::TableRow),
            MdEvent::End(MdTagEnd::TableHead),
            MdEvent::Start(MdTag::TableRow),
            MdEvent::Start(MdTag::TableCell),
            MdEvent::Start(MdTag::Image("https://i.x/p.png".into())),
            MdEvent::Text("alt ".into()),
            MdEvent::Start(MdTag::Emphasis),
            MdEvent::Text("text".into()),
            MdEvent::End(MdTagEnd::Emphasis),
            MdEvent::End(MdTagEnd::Image),
            MdEvent::End(MdTagEnd::TableCell),
            MdEvent::End(MdTagEnd::TableRow),
            MdEvent::End(MdTagEnd::Table),
        ],
    );
    assert_eq!(
        blocks,
        vec![Block::Table {
            id: 1,
            headers: vec![vec![text("H")]],
            rows: vec![vec![vec![Inline::Image { src: "https://i.x/p.png".into(), alt: "alt text".into() }]]],
        }]
    );
    assert_eq!(st.table_count, 1);
}

#[test]
fn render_blocks_matches_handling_each_event() {
    let d = dir();
    let events = || {
        vec![
            MdEvent::Start(MdTag::Heading(2)),
            MdEvent::Text("Title".into()),
            MdEvent::End(MdTagEnd::Heading(2)),
            MdEvent::Start(MdTag::Paragraph),
            MdEvent::Text("See [[alpha]]".into()),
            MdEvent::End(MdTagEnd::Paragraph),
            MdEvent::Rule,
        ]
    };
    let mut st = RenderState::new(&d);
    let stepwise = run(&mut st, events());
    let all = render_blocks(events(), &d).unwrap();
    assert_eq!(all, stepwise);
    assert_eq!(all.last(), Some(&Block::Rule));
    assert_eq!(render_blocks(Vec::new(), &d), Some(Vec::new()));
}
