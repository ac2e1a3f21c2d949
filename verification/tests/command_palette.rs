use std::path::PathBuf;

use digital_garden::command_palette::{
    fuzzy_score, fuzzy_score_lowered, item_to_result, palette_items, rank_items, CommandPalette,
    PaletteItem, PaletteResult, SystemAction, WindowKind,
};
use digital_garden::digital_garden::note::{Frontmatter, Note};
use digital_garden::digital_garden::note_directory::{Folder, NoteDirectory};
use digital_garden::palette::Scheme;

fn note(id: &str, draft: bool) -> Note {
    let (text, fm) = if draft {
        ("---\ndraft: true\n---\nbody".to_string(), Some(Frontmatter { draft: true, ..Frontmatter::default() }))
    } else {
        ("body".to_string(), None)
    };
    Note::assemble(id.into(), PathBuf::from(format!("{id}.md")), text, fm)
}

fn note_rows(items: &[PaletteItem]) -> Vec<(String, String)> {
    items
        .iter()
        .filter_map(|i| match i {
            PaletteItem::Note { id, title } => Some((id.clone(), title.clone())),
            _ => None,
        })
        .collect()
}

#[test]
fn empty_query_scores_zero() {
    assert_eq!(fuzzy_score("anything", ""), Some(0));
}

#[test]
fn substring_beats_subsequence() {
    let sub = fuzzy_score("calculator", "calc").unwrap();
    let seq = fuzzy_score("c-a-l-c", "calc").unwrap();
    assert!(sub > seq);
}

#[test]
fn prefix_beats_inner_substring() {
    let prefix = fuzzy_score("calculator", "calc").unwrap();
    let inner = fuzzy_score("recalculate", "calc").unwrap();
    assert!(prefix > inner);
}

#[test]
fn case_insensitive() {
    assert!(fuzzy_score("Calculator", "CALC").is_some());
}

#[test]
fn no_match_returns_none() {
    assert!(fuzzy_score("calculator", "xyz").is_none());
}

#[test]
fn exact_scores() {
    // Prefix hit: 1000 - 0 + 200.
    assert_eq!(fuzzy_score("calculator", "calc"), Some(1200));
    // Inner hit at byte 2: 1000 - 2.
    assert_eq!(fuzzy_score("recalculate", "calc"), Some(998));
    // Subsequence c,a,l,c with one-character gaps: 10 + 9 + 9 + 9.
    assert_eq!(fuzzy_score("c-a-l-c", "calc"), Some(37));
    // Byte positions count multi-byte characters by their UTF-8 width.
    assert_eq!(fuzzy_score_lowered("é-x", "x"), Some(997));
}

#[test]
fn labels_and_groups() {
    assert_eq!(WindowKind::WadViewer.label(), "WAD Viewer");
    assert_eq!(WindowKind::Resume.label(), "Pseudo-Resumé");
    assert_eq!(WindowKind::DigitalGarden.group(), "notes");
    assert_eq!(WindowKind::Bezier.group(), "tools");
    assert_eq!(SystemAction::ResetZoom.label(), "Reset zoom");
    let note = PaletteItem::Note { id: "n1".into(), title: "My Note".into() };
    assert_eq!(note.search_text(), "My Note");
    assert_eq!(note.group(), "note");
    assert_eq!(PaletteItem::Scheme(Scheme::Moss).search_text(), "Moss");
}

#[test]
fn picking_an_item_commits_its_action() {
    let note = PaletteItem::Note { id: "n1".into(), title: "My Note".into() };
    assert!(matches!(item_to_result(&note), PaletteResult::OpenNote(ref s) if s == "n1"));
    assert!(matches!(
        item_to_result(&PaletteItem::Window(WindowKind::Canvas)),
        PaletteResult::OpenWindow(WindowKind::Canvas)
    ));
    assert!(matches!(
        item_to_result(&PaletteItem::System(SystemAction::ZoomIn)),
        PaletteResult::System(SystemAction::ZoomIn)
    ));
}

#[test]
fn ranking_orders_by_score_and_keeps_ties_in_order() {
    let items = vec![
        PaletteItem::Window(WindowKind::Canvas),
        PaletteItem::Window(WindowKind::Calculator),
        PaletteItem::Note { id: "x".into(), title: "recalc".into() },
        PaletteItem::Window(WindowKind::Workouts),
    ];
    let ranked = rank_items(&items, "calc");
    assert_eq!(ranked, vec![(1, 1200), (2, 998)]);
    // An empty query keeps every row, in item order.
    let all = rank_items(&items, "");
    assert_eq!(all, vec![(0, 0), (1, 0), (2, 0), (3, 0)]);
}

#[test]
fn ranking_shows_at_most_fifty_rows() {
    let items: Vec<PaletteItem> = (0..80)
        .map(|i| PaletteItem::Note { id: format!("{i}"), title: format!("note {i}") })
        .collect();
    assert_eq!(rank_items(&items, "note").len(), 50);
}

#[test]
fn selection_wraps_and_clamps() {
    let mut p = CommandPalette::default();
    assert!(!p.open);
    p.open();
    assert!(p.open);
    assert!(p.take_focus_request());
    assert!(!p.take_focus_request());
    p.select_prev(3);
    assert_eq!(p.selected(), 2);
    p.select_next(3);
    assert_eq!(p.selected(), 0);
    p.select(7);
    p.clamp_selection(4);
    assert_eq!(p.selected(), 3);
    p.clamp_selection(0);
    assert_eq!(p.selected(), 0);
    p.set_query("abc".into());
    assert_eq!(p.query(), "abc");
    p.close();
    assert!(!p.open);
    p.open();
    assert_eq!(p.query(), "");
}

#[test]
fn palette_lists_windows_actions_schemes_then_notes() {
    let root = PathBuf::from("/notes");
    let dir = NoteDirectory::from_notes(
        root.clone(),
        vec![note("alpha", false), note("beta", true), note("gamma", false)],
        Folder::scanned(root, Vec::new(), Vec::new()),
    );
    let recent = vec!["gamma".to_string(), "missing".to_string(), "beta".to_string()];
    let items = palette_items(&recent, Some(&dir));
    assert_eq!(items.len(), 27 + 3);
    assert!(matches!(items[0], PaletteItem::Window(WindowKind::DigitalGarden)));
    assert!(matches!(items[13], PaletteItem::Window(WindowKind::AppEvents)));
    assert!(matches!(items[14], PaletteItem::System(SystemAction::OrganizeWindows)));
    assert!(matches!(items[18], PaletteItem::Scheme(Scheme::TimeOfDay)));
    assert!(matches!(items[26], PaletteItem::Scheme(Scheme::Custom)));
    // Recent notes first (a recent draft too), then the other published ones.
    assert_eq!(
        note_rows(&items),
        vec![
            ("gamma".to_string(), "Gamma".to_string()),
            ("beta".to_string(), "Beta".to_string()),
            ("alpha".to_string(), "Alpha".to_string()),
        ]
    );
    let without = palette_items(&recent, None);
    assert_eq!(without.len(), 27);
    assert!(note_rows(&without).is_empty());
}
