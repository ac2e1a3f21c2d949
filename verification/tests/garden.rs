use digital_garden::digital_garden::note::{extract_links, NoteLink};
use digital_garden::digital_garden::percent_decode;
use digital_garden::digital_garden::sidebar::{tag_cloud_order, SidebarAction};
use digital_garden::digital_garden::theme::{
    get_default_themes, hex_to_rgb, replace_all, ThemeConfig, ThemeManager,
};

#[test]
fn links_are_extracted_in_order() {
    let links = extract_links("See [[alpha]] and ![[ beta | The Beta ]] then [[gamma]");
    assert_eq!(
        links,
        vec![
            NoteLink { target_id: "alpha".into(), display_text: "alpha".into(), is_embed: false },
            NoteLink { target_id: "beta".into(), display_text: "The Beta".into(), is_embed: true },
        ]
    );
    assert!(extract_links("no links here").is_empty());
    assert_eq!(extract_links("[[a]][[b]]").len(), 2);
}

#[test]
fn percent_decoding() {
    assert_eq!(percent_decode("My%20Note").as_deref(), Some("My Note"));
    assert_eq!(percent_decode("100%").as_deref(), Some("100%"));
    assert_eq!(percent_decode("%zz1").as_deref(), Some("%zz1"));
    assert_eq!(percent_decode("%e9t%C3%A9").as_deref(), Some("ét\u{c3}\u{a9}"));
    // Two bytes after `%` that are not valid UTF-8 fail the decoding.
    assert_eq!(percent_decode("%a\u{e9}"), None);
}

#[test]
fn theme_presets_and_manager() {
    let themes = get_default_themes();
    assert_eq!(themes.len(), 4);
    assert_eq!(themes[1].name, "Default Light");
    assert!(!themes[1].is_dark);
    assert_eq!(themes[2].accent_color, "#50fa7b");
    let d = ThemeConfig::default();
    assert_eq!(d.name, "Default Dark");
    assert_eq!(d.background_color, "#1e1e2e");

    let mut m = ThemeManager::new();
    assert_eq!(
        m.available_themes,
        vec!["Default Dark", "Default Light", "Obsidian Dark", "Obsidian Light"]
    );
    // Without a themes directory, found names are ignored.
    m.load_available_themes(vec!["Zen".into()]);
    assert_eq!(m.available_themes.len(), 4);
    m.set_themes_directory("/themes".into());
    assert_eq!(m.themes_dir.as_deref(), Some("/themes"));
    m.load_available_themes(vec!["Zen".into(), "Aurora".into(), "Default Dark".into(), "Zen".into()]);
    assert_eq!(
        m.available_themes,
        vec!["Aurora", "Default Dark", "Default Light", "Obsidian Dark", "Obsidian Light", "Zen"]
    );
}

#[test]
fn setting_and_toggling_themes() {
    let mut m = ThemeManager::new();
    m.set_theme("Obsidian Dark", None);
    assert_eq!(m.current_theme.name, "Obsidian Dark");
    assert_eq!(m.dark_mode_target(), "Obsidian Light");
    m.set_theme("Obsidian Light", None);
    assert_eq!(m.dark_mode_target(), "Obsidian Dark");
    let mut custom = ThemeConfig::default();
    custom.name = "Night Dark".into();
    m.set_theme("Night Dark", Some(custom));
    assert_eq!(m.current_theme.name, "Night Dark");
    // "Night Light" is not available: fall back to the default light theme.
    assert_eq!(m.dark_mode_target(), "Default Light");
    m.set_theme("Missing", None);
    assert_eq!(m.current_theme.name, "Default Dark");
    let replaced: String = replace_all(&['D', 'a', 'r', 'k', 'D', 'a', 'r', 'k'], &['D', 'a', 'r', 'k'], &['L'])
        .into_iter()
        .collect();
    assert_eq!(replaced, "LL");
}

#[test]
fn hex_colours_decode() {
    assert_eq!(hex_to_rgb("#7b68ee"), (0x7b, 0x68, 0xee));
    assert_eq!(hex_to_rgb("##FF0010"), (255, 0, 16));
    assert_eq!(hex_to_rgb("#+fzz01"), (15, 0, 1));
}

#[test]
fn empty_sidebar_action() {
    let a = SidebarAction::default();
    assert!(a.clicked_note.is_none() && !a.clear_tag && a.selected_tag.is_none());
}

#[test]
fn tag_cloud_puts_busier_tags_first_then_names_in_order() {
    let tags = vec![
        ("rust".to_string(), 2),
        ("art".to_string(), 1),
        ("go".to_string(), 2),
        ("Zen".to_string(), 1),
        ("books".to_string(), 5),
    ];
    let names: Vec<(String, u32)> = tag_cloud_order(tags);
    let expected: Vec<(String, u32)> = vec![
        ("books".to_string(), 5),
        ("go".to_string(), 2),
        ("rust".to_string(), 2),
        ("Zen".to_string(), 1),
        ("art".to_string(), 1),
    ];
    assert_eq!(names, expected);
    assert!(tag_cloud_order(Vec::new()).is_empty());
}
