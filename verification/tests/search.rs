use digital_garden::digital_garden::search::{
    ceil_char_boundary, flatten_whitespace, floor_char_boundary, fuzzy_score, is_whitespace,
    score_body, score_tag, score_title, snippet_parts,
};

#[test]
fn title_exact_match_beats_body() {
    let title = score_title("rust", "rust");
    let (body, _, _, _) = score_body("rust", "rust is a systems language");
    assert!(title > body, "title exact should outrank any body match");
}

#[test]
fn title_prefix_beats_substring() {
    let prefix = score_title("rust", "rust is great");
    let substring = score_title("rust", "i love rust so much");
    assert!(prefix > substring);
}

#[test]
fn earlier_body_match_scores_higher() {
    let (early, _, _, _) = score_body("rust", "rust appears early here");
    let (late, _, _, _) = score_body(
        "rust",
        &("filler ".repeat(40) + "rust appears late here"),
    );
    assert!(early > late);
}

#[test]
fn body_snippet_wraps_match_with_ellipses() {
    let long = "a ".repeat(200) + "needle in the middle somewhere";
    let (_, snippet, off, len) = score_body("needle", &long);
    assert!(snippet.starts_with('…'));
    let off = off.expect("match in snippet");
    assert!(snippet.is_char_boundary(off));
    assert_eq!(&snippet[off..off + len], "needle");
}

#[test]
fn fuzzy_matches_noncontiguous_chars() {
    assert!(fuzzy_score("rst", "rust").is_some());
    assert!(fuzzy_score("abc", "axbxc").is_some());
    assert!(fuzzy_score("xyz", "rust").is_none());
}

#[test]
fn fuzzy_prefers_consecutive_matches() {
    let tight = fuzzy_score("rust", "rust lang").unwrap();
    let loose = fuzzy_score("rust", "r_u_s_t").unwrap();
    assert!(tight > loose);
}

#[test]
fn tag_search_accepts_hash_prefix() {
    assert_eq!(score_tag("#rust", "rust"), Some(300));
    assert_eq!(score_tag("rust", "rust"), Some(300));
}

#[test]
fn empty_query_returns_no_body_match() {
    let (score, _, _, _) = score_body("", "anything");
    assert!(score > 0);
}

#[test]
fn snippet_multibyte_safe() {
    let s = "こんにちは世界 needle";
    let (_, snippet, _, _) = score_body("needle", s);
    assert!(snippet.contains("needle"));
}

#[test]
fn exact_title_and_tag_scores() {
    assert_eq!(score_title("rust", "rust"), 1000);
    assert_eq!(score_title("rust", "rust is great"), 600);
    assert_eq!(score_title("rust", "i love rust"), 400);
    // r, s, t matched with gaps: 10 each, no consecutive bonus, tripled.
    assert_eq!(score_title("rst", "r-s-t"), 3 * 30);
    assert_eq!(score_title("zzz", "rust"), 0);
    assert_eq!(score_tag("##ru", "rust"), Some(150));
    assert_eq!(score_tag("go", "rust"), None);
}

#[test]
fn exact_fuzzy_scores() {
    assert_eq!(fuzzy_score("rust", "rust"), Some(55));
    assert_eq!(fuzzy_score("rust", "r_u_s_t"), Some(40));
    assert_eq!(fuzzy_score("", "anything"), Some(0));
}

#[test]
fn body_score_formula_and_miss() {
    let (s, snippet, off, len) = score_body("rust", "rust appears early here");
    assert_eq!(s, 150);
    assert_eq!(snippet, "rust appears early here");
    assert_eq!(off, Some(0));
    assert_eq!(len, 4);
    let (s, snippet, off, len) = score_body("go", "no match here");
    assert_eq!((s, snippet.as_str(), off, len), (0, "", None, 2));
    // The search runs on the lower-cased body.
    let (s, _, off, _) = score_body("rust", "I Like RUST");
    assert_eq!(s, 100 + (200 - 7) / 4);
    assert_eq!(off, Some(7));
}

#[test]
fn boundaries_round_to_characters() {
    let s = "aé b";
    assert_eq!(floor_char_boundary(s, 2), 1);
    assert_eq!(ceil_char_boundary(s, 2), 3);
    assert_eq!(floor_char_boundary(s, 3), 3);
    assert_eq!(floor_char_boundary(s, 99), 5);
    assert_eq!(ceil_char_boundary(s, 99), 99);
}

#[test]
fn whitespace_flattening_moves_the_offset() {
    assert_eq!(flatten_whitespace("a\n\nb", 3), ("a b".to_string(), 2));
    // A whole run of white space becomes one space.
    assert_eq!(flatten_whitespace("a   b", 0).0, "a b");
    assert_eq!(flatten_whitespace("a \t\n  b", 6), ("a b".to_string(), 2));
    assert_eq!(flatten_whitespace("ab", 9), ("ab".to_string(), 2));
    assert!(is_whitespace('\u{3000}'));
    assert!(!is_whitespace('x'));
}

#[test]
fn snippet_splits_around_the_match() {
    let parts = snippet_parts("…the café menu", Some(7), 5).unwrap();
    assert_eq!(parts, ("…the ".to_string(), "café".to_string(), " menu".to_string()));
    assert_eq!(
        snippet_parts("abc", Some(0), 3),
        Some((String::new(), "abc".to_string(), String::new()))
    );
}

#[test]
fn snippet_offsets_off_boundaries_show_plain() {
    // Byte 1 falls inside the ellipsis, byte 11 inside "é".
    assert_eq!(snippet_parts("…abc", Some(1), 1), None);
    assert_eq!(snippet_parts("…the café", Some(4), 7), None);
    assert_eq!(snippet_parts("abc", Some(2), 5), None);
    assert_eq!(snippet_parts("abc", None, 0), None);
}
