use digital_garden::digital_garden::history::{History, HISTORY_CAP};

#[test]
fn empty_history_has_nowhere_to_go() {
    let mut h = History::new();
    assert!(h.current().is_none());
    assert!(!h.can_go_back());
    assert!(!h.can_go_forward());
    assert!(h.back().is_none());
    assert!(h.forward().is_none());
}

#[test]
fn push_appends_and_moves_cursor() {
    let mut h = History::new();
    h.push("a".into());
    h.push("b".into());
    h.push("c".into());
    assert_eq!(h.current(), Some("c"));
    assert!(h.can_go_back());
    assert!(!h.can_go_forward());
}

#[test]
fn consecutive_duplicates_are_skipped() {
    let mut h = History::new();
    h.push("a".into());
    h.push("a".into());
    h.push("a".into());
    assert_eq!(h.current(), Some("a"));
    assert!(!h.can_go_back());
}

#[test]
fn push_after_back_truncates_forward_history() {
    let mut h = History::new();
    h.push("a".into());
    h.push("b".into());
    h.push("c".into());
    h.back();
    h.push("d".into());
    assert_eq!(h.current(), Some("d"));
    assert!(!h.can_go_forward());
}

#[test]
fn back_and_forward_round_trip() {
    let mut h = History::new();
    h.push("a".into());
    h.push("b".into());
    h.push("c".into());
    assert_eq!(h.back(), Some("b"));
    assert_eq!(h.back(), Some("a"));
    assert_eq!(h.back(), None);
    assert_eq!(h.forward(), Some("b"));
    assert_eq!(h.forward(), Some("c"));
    assert_eq!(h.forward(), None);
}

#[test]
fn reset_replaces_history() {
    let mut h = History::new();
    h.push("a".into());
    h.push("b".into());
    h.reset("fresh".into());
    assert_eq!(h.current(), Some("fresh"));
    assert!(!h.can_go_back());
    assert!(!h.can_go_forward());
}

#[test]
fn cap_enforced_by_dropping_from_front() {
    let mut h = History::new();
    for i in 0..(HISTORY_CAP + 50) {
        h.push(format!("note-{}", i));
    }
    assert_eq!(
        h.current(),
        Some(format!("note-{}", HISTORY_CAP + 49).as_str())
    );
    let mut back_count = 0;
    while h.back().is_some() {
        back_count += 1;
    }
    assert_eq!(back_count, HISTORY_CAP - 1);
}

#[test]
fn recent_returns_distinct_most_recent_first_excluding_current() {
    let mut h = History::new();
    h.push("a".into());
    h.push("b".into());
    h.push("c".into());
    h.push("a".into());
    h.push("d".into());
    let r = h.recent(5);
    assert_eq!(r, vec!["a".to_string(), "c".to_string(), "b".to_string()]);
}

#[test]
fn recent_respects_cap() {
    let mut h = History::new();
    for i in 0..10 {
        h.push(format!("n{}", i));
    }
    assert_eq!(h.recent(3).len(), 3);
}

#[test]
fn cap_preserves_cursor_near_tail() {
    let mut h = History::new();
    for i in 0..HISTORY_CAP {
        h.push(format!("n{}", i));
    }
    h.push("new".into());
    assert_eq!(h.current(), Some("new"));
}

#[test]
fn clear_empties_and_repeat_push_keeps_forward_entries() {
    let mut h = History::new();
    h.push("a".into());
    h.push("b".into());
    assert_eq!(h.back(), Some("a"));
    // Pushing the id already under the cursor changes nothing, so the
    // forward entry survives.
    h.push("a".into());
    assert!(h.can_go_forward());
    assert_eq!(h.forward(), Some("b"));
    h.clear();
    assert!(h.current().is_none());
    assert!(h.recent(3).is_empty());
}

#[test]
fn recent_returns_at_most_n() {
    let mut h = History::new();
    h.push("a".into());
    h.push("b".into());
    h.push("c".into());
    assert!(h.recent(0).is_empty());
    assert_eq!(h.recent(1), vec!["b".to_string()]);
    assert_eq!(h.recent(9), vec!["b".to_string(), "a".to_string()]);
}
