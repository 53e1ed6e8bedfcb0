use runote::editing::{
    char_count, cut_selection, has_selection, is_collapsed, paste_range, paste_text, select_all,
    selected_text, selection_bounds, selection_to_remember, selection_to_restore,
};

#[test]
fn bounds_order_the_ends() {
    assert_eq!(selection_bounds(3, 1), (1, 3));
    assert_eq!(selection_bounds(1, 3), (1, 3));
}

#[test]
fn selected_text_either_direction() {
    assert_eq!(selected_text("hello", 1, 3).as_deref(), Some("el"));
    assert_eq!(selected_text("hello", 3, 1).as_deref(), Some("el"));
    assert_eq!(selected_text("便签程序", 1, 3).as_deref(), Some("签程"));
}

#[test]
fn empty_selection_is_none() {
    assert_eq!(selected_text("hello", 2, 2), None);
    assert!(!has_selection("hello", 2, 2));
}

#[test]
fn selection_past_the_end_is_clamped() {
    assert_eq!(selected_text("hello", 3, 99).as_deref(), Some("lo"));
    assert_eq!(selected_text("hello", 10, 12).as_deref(), Some(""));
    assert!(!has_selection("hello", 10, 12));
    assert!(has_selection("hello", 4, 12));
}

#[test]
fn cut_removes_selection() {
    assert_eq!(cut_selection("hello", 1, 3), ("hlo".to_string(), 1));
    assert_eq!(cut_selection("hello", 3, 1), ("hlo".to_string(), 1));
    assert_eq!(cut_selection("hello", 3, 99), ("hel".to_string(), 3));
}

#[test]
fn paste_replaces_selection() {
    assert_eq!(paste_text("hello", 1, 3, "XYZ"), ("hXYZlo".to_string(), 4));
    assert_eq!(paste_text("hello", 5, 5, "!"), ("hello!".to_string(), 6));
    assert_eq!(paste_text("", 0, 0, "便签"), ("便签".to_string(), 2));
}

#[test]
fn cut_then_paste_restores() {
    let text = "the quick brown fox";
    let cut = selected_text(text, 4, 10).unwrap();
    let (rest, at) = cut_selection(text, 4, 10);
    let (back, _) = paste_text(&rest, at, at, &cut);
    assert_eq!(back, text);
}

#[test]
fn select_all_covers_text() {
    assert_eq!(select_all("héllo"), (0, 5));
    assert_eq!(char_count("héllo"), 5);
    let (a, b) = select_all("abc");
    assert_eq!(selected_text("abc", a, b).as_deref(), Some("abc"));
}

#[test]
fn collapsed_selections() {
    assert!(is_collapsed(None));
    assert!(is_collapsed(Some((3, 3))));
    assert!(!is_collapsed(Some((3, 1))));
}

#[test]
fn remember_only_real_selections() {
    assert_eq!(selection_to_remember(Some((1, 4))), Some((1, 4)));
    assert_eq!(selection_to_remember(Some((2, 2))), None);
    assert_eq!(selection_to_remember(None), None);
}

#[test]
fn restore_after_right_click_collapse() {
    assert_eq!(selection_to_restore(Some((5, 5)), Some((1, 4))), Some((1, 4)));
    assert_eq!(selection_to_restore(None, Some((1, 4))), Some((1, 4)));
    assert_eq!(selection_to_restore(Some((0, 2)), Some((1, 4))), None);
    assert_eq!(selection_to_restore(Some((5, 5)), None), None);
}

#[test]
fn paste_goes_to_remembered_then_cursor_then_end() {
    assert_eq!(paste_range(Some((1, 3)), Some((0, 0)), "hello"), (1, 3));
    assert_eq!(paste_range(None, Some((2, 2)), "hello"), (2, 2));
    assert_eq!(paste_range(None, None, "héllo"), (5, 5));
}
