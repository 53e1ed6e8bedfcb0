use runote::listing::{empty_list_message, note_matches, order_by_recent, search_query, text_matches, visible_ids};
use runote::note::{Note, Notes};

fn note(id: u64, title: &str, content: &str, updated: u64) -> Note {
    Note { id, title: title.to_string(), content: content.to_string(), color: 0, created: 0, updated }
}

#[test]
fn search_query_trims_and_lowercases() {
    assert_eq!(search_query("  HeLLo "), "hello");
    assert_eq!(search_query("ÄBC"), "äbc");
    assert_eq!(search_query("   "), "");
}

#[test]
fn text_matches_cases() {
    assert!(text_matches("abc", "", ""));
    assert!(text_matches("abc", "xyz", "bc"));
    assert!(text_matches("abc", "xyz", "yz"));
    assert!(!text_matches("abc", "xyz", "cx"));
}

#[test]
fn note_matches_ignores_case() {
    let n = note(1, "Shopping List", "Milk and EGGS", 0);
    assert!(note_matches(&n, "shopping"));
    assert!(note_matches(&n, "eggs"));
    assert!(!note_matches(&n, "bread"));
    assert!(note_matches(&n, ""));
}

#[test]
fn order_newest_first_stable() {
    let notes = vec![note(10, "a", "", 5), note(11, "b", "", 9), note(12, "c", "", 5), note(13, "d", "", 7)];
    assert_eq!(order_by_recent(&notes, &vec![true, true, true, true]), vec![11, 13, 10, 12]);
    assert_eq!(order_by_recent(&notes, &vec![true, false, true, false]), vec![10, 12]);
    assert_eq!(order_by_recent(&notes, &vec![false, false, false, false]), Vec::<u64>::new());
}

#[test]
fn order_uses_first_note_of_an_id() {
    let notes = vec![note(1, "a", "", 1), note(2, "b", "", 5), note(1, "c", "", 9)];
    assert_eq!(order_by_recent(&notes, &vec![true, true, true]), vec![2, 1, 1]);
}

#[test]
fn visible_ids_filters_and_sorts() {
    let notes = Notes {
        notes: vec![note(0, "Work", "report", 100), note(1, "Home", "work from home", 300), note(2, "Misc", "", 200)],
        next_id: 3,
    };
    assert_eq!(visible_ids(&notes, ""), vec![1, 2, 0]);
    assert_eq!(visible_ids(&notes, "  WORK "), vec![1, 0]);
    assert_eq!(visible_ids(&notes, "nothing"), Vec::<u64>::new());
}

#[test]
fn empty_list_messages() {
    assert_eq!(empty_list_message(""), "还没有便签");
    assert_eq!(empty_list_message("x"), "没有匹配的便签");
}
