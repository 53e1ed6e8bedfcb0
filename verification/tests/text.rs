use runote::text::{card_title, first_line, truncate};

#[test]
fn truncate_keeps_short_text() {
    assert_eq!(truncate("hello", 10), "hello");
    assert_eq!(truncate("hello", 5), "hello");
    assert_eq!(truncate("", 0), "");
}

#[test]
fn truncate_cuts_with_ellipsis() {
    assert_eq!(truncate("hello world", 5), "hell…");
    assert_eq!(truncate("abc", 1), "…");
    assert_eq!(truncate("abc", 0), "…");
}

#[test]
fn truncate_counts_characters_not_bytes() {
    assert_eq!(truncate("便签应用程序", 6), "便签应用程序");
    assert_eq!(truncate("便签应用程序", 4), "便签应…");
}

#[test]
fn truncate_length_law_on_values() {
    for max in 0..8 {
        let t = truncate("abcdefg", max);
        let n = t.chars().count();
        assert!(n <= if max == 0 { 1 } else { max });
    }
}

#[test]
fn first_line_takes_first_trimmed_line() {
    assert_eq!(first_line("  \n  first line  \nsecond"), "first line");
    assert_eq!(first_line("only line"), "only line");
    assert_eq!(first_line("   "), "");
    assert_eq!(first_line("单行\t"), "单行");
    assert_eq!(first_line("a \u{3000}\nb"), "a");
}

#[test]
fn first_line_is_single_line() {
    let s = first_line("\n\n  x y \r\n z");
    assert_eq!(s, "x y");
    assert!(!s.contains('\n'));
}

#[test]
fn card_title_replaces_blank_title() {
    assert_eq!(card_title(""), "无标题");
    assert_eq!(card_title(" \t "), "无标题");
    assert_eq!(card_title(" 买菜 "), " 买菜 ");
}
