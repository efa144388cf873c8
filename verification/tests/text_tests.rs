use exercises::text::{file_count, trim};

#[test]
fn counts_of_a_small_text() {
    assert_eq!(file_count("ab cd\nef"), (8, 1, 2));
}

#[test]
fn counts_of_an_empty_text() {
    // An empty text still reports one line.
    assert_eq!(file_count(""), (0, 0, 1));
}

#[test]
fn tabs_are_not_blanks() {
    assert_eq!(file_count("a\tb c\n"), (6, 1, 2));
}

#[test]
fn trailing_newline_counts_a_line() {
    assert_eq!(file_count("one\ntwo\n"), (8, 0, 3));
}

#[test]
fn trim_strips_both_ends() {
    assert_eq!(trim("  hello \n"), "hello");
    assert_eq!(trim("\t 42 \r\n"), "42");
    assert_eq!(trim("plain"), "plain");
    assert_eq!(trim("   "), "");
    assert_eq!(trim(""), "");
    assert_eq!(trim(" a b "), "a b");
}
