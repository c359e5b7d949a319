use lox::golden::is_ignored;

#[test]
fn mark_at_the_start_of_the_text() {
    assert!(is_ignored("# ignore"));
    assert!(is_ignored("# ignore this file\nprint 1;"));
}

#[test]
fn mark_at_the_start_of_a_later_line() {
    assert!(is_ignored("print 1;\n# ignore\nprint 2;"));
    assert!(is_ignored("print 1;\r\n# ignore"));
}

#[test]
fn mark_behind_white_space() {
    assert!(is_ignored("   # ignore"));
    assert!(is_ignored("print 1;\n \t\u{a0}# ignore"));
    assert!(is_ignored("\n\n\n  # ignored as well"));
}

#[test]
fn mark_behind_other_text_does_not_count() {
    assert!(!is_ignored("print 1; # ignore"));
    assert!(!is_ignored("a\r# ignore"));
    assert!(!is_ignored("x # ignore\ny"));
}

#[test]
fn other_comments_do_not_count() {
    assert!(!is_ignored(""));
    assert!(!is_ignored("# ignor"));
    assert!(!is_ignored("#ignore"));
    assert!(!is_ignored("#  ignore"));
    assert!(!is_ignored("# Ignore"));
    assert!(!is_ignored("print \"# ignore\";"));
    assert!(!is_ignored("    # ignor\ne"));
}
