use minigrep::split_lines;

#[test]
fn lines_split_at_line_feeds() {
    assert_eq!(vec!["a", "b", "c"], split_lines("a\nb\nc"));
}

#[test]
fn trailing_terminator_opens_no_empty_line() {
    assert_eq!(vec!["a", "b"], split_lines("a\nb\n"));
}

#[test]
fn carriage_return_line_feed_is_one_terminator() {
    assert_eq!(vec!["a", "b"], split_lines("a\r\nb\r\n"));
}

#[test]
fn lone_carriage_return_stays_in_the_line() {
    assert_eq!(vec!["a\rb"], split_lines("a\rb"));
}

#[test]
fn final_line_without_terminator_is_kept_whole() {
    assert_eq!(vec!["a\r"], split_lines("a\r"));
}

#[test]
fn empty_text_has_no_lines() {
    assert_eq!(Vec::<&str>::new(), split_lines(""));
}

#[test]
fn terminators_alone_give_empty_lines() {
    assert_eq!(vec!["", ""], split_lines("\n\n"));
}
