use lightc::text::{find_field_end, strip_line_feeds};

#[test]
fn strip_takes_out_every_line_feed() {
    assert_eq!(strip_line_feeds("a\nb\n\nc"), "abc");
    assert_eq!(strip_line_feeds("\n\n"), "");
    assert_eq!(strip_line_feeds(""), "");
    assert_eq!(strip_line_feeds("no feeds, ünïcode"), "no feeds, ünïcode");
}

#[test]
fn field_end_counts_characters() {
    assert_eq!(find_field_end("ab cd", ' ', 0), 2);
    assert_eq!(find_field_end("ab cd", ' ', 3), 5);
    assert_eq!(find_field_end("öb cd", ' ', 0), 2);
    assert_eq!(find_field_end(" x", ' ', 0), 0);
    assert_eq!(find_field_end("", ' ', 0), 0);
}
