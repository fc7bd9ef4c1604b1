use tetris::{parse_move, parse_score};

#[test]
fn move_line_in_degrees() {
    assert_eq!(parse_move(b"90 3"), Some((1, 3)));
    assert_eq!(parse_move(b"0 0"), Some((0, 0)));
    assert_eq!(parse_move(b"270 8"), Some((3, 8)));
    assert_eq!(parse_move(b"  180\t7 extra"), Some((2, 7)));
    assert_eq!(parse_move(b"+270 +2"), Some((3, 2)));
}

#[test]
fn move_words_that_are_not_numbers_count_as_zero() {
    assert_eq!(parse_move(b"abc 4"), Some((0, 4)));
    assert_eq!(parse_move(b"-90 1"), Some((0, 1)));
    assert_eq!(parse_move(b"90 x"), Some((1, 0)));
    assert_eq!(parse_move(b"99999999999999999999999 1"), Some((0, 1)));
    assert_eq!(parse_move(b"+ 5"), Some((0, 5)));
}

#[test]
fn move_line_needs_two_words() {
    assert_eq!(parse_move(b""), None);
    assert_eq!(parse_move(b"90"), None);
    assert_eq!(parse_move(b"   \t "), None);
}

#[test]
fn score_line_values() {
    assert_eq!(parse_score(b"100"), 100);
    assert_eq!(parse_score(b"+7"), 7);
    assert_eq!(parse_score(b"-5"), -5);
    assert_eq!(parse_score(b"2147483647"), i32::MAX);
    assert_eq!(parse_score(b"-2147483648"), i32::MIN);
}

#[test]
fn malformed_score_counts_as_zero() {
    assert_eq!(parse_score(b""), 0);
    assert_eq!(parse_score(b"-"), 0);
    assert_eq!(parse_score(b"x"), 0);
    assert_eq!(parse_score(b" 5"), 0);
    assert_eq!(parse_score(b"12a"), 0);
    assert_eq!(parse_score(b"2147483648"), 0);
    assert_eq!(parse_score(b"-2147483649"), 0);
}

#[test]
fn move_words_split_at_unicode_whitespace() {
    assert_eq!(parse_move("90\u{a0}3".as_bytes()), Some((1, 3)));
    assert_eq!(parse_move("180\u{3000}4".as_bytes()), Some((2, 4)));
    assert_eq!(parse_move("\u{2003}270\u{2028}5\u{85}".as_bytes()), Some((3, 5)));
    assert_eq!(parse_move("90\u{1680}\u{205f}6".as_bytes()), Some((1, 6)));
    assert_eq!(parse_move("90\u{202f}7".as_bytes()), Some((1, 7)));
    assert_eq!(parse_move("90\u{200a}8".as_bytes()), Some((1, 8)));
    assert_eq!(parse_move("\u{a0}90\u{a0}".as_bytes()), None);
}

#[test]
fn move_words_keep_other_characters() {
    // U+00E9 and U+200B are not whitespace: they stay inside their words
    assert_eq!(parse_move("9\u{e9}0 3".as_bytes()), Some((0, 3)));
    assert_eq!(parse_move("90\u{200b}3".as_bytes()), None);
}
