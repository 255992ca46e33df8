use canvas_downloader::text;
use canvas_downloader::text::{
    contains, count, decimal_string, parse_number, replace, starts_with, to_chars,
};

#[test]
fn numbers_are_written_in_decimal() {
    assert_eq!(decimal_string(0), "0");
    assert_eq!(decimal_string(9), "9");
    assert_eq!(decimal_string(10), "10");
    assert_eq!(decimal_string(10203), "10203");
    assert_eq!(decimal_string(u64::MAX), "18446744073709551615");
}

#[test]
fn written_numbers_are_read_back() {
    for n in [0u64, 7, 10, 99, 100, 4294967295, u64::MAX - 1, u64::MAX] {
        assert_eq!(parse_number(&decimal_string(n)), Some(n));
    }
}

#[test]
fn numbers_are_read_as_integers_are() {
    for written in [
        "", "+", "0", "007", "+12", "++1", "-1", "1 ", " 1", "1a", "18446744073709551615",
        "18446744073709551616", "00000000000000000000000000000001", "99999999999999999999",
    ] {
        assert_eq!(parse_number(written), written.parse::<u64>().ok(), "{}", written);
    }
}

#[test]
fn texts_are_joined() {
    assert_eq!(text::concat("ab", "c"), "abc");
    assert_eq!(text::concat("", ""), "");
    assert_eq!(text::concat("é", "ü"), "éü");
}

#[test]
fn characters_are_counted_not_bytes() {
    assert_eq!(to_chars("aé"), vec!['a', 'é']);
}

#[test]
fn beginnings_and_parts_are_found() {
    assert!(starts_with("https://canvas", "https://"));
    assert!(starts_with("x", ""));
    assert!(!starts_with("http", "https"));
    assert!(!starts_with("xhttps", "https"));
    assert!(contains("a/equation_images/b", "equation_images"));
    assert!(contains("", ""));
    assert!(contains("aab", "ab"));
    assert!(!contains("equation_image", "equation_images"));
}

#[test]
fn every_occurrence_is_replaced() {
    assert_eq!(replace("CS1010/CS1010E/X", '/', '_'), "CS1010_CS1010E_X");
    assert_eq!(replace("CS1010", '/', '_'), "CS1010");
}

#[test]
fn characters_are_counted() {
    assert_eq!(count("<a><b></a>", '<'), 3);
    assert_eq!(count("é<é", 'é'), 2);
    assert_eq!(count("", '<'), 0);
}
