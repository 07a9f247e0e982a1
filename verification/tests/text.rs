use stormlb::json::{as_number, as_text, first, get, parse, Json};
use stormlb::text::{
    chars_of, decimal_text, join_texts, lines, lower_text, parse_text, trim_text, upper_text, words,
};

#[test]
fn words_and_digits() {
    assert_eq!(words(&chars_of(" a  bc\t\n")), vec![vec!['a'], vec!['b', 'c']]);
    assert_eq!(decimal_text(1203), "1203");
    assert_eq!(decimal_text(0), "0");
}

#[test]
fn lines_end_at_either_ending() {
    let l: Vec<String> = lines(&chars_of("a\r\nb\n\nc")).iter().map(|l| l.iter().collect()).collect();
    assert_eq!(l, ["a", "b", "", "c"]);
    assert!(lines(&chars_of("")).is_empty());
    assert_eq!(lines(&chars_of("a\n")).len(), 1);
}

#[test]
fn numbers_are_read_within_their_bound() {
    assert_eq!(parse_text("65535", 65535), Some(65535));
    assert_eq!(parse_text("65536", 65535), None);
    assert_eq!(parse_text("+7", 10), Some(7));
    assert_eq!(parse_text("", 10), None);
    assert_eq!(parse_text("-1", 10), None);
    assert_eq!(parse_text("18446744073709551615", u64::MAX), Some(u64::MAX));
    assert_eq!(parse_text("18446744073709551616", u64::MAX), None);
}

#[test]
fn case_and_white_space() {
    assert_eq!(lower_text("AbC-É"), "abc-É");
    assert_eq!(upper_text("AbC-é"), "ABC-é");
    assert_eq!(trim_text(" \u{a0}x y\r\n"), "x y");
    assert_eq!(join_texts(&vec!["a".into(), "b".into(), "".into()], ", "), "a, b, ");
}

#[test]
fn json_is_read() {
    let j = parse(br#"{"a": [{"b": "x", "n": 7, "f": 1.5, "m": -1}], "t": true, "z": null}"#).unwrap();
    let e = first(get(Some(&j), "a"));
    assert_eq!(as_text(get(e, "b")), Some("x"));
    assert_eq!(as_number(get(e, "n")), Some(7));
    assert_eq!(as_number(get(e, "f")), None);
    assert_eq!(as_number(get(e, "m")), None);
    assert!(matches!(get(Some(&j), "t"), Some(Json::Bool(true))));
    assert!(get(Some(&j), "missing").is_none());
    assert!(parse(b"{").is_none());
}
