use manga_binder::client::{Args, MDClient};
use manga_binder::pages::Quality;
use manga_binder::text::{chars_of, contains_char, digit_of, parse_ordinal_in, split_bounds};

fn pieces(text: &str, sep: char) -> Vec<String> {
    let v = chars_of(text);
    let mut out = Vec::new();
    for (from, to) in split_bounds(&v, sep) {
        out.push(v[from..to].iter().collect::<String>());
    }
    out
}

#[test]
fn digits_are_read_one_by_one() {
    assert_eq!(digit_of('0'), Some(0));
    assert_eq!(digit_of('5'), Some(5));
    assert_eq!(digit_of('9'), Some(9));
    assert_eq!(digit_of('/'), None);
    assert_eq!(digit_of(':'), None);
    assert_eq!(digit_of('a'), None);
    assert_eq!(digit_of('\u{0663}'), None);
}

#[test]
fn chars_of_keeps_every_character() {
    assert_eq!(chars_of(""), Vec::<char>::new());
    assert_eq!(chars_of("a-1"), vec!['a', '-', '1']);
    assert_eq!(chars_of("\u{e9}t\u{e9}"), vec!['\u{e9}', 't', '\u{e9}']);
}

#[test]
fn contains_char_finds_separators() {
    assert!(contains_char(&chars_of("1,2"), ','));
    assert!(!contains_char(&chars_of("1-2"), ','));
    assert!(!contains_char(&chars_of(""), ','));
    assert!(contains_char(&chars_of(","), ','));
}

#[test]
fn split_yields_the_pieces_between_separators() {
    assert_eq!(pieces("1-3", '-'), vec!["1", "3"]);
    assert_eq!(pieces("13", '-'), vec!["13"]);
    assert_eq!(pieces("", '-'), vec![""]);
    assert_eq!(pieces("-", '-'), vec!["", ""]);
    assert_eq!(pieces("a--b-", '-'), vec!["a", "", "b", ""]);
    assert_eq!(pieces("1,2,3", ','), vec!["1", "2", "3"]);
}

#[test]
fn split_agrees_with_std() {
    for text in ["", "-", "--", "1-2", "-1", "1-", "a-b-c", "no separator"] {
        let expected: Vec<String> = text.split('-').map(|s| s.to_string()).collect();
        assert_eq!(pieces(text, '-'), expected, "{:?}", text);
    }
}

#[test]
fn ordinal_within_a_longer_text() {
    let v = chars_of("12-345,+6x");
    assert_eq!(parse_ordinal_in(&v, 0, 2), Some(12));
    assert_eq!(parse_ordinal_in(&v, 3, 6), Some(345));
    assert_eq!(parse_ordinal_in(&v, 7, 9), Some(6));
    assert_eq!(parse_ordinal_in(&v, 7, 10), None);
    assert_eq!(parse_ordinal_in(&v, 0, 6), None);
    assert_eq!(parse_ordinal_in(&v, 4, 4), None);
    assert_eq!(parse_ordinal_in(&v, 7, 8), None);
}

#[test]
fn rendition_follows_the_fast_flag() {
    let mut args = Args::with_defaults("w".to_string());
    assert_eq!(MDClient::new(args).quality(), Quality::Standard);
    args = Args::with_defaults("w".to_string());
    args.fast = true;
    assert_eq!(MDClient::new(args).quality(), Quality::Compressed);
}
