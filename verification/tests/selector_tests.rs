use manga_binder::selector::{parse_selector, Selector, FALLBACK_ORDINAL};
use manga_binder::text::{chars_of, decimal, extension_of, find_last, parse_ordinal};

fn range_of(text: &str) -> (u16, u16) {
    match parse_selector(text).selector {
        Selector::Range { lo, hi } => (lo, hi),
        Selector::List(items) => panic!("expected a range, got the list {:?}", items),
    }
}

fn list_of(text: &str) -> Vec<u16> {
    match parse_selector(text).selector {
        Selector::List(items) => items,
        Selector::Range { lo, hi } => panic!("expected a list, got the range {}-{}", lo, hi),
    }
}

fn warned(text: &str) -> Vec<usize> {
    let mut positions = Vec::new();
    for w in parse_selector(text).warnings {
        positions.push(w.position);
    }
    positions
}

#[test]
fn ordinal_plain_digits() {
    assert_eq!(parse_ordinal("0"), Some(0));
    assert_eq!(parse_ordinal("7"), Some(7));
    assert_eq!(parse_ordinal("042"), Some(42));
    assert_eq!(parse_ordinal("65535"), Some(65535));
}

#[test]
fn ordinal_leading_plus() {
    assert_eq!(parse_ordinal("+7"), Some(7));
    assert_eq!(parse_ordinal("+"), None);
    assert_eq!(parse_ordinal("++7"), None);
    assert_eq!(parse_ordinal("7+"), None);
}

#[test]
fn ordinal_rejects_what_is_no_numeral() {
    assert_eq!(parse_ordinal(""), None);
    assert_eq!(parse_ordinal("abc"), None);
    assert_eq!(parse_ordinal("-3"), None);
    assert_eq!(parse_ordinal("1.5"), None);
    assert_eq!(parse_ordinal(" 1"), None);
    assert_eq!(parse_ordinal("12a"), None);
    assert_eq!(parse_ordinal("\u{0661}"), None);
}

#[test]
fn ordinal_rejects_what_does_not_fit() {
    assert_eq!(parse_ordinal("65536"), None);
    assert_eq!(parse_ordinal("99999999999999999999999"), None);
    assert_eq!(parse_ordinal("0000000000000000000065535"), Some(65535));
}

#[test]
fn ordinal_agrees_with_std() {
    for text in ["", "0", "1", "+1", "-1", "65535", "65536", "007", "1e3", "+", "12 "] {
        assert_eq!(parse_ordinal(text), text.parse::<u16>().ok(), "{:?}", text);
    }
}

#[test]
fn decimal_writes_numerals() {
    assert_eq!(decimal(0), "0");
    assert_eq!(decimal(9), "9");
    assert_eq!(decimal(10), "10");
    assert_eq!(decimal(1234567890), "1234567890");
    assert_eq!(decimal(usize::MAX), usize::MAX.to_string());
}

#[test]
fn decimal_round_trip() {
    for n in [0usize, 1, 9, 10, 99, 100, 4096, 65535] {
        assert_eq!(parse_ordinal(&decimal(n)), Some(n as u16));
    }
}

#[test]
fn extension_is_what_follows_the_last_dot() {
    assert_eq!(extension_of("https://u/data/h/x1.png"), "png");
    assert_eq!(extension_of("https://u/data/h/x1.jpeg"), "jpeg");
    assert_eq!(extension_of("https://u/data/h/x1.tar.gz"), "gz");
    assert_eq!(extension_of("page.webp"), "webp");
    assert_eq!(extension_of("a.b/c.d"), "d");
}

#[test]
fn extension_is_sought_in_the_last_segment_only() {
    assert_eq!(extension_of("https://uploads.example.org/data/hash/page"), "");
    assert_eq!(extension_of("https://host.example/a.b/"), "");
    assert_eq!(extension_of("https://host.example/a.png/x"), "");
    assert_eq!(extension_of(""), "");
    assert_eq!(extension_of("/"), "");
    assert_eq!(extension_of("noext"), "");
}

#[test]
fn extension_at_the_edges() {
    assert_eq!(extension_of("x."), "");
    assert_eq!(extension_of(".hidden"), "hidden");
    assert_eq!(extension_of("dir/.png"), "png");
    assert_eq!(extension_of("d\u{e9}j\u{e0}.\u{e9}t\u{e9}"), "\u{e9}t\u{e9}");
}

#[test]
fn find_last_finds_the_last_one() {
    let v = chars_of("a/b/c.d.e");
    assert_eq!(find_last(&v, 0, '/'), Some(3));
    assert_eq!(find_last(&v, 4, '/'), None);
    assert_eq!(find_last(&v, 3, '/'), Some(3));
    assert_eq!(find_last(&v, 0, '.'), Some(7));
    assert_eq!(find_last(&v, 8, '.'), None);
    assert_eq!(find_last(&v, 9, '.'), None);
    assert_eq!(find_last(&v, 0, 'z'), None);
    assert_eq!(find_last(&chars_of(""), 0, '/'), None);
}

#[test]
fn selector_single_ordinal() {
    assert_eq!(range_of("5"), (5, 5));
    assert_eq!(warned("5"), Vec::<usize>::new());
}

#[test]
fn selector_closed_range() {
    assert_eq!(range_of("1-3"), (1, 3));
    assert_eq!(range_of("10-250"), (10, 250));
    assert_eq!(warned("1-3"), Vec::<usize>::new());
}

#[test]
fn selector_reversed_range_is_its_lower_end() {
    assert_eq!(range_of("3-1"), (3, 3));
    assert_eq!(range_of("4-4"), (4, 4));
    assert_eq!(warned("3-1"), Vec::<usize>::new());
}

#[test]
fn selector_malformed_side_falls_back_to_one() {
    assert_eq!(FALLBACK_ORDINAL, 1);
    assert_eq!(range_of("abc-5"), (1, 5));
    assert_eq!(warned("abc-5"), vec![0]);
    assert_eq!(range_of("5-abc"), (5, 5));
    assert_eq!(warned("5-abc"), vec![1]);
    assert_eq!(range_of("x-y"), (1, 1));
    assert_eq!(warned("x-y"), vec![0, 1]);
}

#[test]
fn selector_empty_text_falls_back() {
    assert_eq!(range_of(""), (1, 1));
    assert_eq!(warned(""), vec![0]);
    assert_eq!(range_of("-"), (1, 1));
    assert_eq!(warned("-"), vec![0, 1]);
    assert_eq!(range_of("5-"), (5, 5));
    assert_eq!(warned("5-"), vec![1]);
}

#[test]
fn selector_reads_two_pieces_of_a_range() {
    assert_eq!(range_of("1-2-3"), (1, 2));
    assert_eq!(range_of("1-2-x"), (1, 2));
    assert_eq!(warned("1-2-x"), Vec::<usize>::new());
}

#[test]
fn selector_comma_list() {
    assert_eq!(list_of("1,3,5"), vec![1, 3, 5]);
    assert_eq!(list_of("5,2,2"), vec![5, 2, 2]);
    assert_eq!(warned("1,3,5"), Vec::<usize>::new());
}

#[test]
fn selector_list_with_malformed_tokens() {
    assert_eq!(list_of("2,x"), vec![2, 1]);
    assert_eq!(warned("2,x"), vec![1]);
    assert_eq!(list_of(",7,"), vec![1, 7, 1]);
    assert_eq!(warned(",7,"), vec![0, 2]);
    assert_eq!(list_of("1-3,5"), vec![1, 5]);
    assert_eq!(warned("1-3,5"), vec![0]);
}

#[test]
fn selector_contains() {
    let range = parse_selector("2-4").selector;
    assert!(!range.contains(1));
    assert!(range.contains(2));
    assert!(range.contains(3));
    assert!(range.contains(4));
    assert!(!range.contains(5));
    let list = parse_selector("9,2").selector;
    assert!(list.contains(9));
    assert!(list.contains(2));
    assert!(!list.contains(3));
    let one = parse_selector("7").selector;
    assert!(one.contains(7));
    assert!(!one.contains(6));
    assert!(!one.contains(8));
}
