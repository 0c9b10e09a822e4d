use makevcf::decimal::{parse_number, write_number};

fn written(n: usize) -> String {
    let mut out = String::new();
    write_number(n, &mut out);
    out
}

#[test]
fn numbers_are_read() {
    assert_eq!(parse_number("0"), Some(0));
    assert_eq!(parse_number("7"), Some(7));
    assert_eq!(parse_number("500"), Some(500));
    assert_eq!(parse_number("12345"), Some(12345));
    assert_eq!(parse_number("+12"), Some(12));
    assert_eq!(parse_number("0012"), Some(12));
    assert_eq!(parse_number("+0"), Some(0));
}

#[test]
fn what_is_no_number_is_refused() {
    assert_eq!(parse_number(""), None);
    assert_eq!(parse_number("+"), None);
    assert_eq!(parse_number("-1"), None);
    assert_eq!(parse_number("++1"), None);
    assert_eq!(parse_number("1+"), None);
    assert_eq!(parse_number("abc"), None);
    assert_eq!(parse_number("12a"), None);
    assert_eq!(parse_number(" 12"), None);
    assert_eq!(parse_number("12 "), None);
    assert_eq!(parse_number("1.5"), None);
    assert_eq!(parse_number("١٢"), None);
}

#[test]
fn bounds_of_usize_are_kept() {
    let largest = usize::MAX.to_string();
    assert_eq!(parse_number(&largest), Some(usize::MAX));
    let mut beyond = largest.clone();
    beyond.push('0');
    assert_eq!(parse_number(&beyond), None);
    let next = (usize::MAX as u128 + 1).to_string();
    assert_eq!(parse_number(&next), None);
}

#[test]
fn reading_agrees_with_std() {
    for text in ["", "+", "0", "+7", "-7", "007", "42", "4 2", "18446744073709551616", "x"] {
        assert_eq!(parse_number(text), text.parse::<usize>().ok());
    }
}

#[test]
fn numbers_are_written_in_shortest_notation() {
    assert_eq!(written(0), "0");
    assert_eq!(written(9), "9");
    assert_eq!(written(10), "10");
    assert_eq!(written(500), "500");
    assert_eq!(written(12345), "12345");
    assert_eq!(written(usize::MAX), usize::MAX.to_string());
}

#[test]
fn writing_appends() {
    let mut out = String::from("pos=");
    write_number(42, &mut out);
    assert_eq!(out, "pos=42");
}

#[test]
fn what_is_written_is_read_back() {
    for n in [0usize, 1, 9, 10, 99, 100, 101, 65535, usize::MAX] {
        assert_eq!(parse_number(&written(n)), Some(n));
    }
}
