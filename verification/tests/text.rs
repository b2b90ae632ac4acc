use spark::text::{append_decimal, chars_of, cut, find, parse_number};

fn chars(s: &str) -> Vec<char> {
    s.chars().collect()
}

#[test]
fn characters_of_a_text() {
    assert_eq!(chars_of(""), Vec::<char>::new());
    assert_eq!(chars_of("a-b"), vec!['a', '-', 'b']);
    assert_eq!(chars_of("grüße"), vec!['g', 'r', 'ü', 'ß', 'e']);
}

#[test]
fn first_separator() {
    assert_eq!(find(&chars("a,b,c"), ','), 1);
    assert_eq!(find(&chars(",a"), ','), 0);
    assert_eq!(find(&chars("abc"), ','), 3);
    assert_eq!(find(&chars(""), ','), 0);
}

#[test]
fn cut_at_the_first_separator() {
    let text = chars("ab,cd,e");
    let (head, rest) = cut(&text, ',');
    assert_eq!(head, &chars("ab")[..]);
    assert_eq!(rest, Some(&chars("cd,e")[..]));
    let (head, rest) = cut(&text, ';');
    assert_eq!(head, &text[..]);
    assert_eq!(rest, None);
    let lone = chars(",");
    let (head, rest) = cut(&lone, ',');
    assert!(head.is_empty());
    assert_eq!(rest, Some(&[][..]));
}

#[test]
fn numbers_within_a_bound() {
    assert_eq!(parse_number(&chars("0"), 0), Some(0));
    assert_eq!(parse_number(&chars("1"), 0), None);
    assert_eq!(parse_number(&chars("255"), 255), Some(255));
    assert_eq!(parse_number(&chars("256"), 255), None);
    assert_eq!(parse_number(&chars("+7"), 9), Some(7));
    assert_eq!(parse_number(&chars("007"), 9), Some(7));
    assert_eq!(parse_number(&chars("18446744073709551615"), u64::MAX), Some(u64::MAX));
    assert_eq!(parse_number(&chars("18446744073709551616"), u64::MAX), None);
    assert_eq!(parse_number(&chars("184467440737095516150"), u64::MAX), None);
    for bad in ["", "+", "-1", "1-", "1 ", " 1", "1_0", "0x10", "1e3", "++1", "1+", "１"] {
        assert_eq!(parse_number(&chars(bad), u64::MAX), None, "{:?}", bad);
    }
}

#[test]
fn numbers_in_decimal_digits() {
    for (n, text) in [
        (0u64, "0"),
        (7, "7"),
        (10, "10"),
        (99, "99"),
        (100, "100"),
        (65535, "65535"),
        (u64::MAX, "18446744073709551615"),
    ] {
        let mut out = String::from("n=");
        append_decimal(&mut out, n);
        assert_eq!(out, format!("n={}", text));
    }
}

#[test]
fn written_numbers_read_back() {
    for n in [0u64, 1, 9, 10, 443, 65535, 65536, u64::MAX] {
        let mut out = String::new();
        append_decimal(&mut out, n);
        assert_eq!(parse_number(&chars(&out), u64::MAX), Some(n));
    }
}
