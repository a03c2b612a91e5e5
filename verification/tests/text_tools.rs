use scdownload::text::{
    chars_of, contains, decimal_exec, join_exec, parse_usize, replace_exec, split_all, str_replace,
    string_of,
};

fn pieces(s: &str, sep: &str) -> Vec<String> {
    split_all(&chars_of(s), &chars_of(sep)).iter().map(string_of).collect()
}

#[test]
fn split_like_str_split() {
    for (s, sep) in [("a/b/c", "/"), ("", "/"), ("//", "/"), ("aaa", "aa"), ("x|y|", "|"), ("abc", "zz")] {
        let want: Vec<String> = s.split(sep).map(|p| p.to_string()).collect();
        assert_eq!(pieces(s, sep), want);
    }
}

#[test]
fn replace_like_str_replace() {
    for (s, from, to) in [("aaaa", "aa", "b"), ("a\\u0026b", "\\u0026", "and"), ("", "x", "y"), ("xyx", "x", "")] {
        assert_eq!(str_replace(s, from, to), s.replace(from, to));
        assert_eq!(string_of(&replace_exec(&chars_of(s), &chars_of(from), &chars_of(to))), s.replace(from, to));
    }
}

#[test]
fn join_parts() {
    let parts = vec![chars_of("a"), chars_of("b"), chars_of("")];
    assert_eq!(string_of(&join_exec(&parts, &chars_of("|"))), "a|b|");
    assert_eq!(string_of(&join_exec(&Vec::new(), &chars_of("|"))), "");
}

#[test]
fn contains_pattern() {
    assert!(contains(&chars_of("hello world"), &chars_of("o w")));
    assert!(!contains(&chars_of("hello"), &chars_of("hello!")));
}

#[test]
fn decimal_digits() {
    assert_eq!(string_of(&decimal_exec(0)), "0");
    assert_eq!(string_of(&decimal_exec(7)), "7");
    assert_eq!(string_of(&decimal_exec(10)), "10");
    assert_eq!(string_of(&decimal_exec(4294967295)), "4294967295");
}

#[test]
fn parse_numbers() {
    assert_eq!(parse_usize("42"), Some(42));
    assert_eq!(parse_usize("+42"), Some(42));
    assert_eq!(parse_usize("007"), Some(7));
    assert_eq!(parse_usize(""), None);
    assert_eq!(parse_usize("+"), None);
    assert_eq!(parse_usize("-1"), None);
    assert_eq!(parse_usize("4a"), None);
    assert_eq!(parse_usize(&usize::MAX.to_string()), Some(usize::MAX));
    assert_eq!(parse_usize("999999999999999999999999"), None);
    for s in ["42", "+42", "007", "", "+", "-1", "4a", "999999999999999999999999"] {
        assert_eq!(parse_usize(s), s.parse::<usize>().ok());
    }
}

#[test]
fn decimal_reads_back() {
    for n in [0u32, 1, 9, 10, 99, 100, 12345, u32::MAX] {
        let written = string_of(&decimal_exec(n));
        assert_eq!(parse_usize(&written), Some(n as usize));
    }
}

#[test]
fn split_of_join_gives_parts() {
    let parts = vec![chars_of("ab"), chars_of(""), chars_of("c d")];
    let joined = join_exec(&parts, &chars_of("|"));
    let back = split_all(&joined, &chars_of("|"));
    assert_eq!(back, parts);
}
