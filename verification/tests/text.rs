use cosmic_session::text::{
    chars_of, cut_first, decimal_string, join, same, split, split_bytes, starts_with,
    tail_after_last,
};

fn strings(list: &[&str]) -> Vec<String> {
    list.iter().map(|s| s.to_string()).collect()
}

#[test]
fn numerals_are_decimal() {
    assert_eq!(decimal_string(0), "0");
    assert_eq!(decimal_string(9), "9");
    assert_eq!(decimal_string(10), "10");
    assert_eq!(decimal_string(1234567890), "1234567890");
    assert_eq!(decimal_string(-1), "-1");
    assert_eq!(decimal_string(i32::MAX), i32::MAX.to_string());
    assert_eq!(decimal_string(i32::MIN), i32::MIN.to_string());
}

#[test]
fn different_numbers_have_different_numerals() {
    for a in -120..120 {
        for b in -120..120 {
            assert_eq!(decimal_string(a) == decimal_string(b), a == b);
        }
    }
}

#[test]
fn split_has_one_piece_more_than_separators() {
    assert_eq!(split("", ' '), strings(&[""]));
    assert_eq!(split("a", ' '), strings(&["a"]));
    assert_eq!(split("a b", ' '), strings(&["a", "b"]));
    assert_eq!(split(" a  b ", ' '), strings(&["", "a", "", "b", ""]));
    assert_eq!(split("é ü", ' '), strings(&["é", "ü"]));
}

#[test]
fn split_then_join_gives_the_text_back() {
    for s in ["", " ", "a", "a b", "  a b  c "] {
        assert_eq!(join(&split(s, ' '), " "), s);
    }
}

#[test]
fn join_then_split_gives_the_list_back() {
    let list = strings(&["x", "", "yz"]);
    assert_eq!(split(&join(&list, " "), ' '), list);
    assert_eq!(join(&[], " "), "");
    assert_eq!(join(&strings(&["x", "y"]), ", "), "x, y");
}

#[test]
fn bytes_split_at_separators() {
    assert_eq!(split_bytes(b"a:b", b':'), vec![b"a".to_vec(), b"b".to_vec()]);
    assert_eq!(split_bytes(b"", b':'), vec![Vec::<u8>::new()]);
    assert_eq!(
        split_bytes(&[255, 58, 58], 58),
        vec![vec![255u8], Vec::new(), Vec::new()]
    );
}

#[test]
fn cut_is_at_the_first_separator() {
    assert_eq!(cut_first("a=b=c", '='), Some(("a", "b=c")));
    assert_eq!(cut_first("=x", '='), Some(("", "x")));
    assert_eq!(cut_first("x=", '='), Some(("x", "")));
    assert_eq!(cut_first("abc", '='), None);
    assert_eq!(cut_first("", '='), None);
}

#[test]
fn tail_is_behind_the_last_separator() {
    assert_eq!(tail_after_last("/usr/bin/x", '/'), "x");
    assert_eq!(tail_after_last("x", '/'), "x");
    assert_eq!(tail_after_last("/usr/", '/'), "");
    assert_eq!(tail_after_last("", '/'), "");
}

#[test]
fn prefixes_and_equality() {
    assert!(starts_with("XDG_DATA", "XDG_"));
    assert!(starts_with("XDG_", "XDG_"));
    assert!(!starts_with("XDG", "XDG_"));
    assert!(starts_with("anything", ""));
    assert!(same("a", "a"));
    assert!(!same("a", "b"));
    assert_eq!(chars_of("aé"), vec!['a', 'é']);
}
