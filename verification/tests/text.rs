use velo_de::text::{parse_i32, push_decimal, push_digits, same_text, split, trim};

#[test]
fn parse_i32_reads_what_str_parse_reads() {
    for s in ["0", "7", "+7", "-7", "007", "2147483647", "-2147483648", "+0", "-0"] {
        assert_eq!(parse_i32(s), s.parse::<i32>().ok(), "{s:?}");
    }
}

#[test]
fn parse_i32_rejects_what_str_parse_rejects() {
    for s in ["", "+", "-", "2147483648", "-2147483649", "99999999999999999999", " 1", "1 ", "1a", "a1", "--1", "+-1", "٣"] {
        assert_eq!(parse_i32(s), None, "{s:?}");
        assert!(s.parse::<i32>().is_err(), "{s:?}");
    }
}

#[test]
fn decimals_are_written_without_padding() {
    let mut s = String::from("x=");
    push_decimal(&mut s, -2147483648);
    assert_eq!(s, "x=-2147483648");
    let mut t = String::new();
    push_decimal(&mut t, 0);
    push_digits(&mut t, 18446744073709551615);
    assert_eq!(t, "018446744073709551615");
}

#[test]
fn trim_and_split_behave_as_str_does() {
    let s = "\u{3000} a+ b ++c\t\n";
    assert_eq!(trim(s), s.trim());
    assert_eq!(split("a+ b ++c", '+'), "a+ b ++c".split('+').collect::<Vec<_>>());
    assert_eq!(split("", '+'), vec![""]);
}

#[test]
fn same_text_compares_characters() {
    assert!(same_text("-j", "-j"));
    assert!(!same_text("-j", "-J"));
    assert!(!same_text("ab", "abc"));
    assert!(same_text("", ""));
}
