use minishell::text::{
    chars_of, concatenated, contains_char, decimal_string, join_strs, pad_left, pad_right, parse_usize,
    push_char, string_of, trim,
};

#[test]
fn decimal_of_numbers() {
    assert_eq!(decimal_string(0), "0");
    assert_eq!(decimal_string(7), "7");
    assert_eq!(decimal_string(1200), "1200");
    assert_eq!(decimal_string(usize::MAX), usize::MAX.to_string());
}

#[test]
fn padding() {
    assert_eq!(pad_left("12", 5), "   12");
    assert_eq!(pad_left("123456", 5), "123456");
    assert_eq!(pad_right("Done", 24), format!("{:<24}", "Done"));
    assert_eq!(pad_right("Running", 3), "Running");
}

#[test]
fn parse_usize_like_std() {
    for s in ["0", "12", "+7", "+", "-1", "", "1a", "007", "18446744073709551615", "18446744073709551616", "99999999999999999999999"] {
        assert_eq!(parse_usize(s), s.parse::<usize>().ok(), "input {:?}", s);
    }
}

#[test]
fn trim_like_std() {
    for s in ["  a b  ", "\t\n x \r", "", "   ", "\u{3000}y\u{a0}", "z"] {
        assert_eq!(trim(s), s.trim());
    }
}

#[test]
fn joining_and_chars() {
    let v = vec!["a".to_string(), "b c".to_string(), "".to_string()];
    assert_eq!(join_strs(&v, " "), "a b c ");
    assert_eq!(join_strs(&[], "-"), "");
    assert_eq!(chars_of("héllo"), vec!['h', 'é', 'l', 'l', 'o']);
    assert_eq!(string_of(&['x', 'ÿ']), "xÿ");
    assert!(contains_char("a/b", '/'));
    assert!(!contains_char("ab", '/'));
    assert_eq!(concatenated("ab", "cd"), "abcd");
    let mut s = String::from("a");
    push_char(&mut s, 'é');
    assert_eq!(s, "aé");
}
