use cordis_core::dotenv::{parse, unset};

fn pair(key: &str, value: &str) -> (String, String) {
    (key.to_owned(), value.to_owned())
}

#[test]
fn parses_comments_quotes_and_exports() {
    let text = r#"
# comment
PLAIN=value
export EXPORTED=1
QUOTED="a # b"
SINGLE='c'
TRAILING=x   # trailing comment
EMPTY=
malformed-line
"#;
    assert_eq!(
        parse(text),
        vec![
            ("PLAIN".to_owned(), "value".to_owned()),
            ("EXPORTED".to_owned(), "1".to_owned()),
            ("QUOTED".to_owned(), "a # b".to_owned()),
            ("SINGLE".to_owned(), "c".to_owned()),
            ("TRAILING".to_owned(), "x".to_owned()),
            ("EMPTY".to_owned(), String::new()),
        ]
    );
}

#[test]
fn an_empty_text_has_no_entries() {
    assert!(parse("").is_empty());
    assert!(parse("\n\n# only a comment\n").is_empty());
}

#[test]
fn windows_line_ends_are_trimmed() {
    assert_eq!(parse("A=1\r\nB=2\r\n"), vec![pair("A", "1"), pair("B", "2")]);
}

#[test]
fn keys_without_a_name_or_with_blanks_are_skipped() {
    assert!(parse("=value").is_empty());
    assert!(parse("two words=value").is_empty());
}

#[test]
fn only_the_first_equals_sign_splits() {
    assert_eq!(parse("URL=a=b=c"), vec![pair("URL", "a=b=c")]);
}

#[test]
fn a_quote_that_does_not_close_is_part_of_the_value() {
    assert_eq!(parse("A=\"open"), vec![pair("A", "\"open")]);
    assert_eq!(parse("A='x\""), vec![pair("A", "'x\"")]);
}

#[test]
fn lines_parse_one_by_one() {
    let mut both = parse("A=1");
    both.extend(parse("B=2"));
    assert_eq!(parse("A=1\nB=2"), both);

    let (text, rest) = ("A=1\n# note\nB='x'", "\nbroken\nC=3\n");
    let mut both = parse(text);
    both.extend(parse(rest));
    assert_eq!(parse(&format!("{text}\n{rest}")), both);
    assert_eq!(both.len(), 3);
}

#[test]
fn what_is_set_is_not_overridden() {
    let pairs = vec![pair("A", "1"), pair("B", "2"), pair("A", "3")];
    assert_eq!(unset(&pairs, &vec!["A".to_owned()]), vec![pair("B", "2")]);
    assert_eq!(unset(&pairs, &Vec::new()).len(), 2);
}
