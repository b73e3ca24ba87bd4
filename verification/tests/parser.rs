use vtree::parser::{parse_string, parse_string_raw, trim_text};

#[test]
fn parser_test_parse() {
    let val = parse_string(&"cd /usr/bin".to_string());
    assert_eq!(val, vec!["cd".to_string(), "/usr/bin".to_string()]);

    let val = parse_string_raw(&"cd /usr/bin".to_string());
    assert_eq!(val, vec!["cd".to_string(), " ".to_string(), "/usr/bin".to_string()]);
}

#[test]
fn parser_test_parse_quoted() {
    let val = parse_string(&"cd \"dir name\"".to_string());
    assert_eq!(val, vec!["cd".to_string(), "dir name".to_string()]);

    let val = parse_string_raw(&"cd \"dir name\"".to_string());
    assert_eq!(val, vec!["cd".to_string(), " ".to_string(), "\"dir name\"".to_string()]);
}

#[test]
fn parser_test_parse_quoted_and_not_quoted() {
    let val = parse_string(&"cd \"dir name\" dir name".to_string());
    assert_eq!(
        val,
        vec!["cd".to_string(), "dir name".to_string(), "dir".to_string(), "name".to_string()]
    );

    let val = parse_string_raw(&"cd \"dir name\" dir name".to_string());
    assert_eq!(
        val,
        vec![
            "cd".to_string(), " ".to_string(), "\"dir name\"".to_string(), " ".to_string(),
            "dir".to_string(), " ".to_string(), "name".to_string()
        ]
    );
}

#[test]
fn parser_test_parse_quote_not_closed() {
    let val = parse_string(&"cd \"dir name".to_string());
    assert_eq!(val, vec!["cd".to_string(), "dir name".to_string()]);

    let val = parse_string_raw(&"cd \"dir name".to_string());
    assert_eq!(val, vec!["cd".to_string(), " ".to_string(), "\"dir name".to_string()]);
}

#[test]
fn test_parse_starts_with_space() {
    let val = parse_string_raw(&" a b c".to_string());
    assert_eq!(
        val,
        vec![
            " ".to_string(), "a".to_string(), " ".to_string(), "b".to_string(),
            " ".to_string(), "c".to_string()
        ]
    );
}

#[test]
fn test_parse_ends_with_space() {
    let val = parse_string_raw(&"a b c ".to_string());
    assert_eq!(
        val,
        vec![
            "a".to_string(), " ".to_string(), "b".to_string(), " ".to_string(),
            "c".to_string(), " ".to_string()
        ]
    );
}

#[test]
fn test_parse_many_spaces() {
    let val = parse_string_raw(&"a  bb  c  ".to_string());
    assert_eq!(
        val,
        vec![
            "a".to_string(), " ".to_string(), " ".to_string(), "bb".to_string(), " ".to_string(),
            " ".to_string(), "c".to_string(), " ".to_string(), " ".to_string()
        ]
    );
}

#[test]
fn parse_empty_line_gives_no_word() {
    assert_eq!(parse_string(&"".to_string()), Vec::<String>::new());
    assert_eq!(parse_string(&"   ".to_string()), Vec::<String>::new());
    assert_eq!(parse_string_raw(&"".to_string()), Vec::<String>::new());
}

#[test]
fn parse_takes_the_line_end_off_the_last_word() {
    let val = parse_string(&"exit\n".to_string());
    assert_eq!(val, vec!["exit".to_string()]);
    let val = parse_string(&"cd \"dir name \n".to_string());
    assert_eq!(val, vec!["cd".to_string(), "dir name".to_string()]);
}

#[test]
fn parse_closed_empty_quotes_give_an_empty_word() {
    let val = parse_string(&"desc \"\" x".to_string());
    assert_eq!(val, vec!["desc".to_string(), "".to_string(), "x".to_string()]);
}

#[test]
fn parse_other_quote_inside_a_run_is_kept() {
    let val = parse_string(&"say \"it's\"".to_string());
    assert_eq!(val, vec!["say".to_string(), "it's".to_string()]);
    let val = parse_string(&"ab\"cd\"".to_string());
    assert_eq!(val, vec!["abcd".to_string()]);
}

#[test]
fn raw_pieces_give_the_line_back() {
    let line = "cp \"my file\"  'x y' z ".to_string();
    let joined: String = parse_string_raw(&line).concat();
    assert_eq!(joined, line);
}

#[test]
fn trim_takes_white_space_off_both_ends() {
    assert_eq!(trim_text("  a b\t\n"), "a b");
    assert_eq!(trim_text(" \t "), "");
    assert_eq!(trim_text(""), "");
    assert_eq!(trim_text("x"), "x");
    assert_eq!(trim_text("\u{3000}x\u{a0}"), "x");
}
