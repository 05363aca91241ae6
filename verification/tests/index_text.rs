use petrel::store::index_text::match_expr;

#[test]
fn match_expr_quotes_and_prefixes() {
    assert_eq!(
        match_expr("hello world", true).unwrap(),
        "\"hello\" \"world\"*"
    );
    assert_eq!(
        match_expr("\"exact phrase\" tail", true).unwrap(),
        "\"exact phrase\" \"tail\"*"
    );
    // FTS5 operators and injection attempts arrive quoted, i.e. inert.
    assert_eq!(match_expr("OR", true).unwrap(), "\"OR\"*");
    // An embedded quote splits tokens; nothing unquoted ever reaches MATCH.
    assert_eq!(match_expr("a\"b", true).unwrap(), "\"a\" \"b\"");
    assert!(match_expr("   ", true).is_none());
}

#[test]
fn spacing_is_what_unicode_says_it_is() {
    // Every character there is, told apart as the standard library does.
    for c in '\u{0}'..=char::MAX {
        let blank = match_expr(&c.to_string(), false).is_none();
        assert_eq!(blank, c.is_whitespace() || c.is_control() || c == '"', "{c:?}");
    }
}

#[test]
fn a_prefix_is_asked_only_of_a_bare_word() {
    assert_eq!(match_expr(" \u{7} \"\" ", true), None);
    assert_eq!(match_expr("board \"pack q3\"", true).as_deref(), Some("\"board\" \"pack q3\""));
    assert_eq!(match_expr("board pa", true).as_deref(), Some("\"board\" \"pa\"*"));
    assert_eq!(match_expr("board p", true).as_deref(), Some("\"board\" \"p\""));
    assert_eq!(match_expr("board pa", false).as_deref(), Some("\"board\" \"pa\""));
}
