use atom_lisp::data::{c_int, c_list, c_nil, c_symbol};
use atom_lisp::lexer::{
    cut_token, first_named_group, format_tokens, lex, lex_single_token, parse_integer, token_for,
    LexError, Token, TokenMatcher, TOKEN_PATTERN,
};
use atom_lisp::parser::{identifier_atom, ParseError, Parser};

#[test]
fn tokens_of_a_form() {
    assert_eq!(
        lex("(+ 1 foo)").unwrap(),
        vec![
            Token::Oparen,
            Token::Identifier("+".to_string()),
            Token::Whitespace,
            Token::Int(1),
            Token::Whitespace,
            Token::Identifier("foo".to_string()),
            Token::Cparen
        ]
    );
}

#[test]
fn tokens_of_prefix_characters() {
    assert_eq!(
        lex("'a `b ~c ~@d").unwrap(),
        vec![
            Token::Apostrophe,
            Token::Identifier("a".to_string()),
            Token::Whitespace,
            Token::Backquote,
            Token::Identifier("b".to_string()),
            Token::Whitespace,
            Token::Unquote,
            Token::Identifier("c".to_string()),
            Token::Whitespace,
            Token::UnquoteSplicing,
            Token::Identifier("d".to_string())
        ]
    );
}

#[test]
fn square_brackets_are_list_brackets() {
    assert_eq!(
        lex("[1]").unwrap(),
        vec![Token::Oparen, Token::Int(1), Token::Cparen]
    );
    assert_eq!(
        Parser::new(&lex("[1 [2]]").unwrap()).start().unwrap(),
        c_list(&[c_int(1), c_list(&[c_int(2)])])
    );
}

#[test]
fn comment_runs_to_the_end_of_the_line() {
    assert_eq!(
        lex("; note (1\n2").unwrap(),
        vec![Token::Comment, Token::Int(2)]
    );
    assert_eq!(
        Parser::new(&lex("(1 ; one\n 2)").unwrap()).start().unwrap(),
        c_list(&[c_int(1), c_int(2)])
    );
}

#[test]
fn empty_text_has_no_tokens() {
    assert_eq!(lex("").unwrap(), vec![]);
}

#[test]
fn text_that_starts_no_token() {
    assert_eq!(lex("{").unwrap_err(), LexError::Syntax);
    assert_eq!(lex("(a }").unwrap_err(), LexError::Syntax);
}

#[test]
fn integer_that_does_not_fit() {
    assert_eq!(
        lex("99999999999999999999").unwrap_err(),
        LexError::InvalidToken("integer".to_string(), "99999999999999999999".to_string())
    );
    assert_eq!(
        lex("9223372036854775807").unwrap(),
        vec![Token::Int(9223372036854775807)]
    );
    assert_eq!(
        lex("9223372036854775808").unwrap_err(),
        LexError::InvalidToken("integer".to_string(), "9223372036854775808".to_string())
    );
    assert_eq!(lex("007").unwrap(), vec![Token::Int(7)]);
}

#[test]
fn text_beyond_ascii() {
    assert_eq!(
        lex("(λ é)").unwrap(),
        vec![
            Token::Oparen,
            Token::Identifier("λ".to_string()),
            Token::Whitespace,
            Token::Identifier("é".to_string()),
            Token::Cparen
        ]
    );
}

#[test]
fn single_token_names_its_kind() {
    let matcher = TokenMatcher::new(TOKEN_PATTERN).unwrap();
    assert_eq!(
        lex_single_token(&matcher, "foo bar").unwrap(),
        ("identifier".to_string(), "foo".to_string())
    );
    assert_eq!(
        lex_single_token(&matcher, "12ab").unwrap(),
        ("integer".to_string(), "12".to_string())
    );
    assert_eq!(
        lex_single_token(&matcher, "  \n x").unwrap(),
        ("whitespace".to_string(), "  \n ".to_string())
    );
    assert_eq!(
        lex_single_token(&matcher, "~@x").unwrap(),
        ("unquote_splicing".to_string(), "~@".to_string())
    );
    assert_eq!(lex_single_token(&matcher, "}").unwrap_err(), LexError::Syntax);
}

#[test]
fn matcher_refuses_a_broken_pattern() {
    assert!(TokenMatcher::new("(").is_none());
}

#[test]
fn token_is_hidden() {
    assert!(Token::Whitespace.is_hidden());
    assert!(Token::Comment.is_hidden());
    assert!(!Token::Oparen.is_hidden());
    assert!(!Token::Int(1).is_hidden());
    assert!(!Token::Identifier("a".to_string()).is_hidden());
}

#[test]
fn token_format() {
    assert_eq!(Token::Oparen.format(), "Oparen");
    assert_eq!(Token::Int(-5).format(), "Int(-5)");
    assert_eq!(Token::Identifier("a\"b".to_string()).format(), "Identifier(\"a\\\"b\")");
    assert_eq!(Token::Whitespace.format(), "");
    assert_eq!(Token::UnquoteSplicing.format(), "UnquoteSplicing");
}

#[test]
fn token_clone() {
    let t = Token::Identifier("abc".to_string());
    assert_eq!(t.clone(), t);
    assert_eq!(Token::Int(3).clone(), Token::Int(3));
}

#[test]
fn format_tokens_leaves_hidden_ones_out() {
    assert_eq!(
        format_tokens(&lex("(foo 1) ; done\n").unwrap()),
        "[Oparen, Identifier(\"foo\"), Int(1), Cparen, ]"
    );
    assert_eq!(format_tokens(&vec![]), "[]");
}

#[test]
fn lex_error_texts() {
    assert_eq!(LexError::Syntax.description(), "Syntax error");
    assert_eq!(LexError::Syntax.message(), "Syntax error");
    let e = LexError::InvalidToken("a".to_string(), "b".to_string());
    assert_eq!(e.description(), "Invalid token");
    assert_eq!(e.message(), "Invalid token expected: `a`, found: `b`");
}

#[test]
fn parse_error_texts() {
    assert_eq!(ParseError::Syntax.description(), "Syntax error");
    assert_eq!(ParseError::Syntax.message(), "Syntax error");
}

#[test]
fn nil_in_any_case() {
    assert_eq!(Parser::new(&lex("nil").unwrap()).start().unwrap(), c_nil());
    assert_eq!(Parser::new(&lex("NiL").unwrap()).start().unwrap(), c_nil());
    assert_eq!(
        Parser::new(&lex("nila").unwrap()).start().unwrap(),
        c_symbol("nila".to_string())
    );
}

#[test]
fn list_that_does_not_close() {
    assert_eq!(
        Parser::new(&lex("(1 (2)").unwrap()).start().unwrap_err(),
        ParseError::Syntax
    );
    assert_eq!(
        Parser::new(&lex("'").unwrap()).start().unwrap_err(),
        ParseError::Syntax
    );
    assert_eq!(
        Parser::new(&lex("").unwrap()).start().unwrap_err(),
        ParseError::Syntax
    );
    assert_eq!(
        Parser::new(&lex("  ").unwrap()).start().unwrap_err(),
        ParseError::Syntax
    );
}

#[test]
fn closing_bracket_alone_reads_as_nil() {
    assert_eq!(Parser::new(&lex(")").unwrap()).start().unwrap(), c_nil());
}

#[test]
fn parse_gives_the_position_of_the_last_token() {
    let parser = Parser::new(&lex(" (a (b)) c").unwrap());
    let (atom, end) = parser.parse(0).unwrap();
    assert_eq!(atom.format(false), "(a (b))");
    assert_eq!(end, 7);
    let (atom, end) = parser.parse(8).unwrap();
    assert_eq!(atom, c_symbol("c".to_string()));
    assert_eq!(end, 9);
    assert_eq!(parser.parse(10).unwrap_err(), ParseError::Syntax);
    assert_eq!(parser.pop(1), Some(&Token::Oparen));
    assert_eq!(parser.pop(10), None);
}

#[test]
fn nested_prefix_characters() {
    assert_eq!(
        Parser::new(&lex("''a").unwrap()).start().unwrap().format(false),
        "(quote (quote a))"
    );
    assert_eq!(
        Parser::new(&lex("`(a ~b ~@(c))").unwrap())
            .start()
            .unwrap()
            .format(false),
        "(backquote (a (unquote b) (unquote-splicing (c))))"
    );
}

#[test]
fn first_group_with_a_name_that_took_part() {
    let names = vec![
        None,
        Some("a".to_string()),
        None,
        Some("b".to_string()),
        Some("c".to_string()),
    ];
    let groups = vec![
        Some("xyz".to_string()),
        None,
        Some("x".to_string()),
        Some("y".to_string()),
        Some("z".to_string()),
    ];
    assert_eq!(
        first_named_group(&names, &groups),
        Some(("b".to_string(), "y".to_string()))
    );
    assert_eq!(first_named_group(&names, &vec![Some("x".to_string())]), None);
    assert_eq!(first_named_group(&vec![], &groups), None);
    assert_eq!(
        first_named_group(&names, &vec![None, Some("q".to_string())]),
        Some(("a".to_string(), "q".to_string()))
    );
}

#[test]
fn integer_of_digits() {
    assert_eq!(parse_integer("0"), Some(0));
    assert_eq!(parse_integer("42"), Some(42));
    assert_eq!(parse_integer("0042"), Some(42));
    assert_eq!(parse_integer("9223372036854775807"), Some(i64::MAX));
    assert_eq!(parse_integer("9223372036854775808"), None);
    assert_eq!(parse_integer("92233720368547758070"), None);
    assert_eq!(parse_integer(""), None);
    assert_eq!(parse_integer("-1"), None);
    assert_eq!(parse_integer("+1"), None);
    assert_eq!(parse_integer("1a"), None);
    assert_eq!(parse_integer("١"), None);
}

#[test]
fn token_of_each_kind() {
    assert_eq!(token_for("whitespace", " ".to_string()), Ok(Token::Whitespace));
    assert_eq!(token_for("oparen", "(".to_string()), Ok(Token::Oparen));
    assert_eq!(token_for("cparen", ")".to_string()), Ok(Token::Cparen));
    assert_eq!(token_for("obracket", "[".to_string()), Ok(Token::Oparen));
    assert_eq!(token_for("cbracket", "]".to_string()), Ok(Token::Cparen));
    assert_eq!(
        token_for("identifier", "ab".to_string()),
        Ok(Token::Identifier("ab".to_string()))
    );
    assert_eq!(token_for("integer", "12".to_string()), Ok(Token::Int(12)));
    assert_eq!(
        token_for("integer", "x".to_string()),
        Err(LexError::InvalidToken("integer".to_string(), "x".to_string()))
    );
    assert_eq!(token_for("apostrophe", "'".to_string()), Ok(Token::Apostrophe));
    assert_eq!(token_for("backquote", "`".to_string()), Ok(Token::Backquote));
    assert_eq!(token_for("unquote", "~".to_string()), Ok(Token::Unquote));
    assert_eq!(
        token_for("unquote_splicing", "~@".to_string()),
        Ok(Token::UnquoteSplicing)
    );
    assert_eq!(token_for("comment", ";\n".to_string()), Ok(Token::Comment));
    assert_eq!(token_for("other", "x".to_string()), Err(LexError::Syntax));
}

#[test]
fn token_taken_from_the_front() {
    assert_eq!(
        cut_token("abc def", "identifier", "abc".to_string()),
        Ok((Token::Identifier("abc".to_string()), " def"))
    );
    assert_eq!(
        cut_token("12", "integer", "12".to_string()),
        Ok((Token::Int(12), ""))
    );
    assert_eq!(
        cut_token("ab", "identifier", "".to_string()),
        Err(LexError::Syntax)
    );
    assert_eq!(
        cut_token("ab", "identifier", "abc".to_string()),
        Err(LexError::Syntax)
    );
    assert_eq!(
        cut_token("éa", "identifier", "e".to_string()),
        Err(LexError::Syntax)
    );
    assert_eq!(
        cut_token("éa", "identifier", "xy".to_string()),
        Ok((Token::Identifier("xy".to_string()), "a"))
    );
    assert_eq!(
        cut_token("9999999999999999999999", "integer", "9999999999999999999999".to_string()),
        Err(LexError::InvalidToken(
            "integer".to_string(),
            "9999999999999999999999".to_string()
        ))
    );
}

#[test]
fn word_is_nil_or_a_symbol() {
    assert_eq!(identifier_atom("nil", "NIL"), c_nil());
    assert_eq!(identifier_atom("anything", "NIL"), c_nil());
    assert_eq!(identifier_atom("nil", "nil"), c_symbol("nil".to_string()));
    assert_eq!(identifier_atom("foo", "FOO"), c_symbol("foo".to_string()));
}
