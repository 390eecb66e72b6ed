use atom_lisp::data::{c_int, c_list, c_symbol};
use atom_lisp::lexer::lex;
use atom_lisp::parser::Parser;

#[test]
fn test_apostrophe() {
    let parser = Parser::new(&lex("'(1 2)").unwrap());

    let expected = c_list(&[
        c_symbol("quote".to_string()),
        c_list(&[c_int(1), c_int(2)]),
    ]);

    assert_eq!(parser.start().unwrap(), expected);
}

#[test]
fn test_unquote() {
    let parser = Parser::new(&lex("~(1 2)").unwrap());

    let expected = c_list(&[
        c_symbol("unquote".to_string()),
        c_list(&[c_int(1), c_int(2)]),
    ]);

    assert_eq!(parser.start().unwrap(), expected);
}

#[test]
fn test_backquote() {
    let parser = Parser::new(&lex("`(1 2)").unwrap());

    let expected = c_list(&[
        c_symbol("backquote".to_string()),
        c_list(&[c_int(1), c_int(2)]),
    ]);

    assert_eq!(parser.start().unwrap(), expected);
}

#[test]
fn test_unquote_splicing() {
    let parser = Parser::new(&lex("~@(1 2)").unwrap());

    let expected = c_list(&[
        c_symbol("unquote-splicing".to_string()),
        c_list(&[c_int(1), c_int(2)]),
    ]);

    assert_eq!(parser.start().unwrap(), expected);
}
