//! From tokens to one value: a recursive-descent reader.

use vstd::prelude::*;
use vstd::string::StringExecFns;
use std::rc::Rc;
use crate::data::{AtomType, AtomVal, values_of, c_nil, c_int, c_symbol, lemma_values_of_push};
use crate::lexer::{Token, Lexeme, lexemes_of, hidden, uppercase, uppercase_of};
use crate::model::Value;

verus! {

/// The one way in which tokens fail to be read as a value: the tokens end
/// before the value does.
#[derive(Debug, PartialEq)]
pub enum ParseError {
    Syntax,
}

/// The model of what reading a value returned.
pub open spec fn parsed(r: Result<(AtomVal, usize), ParseError>) -> Option<(Value, nat)> {
    match r {
        Ok(found) => Some((found.0@, found.1 as nat)),
        Err(_) => None,
    }
}

impl ParseError {
    /// The words that name the failure.
    pub fn description(&self) -> (s: &'static str)
        ensures
            s@ == "Syntax error"@,
    {
        "Syntax error"
    }

    /// The text that reports the failure.
    pub fn message(&self) -> (s: String)
        ensures
            s@ == "Syntax error"@,
    {
        String::from_str("Syntax error")
    }
}

/// What a word stands for, given the word in upper case: `Nil` where that is
/// `NIL`, else the symbol of the word's name.
pub open spec fn word_value(name: Seq<char>, upper: Seq<char>) -> Value {
    if upper == "NIL"@ {
        Value::Nil
    } else {
        Value::Symbol(name)
    }
}

/// What a word stands for, given the word in upper case.
pub fn identifier_atom(name: &str, upper: &str) -> (r: AtomVal)
    ensures
        r@ == word_value(name@, upper@),
{
    if upper.eq("NIL") {
        c_nil()
    } else {
        c_symbol(String::from_str(name))
    }
}

/// The form that the reader makes of a prefix character and what follows
/// it: the list of the form's name and the body.
pub open spec fn wrapped(name: Seq<char>, body: Value) -> Value {
    Value::List(seq![Value::Symbol(name), body])
}

/// The value that starts at position `pos`, and the position of its last
/// token. Hidden tokens before it are passed over. A closing bracket where a
/// value should start reads as `Nil`, and so does the word `nil` in any case.
pub open spec fn parse_at(tokens: Seq<Lexeme>, pos: nat) -> Option<(Value, nat)>
    decreases tokens.len() - pos, 0nat,
{
    if pos >= tokens.len() {
        None
    } else {
        match tokens[pos as int] {
            Lexeme::Whitespace | Lexeme::Comment => parse_at(tokens, pos + 1),
            Lexeme::Oparen => read_list_at(tokens, pos + 1, Seq::empty()),
            Lexeme::Cparen => Some((Value::Nil, pos)),
            Lexeme::Int(n) => Some((Value::Int(n), pos)),
            Lexeme::Identifier(s) => Some((word_value(s, uppercase_of(s)), pos)),
            Lexeme::Apostrophe => match parse_at(tokens, pos + 1) {
                Some((body, end)) => Some((wrapped("quote"@, body), end)),
                None => None,
            },
            Lexeme::Unquote => match parse_at(tokens, pos + 1) {
                Some((body, end)) => Some((wrapped("unquote"@, body), end)),
                None => None,
            },
            Lexeme::Backquote => match parse_at(tokens, pos + 1) {
                Some((body, end)) => Some((wrapped("backquote"@, body), end)),
                None => None,
            },
            Lexeme::UnquoteSplicing => match parse_at(tokens, pos + 1) {
                Some((body, end)) => Some((wrapped("unquote-splicing"@, body), end)),
                None => None,
            },
        }
    }
}

/// The list whose elements start at position `pos`, after the elements in
/// `done`, and the position of its closing bracket.
pub open spec fn read_list_at(tokens: Seq<Lexeme>, pos: nat, done: Seq<Value>) -> Option<
    (Value, nat),
>
    decreases tokens.len() - pos, 1nat,
{
    if pos >= tokens.len() {
        None
    } else if hidden(tokens[pos as int]) {
        read_list_at(tokens, pos + 1, done)
    } else if tokens[pos as int] is Cparen {
        Some((Value::List(done), pos))
    } else {
        match parse_at(tokens, pos) {
            None => None,
            Some((atom, end)) => if pos <= end < tokens.len() {
                read_list_at(tokens, end + 1, done.push(atom))
            } else {
                None
            },
        }
    }
}

/// The first value of a sequence of tokens.
pub open spec fn parse_tokens(tokens: Seq<Lexeme>) -> Option<Value> {
    match parse_at(tokens, 0) {
        Some((v, _)) => Some(v),
        None => None,
    }
}

/// A reader over a sequence of tokens.
pub struct Parser {
    tokens: Vec<Token>,
}

impl Parser {
    /// The tokens that the parser reads.
    pub closed spec fn lexemes(&self) -> Seq<Lexeme> {
        lexemes_of(self.tokens@)
    }

    /// A parser that reads a copy of the given tokens.
    pub fn new(tokens: &Vec<Token>) -> (p: Parser)
        ensures
            p.lexemes() == lexemes_of(tokens@),
    {
        let mut copy: Vec<Token> = Vec::new();
        let mut k: usize = 0;
        while k < tokens.len()
            invariant
                k <= tokens.len(),
                copy@.len() == k,
                forall|i: int| 0 <= i < k ==> copy@[i]@ == tokens@[i]@,
            decreases tokens.len() - k,
        {
            copy.push(tokens[k].clone());
            k = k + 1;
        }
        assert(lexemes_of(copy@) =~= lexemes_of(tokens@));
        Parser { tokens: copy }
    }

    /// Reads the first value of the tokens.
    pub fn start(&self) -> (r: Result<AtomVal, ParseError>)
        ensures
            parse_tokens(self.lexemes()) matches Some(v) ==> (r matches Ok(atom) && atom@ == v),
            parse_tokens(self.lexemes()) is None ==> r == Err::<AtomVal, ParseError>(
                ParseError::Syntax,
            ),
    {
        match self.parse(0) {
            Ok((atom, _end)) => Ok(atom),
            Err(e) => Err(e),
        }
    }

    /// Reads the value that starts at position `pos`; gives it with the
    /// position of its last token.
    pub fn parse(&self, pos: usize) -> (r: Result<(AtomVal, usize), ParseError>)
        ensures
            parsed(r) == parse_at(self.lexemes(), pos as nat),
            r matches Ok(found) ==> pos <= found.1 < self.lexemes().len(),
        decreases self.lexemes().len() - pos, 0nat,
    {
        let count: usize = self.tokens.len();
        match self.pop(pos) {
            Some(token) => {
                if token.is_hidden() {
                    self.parse(pos + 1)
                } else {
                    match token {
                        Token::Oparen => self.read_list(pos + 1),
                        Token::Cparen => Ok((c_nil(), pos)),
                        Token::Int(num) => Ok((c_int(*num), pos)),
                        Token::Identifier(str) => {
                            let upper = uppercase(str.as_str());
                            Ok((identifier_atom(str.as_str(), upper.as_str()), pos))
                        },
                        Token::Apostrophe => self.prefixed("quote", pos),
                        Token::Unquote => self.prefixed("unquote", pos),
                        Token::Backquote => self.prefixed("backquote", pos),
                        Token::UnquoteSplicing => self.prefixed("unquote-splicing", pos),
                        _ => Err(ParseError::Syntax),
                    }
                }
            },
            None => Err(ParseError::Syntax),
        }
    }

    /// Reads the value after a prefix character at `pos` and wraps it in the
    /// form of the given name.
    fn prefixed(&self, name: &str, pos: usize) -> (r: Result<(AtomVal, usize), ParseError>)
        requires
            pos < self.lexemes().len(),
        ensures
            parse_at(self.lexemes(), (pos + 1) as nat) matches Some((body, end)) ==> parsed(r)
                == Some((wrapped(name@, body), end)),
            parse_at(self.lexemes(), (pos + 1) as nat) is None ==> r is Err,
            r matches Ok(found) ==> pos <= found.1 < self.lexemes().len(),
        decreases self.lexemes().len() - pos - 1, 2nat,
    {
        let count: usize = self.tokens.len();
        let (body, end) = self.parse(pos + 1)?;
        let mut items: Vec<AtomVal> = Vec::new();
        items.push(c_symbol(String::from_str(name)));
        items.push(body);
        assert(values_of(items@) =~= seq![Value::Symbol(name@), body@]);
        Ok((Rc::new(AtomType::List(items)), end))
    }

    /// The token at position `pos`, if there is one.
    pub fn pop(&self, pos: usize) -> (r: Option<&Token>)
        ensures
            pos < self.lexemes().len() ==> (r matches Some(t) && t@ == self.lexemes()[pos as int]),
            pos >= self.lexemes().len() ==> r is None,
    {
        if pos < self.tokens.len() {
            Some(&self.tokens[pos])
        } else {
            None
        }
    }

    /// Reads the elements of a list from position `pos` up to its closing
    /// bracket; gives the list with the position of that bracket.
    fn read_list(&self, pos: usize) -> (r: Result<(AtomVal, usize), ParseError>)
        ensures
            parsed(r) == read_list_at(self.lexemes(), pos as nat, Seq::empty()),
            r matches Ok(found) ==> pos <= found.1 < self.lexemes().len(),
        decreases self.lexemes().len() - pos, 1nat,
    {
        let mut atoms: Vec<AtomVal> = Vec::new();
        let mut at: usize = pos;
        let count: usize = self.tokens.len();
        assert(values_of(atoms@) =~= Seq::empty());
        loop
            invariant
                pos <= at,
                count == self.lexemes().len(),
                read_list_at(self.lexemes(), pos as nat, Seq::empty()) == read_list_at(
                    self.lexemes(),
                    at as nat,
                    values_of(atoms@),
                ),
            decreases self.lexemes().len() - at,
        {
            match self.pop(at) {
                Some(token) => {
                    if !token.is_hidden() {
                        match token {
                            Token::Cparen => {
                                return Ok((Rc::new(AtomType::List(atoms)), at));
                            },
                            _other => {
                                match self.parse(at) {
                                    Ok((atom, end)) => {
                                        proof {
                                            lemma_values_of_push(atoms@, atom);
                                        }
                                        at = end;
                                        atoms.push(atom);
                                    },
                                    Err(err) => {
                                        return Err(err);
                                    },
                                }
                            },
                        }
                    }
                },
                None => {
                    return Err(ParseError::Syntax);
                },
            }
            at = at + 1;
        }
    }
}

} // verus!
