//! From text to tokens. What a token looks like is written down as one
//! pattern with a named group per kind of token; the text is cut into tokens
//! by matching the pattern against what is left of it, again and again.

use vstd::prelude::*;
use vstd::string::{StringExecFns, StrSliceExecFns, StringSliceAdditionalSpecFns};
use vstd::utf8::{decode_utf8, encode_utf8, is_char_boundary};
use regex::Regex;
use crate::text::push_decimal;
use crate::model::decimal;

verus! {

/// `regex::Regex`, a compiled pattern. What is known of one is the pattern
/// text it was made from.
#[verifier::external_type_specification]
#[verifier::external_body]
pub struct ExRegex(regex::Regex);

/// `regex::Error`, the reason why a pattern was refused. Nothing is said of
/// it but that it exists.
#[verifier::external_type_specification]
#[verifier::external_body]
pub struct ExRegexError(regex::Error);

/// The pattern text that a compiled pattern was made from, as
/// `Regex::as_str` gives it back.
pub uninterp spec fn pattern_of(re: Regex) -> Seq<char>;

/// Whether a pattern text is one that `Regex::new` compiles.
pub uninterp spec fn pattern_accepted(pattern: Seq<char>) -> bool;

/// The name of each capture group of a pattern, in the order of the groups'
/// opening brackets; a group without a name has none.
pub uninterp spec fn group_names_of(pattern: Seq<char>) -> Seq<Option<Seq<char>>>;

/// For the leftmost match of a pattern in a text: the text that each capture
/// group matched, in the order of the groups' opening brackets; a group that
/// took no part has none. Nothing where the pattern matches nowhere.
pub uninterp spec fn captures_of(pattern: Seq<char>, text: Seq<char>) -> Option<
    Seq<Option<Seq<char>>>,
>;

/// The text of a string between double quotes, with its special characters
/// escaped, as the `Debug` format of `str` writes it.
pub uninterp spec fn quoted_text(s: Seq<char>) -> Seq<char>;

/// The upper-case form of a text, as `str::to_uppercase` gives it.
pub uninterp spec fn uppercase_of(s: Seq<char>) -> Seq<char>;

/// `Regex::new` compiles a pattern, or refuses it; which of the two depends
/// on the pattern text alone. The compiled pattern remembers the text it was
/// made from.
#[verifier::external_body]
fn compile(pattern: &str) -> (r: Result<Regex, regex::Error>)
    ensures
        r is Ok <==> pattern_accepted(pattern@),
        r matches Ok(re) ==> pattern_of(re) == pattern@,
{
    Regex::new(pattern)
}

/// `Regex::capture_names` lists the names of the pattern's capture groups,
/// in the order of the groups' opening brackets, the whole match first.
#[verifier::external_body]
fn group_names(re: &Regex) -> (r: Vec<Option<String>>)
    ensures
        texts_of(r@) == group_names_of(pattern_of(*re)),
{
    re.capture_names().map(|name| name.map(|s| s.to_string())).collect()
}

/// `Regex::captures` finds the leftmost match in the text, and
/// `Captures::iter` lists what each capture group matched in it, in the
/// order of the groups' opening brackets, the whole match first. What is
/// found depends on the pattern and the text alone.
#[verifier::external_body]
fn first_captures(re: &Regex, text: &str) -> (r: Option<Vec<Option<String>>>)
    ensures
        r is Some <==> captures_of(pattern_of(*re), text@) is Some,
        r matches Some(groups) ==> Some(texts_of(groups@)) == captures_of(
            pattern_of(*re),
            text@,
        ),
{
    re.captures(text).map(|c| c.iter().map(|m| m.map(|m| m.as_str().to_string())).collect())
}

/// The `Debug` format of a string slice, which depends on its characters
/// alone.
#[verifier::external_body]
fn quoted(s: &str) -> (r: String)
    ensures
        r@ == quoted_text(s@),
{
    format!("{:?}", s)
}

/// `str::to_uppercase` gives the upper-case form of a text, which depends on
/// its characters alone.
#[verifier::external_body]
pub(crate) fn uppercase(s: &str) -> (r: String)
    ensures
        r@ == uppercase_of(s@),
{
    s.to_uppercase()
}

/// The texts of a sequence of optional strings.
pub open spec fn texts_of(items: Seq<Option<String>>) -> Seq<Option<Seq<char>>> {
    Seq::new(
        items.len(),
        |i: int|
            match items[i] {
                Some(s) => Some(s@),
                None => None,
            },
    )
}

/// The pattern of the tokens. Blanks and line breaks in it carry no meaning.
pub const TOKEN_PATTERN: &'static str = r"(?x)
        (?P<whitespace>^\s+)                 |
        (?P<comment>;(.*)\n)                 |
        (?P<oparen>^\()                      |
        (?P<cparen>^\))                      |
        (?P<obracket>^\[)                    |
        (?P<cbracket>^\])                    |
        (?P<integer>^[0-9]+)                 |
        (?P<apostrophe>^')                   |
        (?P<backquote>^`)                    |
        (?P<unquote_splicing>^~@)            |
        (?P<unquote>^~)                      |
        (?P<identifier>^([^\s\(\)\[\]\{\}]+))
    ";

/// The ways in which a text fails to be cut into tokens.
#[derive(Debug, PartialEq)]
pub enum LexError {
    Syntax,
    /// What was looked for, and the text that was found.
    InvalidToken(String, String),
}

/// The model of a failure to cut text into tokens.
pub enum LexFailure {
    Syntax,
    InvalidToken(Seq<char>, Seq<char>),
}

impl View for LexError {
    type V = LexFailure;

    open spec fn view(&self) -> LexFailure {
        match self {
            LexError::Syntax => LexFailure::Syntax,
            LexError::InvalidToken(expected, found) => LexFailure::InvalidToken(
                expected@,
                found@,
            ),
        }
    }
}

/// The words that name the kind of a failure.
pub open spec fn lex_failure_kind(f: LexFailure) -> Seq<char> {
    match f {
        LexFailure::Syntax => "Syntax error"@,
        LexFailure::InvalidToken(_, _) => "Invalid token"@,
    }
}

/// The text that reports a failure.
pub open spec fn lex_failure_text(f: LexFailure) -> Seq<char> {
    match f {
        LexFailure::Syntax => "Syntax error"@,
        LexFailure::InvalidToken(expected, found) => "Invalid token"@ + " expected: `"@ + expected
            + "`, found: `"@ + found + "`"@,
    }
}

impl LexError {
    /// The words that name the kind of the failure.
    pub fn description(&self) -> (s: &'static str)
        ensures
            s@ == lex_failure_kind(self@),
    {
        match self {
            LexError::Syntax => "Syntax error",
            LexError::InvalidToken(_, _) => "Invalid token",
        }
    }

    /// The text that reports the failure.
    pub fn message(&self) -> (s: String)
        ensures
            s@ == lex_failure_text(self@),
    {
        match self {
            LexError::Syntax => String::from_str(self.description()),
            LexError::InvalidToken(code_token, found_token) => {
                let mut s = String::from_str(self.description());
                s.append(" expected: `");
                s.append(code_token.as_str());
                s.append("`, found: `");
                s.append(found_token.as_str());
                s.append("`");
                s
            },
        }
    }
}

/// One piece of a text: a bracket, a name, a number, a prefix character, or
/// something that the parser passes over.
#[derive(Debug, PartialEq)]
pub enum Token {
    Oparen,
    Cparen,
    Identifier(String),
    Int(i64),
    Whitespace,
    Apostrophe,
    Backquote,
    Unquote,
    UnquoteSplicing,
    Comment,
}

/// The model of a token.
pub enum Lexeme {
    Oparen,
    Cparen,
    Identifier(Seq<char>),
    Int(int),
    Whitespace,
    Apostrophe,
    Backquote,
    Unquote,
    UnquoteSplicing,
    Comment,
}

impl View for Token {
    type V = Lexeme;

    open spec fn view(&self) -> Lexeme {
        match self {
            Token::Oparen => Lexeme::Oparen,
            Token::Cparen => Lexeme::Cparen,
            Token::Identifier(s) => Lexeme::Identifier(s@),
            Token::Int(n) => Lexeme::Int(*n as int),
            Token::Whitespace => Lexeme::Whitespace,
            Token::Apostrophe => Lexeme::Apostrophe,
            Token::Backquote => Lexeme::Backquote,
            Token::Unquote => Lexeme::Unquote,
            Token::UnquoteSplicing => Lexeme::UnquoteSplicing,
            Token::Comment => Lexeme::Comment,
        }
    }
}

/// The models of a sequence of tokens.
pub open spec fn lexemes_of(tokens: Seq<Token>) -> Seq<Lexeme> {
    Seq::new(tokens.len(), |i: int| tokens[i]@)
}

/// Whether a token carries no meaning for the parser.
pub open spec fn hidden(t: Lexeme) -> bool {
    t is Whitespace || t is Comment
}

/// How a token is shown: nothing for a hidden one, else its kind, with what
/// it holds in brackets.
pub open spec fn lexeme_text(t: Lexeme) -> Seq<char> {
    match t {
        Lexeme::Oparen => "Oparen"@,
        Lexeme::Cparen => "Cparen"@,
        Lexeme::Identifier(s) => "Identifier("@ + quoted_text(s) + ")"@,
        Lexeme::Int(n) => "Int("@ + decimal(n) + ")"@,
        Lexeme::Whitespace => Seq::empty(),
        Lexeme::Apostrophe => "Apostrophe"@,
        Lexeme::Backquote => "Backquote"@,
        Lexeme::Unquote => "Unquote"@,
        Lexeme::UnquoteSplicing => "UnquoteSplicing"@,
        Lexeme::Comment => Seq::empty(),
    }
}

/// The first `count` tokens as shown in a listing: each one that shows at all
/// is followed by a comma and a blank.
pub open spec fn listing(tokens: Seq<Lexeme>, count: nat) -> Seq<char>
    decreases count,
{
    if count == 0 || count > tokens.len() {
        Seq::empty()
    } else if lexeme_text(tokens[count - 1]).len() == 0 {
        listing(tokens, (count - 1) as nat)
    } else {
        listing(tokens, (count - 1) as nat) + lexeme_text(tokens[count - 1]) + ", "@
    }
}

impl Token {
    /// Whether the token carries no meaning for the parser: blank space and
    /// comments.
    pub fn is_hidden(&self) -> (r: bool)
        ensures
            r == hidden(self@),
    {
        match self {
            Token::Whitespace => true,
            Token::Comment => true,
            _ => false,
        }
    }

    /// How the token is shown: nothing for a hidden one.
    pub fn format(&self) -> (s: String)
        ensures
            s@ == lexeme_text(self@),
    {
        match self {
            Token::Oparen => String::from_str("Oparen"),
            Token::Cparen => String::from_str("Cparen"),
            Token::Identifier(name) => {
                let mut s = String::from_str("Identifier(");
                let q = quoted(name.as_str());
                s.append(q.as_str());
                s.append(")");
                s
            },
            Token::Int(n) => {
                let mut s = String::from_str("Int(");
                push_decimal(&mut s, *n);
                s.append(")");
                s
            },
            Token::Whitespace => String::new(),
            Token::Apostrophe => String::from_str("Apostrophe"),
            Token::Backquote => String::from_str("Backquote"),
            Token::Unquote => String::from_str("Unquote"),
            Token::UnquoteSplicing => String::from_str("UnquoteSplicing"),
            Token::Comment => String::new(),
        }
    }

}

impl Clone for Token {
    fn clone(&self) -> (t: Token)
        ensures
            t@ == self@,
    {
        match self {
            Token::Oparen => Token::Oparen,
            Token::Cparen => Token::Cparen,
            Token::Identifier(name) => Token::Identifier(name.clone()),
            Token::Int(n) => Token::Int(*n),
            Token::Whitespace => Token::Whitespace,
            Token::Apostrophe => Token::Apostrophe,
            Token::Backquote => Token::Backquote,
            Token::Unquote => Token::Unquote,
            Token::UnquoteSplicing => Token::UnquoteSplicing,
            Token::Comment => Token::Comment,
        }
    }
}

/// The tokens between square brackets, hidden ones left out.
pub fn format_tokens(tokens: &Vec<Token>) -> (output: String)
    ensures
        output@ == "["@ + listing(lexemes_of(tokens@), tokens@.len()) + "]"@,
{
    let mut output = String::new();
    output.push('[');
    let ghost opened = output@;
    let mut k: usize = 0;
    while k < tokens.len()
        invariant
            k <= tokens.len(),
            output@ =~= opened + listing(lexemes_of(tokens@), k as nat),
        decreases tokens.len() - k,
    {
        let formatted_token = tokens[k].format();
        if formatted_token.as_str().unicode_len() != 0 {
            output.append(formatted_token.as_str());
            output.append(", ");
        }
        k = k + 1;
    }
    output.push(']');
    proof {
        reveal_strlit("[");
        reveal_strlit("]");
        assert(output@ =~= "["@ + listing(lexemes_of(tokens@), tokens@.len()) + "]"@);
    }
    output
}

/// The first group, from position `from` on, that has a name and took part
/// in the match: its name and the text it matched.
pub open spec fn first_named(
    names: Seq<Option<Seq<char>>>,
    groups: Seq<Option<Seq<char>>>,
    from: nat,
) -> Option<(Seq<char>, Seq<char>)>
    decreases names.len() - from,
{
    if from >= names.len() || from >= groups.len() {
        None
    } else {
        match (names[from as int], groups[from as int]) {
            (Some(name), Some(found)) => Some((name, found)),
            _ => first_named(names, groups, from + 1),
        }
    }
}

/// The kind and the text of the token that a pattern finds in a text.
pub open spec fn single_token(pattern: Seq<char>, text: Seq<char>) -> Option<
    (Seq<char>, Seq<char>),
> {
    match captures_of(pattern, text) {
        None => None,
        Some(groups) => first_named(group_names_of(pattern), groups, 0),
    }
}

/// The number that the first `upto` characters spell in decimal digits, if
/// they are all digits and the number fits in 64 bits.
pub open spec fn number(s: Seq<char>, upto: nat) -> Option<int>
    decreases upto,
{
    if upto == 0 {
        Some(0)
    } else if upto > s.len() {
        None
    } else {
        match number(s, (upto - 1) as nat) {
            None => None,
            Some(v) => if '0' <= s[upto - 1] <= '9' && v * 10 + (s[upto - 1] as int - '0' as int)
                <= i64::MAX {
                Some(v * 10 + (s[upto - 1] as int - '0' as int))
            } else {
                None
            },
        }
    }
}

/// The number that a text of decimal digits spells.
pub open spec fn integer_value(s: Seq<char>) -> Option<int> {
    if s.len() == 0 {
        None
    } else {
        number(s, s.len())
    }
}

/// The token of a given kind and text.
pub open spec fn lexeme_of(name: Seq<char>, found: Seq<char>) -> Result<Lexeme, LexFailure> {
    if name == "whitespace"@ {
        Ok(Lexeme::Whitespace)
    } else if name == "oparen"@ {
        Ok(Lexeme::Oparen)
    } else if name == "cparen"@ {
        Ok(Lexeme::Cparen)
    } else if name == "obracket"@ {
        Ok(Lexeme::Oparen)
    } else if name == "cbracket"@ {
        Ok(Lexeme::Cparen)
    } else if name == "identifier"@ {
        Ok(Lexeme::Identifier(found))
    } else if name == "integer"@ {
        match integer_value(found) {
            Some(n) => Ok(Lexeme::Int(n)),
            None => Err(LexFailure::InvalidToken("integer"@, found)),
        }
    } else if name == "apostrophe"@ {
        Ok(Lexeme::Apostrophe)
    } else if name == "backquote"@ {
        Ok(Lexeme::Backquote)
    } else if name == "unquote"@ {
        Ok(Lexeme::Unquote)
    } else if name == "unquote_splicing"@ {
        Ok(Lexeme::UnquoteSplicing)
    } else if name == "comment"@ {
        Ok(Lexeme::Comment)
    } else {
        Err(LexFailure::Syntax)
    }
}

/// One token taken from the front of a text that is given as its UTF-8
/// bytes: the token of the given kind and text, and the bytes that are left
/// when as many bytes as the token's text has are taken away. A token of no
/// bytes, or one whose length does not end on a character of the text, is
/// a syntax error.
pub open spec fn cut(bytes: Seq<u8>, name: Seq<char>, found: Seq<char>) -> Result<
    (Lexeme, Seq<u8>),
    LexFailure,
> {
    let n = encode_utf8(found).len();
    if n == 0 || n > bytes.len() || !is_char_boundary(bytes, n as int) {
        Err(LexFailure::Syntax)
    } else {
        match lexeme_of(name, found) {
            Err(e) => Err(e),
            Ok(t) => Ok((t, bytes.subrange(n as int, bytes.len() as int))),
        }
    }
}

/// The tokens of a text given as its UTF-8 bytes, appended to `done`. At each
/// step the pattern is matched against what is left, and the token that it
/// finds is taken from the front.
pub open spec fn lex_bytes(pattern: Seq<char>, bytes: Seq<u8>, done: Seq<Lexeme>) -> Result<
    Seq<Lexeme>,
    LexFailure,
>
    decreases bytes.len(),
{
    if bytes.len() == 0 {
        Ok(done)
    } else {
        match single_token(pattern, decode_utf8(bytes)) {
            None => Err(LexFailure::Syntax),
            Some((name, found)) => match cut(bytes, name, found) {
                Err(e) => Err(e),
                Ok((t, rest)) => lex_bytes(pattern, rest, done.push(t)),
            },
        }
    }
}

/// The tokens of a text.
pub open spec fn lex_text(text: Seq<char>) -> Result<Seq<Lexeme>, LexFailure> {
    if pattern_accepted(TOKEN_PATTERN@) {
        lex_bytes(TOKEN_PATTERN@, encode_utf8(text), Seq::empty())
    } else {
        Err(LexFailure::Syntax)
    }
}

/// The model of what cutting a text into tokens returned.
pub open spec fn lexed(r: Result<Vec<Token>, LexError>) -> Result<Seq<Lexeme>, LexFailure> {
    match r {
        Ok(tokens) => Ok(lexemes_of(tokens@)),
        Err(e) => Err(e@),
    }
}

/// A compiled pattern together with the names of its groups.
pub struct TokenMatcher {
    re: Regex,
    names: Vec<Option<String>>,
}

impl TokenMatcher {
    /// The pattern text that the matcher was made from.
    pub closed spec fn pattern(&self) -> Seq<char> {
        pattern_of(self.re)
    }

    /// The names that the matcher holds are those of its pattern's groups.
    #[verifier::type_invariant]
    spec fn wf(self) -> bool {
        texts_of(self.names@) == group_names_of(pattern_of(self.re))
    }

    /// Compiles a pattern. Nothing where the pattern is refused.
    pub fn new(pattern: &str) -> (r: Option<TokenMatcher>)
        ensures
            r is Some <==> pattern_accepted(pattern@),
            r matches Some(m) ==> m.pattern() == pattern@,
    {
        match compile(pattern) {
            Ok(re) => {
                let names = group_names(&re);
                Some(TokenMatcher { re, names })
            },
            Err(_) => None,
        }
    }
}

/// The texts of a pair of strings, if there is one.
pub open spec fn pair_text(r: Option<(String, String)>) -> Option<(Seq<char>, Seq<char>)> {
    match r {
        Some(pair) => Some((pair.0@, pair.1@)),
        None => None,
    }
}

/// Of the groups of a match, the first that has a name and took part: its
/// name and the text it matched. `names` and `groups` list the pattern's
/// groups in the same order.
pub fn first_named_group(names: &Vec<Option<String>>, groups: &Vec<Option<String>>) -> (r: Option<
    (String, String),
>)
    ensures
        pair_text(r) == first_named(texts_of(names@), texts_of(groups@), 0),
{
    let mut k: usize = 0;
    while k < names.len() && k < groups.len()
        invariant
            first_named(texts_of(names@), texts_of(groups@), 0) == first_named(
                texts_of(names@),
                texts_of(groups@),
                k as nat,
            ),
        decreases names.len() - k,
    {
        assert(texts_of(names@)[k as int] == match names@[k as int] {
            Some(s) => Some(s@),
            None => None,
        });
        assert(texts_of(groups@)[k as int] == match groups@[k as int] {
            Some(s) => Some(s@),
            None => None,
        });
        match &names[k] {
            Some(name) => match &groups[k] {
                Some(token) => {
                    return Some((name.clone(), token.clone()));
                },
                None => {},
            },
            None => {},
        }
        k = k + 1;
    }
    None
}

/// Finds the token at the front of a text: the name of its kind and its text.
pub fn lex_single_token(matcher: &TokenMatcher, str: &str) -> (r: Result<(String, String), LexError>)
    ensures
        single_token(matcher.pattern(), str@) is None ==> r == Err::<(String, String), LexError>(
            LexError::Syntax,
        ),
        single_token(matcher.pattern(), str@) matches Some((name, found)) ==> (r matches Ok(pair)
            && pair.0@ == name && pair.1@ == found),
{
    proof {
        use_type_invariant(matcher);
    }
    match first_captures(&matcher.re, str) {
        Some(groups) => match first_named_group(&matcher.names, &groups) {
            Some(pair) => Ok(pair),
            None => Err(LexError::Syntax),
        },
        None => Err(LexError::Syntax),
    }
}

/// Reads a text of decimal digits as a number. Nothing where the text is
/// empty, holds anything but digits, or spells a number beyond 64 bits.
pub fn parse_integer(s: &str) -> (r: Option<i64>)
    ensures
        r matches Some(v) ==> integer_value(s@) == Some(v as int),
        r is None ==> integer_value(s@) is None,
{
    let n: usize = s.unicode_len();
    if n == 0 {
        return None;
    }
    let mut acc: i64 = 0;
    let mut k: usize = 0;
    while k < n
        invariant
            k <= n,
            n == s@.len(),
            0 <= acc,
            number(s@, k as nat) == Some(acc as int),
        decreases n - k,
    {
        let c: char = s.get_char(k);
        if !('0' <= c && c <= '9') {
            proof {
                lemma_number_stays_none(s@, (k + 1) as nat, n as nat);
            }
            return None;
        }
        let d: i64 = (c as u32 - '0' as u32) as i64;
        if acc > (0x7fff_ffff_ffff_ffffi64 - d) / 10 {
            proof {
                lemma_number_stays_none(s@, (k + 1) as nat, n as nat);
            }
            return None;
        }
        acc = acc * 10 + d;
        k = k + 1;
    }
    Some(acc)
}

/// Once a prefix spells no number, no longer prefix does.
proof fn lemma_number_stays_none(s: Seq<char>, at: nat, upto: nat)
    requires
        at <= upto,
        number(s, at) is None,
    ensures
        number(s, upto) is None,
    decreases upto,
{
    if upto > at {
        lemma_number_stays_none(s, at, (upto - 1) as nat);
    }
}

/// The token of a given kind and text.
pub fn token_for(name: &str, token: String) -> (r: Result<Token, LexError>)
    ensures
        lexeme_of(name@, token@) matches Ok(t) ==> (r matches Ok(found) && found@ == t),
        lexeme_of(name@, token@) matches Err(f) ==> (r matches Err(e) && e@ == f),
{
    if name.eq("whitespace") {
        Ok(Token::Whitespace)
    } else if name.eq("oparen") {
        Ok(Token::Oparen)
    } else if name.eq("cparen") {
        Ok(Token::Cparen)
    } else if name.eq("obracket") {
        Ok(Token::Oparen)
    } else if name.eq("cbracket") {
        Ok(Token::Cparen)
    } else if name.eq("identifier") {
        Ok(Token::Identifier(token))
    } else if name.eq("integer") {
        match parse_integer(token.as_str()) {
            Some(n) => Ok(Token::Int(n)),
            None => Err(LexError::InvalidToken(String::from_str("integer"), token)),
        }
    } else if name.eq("apostrophe") {
        Ok(Token::Apostrophe)
    } else if name.eq("backquote") {
        Ok(Token::Backquote)
    } else if name.eq("unquote") {
        Ok(Token::Unquote)
    } else if name.eq("unquote_splicing") {
        Ok(Token::UnquoteSplicing)
    } else if name.eq("comment") {
        Ok(Token::Comment)
    } else {
        Err(LexError::Syntax)
    }
}

/// Takes one token from the front of a text: gives the token of the given
/// kind and text, and what is left of the text behind it.
pub fn cut_token<'a>(code: &'a str, name: &str, token: String) -> (r: Result<
    (Token, &'a str),
    LexError,
>)
    ensures
        cut(code.spec_bytes(), name@, token@) matches Ok((t, rest)) ==> (r matches Ok(found)
            && found.0@ == t && found.1.spec_bytes() == rest),
        cut(code.spec_bytes(), name@, token@) matches Err(f) ==> (r matches Err(e) && e@ == f),
{
    let n: usize = token.as_str().as_bytes().len();
    if n == 0 || n > code.as_bytes().len() || !code.is_char_boundary(n) {
        return Err(LexError::Syntax);
    }
    let (_, rest) = code.split_at(n);
    match token_for(name, token) {
        Ok(t) => Ok((t, rest)),
        Err(e) => Err(e),
    }
}

/// Cuts a text into tokens.
pub fn lex(content: &str) -> (r: Result<Vec<Token>, LexError>)
    ensures
        lexed(r) == lex_text(content@),
{
    let matcher = match TokenMatcher::new(TOKEN_PATTERN) {
        Some(m) => m,
        None => {
            return Err(LexError::Syntax);
        },
    };
    let mut tokens: Vec<Token> = Vec::new();
    let mut code: &str = content;
    assert(lexemes_of(tokens@) =~= Seq::empty());
    while code.as_bytes().len() > 0
        invariant
            matcher.pattern() == TOKEN_PATTERN@,
            lex_text(content@) == lex_bytes(
                TOKEN_PATTERN@,
                code.spec_bytes(),
                lexemes_of(tokens@),
            ),
        decreases code.spec_bytes().len(),
    {
        proof {
            vstd::utf8::encode_utf8_decode_utf8(code@);
        }
        let (name, token) = match lex_single_token(&matcher, code) {
            Ok(pair) => pair,
            Err(e) => {
                return Err(e);
            },
        };
        let ghost before = tokens@;
        match cut_token(code, name.as_str(), token) {
            Ok((t, rest)) => {
                tokens.push(t);
                assert(lexemes_of(tokens@) =~= lexemes_of(before).push(t@));
                code = rest;
            },
            Err(e) => {
                return Err(e);
            },
        }
    }
    Ok(tokens)
}

} // verus!
