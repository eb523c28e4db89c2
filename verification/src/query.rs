//! The search expression language: lexer, recursive-descent parser, and the
//! set semantics of an expression over the files of the data directory.
//!
//! Grammar (lowest to highest precedence):
//!
//! ```text
//! expr := and ("OR" and)*
//! and  := not ("AND" not)*
//! not  := "NOT" atom | atom
//! atom := "(" expr ")" | kind ":" value
//! ```

use vstd::prelude::*;

use crate::lists::{
    contains_str, dedup, difference, intersect, push_unique, set_of, union, unique,
};
use crate::models::EntityKind;
use crate::text::{
    chars_of, concat, ends_with, lowercase, own, split_once, string_of, starts_with, str_ends_with,
    str_eq, str_split_once, str_starts_with, str_trim, string_of_all, to_lowercase,
    to_uppercase, trim, uppercase, views,
};

verus! {

broadcast use vstd::seq_lib::lemma_seq_contains_after_push;

// ---------------------------------------------------------------------------
// Tokens
// ---------------------------------------------------------------------------

/// A lexical token of a search expression.
#[derive(Debug, PartialEq, Eq)]
pub enum Token {
    And,
    Or,
    Not,
    LParen,
    RParen,
    /// `kind:value`, both lower-cased, e.g. `("tag", "rust")`.
    Filter(String, String),
}

/// Mathematical model of a token.
pub enum SToken {
    And,
    Or,
    Not,
    LParen,
    RParen,
    Filter(Seq<char>, Seq<char>),
}

impl View for Token {
    type V = SToken;

    open spec fn view(&self) -> SToken {
        match self {
            Token::And => SToken::And,
            Token::Or => SToken::Or,
            Token::Not => SToken::Not,
            Token::LParen => SToken::LParen,
            Token::RParen => SToken::RParen,
            Token::Filter(k, v) => SToken::Filter(k@, v@),
        }
    }
}

/// The models of a sequence of tokens.
pub open spec fn token_views(v: Seq<Token>) -> Seq<SToken> {
    v.map_values(|t: Token| t@)
}

impl Token {
    /// A copy of this token.
    pub fn duplicate(&self) -> (t: Token)
        ensures
            t@ == self@,
    {
        match self {
            Token::And => Token::And,
            Token::Or => Token::Or,
            Token::Not => Token::Not,
            Token::LParen => Token::LParen,
            Token::RParen => Token::RParen,
            Token::Filter(k, v) => Token::Filter(k.clone(), v.clone()),
        }
    }
}

/// Why an expression was rejected, or could not be evaluated.
#[derive(Debug, PartialEq, Eq)]
pub enum QueryError {
    /// A `key:value` word whose key is not `tag`, `link`, `type` or `id`
    /// (the key as written).
    UnknownFilter(String),
    /// A word that is neither an operator nor a `key:value` filter.
    UnexpectedWord(String),
    /// A `(` without its `)`.
    ExpectedClosingParen,
    /// A token, or the end of input, where a filter or `(` was expected.
    UnexpectedToken(Option<Token>),
    /// A complete expression followed by more tokens (the first of them).
    TrailingToken(Token),
    /// `type:` with a value other than note(s), bookmark(s) or task(s).
    UnknownType(String),
    /// A filter kind that cannot be evaluated at this place.
    UnknownFilterKind(String),
    /// No search result was supplied for a filter's pattern.
    MissingSearchResult(String),
}

/// Mathematical model of an error.
pub enum SQueryError {
    UnknownFilter(Seq<char>),
    UnexpectedWord(Seq<char>),
    ExpectedClosingParen,
    UnexpectedToken(Option<SToken>),
    TrailingToken(SToken),
    UnknownType(Seq<char>),
    UnknownFilterKind(Seq<char>),
    MissingSearchResult(Seq<char>),
}

impl View for QueryError {
    type V = SQueryError;

    open spec fn view(&self) -> SQueryError {
        match self {
            QueryError::UnknownFilter(k) => SQueryError::UnknownFilter(k@),
            QueryError::UnexpectedWord(w) => SQueryError::UnexpectedWord(w@),
            QueryError::ExpectedClosingParen => SQueryError::ExpectedClosingParen,
            QueryError::UnexpectedToken(t) => SQueryError::UnexpectedToken(
                match t {
                    Some(t) => Some(t@),
                    None => None,
                },
            ),
            QueryError::TrailingToken(t) => SQueryError::TrailingToken(t@),
            QueryError::UnknownType(v) => SQueryError::UnknownType(v@),
            QueryError::UnknownFilterKind(k) => SQueryError::UnknownFilterKind(k@),
            QueryError::MissingSearchResult(p) => SQueryError::MissingSearchResult(p@),
        }
    }
}

// ---------------------------------------------------------------------------
// Lexer
// ---------------------------------------------------------------------------

/// The filter kinds the language knows.
pub open spec fn is_filter_kind(k: Seq<char>) -> bool {
    k == "tag"@ || k == "link"@ || k == "type"@ || k == "id"@
}

/// The token a word stands for, given its upper-cased form and the
/// lower-cased key and value of its `key:value` split (when it has one).
pub open spec fn classify_with(
    word: Seq<char>,
    upper: Seq<char>,
    key_lower: Seq<char>,
    value_lower: Seq<char>,
) -> Result<SToken, SQueryError> {
    if upper == "AND"@ {
        Ok(SToken::And)
    } else if upper == "OR"@ {
        Ok(SToken::Or)
    } else if upper == "NOT"@ {
        Ok(SToken::Not)
    } else {
        match split_once(word, ':') {
            Some((k, _v)) => if is_filter_kind(key_lower) {
                Ok(SToken::Filter(key_lower, value_lower))
            } else {
                Err(SQueryError::UnknownFilter(k))
            },
            None => Err(SQueryError::UnexpectedWord(word)),
        }
    }
}

/// The token a word stands for.
pub open spec fn classify(word: Seq<char>) -> Result<SToken, SQueryError> {
    match split_once(word, ':') {
        Some((k, v)) => classify_with(word, uppercase(word), lowercase(k), lowercase(v)),
        None => classify_with(word, uppercase(word), Seq::empty(), Seq::empty()),
    }
}

/// A character that ends a word.
pub open spec fn ends_word(c: char) -> bool {
    c == ' ' || c == '(' || c == ')'
}

/// `ts` in front of the tokens of a lexing result.
pub open spec fn prepend(ts: Seq<SToken>, r: Result<Seq<SToken>, SQueryError>) -> Result<
    Seq<SToken>,
    SQueryError,
> {
    match r {
        Ok(rest) => Ok(ts + rest),
        Err(e) => Err(e),
    }
}

/// Tokens of `s`, where `word` is the word read so far.
pub open spec fn lex_acc(s: Seq<char>, word: Seq<char>) -> Result<Seq<SToken>, SQueryError>
    decreases s.len(), word.len(),
{
    if word.len() > 0 && (s.len() == 0 || ends_word(s[0])) {
        match classify(word) {
            Ok(t) => prepend(seq![t], lex_acc(s, Seq::empty())),
            Err(e) => Err(e),
        }
    } else if s.len() == 0 {
        Ok(Seq::empty())
    } else if word.len() > 0 {
        lex_acc(s.drop_first(), word.push(s[0]))
    } else if s[0] == ' ' || s[0] == '\t' {
        lex_acc(s.drop_first(), Seq::empty())
    } else if s[0] == '(' {
        prepend(seq![SToken::LParen], lex_acc(s.drop_first(), Seq::empty()))
    } else if s[0] == ')' {
        prepend(seq![SToken::RParen], lex_acc(s.drop_first(), Seq::empty()))
    } else {
        lex_acc(s.drop_first(), seq![s[0]])
    }
}

/// The tokens of a search expression: the input is trimmed, blanks and tabs
/// between tokens are skipped, `(` and `)` are tokens of their own, and every
/// other run of characters up to a blank or a parenthesis is a word.
pub open spec fn spec_lex(input: Seq<char>) -> Result<Seq<SToken>, SQueryError> {
    lex_acc(trim(input), Seq::empty())
}

/// Lemma: `prepend` composes.
proof fn lemma_prepend_prepend(a: Seq<SToken>, b: Seq<SToken>, r: Result<Seq<SToken>, SQueryError>)
    ensures
        prepend(a, prepend(b, r)) == prepend(a + b, r),
{
    match r {
        Ok(x) => {
            assert(a + (b + x) =~= (a + b) + x);
        },
        Err(_) => {},
    }
}

/// Lemma: an empty prefix changes nothing.
proof fn lemma_prepend_empty(r: Result<Seq<SToken>, SQueryError>)
    ensures
        prepend(Seq::empty(), r) == r,
{
    match r {
        Ok(x) => {
            assert(Seq::<SToken>::empty() + x =~= x);
        },
        Err(_) => {},
    }
}

/// The token a word stands for, given its upper-cased form and the
/// lower-cased key and value of its `key:value` split (empty when the word
/// has no `:`).
pub fn classify_word(word: &str, upper: &str, key_lower: &str, value_lower: &str) -> (r: Result<
    Token,
    QueryError,
>)
    ensures
        match r {
            Ok(t) => classify_with(word@, upper@, key_lower@, value_lower@) == Ok::<
                SToken,
                SQueryError,
            >(t@),
            Err(e) => classify_with(word@, upper@, key_lower@, value_lower@) == Err::<
                SToken,
                SQueryError,
            >(e@),
        },
{
    if str_eq(upper, "AND") {
        return Ok(Token::And);
    }
    if str_eq(upper, "OR") {
        return Ok(Token::Or);
    }
    if str_eq(upper, "NOT") {
        return Ok(Token::Not);
    }
    match str_split_once(word, ':') {
        Some((k, _v)) => {
            if str_eq(key_lower, "tag") || str_eq(key_lower, "link") || str_eq(key_lower, "type")
                || str_eq(key_lower, "id") {
                Ok(Token::Filter(own(key_lower), own(value_lower)))
            } else {
                Err(QueryError::UnknownFilter(k))
            }
        },
        None => Err(QueryError::UnexpectedWord(own(word))),
    }
}

/// The token of one word.
fn word_token(word: &Vec<char>) -> (r: Result<Token, QueryError>)
    ensures
        match r {
            Ok(t) => classify(word@) == Ok::<SToken, SQueryError>(t@),
            Err(e) => classify(word@) == Err::<SToken, SQueryError>(e@),
        },
{
    let w = string_of_all(word);
    let upper = to_uppercase(w.as_str());
    match str_split_once(w.as_str(), ':') {
        Some((k, v)) => {
            let kl = to_lowercase(k.as_str());
            let vl = to_lowercase(v.as_str());
            classify_word(w.as_str(), upper.as_str(), kl.as_str(), vl.as_str())
        },
        None => {
            let e = String::new();
            classify_word(w.as_str(), upper.as_str(), e.as_str(), e.as_str())
        },
    }
}

/// Splits a search expression into tokens.
pub fn lex(input: &str) -> (r: Result<Vec<Token>, QueryError>)
    ensures
        match r {
            Ok(ts) => spec_lex(input@) == Ok::<Seq<SToken>, SQueryError>(token_views(ts@)),
            Err(e) => spec_lex(input@) == Err::<Seq<SToken>, SQueryError>(e@),
        },
{
    let trimmed = str_trim(input);
    let v = chars_of(trimmed.as_str());
    let mut tokens: Vec<Token> = Vec::new();
    let mut word: Vec<char> = Vec::new();
    let mut i: usize = 0;
    assert(v@.skip(0) =~= v@);
    proof {
        lemma_prepend_empty(lex_acc(v@, Seq::empty()));
    }
    while i < v.len() || word.len() > 0
        invariant
            i <= v.len(),
            spec_lex(input@) == prepend(token_views(tokens@), lex_acc(v@.skip(i as int), word@)),
        decreases v.len() - i, word.len(),
    {
        let ghost before = token_views(tokens@);
        if word.len() > 0 && (i == v.len() || v[i] == ' ' || v[i] == '(' || v[i] == ')') {
            match word_token(&word) {
                Ok(t) => {
                    proof {
                        lemma_prepend_prepend(before, seq![t@], lex_acc(v@.skip(i as int), Seq::empty()));
                    }
                    tokens.push(t);
                    assert(token_views(tokens@) =~= before + seq![t@]);
                    word = Vec::new();
                    assert(word@ =~= Seq::<char>::empty());
                },
                Err(e) => {
                    return Err(e);
                },
            }
        } else {
            assert(v@.skip(i as int).drop_first() =~= v@.skip(i + 1));
            let c = v[i];
            if word.len() > 0 {
                word.push(c);
            } else if c == ' ' || c == '\t' {
            } else if c == '(' || c == ')' {
                let t = if c == '(' {
                    Token::LParen
                } else {
                    Token::RParen
                };
                proof {
                    lemma_prepend_prepend(before, seq![t@], lex_acc(v@.skip(i + 1), Seq::empty()));
                }
                tokens.push(t);
                assert(token_views(tokens@) =~= before + seq![t@]);
            } else {
                word.push(c);
                assert(word@ =~= seq![c]);
            }
            i = i + 1;
        }
    }
    assert(v@.skip(i as int) =~= Seq::<char>::empty());
    assert(token_views(tokens@) + Seq::<SToken>::empty() =~= token_views(tokens@));
    Ok(tokens)
}

// ---------------------------------------------------------------------------
// Syntax tree
// ---------------------------------------------------------------------------

/// A parsed search expression.
#[derive(Debug, PartialEq, Eq)]
pub enum Expr {
    And(Box<Expr>, Box<Expr>),
    Or(Box<Expr>, Box<Expr>),
    Not(Box<Expr>),
    Filter { kind: String, value: String },
}

/// Mathematical model of an expression.
pub enum SExpr {
    And(Box<SExpr>, Box<SExpr>),
    Or(Box<SExpr>, Box<SExpr>),
    Not(Box<SExpr>),
    Filter(Seq<char>, Seq<char>),
}

/// The model of an expression.
pub open spec fn expr_view(e: Expr) -> SExpr
    decreases e,
{
    match e {
        Expr::And(a, b) => SExpr::And(Box::new(expr_view(*a)), Box::new(expr_view(*b))),
        Expr::Or(a, b) => SExpr::Or(Box::new(expr_view(*a)), Box::new(expr_view(*b))),
        Expr::Not(a) => SExpr::Not(Box::new(expr_view(*a))),
        Expr::Filter { kind, value } => SExpr::Filter(kind@, value@),
    }
}

impl View for Expr {
    type V = SExpr;

    open spec fn view(&self) -> SExpr {
        expr_view(*self)
    }
}

// ---------------------------------------------------------------------------
// Parser, specification
// ---------------------------------------------------------------------------

/// Result of parsing a prefix of tokens: the expression and the position
/// after it.
pub type PResult = Result<(SExpr, int), SQueryError>;

/// The token at `pos`, if any.
pub open spec fn tok_at(t: Seq<SToken>, pos: int) -> Option<SToken> {
    if 0 <= pos < t.len() {
        Some(t[pos])
    } else {
        None
    }
}

/// `expr := and ("OR" and)*`, from `pos`.
pub open spec fn p_or(t: Seq<SToken>, pos: int) -> PResult
    decreases t.len() - pos, 3int,
{
    if pos < 0 || pos > t.len() {
        Err(SQueryError::UnexpectedToken(None))
    } else {
        match p_and(t, pos) {
            Ok((l, p1)) => if pos < p1 <= t.len() {
                or_tail(t, l, p1)
            } else {
                Err(SQueryError::UnexpectedToken(None))
            },
            Err(e) => Err(e),
        }
    }
}

/// `("OR" and)*` after `left`, from `pos`.
pub open spec fn or_tail(t: Seq<SToken>, left: SExpr, pos: int) -> PResult
    decreases t.len() - pos, 3int,
{
    if 0 <= pos < t.len() && t[pos] is Or {
        match p_and(t, pos + 1) {
            Ok((r, p2)) => if pos < p2 <= t.len() {
                or_tail(t, SExpr::Or(Box::new(left), Box::new(r)), p2)
            } else {
                Err(SQueryError::UnexpectedToken(None))
            },
            Err(e) => Err(e),
        }
    } else {
        Ok((left, pos))
    }
}

/// `and := not ("AND" not)*`, from `pos`.
pub open spec fn p_and(t: Seq<SToken>, pos: int) -> PResult
    decreases t.len() - pos, 2int,
{
    if pos < 0 || pos > t.len() {
        Err(SQueryError::UnexpectedToken(None))
    } else {
        match p_not(t, pos) {
            Ok((l, p1)) => if pos < p1 <= t.len() {
                and_tail(t, l, p1)
            } else {
                Err(SQueryError::UnexpectedToken(None))
            },
            Err(e) => Err(e),
        }
    }
}

/// `("AND" not)*` after `left`, from `pos`.
pub open spec fn and_tail(t: Seq<SToken>, left: SExpr, pos: int) -> PResult
    decreases t.len() - pos, 2int,
{
    if 0 <= pos < t.len() && t[pos] is And {
        match p_not(t, pos + 1) {
            Ok((r, p2)) => if pos < p2 <= t.len() {
                and_tail(t, SExpr::And(Box::new(left), Box::new(r)), p2)
            } else {
                Err(SQueryError::UnexpectedToken(None))
            },
            Err(e) => Err(e),
        }
    } else {
        Ok((left, pos))
    }
}

/// `not := "NOT" atom | atom`, from `pos`.
pub open spec fn p_not(t: Seq<SToken>, pos: int) -> PResult
    decreases t.len() - pos, 1int,
{
    if pos < 0 || pos > t.len() {
        Err(SQueryError::UnexpectedToken(None))
    } else if pos < t.len() && t[pos] is Not {
        match p_atom(t, pos + 1) {
            Ok((e, p)) => Ok((SExpr::Not(Box::new(e)), p)),
            Err(e) => Err(e),
        }
    } else {
        p_atom(t, pos)
    }
}

/// `atom := "(" expr ")" | filter`, from `pos`.
pub open spec fn p_atom(t: Seq<SToken>, pos: int) -> PResult
    decreases t.len() - pos, 0int,
{
    if pos < 0 || pos > t.len() {
        Err(SQueryError::UnexpectedToken(None))
    } else if pos < t.len() && t[pos] is LParen {
        match p_or(t, pos + 1) {
            Ok((e, p)) => if 0 <= p < t.len() && t[p] is RParen {
                Ok((e, p + 1))
            } else {
                Err(SQueryError::ExpectedClosingParen)
            },
            Err(e) => Err(e),
        }
    } else if pos < t.len() && t[pos] is Filter {
        Ok((SExpr::Filter(t[pos]->Filter_0, t[pos]->Filter_1), pos + 1))
    } else {
        Err(SQueryError::UnexpectedToken(tok_at(t, pos)))
    }
}

/// The expression a token sequence stands for: the whole sequence must be
/// one expression.
pub open spec fn spec_parse_tokens(t: Seq<SToken>) -> Result<SExpr, SQueryError> {
    match p_or(t, 0) {
        Ok((e, p)) => if p < t.len() {
            Err(SQueryError::TrailingToken(t[p]))
        } else {
            Ok(e)
        },
        Err(e) => Err(e),
    }
}

/// The expression a search string stands for.
pub open spec fn spec_parse(input: Seq<char>) -> Result<SExpr, SQueryError> {
    match spec_lex(input) {
        Ok(t) => spec_parse_tokens(t),
        Err(e) => Err(e),
    }
}

/// What a parse function returned agrees with the specification: on success
/// the expression and the new position, on failure the error.
pub open spec fn agrees(spec: PResult, r: Result<Expr, QueryError>, new_pos: int) -> bool {
    match r {
        Ok(e) => spec == Ok::<(SExpr, int), SQueryError>((e@, new_pos)),
        Err(e) => spec == Err::<(SExpr, int), SQueryError>(e@),
    }
}

// ---------------------------------------------------------------------------
// Parser, executable
// ---------------------------------------------------------------------------

/// Recursive-descent parser over a token list.
pub struct Parser {
    pub tokens: Vec<Token>,
    pub pos: usize,
}

impl Parser {
    /// The model of the token list.
    pub open spec fn toks(&self) -> Seq<SToken> {
        token_views(self.tokens@)
    }

    /// A parser at the start of `tokens`.
    pub fn new(tokens: Vec<Token>) -> (p: Parser)
        ensures
            p.tokens@ == tokens@,
            p.pos == 0,
    {
        Parser { tokens, pos: 0 }
    }

    /// The current token.
    pub fn peek(&self) -> (t: Option<&Token>)
        ensures
            match t {
                Some(t) => self.pos < self.tokens.len() && *t == self.tokens@[self.pos as int],
                None => self.pos >= self.tokens.len(),
            },
    {
        if self.pos < self.tokens.len() {
            Some(&self.tokens[self.pos])
        } else {
            None
        }
    }

    /// The current token, and a step past it.
    pub fn consume(&mut self) -> (t: Option<Token>)
        requires
            old(self).pos <= old(self).tokens.len(),
        ensures
            final(self).tokens@ == old(self).tokens@,
            match t {
                Some(t) => old(self).pos < old(self).tokens.len() && t@ == old(
                    self,
                ).tokens@[old(self).pos as int]@ && final(self).pos == old(self).pos + 1,
                None => old(self).pos == old(self).tokens.len() && final(self).pos == old(
                    self,
                ).pos,
            },
    {
        if self.pos < self.tokens.len() {
            let t = self.tokens[self.pos].duplicate();
            self.pos = self.pos + 1;
            Some(t)
        } else {
            None
        }
    }

    /// `expr`.
    pub fn parse_expr(&mut self) -> (r: Result<Expr, QueryError>)
        requires
            old(self).pos <= old(self).tokens.len(),
        ensures
            final(self).tokens@ == old(self).tokens@,
            agrees(p_or(old(self).toks(), old(self).pos as int), r, final(self).pos as int),
            r is Ok ==> old(self).pos < final(self).pos <= final(self).tokens.len(),
        decreases old(self).tokens.len() - old(self).pos, 4int,
    {
        self.parse_or()
    }

    /// `and ("OR" and)*`.
    pub fn parse_or(&mut self) -> (r: Result<Expr, QueryError>)
        requires
            old(self).pos <= old(self).tokens.len(),
        ensures
            final(self).tokens@ == old(self).tokens@,
            agrees(p_or(old(self).toks(), old(self).pos as int), r, final(self).pos as int),
            r is Ok ==> old(self).pos < final(self).pos <= final(self).tokens.len(),
        decreases old(self).tokens.len() - old(self).pos, 3int,
    {
        let ghost t = self.toks();
        let ghost start = self.pos as int;
        let mut left = match self.parse_and() {
            Ok(e) => e,
            Err(e) => return Err(e),
        };
        assert(p_or(t, start) == or_tail(t, left@, self.pos as int));
        loop
            invariant
                self.tokens@ == old(self).tokens@,
                t == self.toks(),
                t == old(self).toks(),
                start == old(self).pos,
                start < self.pos <= self.tokens.len(),
                p_or(t, start) == or_tail(t, left@, self.pos as int),
            decreases self.tokens.len() - self.pos,
        {
            match self.peek() {
                Some(Token::Or) => {},
                _ => {
                    return Ok(left);
                },
            }
            let ghost at = self.pos as int;
            self.consume();
            let right = match self.parse_and() {
                Ok(e) => e,
                Err(e) => return Err(e),
            };
            left = Expr::Or(Box::new(left), Box::new(right));
        }
    }

    /// `not ("AND" not)*`.
    pub fn parse_and(&mut self) -> (r: Result<Expr, QueryError>)
        requires
            old(self).pos <= old(self).tokens.len(),
        ensures
            final(self).tokens@ == old(self).tokens@,
            agrees(p_and(old(self).toks(), old(self).pos as int), r, final(self).pos as int),
            r is Ok ==> old(self).pos < final(self).pos <= final(self).tokens.len(),
        decreases old(self).tokens.len() - old(self).pos, 2int,
    {
        let ghost t = self.toks();
        let ghost start = self.pos as int;
        let mut left = match self.parse_not() {
            Ok(e) => e,
            Err(e) => return Err(e),
        };
        assert(p_and(t, start) == and_tail(t, left@, self.pos as int));
        loop
            invariant
                self.tokens@ == old(self).tokens@,
                t == self.toks(),
                t == old(self).toks(),
                start == old(self).pos,
                start < self.pos <= self.tokens.len(),
                p_and(t, start) == and_tail(t, left@, self.pos as int),
            decreases self.tokens.len() - self.pos,
        {
            match self.peek() {
                Some(Token::And) => {},
                _ => {
                    return Ok(left);
                },
            }
            self.consume();
            let right = match self.parse_not() {
                Ok(e) => e,
                Err(e) => return Err(e),
            };
            left = Expr::And(Box::new(left), Box::new(right));
        }
    }

    /// `"NOT" atom | atom`.
    pub fn parse_not(&mut self) -> (r: Result<Expr, QueryError>)
        requires
            old(self).pos <= old(self).tokens.len(),
        ensures
            final(self).tokens@ == old(self).tokens@,
            agrees(p_not(old(self).toks(), old(self).pos as int), r, final(self).pos as int),
            r is Ok ==> old(self).pos < final(self).pos <= final(self).tokens.len(),
        decreases old(self).tokens.len() - old(self).pos, 1int,
    {
        match self.peek() {
            Some(Token::Not) => {
                self.consume();
                let e = match self.parse_atom() {
                    Ok(e) => e,
                    Err(e) => return Err(e),
                };
                Ok(Expr::Not(Box::new(e)))
            },
            _ => self.parse_atom(),
        }
    }

    /// `"(" expr ")" | filter`.
    pub fn parse_atom(&mut self) -> (r: Result<Expr, QueryError>)
        requires
            old(self).pos <= old(self).tokens.len(),
        ensures
            final(self).tokens@ == old(self).tokens@,
            agrees(p_atom(old(self).toks(), old(self).pos as int), r, final(self).pos as int),
            r is Ok ==> old(self).pos < final(self).pos <= final(self).tokens.len(),
        decreases old(self).tokens.len() - old(self).pos, 0int,
    {
        let ghost t = self.toks();
        let ghost start = self.pos as int;
        match self.peek() {
            Some(Token::LParen) => {
                self.consume();
                let e = match self.parse_expr() {
                    Ok(e) => e,
                    Err(e) => return Err(e),
                };
                match self.consume() {
                    Some(Token::RParen) => Ok(e),
                    _ => Err(QueryError::ExpectedClosingParen),
                }
            },
            Some(Token::Filter(_, _)) => {
                match self.consume() {
                    Some(Token::Filter(kind, value)) => Ok(Expr::Filter { kind, value }),
                    _ => Err(QueryError::UnexpectedToken(None)),
                }
            },
            other => {
                let o = match other {
                    Some(t) => Some(t.duplicate()),
                    None => None,
                };
                Err(QueryError::UnexpectedToken(o))
            },
        }
    }
}

/// Parses a search expression.
pub fn parse(input: &str) -> (r: Result<Expr, QueryError>)
    ensures
        match r {
            Ok(e) => spec_parse(input@) == Ok::<SExpr, SQueryError>(e@),
            Err(e) => spec_parse(input@) == Err::<SExpr, SQueryError>(e@),
        },
{
    let tokens = match lex(input) {
        Ok(t) => t,
        Err(e) => return Err(e),
    };
    let mut parser = Parser::new(tokens);
    let expr = match parser.parse_expr() {
        Ok(e) => e,
        Err(e) => return Err(e),
    };
    if parser.pos < parser.tokens.len() {
        return Err(QueryError::TrailingToken(parser.tokens[parser.pos].duplicate()));
    }
    Ok(expr)
}

// ---------------------------------------------------------------------------
// Evaluation
// ---------------------------------------------------------------------------

/// The files that a ripgrep pattern matched.
pub struct SearchMatch {
    /// The pattern, as `filter_pattern` builds it.
    pub pattern: String,
    /// Paths, relative to the data directory, of the files it matched.
    pub files: Vec<String>,
}

/// What an expression is evaluated against: the entity files of the data
/// directory and what ripgrep found for each `tag:` and `link:` pattern.
pub struct SearchIndex {
    /// Relative paths (`notes/<id>.md`, `bookmarks/<id>.md`,
    /// `tasks/<id>.md`) of every entity file.
    pub all_files: Vec<String>,
    /// Search results, one per pattern.
    pub matches: Vec<SearchMatch>,
}

/// The search results of an index, as (pattern, set of files).
pub open spec fn match_views(ms: Seq<SearchMatch>) -> Seq<(Seq<char>, Set<Seq<char>>)> {
    ms.map_values(|m: SearchMatch| (m.pattern@, set_of(m.files@)))
}

/// The files found for `pattern`: those of its first entry.
pub open spec fn lookup(ms: Seq<(Seq<char>, Set<Seq<char>>)>, pattern: Seq<char>) -> Option<
    Set<Seq<char>>,
>
    decreases ms.len(),
{
    if ms.len() == 0 {
        None
    } else if ms[0].0 == pattern {
        Some(ms[0].1)
    } else {
        lookup(ms.drop_first(), pattern)
    }
}

/// The ripgrep pattern for a `tag:` or `link:` filter. A tag filter matches
/// a `tags:` frontmatter line holding `#value` as a whole word; a link filter
/// matches a `links:` line holding a link whose relationship is `value`.
pub open spec fn spec_filter_pattern(kind: Seq<char>, value: Seq<char>) -> Option<Seq<char>> {
    if kind == "tag"@ {
        Some("^tags:.*(?:[\\s'\"]|^)#"@ + value + "(?:[\\s'\"]|$)"@)
    } else if kind == "link"@ {
        Some("^links:.*(?:[\\s'\"]|^)"@ + value + ":"@)
    } else {
        None
    }
}

/// The ripgrep pattern for a filter, if its kind is searched with ripgrep.
pub fn filter_pattern(kind: &str, value: &str) -> (r: Option<String>)
    ensures
        match r {
            Some(p) => spec_filter_pattern(kind@, value@) == Some(p@),
            None => spec_filter_pattern(kind@, value@) is None,
        },
{
    if str_eq(kind, "tag") {
        let a = concat("^tags:.*(?:[\\s'\"]|^)#", value);
        Some(concat(a.as_str(), "(?:[\\s'\"]|$)"))
    } else if str_eq(kind, "link") {
        let a = concat("^links:.*(?:[\\s'\"]|^)", value);
        Some(concat(a.as_str(), ":"))
    } else {
        None
    }
}

/// The entity directory a `type:` value names.
pub open spec fn spec_type_subdir(value: Seq<char>) -> Option<Seq<char>> {
    if value == "note"@ || value == "notes"@ {
        Some("notes"@)
    } else if value == "bookmark"@ || value == "bookmarks"@ {
        Some("bookmarks"@)
    } else if value == "task"@ || value == "tasks"@ {
        Some("tasks"@)
    } else {
        None
    }
}

/// The entity directory a `type:` value names.
pub fn type_subdir(value: &str) -> (r: Option<String>)
    ensures
        match r {
            Some(d) => spec_type_subdir(value@) == Some(d@),
            None => spec_type_subdir(value@) is None,
        },
{
    if str_eq(value, "note") || str_eq(value, "notes") {
        Some(own("notes"))
    } else if str_eq(value, "bookmark") || str_eq(value, "bookmarks") {
        Some(own("bookmarks"))
    } else if str_eq(value, "task") || str_eq(value, "tasks") {
        Some(own("tasks"))
    } else {
        None
    }
}

/// The file name of a relative path `dir/name`.
pub open spec fn file_name_of(path: Seq<char>) -> Seq<char> {
    match split_once(path, '/') {
        Some((_d, n)) => n,
        None => path,
    }
}

/// Files of `all` inside directory `dir`.
pub open spec fn files_in(all: Set<Seq<char>>, dir: Seq<char>) -> Set<Seq<char>> {
    all.filter(|f: Seq<char>| starts_with(f, dir + "/"@))
}

/// Files of `all` whose name starts with `prefix` and ends with `.md`.
pub open spec fn files_with_id_prefix(all: Set<Seq<char>>, prefix: Seq<char>) -> Set<Seq<char>> {
    all.filter(
        |f: Seq<char>| starts_with(file_name_of(f), prefix) && ends_with(file_name_of(f), ".md"@),
    )
}

/// The files a single filter selects.
pub open spec fn eval_filter(
    kind: Seq<char>,
    value: Seq<char>,
    all: Set<Seq<char>>,
    ms: Seq<(Seq<char>, Set<Seq<char>>)>,
) -> Result<Set<Seq<char>>, SQueryError> {
    if kind == "tag"@ || kind == "link"@ {
        let p = spec_filter_pattern(kind, value).unwrap();
        match lookup(ms, p) {
            Some(found) => Ok(found),
            None => Err(SQueryError::MissingSearchResult(p)),
        }
    } else if kind == "type"@ {
        match spec_type_subdir(value) {
            Some(d) => Ok(files_in(all, d)),
            None => Err(SQueryError::UnknownType(value)),
        }
    } else if kind == "id"@ {
        Ok(files_with_id_prefix(all, value))
    } else {
        Err(SQueryError::UnknownFilterKind(kind))
    }
}

/// The set of files an expression selects. `OR` is union, `AND`
/// intersection, `NOT` the complement within all entity files. When the
/// left side of `AND` selects nothing, its right side is not evaluated; when
/// it selects something, a filter on the right must be `tag:`, `link:` or
/// `type:`.
pub open spec fn spec_eval(
    e: SExpr,
    all: Set<Seq<char>>,
    ms: Seq<(Seq<char>, Set<Seq<char>>)>,
) -> Result<Set<Seq<char>>, SQueryError>
    decreases e,
{
    match e {
        SExpr::Filter(k, v) => eval_filter(k, v, all, ms),
        SExpr::And(a, b) => match spec_eval(*a, all, ms) {
            Err(x) => Err(x),
            Ok(l) => if l == Set::<Seq<char>>::empty() {
                Ok(l)
            } else {
                match *b {
                    SExpr::Filter(k, v) => if k == "tag"@ || k == "link"@ || k == "type"@ {
                        match eval_filter(k, v, all, ms) {
                            Ok(r) => Ok(l.intersect(r)),
                            Err(x) => Err(x),
                        }
                    } else {
                        Err(SQueryError::UnknownFilterKind(k))
                    },
                    _ => match spec_eval(*b, all, ms) {
                        Ok(r) => Ok(l.intersect(r)),
                        Err(x) => Err(x),
                    },
                }
            },
        },
        SExpr::Or(a, b) => match spec_eval(*a, all, ms) {
            Err(x) => Err(x),
            Ok(l) => match spec_eval(*b, all, ms) {
                Ok(r) => Ok(l.union(r)),
                Err(x) => Err(x),
            },
        },
        SExpr::Not(a) => match spec_eval(*a, all, ms) {
            Ok(x) => Ok(all.difference(x)),
            Err(x) => Err(x),
        },
    }
}

/// The files found for `pattern`.
fn lookup_exec(ms: &Vec<SearchMatch>, pattern: &str) -> (r: Option<Vec<String>>)
    ensures
        match r {
            Some(v) => lookup(match_views(ms@), pattern@) == Some(set_of(v@)) && unique(v@),
            None => lookup(match_views(ms@), pattern@) is None,
        },
{
    let mut i: usize = 0;
    assert(match_views(ms@).skip(0) =~= match_views(ms@));
    while i < ms.len()
        invariant
            i <= ms.len(),
            lookup(match_views(ms@), pattern@) == lookup(match_views(ms@).skip(i as int), pattern@),
        decreases ms.len() - i,
    {
        assert(match_views(ms@).skip(i as int).drop_first() =~= match_views(ms@).skip(i + 1));
        if str_eq(ms[i].pattern.as_str(), pattern) {
            return Some(dedup(&ms[i].files));
        }
        i = i + 1;
    }
    None
}

/// Files of `all` inside directory `dir`.
fn select_in_dir(all: &Vec<String>, dir: &str) -> (r: Vec<String>)
    ensures
        unique(r@),
        set_of(r@) == files_in(set_of(all@), dir@),
{
    let prefix = concat(dir, "/");
    let mut out: Vec<String> = Vec::new();
    let mut i: usize = 0;
    while i < all.len()
        invariant
            i <= all.len(),
            prefix@ == dir@ + "/"@,
            unique(out@),
            forall|x: Seq<char>| #[trigger]
                views(out@).contains(x) <==> views(all@).take(i as int).contains(x) && starts_with(
                    x,
                    prefix@,
                ),
        decreases all.len() - i,
    {
        let ghost prev = views(all@).take(i as int);
        assert(views(all@).take(i + 1) =~= prev.push(all@[i as int]@));
        if str_starts_with(all[i].as_str(), prefix.as_str()) {
            push_unique(&mut out, all[i].as_str());
        }
        i = i + 1;
    }
    assert(views(all@).take(all.len() as int) =~= views(all@));
    assert(set_of(out@) =~= files_in(set_of(all@), dir@));
    out
}

/// The file name of a relative path `dir/name`.
fn file_name_exec(path: &str) -> (r: String)
    ensures
        r@ == file_name_of(path@),
{
    match str_split_once(path, '/') {
        Some((_d, n)) => n,
        None => own(path),
    }
}

/// Files of `all` whose name starts with `prefix` and ends with `.md`.
fn select_id_prefix(all: &Vec<String>, prefix: &str) -> (r: Vec<String>)
    ensures
        unique(r@),
        set_of(r@) == files_with_id_prefix(set_of(all@), prefix@),
{
    let mut out: Vec<String> = Vec::new();
    let mut i: usize = 0;
    while i < all.len()
        invariant
            i <= all.len(),
            unique(out@),
            forall|x: Seq<char>| #[trigger]
                views(out@).contains(x) <==> views(all@).take(i as int).contains(x) && starts_with(
                    file_name_of(x),
                    prefix@,
                ) && ends_with(file_name_of(x), ".md"@),
        decreases all.len() - i,
    {
        let ghost prev = views(all@).take(i as int);
        assert(views(all@).take(i + 1) =~= prev.push(all@[i as int]@));
        let name = file_name_exec(all[i].as_str());
        if str_starts_with(name.as_str(), prefix) && str_ends_with(name.as_str(), ".md") {
            push_unique(&mut out, all[i].as_str());
        }
        i = i + 1;
    }
    assert(views(all@).take(all.len() as int) =~= views(all@));
    assert(set_of(out@) =~= files_with_id_prefix(set_of(all@), prefix@));
    out
}

/// The files a single filter selects.
fn eval_filter_exec(kind: &str, value: &str, index: &SearchIndex) -> (r: Result<
    Vec<String>,
    QueryError,
>)
    ensures
        match r {
            Ok(v) => unique(v@) && eval_filter(
                kind@,
                value@,
                set_of(index.all_files@),
                match_views(index.matches@),
            ) == Ok::<Set<Seq<char>>, SQueryError>(set_of(v@)),
            Err(e) => eval_filter(
                kind@,
                value@,
                set_of(index.all_files@),
                match_views(index.matches@),
            ) == Err::<Set<Seq<char>>, SQueryError>(e@),
        },
{
    match filter_pattern(kind, value) {
        Some(p) => {
            match lookup_exec(&index.matches, p.as_str()) {
                Some(found) => Ok(found),
                None => Err(QueryError::MissingSearchResult(p)),
            }
        },
        None => {
            if str_eq(kind, "type") {
                match type_subdir(value) {
                    Some(d) => Ok(select_in_dir(&index.all_files, d.as_str())),
                    None => Err(QueryError::UnknownType(own(value))),
                }
            } else if str_eq(kind, "id") {
                Ok(select_id_prefix(&index.all_files, value))
            } else {
                Err(QueryError::UnknownFilterKind(own(kind)))
            }
        },
    }
}

/// Evaluates an expression to the set of files it selects.
pub fn eval(expr: &Expr, index: &SearchIndex) -> (r: Result<Vec<String>, QueryError>)
    ensures
        match r {
            Ok(v) => unique(v@) && spec_eval(
                expr@,
                set_of(index.all_files@),
                match_views(index.matches@),
            ) == Ok::<Set<Seq<char>>, SQueryError>(set_of(v@)),
            Err(e) => spec_eval(expr@, set_of(index.all_files@), match_views(index.matches@))
                == Err::<Set<Seq<char>>, SQueryError>(e@),
        },
    decreases expr,
{
    match expr {
        Expr::Filter { kind, value } => eval_filter_exec(kind.as_str(), value.as_str(), index),
        Expr::And(a, b) => {
            let left = match eval(a, index) {
                Ok(l) => l,
                Err(e) => return Err(e),
            };
            if left.len() == 0 {
                assert(set_of(left@) =~= Set::<Seq<char>>::empty());
                return Ok(left);
            }
            assert(views(left@)[0] == left@[0]@);
            assert(set_of(left@).contains(left@[0]@));
            match &**b {
                Expr::Filter { kind, value } => {
                    assert(expr_view(**b) == SExpr::Filter(kind@, value@));
                    if str_eq(kind.as_str(), "tag") || str_eq(kind.as_str(), "link") || str_eq(
                        kind.as_str(),
                        "type",
                    ) {
                        match eval_filter_exec(kind.as_str(), value.as_str(), index) {
                            Ok(r) => Ok(intersect(&left, &r)),
                            Err(e) => Err(e),
                        }
                    } else {
                        Err(QueryError::UnknownFilterKind(kind.clone()))
                    }
                },
                _ => match eval(b, index) {
                    Ok(r) => {
                        assert(!(expr_view(**b) is Filter));
                        Ok(intersect(&left, &r))
                    },
                    Err(e) => Err(e),
                },
            }
        },
        Expr::Or(a, b) => {
            let left = match eval(a, index) {
                Ok(l) => l,
                Err(e) => return Err(e),
            };
            let right = match eval(b, index) {
                Ok(r) => r,
                Err(e) => return Err(e),
            };
            Ok(union(&left, &right))
        },
        Expr::Not(a) => {
            let inner = match eval(a, index) {
                Ok(x) => x,
                Err(e) => return Err(e),
            };
            Ok(difference(&dedup(&index.all_files), &inner))
        },
    }
}

/// The ripgrep patterns of the `tag:` and `link:` filters of an expression,
/// left to right.
pub open spec fn spec_patterns(e: SExpr) -> Seq<Seq<char>>
    decreases e,
{
    match e {
        SExpr::Filter(k, v) => match spec_filter_pattern(k, v) {
            Some(p) => seq![p],
            None => Seq::empty(),
        },
        SExpr::And(a, b) => spec_patterns(*a) + spec_patterns(*b),
        SExpr::Or(a, b) => spec_patterns(*a) + spec_patterns(*b),
        SExpr::Not(a) => spec_patterns(*a),
    }
}

/// The ripgrep patterns an expression needs searched before it can be
/// evaluated.
pub fn search_patterns(expr: &Expr) -> (r: Vec<String>)
    ensures
        views(r@) == spec_patterns(expr@),
    decreases expr,
{
    match expr {
        Expr::Filter { kind, value } => {
            let mut r: Vec<String> = Vec::new();
            match filter_pattern(kind.as_str(), value.as_str()) {
                Some(p) => {
                    r.push(p);
                    assert(views(r@) =~= seq![p@]);
                },
                None => {
                    assert(views(r@) =~= Seq::<Seq<char>>::empty());
                },
            }
            r
        },
        Expr::And(a, b) | Expr::Or(a, b) => {
            let mut l = search_patterns(a);
            let mut r = search_patterns(b);
            let ghost lv = views(l@);
            let ghost rv = views(r@);
            l.append(&mut r);
            assert(views(l@) =~= lv + rv);
            l
        },
        Expr::Not(a) => search_patterns(a),
    }
}

/// The files a search expression selects: `spec_parse`, then `spec_eval`.
pub open spec fn spec_find_files(
    input: Seq<char>,
    all: Set<Seq<char>>,
    ms: Seq<(Seq<char>, Set<Seq<char>>)>,
) -> Result<Set<Seq<char>>, SQueryError> {
    match spec_parse(input) {
        Ok(e) => spec_eval(e, all, ms),
        Err(x) => Err(x),
    }
}

/// Parses a search expression and evaluates it against `index`.
pub fn find_files(expr_str: &str, index: &SearchIndex) -> (r: Result<Vec<String>, QueryError>)
    ensures
        match r {
            Ok(v) => unique(v@) && spec_find_files(
                expr_str@,
                set_of(index.all_files@),
                match_views(index.matches@),
            ) == Ok::<Set<Seq<char>>, SQueryError>(set_of(v@)),
            Err(e) => spec_find_files(
                expr_str@,
                set_of(index.all_files@),
                match_views(index.matches@),
            ) == Err::<Set<Seq<char>>, SQueryError>(e@),
        },
{
    let expr = match parse(expr_str) {
        Ok(e) => e,
        Err(e) => return Err(e),
    };
    eval(&expr, index)
}


// ---------------------------------------------------------------------------
// Laws
// ---------------------------------------------------------------------------

/// The expression of a filter token.
pub open spec fn filter_expr(t: SToken) -> SExpr {
    SExpr::Filter(t->Filter_0, t->Filter_1)
}

/// Law: `AND` binds more tightly than `OR` on either side: `a OR b AND c`
/// reads as `a OR (b AND c)` and `a AND b OR c` as `(a AND b) OR c`, for
/// any three filters.
pub proof fn law_and_binds_tighter(a: SToken, b: SToken, c: SToken)
    requires
        a is Filter,
        b is Filter,
        c is Filter,
    ensures
        spec_parse_tokens(seq![a, SToken::Or, b, SToken::And, c]) == Ok::<SExpr, SQueryError>(
            SExpr::Or(
                Box::new(filter_expr(a)),
                Box::new(SExpr::And(Box::new(filter_expr(b)), Box::new(filter_expr(c)))),
            ),
        ),
        spec_parse_tokens(seq![a, SToken::And, b, SToken::Or, c]) == Ok::<SExpr, SQueryError>(
            SExpr::Or(
                Box::new(SExpr::And(Box::new(filter_expr(a)), Box::new(filter_expr(b)))),
                Box::new(filter_expr(c)),
            ),
        ),
{
    let t = seq![a, SToken::Or, b, SToken::And, c];
    let fa = filter_expr(a);
    let fb = filter_expr(b);
    let fc = filter_expr(c);
    assert(p_atom(t, 0) == Ok::<(SExpr, int), SQueryError>((fa, 1)));
    assert(p_not(t, 0) == Ok::<(SExpr, int), SQueryError>((fa, 1)));
    assert(and_tail(t, fa, 1) == Ok::<(SExpr, int), SQueryError>((fa, 1)));
    assert(p_and(t, 0) == Ok::<(SExpr, int), SQueryError>((fa, 1)));
    assert(p_atom(t, 2) == Ok::<(SExpr, int), SQueryError>((fb, 3)));
    assert(p_not(t, 2) == Ok::<(SExpr, int), SQueryError>((fb, 3)));
    assert(p_atom(t, 4) == Ok::<(SExpr, int), SQueryError>((fc, 5)));
    assert(p_not(t, 4) == Ok::<(SExpr, int), SQueryError>((fc, 5)));
    let bc = SExpr::And(Box::new(fb), Box::new(fc));
    assert(and_tail(t, bc, 5) == Ok::<(SExpr, int), SQueryError>((bc, 5)));
    assert(and_tail(t, fb, 3) == Ok::<(SExpr, int), SQueryError>((bc, 5)));
    assert(p_and(t, 2) == Ok::<(SExpr, int), SQueryError>((bc, 5)));
    let abc = SExpr::Or(Box::new(fa), Box::new(bc));
    assert(or_tail(t, abc, 5) == Ok::<(SExpr, int), SQueryError>((abc, 5)));
    assert(or_tail(t, fa, 1) == Ok::<(SExpr, int), SQueryError>((abc, 5)));
    assert(p_or(t, 0) == Ok::<(SExpr, int), SQueryError>((abc, 5)));

    let u = seq![a, SToken::And, b, SToken::Or, c];
    assert(p_atom(u, 0) == Ok::<(SExpr, int), SQueryError>((fa, 1)));
    assert(p_not(u, 0) == Ok::<(SExpr, int), SQueryError>((fa, 1)));
    assert(p_atom(u, 2) == Ok::<(SExpr, int), SQueryError>((fb, 3)));
    assert(p_not(u, 2) == Ok::<(SExpr, int), SQueryError>((fb, 3)));
    let ab = SExpr::And(Box::new(fa), Box::new(fb));
    assert(and_tail(u, ab, 3) == Ok::<(SExpr, int), SQueryError>((ab, 3)));
    assert(and_tail(u, fa, 1) == Ok::<(SExpr, int), SQueryError>((ab, 3)));
    assert(p_and(u, 0) == Ok::<(SExpr, int), SQueryError>((ab, 3)));
    assert(p_atom(u, 4) == Ok::<(SExpr, int), SQueryError>((fc, 5)));
    assert(p_not(u, 4) == Ok::<(SExpr, int), SQueryError>((fc, 5)));
    assert(and_tail(u, fc, 5) == Ok::<(SExpr, int), SQueryError>((fc, 5)));
    assert(p_and(u, 4) == Ok::<(SExpr, int), SQueryError>((fc, 5)));
    let abc2 = SExpr::Or(Box::new(ab), Box::new(fc));
    assert(or_tail(u, abc2, 5) == Ok::<(SExpr, int), SQueryError>((abc2, 5)));
    assert(or_tail(u, ab, 3) == Ok::<(SExpr, int), SQueryError>((abc2, 5)));
    assert(p_or(u, 0) == Ok::<(SExpr, int), SQueryError>((abc2, 5)));
}

/// Law: `OR` selects the union of what its sides select, and `NOT` the
/// entity files its operand does not select.
pub proof fn law_or_union_not_complement(
    a: SExpr,
    b: SExpr,
    all: Set<Seq<char>>,
    ms: Seq<(Seq<char>, Set<Seq<char>>)>,
    l: Set<Seq<char>>,
    r: Set<Seq<char>>,
)
    requires
        spec_eval(a, all, ms) == Ok::<Set<Seq<char>>, SQueryError>(l),
        spec_eval(b, all, ms) == Ok::<Set<Seq<char>>, SQueryError>(r),
    ensures
        spec_eval(SExpr::Or(Box::new(a), Box::new(b)), all, ms) == Ok::<Set<Seq<char>>, SQueryError>(
            l.union(r),
        ),
        spec_eval(SExpr::Not(Box::new(a)), all, ms) == Ok::<Set<Seq<char>>, SQueryError>(
            all.difference(l),
        ),
{
}

/// Law: `AND` selects the intersection of what its sides select, unless
/// its right side is an `id:` filter and its left side selects something
/// (that combination is refused).
pub proof fn law_and_intersection(
    a: SExpr,
    b: SExpr,
    all: Set<Seq<char>>,
    ms: Seq<(Seq<char>, Set<Seq<char>>)>,
    l: Set<Seq<char>>,
    r: Set<Seq<char>>,
)
    requires
        spec_eval(a, all, ms) == Ok::<Set<Seq<char>>, SQueryError>(l),
        spec_eval(b, all, ms) == Ok::<Set<Seq<char>>, SQueryError>(r),
        !(b matches SExpr::Filter(k, _) && k == "id"@),
    ensures
        spec_eval(SExpr::And(Box::new(a), Box::new(b)), all, ms) == Ok::<Set<Seq<char>>, SQueryError>(
            l.intersect(r),
        ),
{
    if l == Set::<Seq<char>>::empty() {
        assert(l.intersect(r) =~= l);
    } else {
        match b {
            SExpr::Filter(k, v) => {
                reveal_strlit("tag");
                reveal_strlit("link");
                reveal_strlit("type");
                reveal_strlit("id");
                if !(k == "tag"@ || k == "link"@ || k == "type"@) {
                    assert(eval_filter(k, v, all, ms) is Err);
                }
            },
            _ => {},
        }
    }
}

// ---------------------------------------------------------------------------
// What a matched file names
// ---------------------------------------------------------------------------

/// `s` ends with `.md`.
pub open spec fn ends_md(s: Seq<char>) -> bool {
    s.len() >= 3 && s[s.len() - 3] == '.' && s[s.len() - 2] == 'm' && s[s.len() - 1] == 'd'
}

/// `s` with every trailing `.md` removed (`str::trim_end_matches(".md")`).
pub open spec fn trim_md(s: Seq<char>) -> Seq<char>
    decreases s.len(),
{
    if ends_md(s) {
        trim_md(s.take(s.len() - 3))
    } else {
        s
    }
}

/// The kind whose directory is `d`.
pub open spec fn kind_of_dir(d: Seq<char>) -> Option<EntityKind> {
    if d == "notes"@ {
        Some(EntityKind::Note)
    } else if d == "bookmarks"@ {
        Some(EntityKind::Bookmark)
    } else if d == "tasks"@ {
        Some(EntityKind::Task)
    } else {
        None
    }
}

/// The entity a matched file names: the part before the first `/` is the
/// directory and gives the kind, the rest without its `.md` is the id
/// (without a `/`, the whole name plays both parts). `None` for a file
/// outside the three directories.
pub open spec fn file_target(f: Seq<char>) -> Option<(EntityKind, Seq<char>)> {
    let (dir, name) = match split_once(f, '/') {
        Some((a, b)) => (a, b),
        None => (f, f),
    };
    match kind_of_dir(dir) {
        Some(k) => Some((k, trim_md(name))),
        None => None,
    }
}

/// `s` with every trailing `.md` removed.
fn trim_md_exec(s: &str) -> (r: String)
    ensures
        r@ == trim_md(s@),
{
    let cs = chars_of(s);
    let mut hi: usize = cs.len();
    assert(cs@.take(hi as int) =~= cs@);
    while hi >= 3 && cs[hi - 3] == '.' && cs[hi - 2] == 'm' && cs[hi - 1] == 'd'
        invariant
            hi <= cs.len(),
            cs@ == s@,
            trim_md(cs@.take(hi as int)) == trim_md(s@),
        decreases hi,
    {
        assert(cs@.take(hi as int).take(hi - 3) =~= cs@.take(hi - 3));
        hi = hi - 3;
    }
    assert(cs@.subrange(0, hi as int) =~= cs@.take(hi as int));
    string_of(&cs, 0, hi)
}

/// The kind whose directory is `d`.
fn kind_of_dir_exec(d: &str) -> (r: Option<EntityKind>)
    ensures
        r == kind_of_dir(d@),
{
    if str_eq(d, "notes") {
        Some(EntityKind::Note)
    } else if str_eq(d, "bookmarks") {
        Some(EntityKind::Bookmark)
    } else if str_eq(d, "tasks") {
        Some(EntityKind::Task)
    } else {
        None
    }
}

/// The entity a matched file names, if any.
pub fn target_of_file(f: &str) -> (r: Option<(EntityKind, String)>)
    ensures
        match r {
            Some((k, id)) => file_target(f@) == Some((k, id@)),
            None => file_target(f@) is None,
        },
{
    let (dir, name) = match str_split_once(f, '/') {
        Some((a, b)) => (a, b),
        None => (own(f), own(f)),
    };
    match kind_of_dir_exec(dir.as_str()) {
        Some(k) => Some((k, trim_md_exec(name.as_str()))),
        None => None,
    }
}

/// The ids of the entities of kind `kind` that `files` name, in order.
pub open spec fn ids_of_kind(files: Seq<Seq<char>>, kind: EntityKind) -> Seq<Seq<char>>
    decreases files.len(),
{
    if files.len() == 0 {
        Seq::empty()
    } else {
        let r = ids_of_kind(files.drop_last(), kind);
        match file_target(files.last()) {
            Some((k, id)) => if k == kind {
                r.push(id)
            } else {
                r
            },
            None => r,
        }
    }
}

/// The ids of the entities of kind `kind` that `files` name, in order.
pub fn matched_ids(files: &Vec<String>, kind: EntityKind) -> (r: Vec<String>)
    ensures
        views(r@) == ids_of_kind(views(files@), kind),
{
    let ghost fv = views(files@);
    let mut r: Vec<String> = Vec::new();
    let mut i: usize = 0;
    while i < files.len()
        invariant
            i <= files.len(),
            fv == views(files@),
            views(r@) == ids_of_kind(fv.take(i as int), kind),
        decreases files.len() - i,
    {
        let ghost t = fv.take(i + 1);
        assert(t.drop_last() =~= fv.take(i as int));
        assert(t.last() == files@[i as int]@);
        let ghost before = views(r@);
        match target_of_file(files[i].as_str()) {
            Some((k, id)) => {
                if k == kind {
                    let ghost idv = id@;
                    r.push(id);
                    assert(views(r@) =~= before.push(idv));
                }
            },
            None => {},
        }
        i = i + 1;
    }
    assert(fv.take(files.len() as int) =~= fv);
    r
}

/// Law: a `type:` filter selects the files of the directory the entity
/// kind is stored in. For every kind, its name (`note`, `bookmark`,
/// `task`) and its directory's name (`notes`, `bookmarks`, `tasks`) both
/// select exactly the entity files under `<kind directory>/`.
pub proof fn law_type_filter_selects_kind_dir(
    k: EntityKind,
    v: Seq<char>,
    all: Set<Seq<char>>,
    ms: Seq<(Seq<char>, Set<Seq<char>>)>,
    f: Seq<char>,
)
    requires
        v == k.name() || v == k.dir(),
    ensures
        spec_eval(SExpr::Filter("type"@, v), all, ms) matches Ok(sel) && (sel.contains(f) <==> all.contains(f)
            && starts_with(f, k.dir() + "/"@)),
{
    reveal_strlit("type");
    reveal_strlit("tag");
    reveal_strlit("link");
    reveal_strlit("note");
    reveal_strlit("notes");
    reveal_strlit("bookmark");
    reveal_strlit("bookmarks");
    reveal_strlit("task");
    reveal_strlit("tasks");
    assert("type"@ != "tag"@) by {
        assert("type"@[1] != "tag"@[1]);
    }
    assert("type"@ != "link"@) by {
        assert("type"@[0] != "link"@[0]);
    }
    match k {
        EntityKind::Note => {
            assert(v == "note"@ || v == "notes"@);
        },
        EntityKind::Bookmark => {
            assert(v != "note"@ && v != "notes"@) by {
                assert(v[0] != "note"@[0]);
            }
            assert(v == "bookmark"@ || v == "bookmarks"@);
        },
        EntityKind::Task => {
            assert(v != "note"@ && v != "notes"@) by {
                assert(v[0] != "note"@[0]);
            }
            assert(v != "bookmark"@ && v != "bookmarks"@) by {
                assert(v[0] != "bookmark"@[0]);
            }
        },
    }
}

} // verus!
