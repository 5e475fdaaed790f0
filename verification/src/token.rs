//! The lexical layer: identifiers, string literals, other literals, and the
//! punctuation the grammar is built from (`=`, `,`, `{ }`, `[ ]`).
//!
//! [`spec_tokenize`] is the specification twin of [`tokenize`]: a total
//! function from the input characters to either the token sequence or the
//! error the tokenizer reports.

use vstd::prelude::*;

use crate::error::GenError;

verus! {

/// One lexical unit of the input grammar.
pub enum Token {
    /// A bare identifier (an entity name or a key).
    Ident(String),
    /// A string literal; the field holds the text between the quotes.
    StrLit(String),
    /// A literal of some other kind (numeric or boolean); never legal where a
    /// string literal is required.
    OtherLit,
    /// The `=` assignment marker.
    Equals,
    /// The `,` separator.
    Comma,
    /// `{`
    OpenBrace,
    /// `}`
    CloseBrace,
    /// `[`
    OpenBracket,
    /// `]`
    CloseBracket,
}

/// The mathematical image of a [`Token`]: text is a `Seq<char>`.
pub enum TokenView {
    Ident(Seq<char>),
    StrLit(Seq<char>),
    OtherLit,
    Equals,
    Comma,
    OpenBrace,
    CloseBrace,
    OpenBracket,
    CloseBracket,
}

impl View for Token {
    type V = TokenView;

    open spec fn view(&self) -> TokenView {
        match self {
            Token::Ident(s) => TokenView::Ident(s@),
            Token::StrLit(s) => TokenView::StrLit(s@),
            Token::OtherLit => TokenView::OtherLit,
            Token::Equals => TokenView::Equals,
            Token::Comma => TokenView::Comma,
            Token::OpenBrace => TokenView::OpenBrace,
            Token::CloseBrace => TokenView::CloseBrace,
            Token::OpenBracket => TokenView::OpenBracket,
            Token::CloseBracket => TokenView::CloseBracket,
        }
    }
}

/// The views of a token sequence, element by element.
pub open spec fn views_of(ts: Seq<Token>) -> Seq<TokenView> {
    ts.map_values(|t: Token| t@)
}

/// A token result lifted to its mathematical image.
pub open spec fn lift(r: Result<Vec<Token>, GenError>) -> Result<Seq<TokenView>, GenError> {
    match r {
        Ok(v) => Ok(views_of(v@)),
        Err(e) => Err(e),
    }
}

/// Whitespace between tokens.
pub open spec fn is_ws(c: char) -> bool {
    c == ' ' || c == '\t' || c == '\n' || c == '\r'
}

/// A character that may start an identifier.
pub open spec fn is_ident_start(c: char) -> bool {
    (('a' as u32) <= (c as u32) && (c as u32) <= ('z' as u32)) || (('A' as u32) <= (c as u32)
        && (c as u32) <= ('Z' as u32)) || c == '_'
}

/// A decimal digit.
pub open spec fn is_digit(c: char) -> bool {
    ('0' as u32) <= (c as u32) && (c as u32) <= ('9' as u32)
}

/// A character that may continue an identifier.
pub open spec fn is_ident_cont(c: char) -> bool {
    is_ident_start(c) || is_digit(c)
}

/// A character that may continue a non-string literal.
pub open spec fn is_other_cont(c: char) -> bool {
    is_ident_cont(c) || c == '.'
}

/// Prepend one token view to a token result.
pub open spec fn cons_tok(t: TokenView, rest: Result<Seq<TokenView>, GenError>) -> Result<
    Seq<TokenView>,
    GenError,
> {
    match rest {
        Ok(ts) => Ok(seq![t] + ts),
        Err(e) => Err(e),
    }
}

/// The token sequence of `s` from position `i` on, or the error the tokenizer
/// reports: an unterminated string literal or a character no token can start
/// with.
pub open spec fn spec_tokenize(s: Seq<char>, i: int) -> Result<Seq<TokenView>, GenError>
    decreases s.len() - i, 0int,
{
    if i < 0 || i >= s.len() {
        Ok(Seq::empty())
    } else {
        let c = s[i];
        if is_ws(c) {
            spec_tokenize(s, i + 1)
        } else if c == '=' {
            cons_tok(TokenView::Equals, spec_tokenize(s, i + 1))
        } else if c == ',' {
            cons_tok(TokenView::Comma, spec_tokenize(s, i + 1))
        } else if c == '{' {
            cons_tok(TokenView::OpenBrace, spec_tokenize(s, i + 1))
        } else if c == '}' {
            cons_tok(TokenView::CloseBrace, spec_tokenize(s, i + 1))
        } else if c == '[' {
            cons_tok(TokenView::OpenBracket, spec_tokenize(s, i + 1))
        } else if c == ']' {
            cons_tok(TokenView::CloseBracket, spec_tokenize(s, i + 1))
        } else if c == '"' {
            spec_tokenize_str(s, i + 1, i + 1)
        } else if is_ident_start(c) {
            spec_tokenize_ident(s, i, i + 1)
        } else if is_digit(c) {
            spec_tokenize_other(s, i + 1)
        } else {
            Err(GenError::GroupGrammar)
        }
    }
}

/// Scan a string literal that began just before `start`; `j` is the next
/// position to look at. The literal's text runs from `start` to the closing
/// quote, with no escape forms.
pub open spec fn spec_tokenize_str(s: Seq<char>, start: int, j: int) -> Result<
    Seq<TokenView>,
    GenError,
>
    decreases s.len() - j, 1int,
{
    if j < 0 || j >= s.len() {
        Err(GenError::GroupGrammar)
    } else if s[j] == '"' {
        cons_tok(TokenView::StrLit(s.subrange(start, j)), spec_tokenize(s, j + 1))
    } else {
        spec_tokenize_str(s, start, j + 1)
    }
}

/// Scan an identifier that began at `start`; `j` is the next position to look
/// at. The keywords `true` and `false` are literals, not identifiers.
pub open spec fn spec_tokenize_ident(s: Seq<char>, start: int, j: int) -> Result<
    Seq<TokenView>,
    GenError,
>
    decreases s.len() - j, 1int,
{
    if j < 0 || j > s.len() {
        Err(GenError::GroupGrammar)
    } else if j == s.len() || !is_ident_cont(s[j]) {
        let text = s.subrange(start, j);
        if text == "true"@ || text == "false"@ {
            cons_tok(TokenView::OtherLit, spec_tokenize(s, j))
        } else {
            cons_tok(TokenView::Ident(text), spec_tokenize(s, j))
        }
    } else {
        spec_tokenize_ident(s, start, j + 1)
    }
}

/// Scan the rest of a non-string literal; `j` is the next position to look
/// at. Its text is irrelevant: no further layer may accept it.
pub open spec fn spec_tokenize_other(s: Seq<char>, j: int) -> Result<Seq<TokenView>, GenError>
    decreases s.len() - j, 1int,
{
    if j < 0 || j > s.len() {
        Err(GenError::GroupGrammar)
    } else if j == s.len() || !is_other_cont(s[j]) {
        cons_tok(TokenView::OtherLit, spec_tokenize(s, j))
    } else {
        spec_tokenize_other(s, j + 1)
    }
}

fn ws_char(c: char) -> (r: bool)
    ensures
        r == is_ws(c),
{
    c == ' ' || c == '\t' || c == '\n' || c == '\r'
}

fn ident_start_char(c: char) -> (r: bool)
    ensures
        r == is_ident_start(c),
{
    let u = c as u32;
    (('a' as u32) <= u && u <= ('z' as u32)) || (('A' as u32) <= u && u <= ('Z' as u32)) || c == '_'
}

fn digit_char(c: char) -> (r: bool)
    ensures
        r == is_digit(c),
{
    let u = c as u32;
    ('0' as u32) <= u && u <= ('9' as u32)
}

fn ident_cont_char(c: char) -> (r: bool)
    ensures
        r == is_ident_cont(c),
{
    ident_start_char(c) || digit_char(c)
}

fn other_cont_char(c: char) -> (r: bool)
    ensures
        r == is_other_cont(c),
{
    ident_cont_char(c) || c == '.'
}

/// Prepend one token to a token result.
fn cons_token(t: Token, r: Result<Vec<Token>, GenError>) -> (out: Result<Vec<Token>, GenError>)
    ensures
        lift(out) == cons_tok(t@, lift(r)),
{
    match r {
        Ok(v) => {
            let ghost v0 = v@;
            let mut v = v;
            v.insert(0, t);
            proof {
                assert(views_of(v@) =~= seq![t@] + views_of(v0));
            }
            Ok(v)
        },
        Err(e) => Err(e),
    }
}

/// Split the input text into its tokens.
pub fn tokenize(s: &str) -> (r: Result<Vec<Token>, GenError>)
    ensures
        lift(r) == spec_tokenize(s@, 0),
{
    let n = s.unicode_len();
    tokenize_at(s, 0, n)
}

fn tokenize_at(s: &str, i: usize, n: usize) -> (r: Result<Vec<Token>, GenError>)
    requires
        n == s@.len(),
        i <= n,
    ensures
        lift(r) == spec_tokenize(s@, i as int),
    decreases n - i, 0int,
{
    if i >= n {
        let v: Vec<Token> = Vec::new();
        proof {
            assert(views_of(v@) =~= Seq::<TokenView>::empty());
        }
        return Ok(v);
    }
    let c = s.get_char(i);
    if ws_char(c) {
        tokenize_at(s, i + 1, n)
    } else if c == '=' {
        cons_token(Token::Equals, tokenize_at(s, i + 1, n))
    } else if c == ',' {
        cons_token(Token::Comma, tokenize_at(s, i + 1, n))
    } else if c == '{' {
        cons_token(Token::OpenBrace, tokenize_at(s, i + 1, n))
    } else if c == '}' {
        cons_token(Token::CloseBrace, tokenize_at(s, i + 1, n))
    } else if c == '[' {
        cons_token(Token::OpenBracket, tokenize_at(s, i + 1, n))
    } else if c == ']' {
        cons_token(Token::CloseBracket, tokenize_at(s, i + 1, n))
    } else if c == '"' {
        tokenize_str_at(s, i + 1, i + 1, n)
    } else if ident_start_char(c) {
        tokenize_ident_at(s, i, i + 1, n)
    } else if digit_char(c) {
        tokenize_other_at(s, i + 1, n)
    } else {
        Err(GenError::GroupGrammar)
    }
}

fn tokenize_str_at(s: &str, start: usize, j: usize, n: usize) -> (r: Result<Vec<Token>, GenError>)
    requires
        n == s@.len(),
        start <= j,
        j <= n,
    ensures
        lift(r) == spec_tokenize_str(s@, start as int, j as int),
    decreases n - j, 1int,
{
    if j >= n {
        return Err(GenError::GroupGrammar);
    }
    let c = s.get_char(j);
    if c == '"' {
        let text = s.substring_char(start, j);
        cons_token(Token::StrLit(text.to_owned()), tokenize_at(s, j + 1, n))
    } else {
        tokenize_str_at(s, start, j + 1, n)
    }
}

fn tokenize_ident_at(s: &str, start: usize, j: usize, n: usize) -> (r: Result<Vec<Token>, GenError>)
    requires
        n == s@.len(),
        start <= j,
        j <= n,
    ensures
        lift(r) == spec_tokenize_ident(s@, start as int, j as int),
    decreases n - j, 1int,
{
    if j < n {
        let c = s.get_char(j);
        if ident_cont_char(c) {
            return tokenize_ident_at(s, start, j + 1, n);
        }
    }
    let text = s.substring_char(start, j).to_owned();
    let tru: String = "true".to_owned();
    let fls: String = "false".to_owned();
    if text == tru || text == fls {
        cons_token(Token::OtherLit, tokenize_at(s, j, n))
    } else {
        cons_token(Token::Ident(text), tokenize_at(s, j, n))
    }
}

fn tokenize_other_at(s: &str, j: usize, n: usize) -> (r: Result<Vec<Token>, GenError>)
    requires
        n == s@.len(),
        j <= n,
    ensures
        lift(r) == spec_tokenize_other(s@, j as int),
    decreases n - j, 1int,
{
    if j < n {
        let c = s.get_char(j);
        if other_cont_char(c) {
            return tokenize_other_at(s, j + 1, n);
        }
    }
    cons_token(Token::OtherLit, tokenize_at(s, j, n))
}

} // verus!
