//! Tokenizer for Azure DevOps expressions (`${{ }}`, `$[ ]`, `$(var)`) and the
//! splitter that finds those expressions inside a larger piece of text.
//!
//! A number token keeps the literal text of the numeral (digits, optionally
//! followed by `.` and more digits); turning it into a floating-point value is
//! left to the caller.

use vstd::prelude::*;
use crate::text::{
    byte_offset, byte_offset_of, alphanumeric, char_is_whitespace, chars_eq_str, chars_of,
    decimal, is_alphanumeric, is_whitespace, lower_text, slice_chars, string_from, to_lowercase, trim, lemma_trim_idempotent,
    trim_chars, usize_to_decimal,
};

verus! {

broadcast use vstd::string::group_string_axioms;

/// Token types for Azure DevOps expressions.
#[derive(Debug, Clone, PartialEq)]
pub enum Token {
    Null,
    True,
    False,
    /// A numeric literal, as written in the source.
    Number(String),
    String(String),
    Identifier(String),
    Plus,
    Minus,
    Star,
    Slash,
    Percent,
    Eq,
    Ne,
    Lt,
    Le,
    Gt,
    Ge,
    And,
    Or,
    Not,
    Dot,
    Comma,
    Colon,
    Question,
    LParen,
    RParen,
    LBracket,
    RBracket,
    LBrace,
    RBrace,
    Eof,
}

/// Mathematical view of a token: string payloads become character sequences.
pub enum TokenView {
    Null,
    True,
    False,
    Number(Seq<char>),
    Str(Seq<char>),
    Identifier(Seq<char>),
    Plus,
    Minus,
    Star,
    Slash,
    Percent,
    Eq,
    Ne,
    Lt,
    Le,
    Gt,
    Ge,
    And,
    Or,
    Not,
    Dot,
    Comma,
    Colon,
    Question,
    LParen,
    RParen,
    LBracket,
    RBracket,
    LBrace,
    RBrace,
    Eof,
}

impl View for Token {
    type V = TokenView;

    open spec fn view(&self) -> TokenView {
        match self {
            Token::Null => TokenView::Null,
            Token::True => TokenView::True,
            Token::False => TokenView::False,
            Token::Number(n) => TokenView::Number(n@),
            Token::String(s) => TokenView::Str(s@),
            Token::Identifier(s) => TokenView::Identifier(s@),
            Token::Plus => TokenView::Plus,
            Token::Minus => TokenView::Minus,
            Token::Star => TokenView::Star,
            Token::Slash => TokenView::Slash,
            Token::Percent => TokenView::Percent,
            Token::Eq => TokenView::Eq,
            Token::Ne => TokenView::Ne,
            Token::Lt => TokenView::Lt,
            Token::Le => TokenView::Le,
            Token::Gt => TokenView::Gt,
            Token::Ge => TokenView::Ge,
            Token::And => TokenView::And,
            Token::Or => TokenView::Or,
            Token::Not => TokenView::Not,
            Token::Dot => TokenView::Dot,
            Token::Comma => TokenView::Comma,
            Token::Colon => TokenView::Colon,
            Token::Question => TokenView::Question,
            Token::LParen => TokenView::LParen,
            Token::RParen => TokenView::RParen,
            Token::LBracket => TokenView::LBracket,
            Token::RBracket => TokenView::RBracket,
            Token::LBrace => TokenView::LBrace,
            Token::RBrace => TokenView::RBrace,
            Token::Eof => TokenView::Eof,
        }
    }
}

/// The text that displaying a token gives: literals and names as written
/// (strings in single quotes), operators and punctuation as their symbols,
/// the end of input as "EOF".
pub open spec fn token_text(t: TokenView) -> Seq<char> {
    match t {
        TokenView::Null => "null"@,
        TokenView::True => "true"@,
        TokenView::False => "false"@,
        TokenView::Number(n) => n,
        TokenView::Str(s) => seq!['\''] + s + seq!['\''],
        TokenView::Identifier(s) => s,
        TokenView::Plus => "+"@,
        TokenView::Minus => "-"@,
        TokenView::Star => "*"@,
        TokenView::Slash => "/"@,
        TokenView::Percent => "%"@,
        TokenView::Eq => "=="@,
        TokenView::Ne => "!="@,
        TokenView::Lt => "<"@,
        TokenView::Le => "<="@,
        TokenView::Gt => ">"@,
        TokenView::Ge => ">="@,
        TokenView::And => "&&"@,
        TokenView::Or => "||"@,
        TokenView::Not => "!"@,
        TokenView::Dot => "."@,
        TokenView::Comma => ","@,
        TokenView::Colon => ":"@,
        TokenView::Question => "?"@,
        TokenView::LParen => "("@,
        TokenView::RParen => ")"@,
        TokenView::LBracket => "["@,
        TokenView::RBracket => "]"@,
        TokenView::LBrace => "{"@,
        TokenView::RBrace => "}"@,
        TokenView::Eof => "EOF"@,
    }
}

impl Token {
    /// The text that displaying this token gives (see [`token_text`]).
    pub fn to_display_string(&self) -> (r: String)
        ensures
            r@ == token_text(self@),
    {
        match self {
            Token::Null => String::from_str("null"),
            Token::True => String::from_str("true"),
            Token::False => String::from_str("false"),
            Token::Number(n) => n.clone(),
            Token::String(s) => {
                let mut r = String::new();
                r.push('\'');
                r.append(s.as_str());
                r.push('\'');
                r
            },
            Token::Identifier(s) => s.clone(),
            Token::Plus => String::from_str("+"),
            Token::Minus => String::from_str("-"),
            Token::Star => String::from_str("*"),
            Token::Slash => String::from_str("/"),
            Token::Percent => String::from_str("%"),
            Token::Eq => String::from_str("=="),
            Token::Ne => String::from_str("!="),
            Token::Lt => String::from_str("<"),
            Token::Le => String::from_str("<="),
            Token::Gt => String::from_str(">"),
            Token::Ge => String::from_str(">="),
            Token::And => String::from_str("&&"),
            Token::Or => String::from_str("||"),
            Token::Not => String::from_str("!"),
            Token::Dot => String::from_str("."),
            Token::Comma => String::from_str(","),
            Token::Colon => String::from_str(":"),
            Token::Question => String::from_str("?"),
            Token::LParen => String::from_str("("),
            Token::RParen => String::from_str(")"),
            Token::LBracket => String::from_str("["),
            Token::RBracket => String::from_str("]"),
            Token::LBrace => String::from_str("{"),
            Token::RBrace => String::from_str("}"),
            Token::Eof => String::from_str("EOF"),
        }
    }
}

/// Lexer error.
#[derive(Debug, Clone)]
pub struct LexError {
    pub message: String,
    /// Byte offset of the offending character in the input.
    pub position: usize,
}

pub struct LexErrorView {
    pub message: Seq<char>,
    pub position: nat,
}

impl View for LexError {
    type V = LexErrorView;

    open spec fn view(&self) -> LexErrorView {
        LexErrorView { message: self.message@, position: self.position as nat }
    }
}

impl LexError {
    /// The message shown for this error: `lex error at position N: message`.
    pub fn to_display_string(&self) -> (r: String)
        ensures
            r@ == "lex error at position "@ + decimal(self.position as nat) + ": "@
                + self.message@,
    {
        let mut r = String::from_str("lex error at position ");
        let d = usize_to_decimal(self.position);
        r.append(d.as_str());
        r.append(": ");
        r.append(self.message.as_str());
        r
    }
}

// ---------------------------------------------------------------------------
// Specification of the tokenizer
// ---------------------------------------------------------------------------

pub open spec fn is_digit(c: char) -> bool {
    '0' <= c && c <= '9'
}

pub open spec fn is_ident_start(c: char) -> bool {
    ('a' <= c && c <= 'z') || ('A' <= c && c <= 'Z') || c == '_'
}

pub open spec fn is_ident_char(c: char) -> bool {
    alphanumeric(c) || c == '_'
}

/// First index at or after `i` that is not whitespace (or the end).
pub open spec fn skip_ws(s: Seq<char>, i: int) -> int
    decreases s.len() - i,
{
    if 0 <= i < s.len() && char_is_whitespace(s[i]) {
        skip_ws(s, i + 1)
    } else {
        i
    }
}

/// End of the run of ASCII digits that starts at `i`.
pub open spec fn digits_end(s: Seq<char>, i: int) -> int
    decreases s.len() - i,
{
    if 0 <= i < s.len() && is_digit(s[i]) {
        digits_end(s, i + 1)
    } else {
        i
    }
}

/// End of the run of identifier characters that starts at `i`.
pub open spec fn ident_end(s: Seq<char>, i: int) -> int
    decreases s.len() - i,
{
    if 0 <= i < s.len() && is_ident_char(s[i]) {
        ident_end(s, i + 1)
    } else {
        i
    }
}

/// End of a numeral starting at `i`: digits, then optionally `.` and digits
/// when the `.` is directly followed by a digit.
pub open spec fn number_end(s: Seq<char>, i: int) -> int {
    let j = digits_end(s, i);
    if 0 <= j && j + 1 < s.len() && s[j] == '.' && is_digit(s[j + 1]) {
        digits_end(s, j + 1)
    } else {
        j
    }
}

/// Contents of a quoted string whose body starts at `i` (just after the
/// opening quote), with `''` standing for one quote, and the index just after
/// the closing quote; `None` when the input ends first.
pub open spec fn string_body(s: Seq<char>, i: int) -> Option<(Seq<char>, int)>
    decreases s.len() - i,
{
    if i < 0 || i >= s.len() {
        None
    } else if s[i] == '\'' {
        if i + 1 < s.len() && s[i + 1] == '\'' {
            match string_body(s, i + 2) {
                Some((v, e)) => Some((seq!['\''] + v, e)),
                None => None,
            }
        } else {
            Some((Seq::empty(), i + 1))
        }
    } else {
        match string_body(s, i + 1) {
            Some((v, e)) => Some((seq![s[i]] + v, e)),
            None => None,
        }
    }
}

/// Keywords are recognised case-insensitively.
pub open spec fn keyword_or_identifier(ident: Seq<char>) -> TokenView {
    let l = lower_text(ident);
    if l == "null"@ {
        TokenView::Null
    } else if l == "true"@ {
        TokenView::True
    } else if l == "false"@ {
        TokenView::False
    } else {
        TokenView::Identifier(ident)
    }
}

/// Tokens made of one character that never starts a longer token.
pub open spec fn single_char_token(c: char) -> Option<TokenView> {
    if c == '+' {
        Some(TokenView::Plus)
    } else if c == '-' {
        Some(TokenView::Minus)
    } else if c == '*' {
        Some(TokenView::Star)
    } else if c == '/' {
        Some(TokenView::Slash)
    } else if c == '%' {
        Some(TokenView::Percent)
    } else if c == '.' {
        Some(TokenView::Dot)
    } else if c == ',' {
        Some(TokenView::Comma)
    } else if c == ':' {
        Some(TokenView::Colon)
    } else if c == '?' {
        Some(TokenView::Question)
    } else if c == '(' {
        Some(TokenView::LParen)
    } else if c == ')' {
        Some(TokenView::RParen)
    } else if c == '[' {
        Some(TokenView::LBracket)
    } else if c == ']' {
        Some(TokenView::RBracket)
    } else if c == '{' {
        Some(TokenView::LBrace)
    } else if c == '}' {
        Some(TokenView::RBrace)
    } else {
        None
    }
}

pub open spec fn lex_err(s: Seq<char>, p: int, msg: Seq<char>) -> LexErrorView {
    LexErrorView { message: msg, position: byte_offset(s, p) }
}

pub open spec fn followed_by(s: Seq<char>, p: int, c: char) -> bool {
    p + 1 < s.len() && s[p + 1] == c
}

/// The token that starts at the non-whitespace index `p`, and where scanning
/// stopped.
pub open spec fn token_at(s: Seq<char>, p: int) -> (Result<TokenView, LexErrorView>, int) {
    let c = s[p];
    if single_char_token(c) is Some {
        (Ok(single_char_token(c)->0), p + 1)
    } else if c == '=' {
        if followed_by(s, p, '=') {
            (Ok(TokenView::Eq), p + 2)
        } else {
            (Err(lex_err(s, p, "expected '==' operator"@)), p + 1)
        }
    } else if c == '!' {
        if followed_by(s, p, '=') {
            (Ok(TokenView::Ne), p + 2)
        } else {
            (Ok(TokenView::Not), p + 1)
        }
    } else if c == '<' {
        if followed_by(s, p, '=') {
            (Ok(TokenView::Le), p + 2)
        } else {
            (Ok(TokenView::Lt), p + 1)
        }
    } else if c == '>' {
        if followed_by(s, p, '=') {
            (Ok(TokenView::Ge), p + 2)
        } else {
            (Ok(TokenView::Gt), p + 1)
        }
    } else if c == '&' {
        if followed_by(s, p, '&') {
            (Ok(TokenView::And), p + 2)
        } else {
            (Err(lex_err(s, p, "expected '&&' operator"@)), p + 1)
        }
    } else if c == '|' {
        if followed_by(s, p, '|') {
            (Ok(TokenView::Or), p + 2)
        } else {
            (Err(lex_err(s, p, "expected '||' operator"@)), p + 1)
        }
    } else if c == '\'' {
        match string_body(s, p + 1) {
            Some((v, e)) => (Ok(TokenView::Str(v)), e),
            None => (Err(lex_err(s, p, "unterminated string"@)), s.len() as int),
        }
    } else if is_digit(c) {
        let e = number_end(s, p);
        (Ok(TokenView::Number(s.subrange(p, e))), e)
    } else if is_ident_start(c) {
        let e = ident_end(s, p);
        (Ok(keyword_or_identifier(s.subrange(p, e))), e)
    } else {
        (Err(lex_err(s, p, "unexpected character: '"@ + seq![c] + "'"@)), p)
    }
}

/// A token reads as the text it was scanned from: an operator or a mark is
/// exactly its symbol, a number or a name exactly its characters, and a
/// keyword its characters in any case.
pub proof fn lemma_token_spells_source(s: Seq<char>, p: int)
    requires
        0 <= p < s.len(),
    ensures
        token_at(s, p) matches (Ok(t), q) ==> p < q <= s.len() && (if t is Null || t is True || t is False {
            lower_text(s.subrange(p, q)) == token_text(t)
        } else if t is Str {
            s[p] == '\''
        } else {
            s.subrange(p, q) == token_text(t)
        }),
{
    reveal_strlit("+");
    reveal_strlit("-");
    reveal_strlit("*");
    reveal_strlit("/");
    reveal_strlit("%");
    reveal_strlit("==");
    reveal_strlit("!=");
    reveal_strlit("<");
    reveal_strlit("<=");
    reveal_strlit(">");
    reveal_strlit(">=");
    reveal_strlit("&&");
    reveal_strlit("||");
    reveal_strlit("!");
    reveal_strlit(".");
    reveal_strlit(",");
    reveal_strlit(":");
    reveal_strlit("?");
    reveal_strlit("(");
    reveal_strlit(")");
    reveal_strlit("[");
    reveal_strlit("]");
    reveal_strlit("{");
    reveal_strlit("}");
    reveal_strlit("null");
    reveal_strlit("true");
    reveal_strlit("false");
    let c = s[p];
    if single_char_token(c) is Some {
        assert(s.subrange(p, p + 1) =~= seq![c]);
    } else if c == '=' || c == '!' || c == '<' || c == '>' || c == '&' || c == '|' {
        if followed_by(s, p, '=') || followed_by(s, p, '&') || followed_by(s, p, '|') {
            assert(s.subrange(p, p + 2) =~= seq![c, s[p + 1]]);
        }
        assert(s.subrange(p, p + 1) =~= seq![c]);
    } else if c == '\'' {
        lemma_string_body_end(s, p + 1);
    } else if is_digit(c) {
        lemma_number_end(s, p);
    } else if is_ident_start(c) {
        lemma_ident_end(s, p);
    }
}

proof fn lemma_digits_end(s: Seq<char>, i: int)
    requires
        0 <= i <= s.len(),
    ensures
        i <= digits_end(s, i) <= s.len(),
    decreases s.len() - i,
{
    if i < s.len() && is_digit(s[i]) {
        lemma_digits_end(s, i + 1);
    }
}

proof fn lemma_number_end(s: Seq<char>, p: int)
    requires
        0 <= p < s.len(),
        is_digit(s[p]),
    ensures
        p < number_end(s, p) <= s.len(),
{
    lemma_digits_end(s, p + 1);
    let j = digits_end(s, p);
    assert(j == digits_end(s, p + 1));
    if 0 <= j && j + 1 < s.len() && s[j] == '.' && is_digit(s[j + 1]) {
        lemma_digits_end(s, j + 1);
    }
}

proof fn lemma_ident_end(s: Seq<char>, i: int)
    requires
        0 <= i <= s.len(),
        i < s.len() ==> is_ident_start(s[i]),
    ensures
        i <= ident_end(s, i) <= s.len(),
        i < s.len() ==> i < ident_end(s, i),
    decreases s.len() - i,
{
    if i < s.len() && is_ident_char(s[i]) {
        lemma_ident_end_bound(s, i + 1);
    }
}

proof fn lemma_ident_end_bound(s: Seq<char>, i: int)
    requires
        0 <= i <= s.len(),
    ensures
        i <= ident_end(s, i) <= s.len(),
    decreases s.len() - i,
{
    if i < s.len() && is_ident_char(s[i]) {
        lemma_ident_end_bound(s, i + 1);
    }
}

proof fn lemma_string_body_end(s: Seq<char>, i: int)
    requires
        0 <= i,
    ensures
        string_body(s, i) matches Some((v, e)) ==> i < e <= s.len(),
    decreases s.len() - i,
{
    if 0 <= i < s.len() {
        if s[i] == '\'' {
            if i + 1 < s.len() && s[i + 1] == '\'' {
                lemma_string_body_end(s, i + 2);
            }
        } else {
            lemma_string_body_end(s, i + 1);
        }
    }
}

/// The next token after index `i`, and the index just after it.
pub open spec fn next_token_spec(s: Seq<char>, i: int) -> (Result<TokenView, LexErrorView>, int) {
    let p = skip_ws(s, i);
    if p >= s.len() {
        (Ok(TokenView::Eof), p)
    } else {
        token_at(s, p)
    }
}

/// All tokens from index `i` on, ending with `Eof`, or the first error.
pub open spec fn tokens_from(s: Seq<char>, i: int) -> Result<Seq<TokenView>, LexErrorView>
    decreases s.len() - i,
{
    let (r, j) = next_token_spec(s, i);
    match r {
        Err(e) => Err(e),
        Ok(t) => {
            if t is Eof {
                Ok(seq![TokenView::Eof])
            } else if i < j <= s.len() {
                match tokens_from(s, j) {
                    Ok(ts) => Ok(seq![t] + ts),
                    Err(e) => Err(e),
                }
            } else {
                Ok(seq![t])
            }
        },
    }
}

// ---------------------------------------------------------------------------
// Executable scanning helpers
// ---------------------------------------------------------------------------

proof fn lemma_skip_ws_range(s: Seq<char>, i: int)
    requires
        0 <= i <= s.len(),
    ensures
        i <= skip_ws(s, i) <= s.len(),
        skip_ws(s, i) < s.len() ==> !char_is_whitespace(s[skip_ws(s, i)]),
    decreases s.len() - i,
{
    if i < s.len() && char_is_whitespace(s[i]) {
        lemma_skip_ws_range(s, i + 1);
    }
}

proof fn lemma_digits_end_range(s: Seq<char>, i: int)
    requires
        0 <= i <= s.len(),
    ensures
        i <= digits_end(s, i) <= s.len(),
    decreases s.len() - i,
{
    if i < s.len() && is_digit(s[i]) {
        lemma_digits_end_range(s, i + 1);
    }
}

proof fn lemma_ident_end_range(s: Seq<char>, i: int)
    requires
        0 <= i <= s.len(),
    ensures
        i <= ident_end(s, i) <= s.len(),
    decreases s.len() - i,
{
    if i < s.len() && is_ident_char(s[i]) {
        lemma_ident_end_range(s, i + 1);
    }
}

proof fn lemma_string_body_range(s: Seq<char>, i: int)
    requires
        0 <= i,
    ensures
        string_body(s, i) matches Some((v, e)) ==> i < e <= s.len(),
    decreases s.len() - i,
{
    if 0 <= i < s.len() {
        if s[i] == '\'' {
            if i + 1 < s.len() && s[i + 1] == '\'' {
                lemma_string_body_range(s, i + 2);
            }
        } else {
            lemma_string_body_range(s, i + 1);
        }
    }
}

fn skip_whitespace_from(cs: &Vec<char>, i: usize) -> (r: usize)
    requires
        i <= cs@.len(),
    ensures
        r == skip_ws(cs@, i as int),
        i <= r <= cs@.len(),
{
    let mut j = i;
    while j < cs.len() && is_whitespace(cs[j])
        invariant
            i <= j <= cs@.len(),
            skip_ws(cs@, i as int) == skip_ws(cs@, j as int),
        decreases cs@.len() - j,
    {
        j = j + 1;
    }
    proof {
        lemma_skip_ws_range(cs@, i as int);
    }
    j
}

fn digits_end_from(cs: &Vec<char>, i: usize) -> (r: usize)
    requires
        i <= cs@.len(),
    ensures
        r == digits_end(cs@, i as int),
        i <= r <= cs@.len(),
{
    let mut j = i;
    while j < cs.len() && '0' <= cs[j] && cs[j] <= '9'
        invariant
            i <= j <= cs@.len(),
            digits_end(cs@, i as int) == digits_end(cs@, j as int),
        decreases cs@.len() - j,
    {
        j = j + 1;
    }
    j
}

fn ident_end_from(cs: &Vec<char>, i: usize) -> (r: usize)
    requires
        i <= cs@.len(),
    ensures
        r == ident_end(cs@, i as int),
        i <= r <= cs@.len(),
{
    let mut j = i;
    while j < cs.len() && (is_alphanumeric(cs[j]) || cs[j] == '_')
        invariant
            i <= j <= cs@.len(),
            ident_end(cs@, i as int) == ident_end(cs@, j as int),
        decreases cs@.len() - j,
    {
        j = j + 1;
    }
    j
}

fn string_body_from(cs: &Vec<char>, i: usize) -> (r: Option<(Vec<char>, usize)>)
    requires
        i <= cs@.len(),
    ensures
        match r {
            Some((v, e)) => string_body(cs@, i as int) == Some((v@, e as int)),
            None => string_body(cs@, i as int) is None,
        },
{
    let mut value: Vec<char> = Vec::new();
    let mut j = i;
    loop
        invariant
            i <= j <= cs@.len(),
            string_body(cs@, i as int) == match string_body(cs@, j as int) {
                Some((v, e)) => Some((value@ + v, e)),
                None => None::<(Seq<char>, int)>,
            },
        decreases cs@.len() - j,
    {
        if j >= cs.len() {
            return None;
        }
        let ghost old_value = value@;
        if cs[j] == '\'' {
            if j + 1 < cs.len() && cs[j + 1] == '\'' {
                value.push('\'');
                proof {
                    match string_body(cs@, j + 2) {
                        Some((v, e)) => {
                            assert(old_value + (seq!['\''] + v) == value@ + v);
                        },
                        None => {},
                    }
                }
                j = j + 2;
            } else {
                proof {
                    assert(value@ + Seq::<char>::empty() == value@);
                }
                return Some((value, j + 1));
            }
        } else {
            let c = cs[j];
            value.push(c);
            proof {
                match string_body(cs@, j + 1) {
                    Some((v, e)) => {
                        assert(old_value + (seq![c] + v) == value@ + v);
                    },
                    None => {},
                }
            }
            j = j + 1;
        }
    }
}

fn lex_error(cs: &Vec<char>, p: usize, msg: String) -> (e: LexError)
    requires
        p <= cs@.len(),
        cs@.len() <= usize::MAX / 4,
    ensures
        e@ == lex_err(cs@, p as int, msg@),
{
    LexError { message: msg, position: byte_offset_of(cs.as_slice(), p) }
}

fn single_token_of(c: char) -> (r: Option<Token>)
    ensures
        match r {
            Some(t) => single_char_token(c) == Some(t@),
            None => single_char_token(c) is None,
        },
{
    match c {
        '+' => Some(Token::Plus),
        '-' => Some(Token::Minus),
        '*' => Some(Token::Star),
        '/' => Some(Token::Slash),
        '%' => Some(Token::Percent),
        '.' => Some(Token::Dot),
        ',' => Some(Token::Comma),
        ':' => Some(Token::Colon),
        '?' => Some(Token::Question),
        '(' => Some(Token::LParen),
        ')' => Some(Token::RParen),
        '[' => Some(Token::LBracket),
        ']' => Some(Token::RBracket),
        '{' => Some(Token::LBrace),
        '}' => Some(Token::RBrace),
        _ => None,
    }
}

fn keyword_or_identifier_of(ident: Vec<char>) -> (t: Token)
    ensures
        t@ == keyword_or_identifier(ident@),
{
    let s = string_from(ident.as_slice());
    let lower = to_lowercase(s.as_str());
    let lc = chars_of(lower.as_str());
    if chars_eq_str(lc.as_slice(), "null") {
        Token::Null
    } else if chars_eq_str(lc.as_slice(), "true") {
        Token::True
    } else if chars_eq_str(lc.as_slice(), "false") {
        Token::False
    } else {
        Token::Identifier(s)
    }
}

fn subrange_string(cs: &Vec<char>, from: usize, to: usize) -> (s: String)
    requires
        from <= to <= cs@.len(),
    ensures
        s@ == cs@.subrange(from as int, to as int),
{
    let mut s = String::new();
    let mut i = from;
    while i < to
        invariant
            from <= i <= to,
            to <= cs@.len(),
            s@ == cs@.subrange(from as int, i as int),
        decreases to - i,
    {
        s.push(cs[i]);
        assert(cs@.subrange(from as int, i as int).push(cs@[i as int]) == cs@.subrange(
            from as int,
            i + 1,
        ));
        i = i + 1;
    }
    s
}

/// Scans the token that starts at index `p` (which is not whitespace).
fn scan_token_at(cs: &Vec<char>, p: usize) -> (r: (Result<Token, LexError>, usize))
    requires
        p < cs@.len(),
        cs@.len() <= usize::MAX / 4,
    ensures
        ({
            let (res, j) = token_at(cs@, p as int);
            &&& r.1 == j
            &&& match r.0 {
                Ok(t) => res == Ok::<TokenView, LexErrorView>(t@),
                Err(e) => res == Err::<TokenView, LexErrorView>(e@),
            }
        }),
        p <= r.1 <= cs@.len(),
        r.0 is Ok ==> p < r.1,
{
    let c = cs[p];
    if let Some(t) = single_token_of(c) {
        return (Ok(t), p + 1);
    }
    let next_is = |x: char| -> (b: bool)
        ensures
            b == followed_by(cs@, p as int, x),
        { p + 1 < cs.len() && cs[p + 1] == x };
    if c == '=' {
        if next_is('=') {
            (Ok(Token::Eq), p + 2)
        } else {
            (Err(lex_error(cs, p, String::from_str("expected '==' operator"))), p + 1)
        }
    } else if c == '!' {
        if next_is('=') {
            (Ok(Token::Ne), p + 2)
        } else {
            (Ok(Token::Not), p + 1)
        }
    } else if c == '<' {
        if next_is('=') {
            (Ok(Token::Le), p + 2)
        } else {
            (Ok(Token::Lt), p + 1)
        }
    } else if c == '>' {
        if next_is('=') {
            (Ok(Token::Ge), p + 2)
        } else {
            (Ok(Token::Gt), p + 1)
        }
    } else if c == '&' {
        if next_is('&') {
            (Ok(Token::And), p + 2)
        } else {
            (Err(lex_error(cs, p, String::from_str("expected '&&' operator"))), p + 1)
        }
    } else if c == '|' {
        if next_is('|') {
            (Ok(Token::Or), p + 2)
        } else {
            (Err(lex_error(cs, p, String::from_str("expected '||' operator"))), p + 1)
        }
    } else if c == '\'' {
        proof {
            lemma_string_body_range(cs@, p + 1);
        }
        match string_body_from(cs, p + 1) {
            Some((v, e)) => (Ok(Token::String(string_from(v.as_slice()))), e),
            None => (
                Err(lex_error(cs, p, String::from_str("unterminated string"))),
                cs.len(),
            ),
        }
    } else if '0' <= c && c <= '9' {
        let j = digits_end_from(cs, p);
        let e = if j + 1 < cs.len() && cs[j] == '.' && '0' <= cs[j + 1] && cs[j + 1] <= '9' {
            digits_end_from(cs, j + 1)
        } else {
            j
        };
        proof {
            lemma_digits_end_range(cs@, p + 1);
            assert(digits_end(cs@, p as int) == digits_end(cs@, p + 1));
            if j + 1 < cs@.len() && cs@[j as int] == '.' && is_digit(cs@[j + 1]) {
                lemma_digits_end_range(cs@, j + 1);
            }
        }
        (Ok(Token::Number(subrange_string(cs, p, e))), e)
    } else if ('a' <= c && c <= 'z') || ('A' <= c && c <= 'Z') || c == '_' {
        let _ = is_alphanumeric(c);
        let e = ident_end_from(cs, p);
        proof {
            assert(is_ident_char(c));
            assert(ident_end(cs@, p as int) == ident_end(cs@, p + 1));
            lemma_ident_end_range(cs@, p + 1);
        }
        let mut ident: Vec<char> = Vec::new();
        let mut k = p;
        while k < e
            invariant
                p <= k <= e,
                e <= cs@.len(),
                ident@ == cs@.subrange(p as int, k as int),
            decreases e - k,
        {
            ident.push(cs[k]);
            assert(cs@.subrange(p as int, k as int).push(cs@[k as int]) == cs@.subrange(
                p as int,
                k + 1,
            ));
            k = k + 1;
        }
        (Ok(keyword_or_identifier_of(ident)), e)
    } else {
        let mut msg = String::from_str("unexpected character: '");
        let ghost head = msg@;
        msg.push(c);
        msg.append("'");
        assert(msg@ == head + seq![c] + "'"@);
        (Err(lex_error(cs, p, msg)), p)
    }
}

/// Scans the next token after index `i`.
pub fn scan_next_token(cs: &Vec<char>, i: usize) -> (r: (Result<Token, LexError>, usize))
    requires
        i <= cs@.len(),
        cs@.len() <= usize::MAX / 4,
    ensures
        ({
            let (res, j) = next_token_spec(cs@, i as int);
            &&& r.1 == j
            &&& match r.0 {
                Ok(t) => res == Ok::<TokenView, LexErrorView>(t@),
                Err(e) => res == Err::<TokenView, LexErrorView>(e@),
            }
        }),
        i <= r.1 <= cs@.len(),
        (r.0 matches Ok(t) && !(t is Eof)) ==> i < r.1,
{
    let p = skip_whitespace_from(cs, i);
    if p >= cs.len() {
        return (Ok(Token::Eof), p);
    }
    scan_token_at(cs, p)
}

/// Lexer for Azure DevOps expressions.
pub struct Lexer {
    chars: Vec<char>,
    pos: usize,
}

impl Lexer {
    /// The characters being tokenized.
    pub closed spec fn input(&self) -> Seq<char> {
        self.chars@
    }

    /// Index of the next character to scan.
    pub closed spec fn cursor(&self) -> int {
        self.pos as int
    }

    pub closed spec fn wf(&self) -> bool {
        &&& self.pos <= self.chars@.len()
        &&& self.chars@.len() <= usize::MAX / 4
    }

    pub fn new(input: &str) -> (l: Lexer)
        requires
            input@.len() <= usize::MAX / 4,
        ensures
            l.wf(),
            l.input() == input@,
            l.cursor() == 0,
    {
        Lexer { chars: chars_of(input), pos: 0 }
    }

    /// Get the next token.
    pub fn next_token(&mut self) -> (r: Result<Token, LexError>)
        requires
            old(self).wf(),
        ensures
            final(self).wf(),
            final(self).input() == old(self).input(),
            ({
                let (res, j) = next_token_spec(old(self).input(), old(self).cursor());
                &&& final(self).cursor() == j
                &&& match r {
                    Ok(t) => res == Ok::<TokenView, LexErrorView>(t@),
                    Err(e) => res == Err::<TokenView, LexErrorView>(e@),
                }
            }),
            old(self).cursor() <= final(self).cursor(),
            (r matches Ok(t) && !(t is Eof)) ==> old(self).cursor() < final(self).cursor(),
    {
        let (r, j) = scan_next_token(&self.chars, self.pos);
        self.pos = j;
        r
    }

    /// Tokenize the rest of the input; the tokens end with `Eof`.
    pub fn tokenize(&mut self) -> (r: Result<Vec<Token>, LexError>)
        requires
            old(self).wf(),
        ensures
            final(self).wf(),
            final(self).input() == old(self).input(),
            match r {
                Ok(ts) => tokens_from(old(self).input(), old(self).cursor()) == Ok::<
                    Seq<TokenView>,
                    LexErrorView,
                >(ts@.map_values(|t: Token| t@)),
                Err(e) => tokens_from(old(self).input(), old(self).cursor()) == Err::<
                    Seq<TokenView>,
                    LexErrorView,
                >(e@),
            },
    {
        let ghost s = self.chars@;
        let ghost start = self.pos as int;
        let mut tokens: Vec<Token> = Vec::new();
        loop
            invariant
                self.wf(),
                self.chars@ == s,
                s == old(self).chars@,
                start == old(self).pos,
                start <= self.pos,
                tokens_from(s, start) == match tokens_from(s, self.pos as int) {
                    Ok(ts) => Ok(tokens@.map_values(|t: Token| t@) + ts),
                    Err(e) => Err::<Seq<TokenView>, LexErrorView>(e),
                },
            decreases s.len() - self.pos,
        {
            let ghost i = self.pos as int;
            let r = self.next_token();
            match r {
                Err(e) => {
                    return Err(e);
                },
                Ok(t) => {
                    let is_eof = match t {
                        Token::Eof => true,
                        _ => false,
                    };
                    let ghost tv = t@;
                    let ghost prev = tokens@.map_values(|t: Token| t@);
                    tokens.push(t);
                    assert(tokens@.map_values(|t: Token| t@) == prev.push(tv));
                    if is_eof {
                        assert(prev + seq![TokenView::Eof] == prev.push(tv));
                        return Ok(tokens);
                    }
                    proof {
                        match tokens_from(s, self.pos as int) {
                            Ok(ts) => {
                                assert(prev + (seq![tv] + ts) == prev.push(tv) + ts);
                            },
                            Err(e) => {},
                        }
                    }
                },
            }
        }
    }
}


// ---------------------------------------------------------------------------
// Finding expressions inside text
// ---------------------------------------------------------------------------

/// Expression type extracted from text.
#[derive(Debug, Clone, PartialEq)]
pub enum ExpressionType {
    /// Compile-time expression: `${{ expression }}`
    CompileTime(String),
    /// Runtime expression: `$[ expression ]`
    Runtime(String),
    /// Macro/variable reference: `$(variableName)`
    Macro(String),
    /// Plain text (not an expression)
    Text(String),
}

pub enum ExpressionTypeView {
    CompileTime(Seq<char>),
    Runtime(Seq<char>),
    Macro(Seq<char>),
    Text(Seq<char>),
}

impl View for ExpressionType {
    type V = ExpressionTypeView;

    open spec fn view(&self) -> ExpressionTypeView {
        match self {
            ExpressionType::CompileTime(s) => ExpressionTypeView::CompileTime(s@),
            ExpressionType::Runtime(s) => ExpressionTypeView::Runtime(s@),
            ExpressionType::Macro(s) => ExpressionTypeView::Macro(s@),
            ExpressionType::Text(s) => ExpressionTypeView::Text(s@),
        }
    }
}

/// Index of the `c1 c2` pair that closes a `${{` opened before `i`, with
/// `depth` levels open; nested `${{` open further levels.
pub open spec fn closing_pair(s: Seq<char>, i: int, c1: char, c2: char, depth: int) -> Option<int>
    decreases s.len() - i,
{
    if i < 0 || i + 1 >= s.len() {
        None
    } else if s[i] == c1 && s[i + 1] == c2 {
        if depth - 1 == 0 {
            Some(i)
        } else {
            closing_pair(s, i + 2, c1, c2, depth - 1)
        }
    } else if s[i] == '$' && i + 2 < s.len() && s[i + 1] == '{' && s[i + 2] == '{' {
        closing_pair(s, i + 3, c1, c2, depth + 1)
    } else {
        closing_pair(s, i + 1, c1, c2, depth)
    }
}

/// The bracket that `closing` closes: `(` for `)`, `[` otherwise.
pub open spec fn opening_of(closing: char) -> char {
    if closing == ')' {
        '('
    } else {
        '['
    }
}

/// Index of the `closing` bracket that balances one opened before `i`, skipping
/// brackets inside single-quoted strings.
pub open spec fn closing_single(
    s: Seq<char>,
    i: int,
    closing: char,
    depth: int,
    in_string: bool,
) -> Option<int>
    decreases s.len() - i,
{
    if i < 0 || i >= s.len() {
        None
    } else if s[i] == '\'' {
        closing_single(s, i + 1, closing, depth, !in_string)
    } else if !in_string && s[i] == opening_of(closing) {
        closing_single(s, i + 1, closing, depth + 1, in_string)
    } else if !in_string && s[i] == closing {
        if depth - 1 == 0 {
            Some(i)
        } else {
            closing_single(s, i + 1, closing, depth - 1, in_string)
        }
    } else {
        closing_single(s, i + 1, closing, depth, in_string)
    }
}

/// End of the plain text that starts at `i`: it stops before the first
/// expression that closes (a `$` that opens nothing it can close is text).
pub open spec fn text_end(s: Seq<char>, i: int) -> int
    decreases s.len() - i,
{
    if i < 0 || i >= s.len() {
        i
    } else if expr_at(s, i) is Some {
        i
    } else {
        text_end(s, i + 1)
    }
}

pub open spec fn prepend_piece(
    x: ExpressionTypeView,
    rest: Option<Seq<ExpressionTypeView>>,
) -> Option<Seq<ExpressionTypeView>> {
    match rest {
        Some(r) => Some(seq![x] + r),
        None => None,
    }
}

/// The piece of `s` that starts at index `pos` (not at the end), and the
/// index just after it; `None` where no piece can start (a `$` followed by
/// `{`, `[` or `(` that opens nothing it can close).
/// The expression that starts at `pos`, if one starts there and closes,
/// with the index just after it.
pub open spec fn expr_at(s: Seq<char>, pos: int) -> Option<(ExpressionTypeView, int)> {
    if pos + 3 < s.len() && s[pos] == '$' && s[pos + 1] == '{' && s[pos + 2] == '{'
        && closing_pair(s, pos + 3, '}', '}', 1) is Some {
        let end = closing_pair(s, pos + 3, '}', '}', 1)->0;
        Some((ExpressionTypeView::CompileTime(trim(s.subrange(pos + 3, end))), end + 2))
    } else if pos + 2 < s.len() && s[pos] == '$' && s[pos + 1] == '[' && closing_single(
        s,
        pos + 2,
        ']',
        1,
        false,
    ) is Some {
        let end = closing_single(s, pos + 2, ']', 1, false)->0;
        Some((ExpressionTypeView::Runtime(trim(s.subrange(pos + 2, end))), end + 1))
    } else if pos + 2 < s.len() && s[pos] == '$' && s[pos + 1] == '(' && closing_single(
        s,
        pos + 2,
        ')',
        1,
        false,
    ) is Some {
        let end = closing_single(s, pos + 2, ')', 1, false)->0;
        Some((ExpressionTypeView::Macro(trim(s.subrange(pos + 2, end))), end + 1))
    } else {
        None
    }
}

/// The piece that starts at `pos`: the expression that starts there, else
/// the plain text up to the next expression.
pub open spec fn piece_at(s: Seq<char>, pos: int) -> Option<(ExpressionTypeView, int)> {
    match expr_at(s, pos) {
        Some(x) => Some(x),
        None => {
            let t = text_end(s, pos + 1);
            Some((ExpressionTypeView::Text(s.subrange(pos, t)), t))
        },
    }
}

/// The pieces of `s` from index `pos` on; `None` where the scan gets stuck.
pub open spec fn pieces_from(s: Seq<char>, pos: int) -> Option<Seq<ExpressionTypeView>>
    decreases s.len() - pos,
{
    if pos < 0 || pos >= s.len() {
        Some(Seq::empty())
    } else {
        match piece_at(s, pos) {
            Some((x, next)) => {
                if pos < next <= s.len() {
                    prepend_piece(x, pieces_from(s, next))
                } else {
                    None
                }
            },
            None => None,
        }
    }
}

proof fn lemma_closing_pair_range(s: Seq<char>, i: int, c1: char, c2: char, depth: int)
    requires
        0 <= i,
    ensures
        closing_pair(s, i, c1, c2, depth) matches Some(e) ==> i <= e && e + 1 < s.len() && s[e] == c1
            && s[e + 1] == c2,
    decreases s.len() - i,
{
    if 0 <= i && i + 1 < s.len() {
        if s[i] == c1 && s[i + 1] == c2 {
            if depth - 1 != 0 {
                lemma_closing_pair_range(s, i + 2, c1, c2, depth - 1);
            }
        } else if s[i] == '$' && i + 2 < s.len() && s[i + 1] == '{' && s[i + 2] == '{' {
            lemma_closing_pair_range(s, i + 3, c1, c2, depth + 1);
        } else {
            lemma_closing_pair_range(s, i + 1, c1, c2, depth);
        }
    }
}

proof fn lemma_closing_single_range(
    s: Seq<char>,
    i: int,
    closing: char,
    depth: int,
    in_string: bool,
)
    requires
        0 <= i,
    ensures
        closing_single(s, i, closing, depth, in_string) matches Some(e) ==> i <= e < s.len() && s[e]
            == closing,
    decreases s.len() - i,
{
    if 0 <= i < s.len() {
        if s[i] == '\'' {
            lemma_closing_single_range(s, i + 1, closing, depth, !in_string);
        } else if !in_string && s[i] == opening_of(closing) {
            lemma_closing_single_range(s, i + 1, closing, depth + 1, in_string);
        } else if !in_string && s[i] == closing {
            if depth - 1 != 0 {
                lemma_closing_single_range(s, i + 1, closing, depth - 1, in_string);
            }
        } else {
            lemma_closing_single_range(s, i + 1, closing, depth, in_string);
        }
    }
}

proof fn lemma_text_end_range(s: Seq<char>, i: int)
    requires
        0 <= i <= s.len(),
    ensures
        i <= text_end(s, i) <= s.len(),
    decreases s.len() - i,
{
    if i < s.len() && expr_at(s, i) is None {
        lemma_text_end_range(s, i + 1);
    }
}

/// Finds the `c1 c2` pair closing a `${{` whose body starts at `start`.
pub fn find_closing(chars: &[char], start: usize, c1: char, c2: char) -> (r: Option<usize>)
    ensures
        match r {
            Some(e) => closing_pair(chars@, start as int, c1, c2, 1) == Some(e as int),
            None => closing_pair(chars@, start as int, c1, c2, 1) is None,
        },
{
    let mut depth: usize = 1;
    let mut i = start;
    while i < chars.len() && i + 1 < chars.len()
        invariant
            start <= i,
            1 <= depth <= i + 1,
            closing_pair(chars@, start as int, c1, c2, 1) == closing_pair(
                chars@,
                i as int,
                c1,
                c2,
                depth as int,
            ),
        decreases chars@.len() - i,
    {
        if chars[i] == c1 && chars[i + 1] == c2 {
            depth = depth - 1;
            if depth == 0 {
                return Some(i);
            }
            i = i + 2;
        } else if chars[i] == '$' && i + 2 < chars.len() && chars[i + 1] == '{' && chars[i + 2]
            == '{' {
            depth = depth + 1;
            i = i + 3;
        } else {
            i = i + 1;
        }
    }
    None
}

/// Finds the `closing` bracket balancing one opened just before `start`.
pub fn find_closing_single(chars: &[char], start: usize, closing: char) -> (r: Option<usize>)
    requires
        chars@.len() < usize::MAX,
    ensures
        match r {
            Some(e) => closing_single(chars@, start as int, closing, 1, false) == Some(e as int),
            None => closing_single(chars@, start as int, closing, 1, false) is None,
        },
{
    let opening = if closing == ')' {
        '('
    } else {
        '['
    };
    let mut depth: usize = 1;
    let mut i = start;
    let mut in_string = false;
    while i < chars.len()
        invariant
            start <= i,
            1 <= depth <= i + 1,
            chars@.len() < usize::MAX,
            opening == opening_of(closing),
            closing_single(chars@, start as int, closing, 1, false) == closing_single(
                chars@,
                i as int,
                closing,
                depth as int,
                in_string,
            ),
        decreases chars@.len() - i,
    {
        let ch = chars[i];
        if ch == '\'' {
            in_string = !in_string;
        } else if !in_string {
            if ch == opening {
                depth = depth + 1;
            } else if ch == closing {
                depth = depth - 1;
                if depth == 0 {
                    return Some(i);
                }
            }
        }
        i = i + 1;
    }
    None
}

fn trimmed_string(cs: &[char], from: usize, to: usize) -> (r: String)
    requires
        from <= to <= cs@.len(),
    ensures
        r@ == trim(cs@.subrange(from as int, to as int)),
{
    let v = slice_chars(cs, from, to);
    let t = trim_chars(v.as_slice());
    string_from(t.as_slice())
}

/// The expression that starts at `pos`, if one starts there and closes.
fn scan_expr(chars: &Vec<char>, pos: usize) -> (r: Option<(ExpressionType, usize)>)
    requires
        pos < chars@.len(),
        chars@.len() < usize::MAX,
    ensures
        match r {
            Some((x, next)) => expr_at(chars@, pos as int) == Some((x@, next as int)) && pos
                < next <= chars@.len(),
            None => expr_at(chars@, pos as int) is None,
        },
{
    let ghost s = chars@;
    let len = chars.len();
    if len - pos > 3 && chars[pos] == '$' && chars[pos + 1] == '{' && chars[pos + 2] == '{' {
        let found = find_closing(chars.as_slice(), pos + 3, '}', '}');
        proof {
            lemma_closing_pair_range(s, pos + 3, '}', '}', 1);
        }
        if let Some(end) = found {
            let expr = trimmed_string(chars.as_slice(), pos + 3, end);
            return Some((ExpressionType::CompileTime(expr), end + 2));
        }
    }
    if len - pos > 2 && chars[pos] == '$' && chars[pos + 1] == '[' {
        let found = find_closing_single(chars.as_slice(), pos + 2, ']');
        proof {
            lemma_closing_single_range(s, pos + 2, ']', 1, false);
        }
        if let Some(end) = found {
            let expr = trimmed_string(chars.as_slice(), pos + 2, end);
            return Some((ExpressionType::Runtime(expr), end + 1));
        }
    }
    if len - pos > 2 && chars[pos] == '$' && chars[pos + 1] == '(' {
        let found = find_closing_single(chars.as_slice(), pos + 2, ')');
        proof {
            lemma_closing_single_range(s, pos + 2, ')', 1, false);
        }
        if let Some(end) = found {
            let var = trimmed_string(chars.as_slice(), pos + 2, end);
            return Some((ExpressionType::Macro(var), end + 1));
        }
    }
    None
}

/// Where the plain text that starts at `i` ends.
fn text_end_from(chars: &Vec<char>, i: usize) -> (r: usize)
    requires
        i <= chars@.len(),
        chars@.len() < usize::MAX,
    ensures
        r == text_end(chars@, i as int),
        i <= r <= chars@.len(),
{
    let mut j = i;
    while j < chars.len()
        invariant
            i <= j <= chars@.len(),
            chars@.len() < usize::MAX,
            text_end(chars@, i as int) == text_end(chars@, j as int),
        decreases chars@.len() - j,
    {
        if scan_expr(chars, j).is_some() {
            return j;
        }
        j = j + 1;
    }
    j
}

/// Scans the piece that starts at `pos`.
fn scan_piece(chars: &Vec<char>, pos: usize) -> (r: (ExpressionType, usize))
    requires
        pos < chars@.len(),
        chars@.len() < usize::MAX,
    ensures
        piece_at(chars@, pos as int) == Some((r.0@, r.1 as int)),
        pos < r.1 <= chars@.len(),
{
    match scan_expr(chars, pos) {
        Some(x) => x,
        None => {
            let t = text_end_from(chars, pos + 1);
            let text = string_from(slice_chars(chars.as_slice(), pos, t).as_slice());
            (ExpressionType::Text(text), t)
        },
    }
}

/// The scan of any text for expressions finishes: from each position a
/// piece starts and ends further on.
pub proof fn lemma_extraction_finishes(s: Seq<char>, pos: int)
    requires
        0 <= pos,
    ensures
        pieces_from(s, pos) is Some,
    decreases s.len() - pos,
{
    if pos < s.len() {
        match expr_at(s, pos) {
            Some((x, next)) => {
                if pos + 3 < s.len() && s[pos] == '$' && s[pos + 1] == '{' && s[pos + 2] == '{' {
                    lemma_closing_pair_range(s, pos + 3, '}', '}', 1);
                }
                if pos + 2 < s.len() && s[pos] == '$' {
                    lemma_closing_single_range(s, pos + 2, ']', 1, false);
                    lemma_closing_single_range(s, pos + 2, ')', 1, false);
                }
                lemma_extraction_finishes(s, next);
            },
            None => {
                lemma_text_end_range(s, pos + 1);
                lemma_extraction_finishes(s, text_end(s, pos + 1));
            },
        }
    }
}

/// Extract all expressions from a string, in order, with the plain text
/// between them.
pub fn extract_expressions(input: &str) -> (r: Vec<ExpressionType>)
    requires
        input@.len() < usize::MAX,
    ensures
        pieces_from(input@, 0) == Some(r@.map_values(|e: ExpressionType| e@)),
{
    let chars = chars_of(input);
    let ghost s = chars@;
    let len = chars.len();
    let mut results: Vec<ExpressionType> = Vec::new();
    let mut current_pos: usize = 0;
    proof {
        lemma_extraction_finishes(s, 0);
    }
    while current_pos < len
        invariant
            s == chars@,
            len == s.len(),
            len < usize::MAX,
            current_pos <= len,
            pieces_from(s, 0) is Some,
            pieces_from(s, 0) == match pieces_from(s, current_pos as int) {
                Some(rest) => Some(results@.map_values(|e: ExpressionType| e@) + rest),
                None => None::<Seq<ExpressionTypeView>>,
            },
        decreases len - current_pos,
    {
        let ghost prev = results@.map_values(|e: ExpressionType| e@);
        let (x, next) = scan_piece(&chars, current_pos);
        let ghost item = x@;
        results.push(x);
        proof {
            assert(results@.map_values(|e: ExpressionType| e@) == prev.push(item));
            match pieces_from(s, next as int) {
                Some(rest) => {
                    assert(prev + (seq![item] + rest) == prev.push(item) + rest);
                },
                None => {},
            }
        }
        current_pos = next;
    }
    assert(prev_empty(results@.map_values(|e: ExpressionType| e@)));
    results
}

spec fn prev_empty(x: Seq<ExpressionTypeView>) -> bool {
    x + Seq::<ExpressionTypeView>::empty() == x
}

/// The text that a piece stood for: plain text as it is, an expression
/// between its delimiters.
pub open spec fn piece_source(p: ExpressionTypeView) -> Seq<char> {
    match p {
        ExpressionTypeView::Text(t) => t,
        ExpressionTypeView::CompileTime(e) => seq!['$', '{', '{'] + e + seq!['}', '}'],
        ExpressionTypeView::Runtime(e) => seq!['$', '['] + e + seq![']'],
        ExpressionTypeView::Macro(e) => seq!['$', '('] + e + seq![')'],
    }
}

/// The pieces written back one after the other.
pub open spec fn pieces_source(ps: Seq<ExpressionTypeView>) -> Seq<char>
    decreases ps.len(),
{
    if ps.len() == 0 {
        Seq::empty()
    } else {
        piece_source(ps[0]) + pieces_source(ps.drop_first())
    }
}

/// The text between the delimiters of the expression that starts at `pos`,
/// as it stands in `s` (before trimming).
pub open spec fn expr_body(s: Seq<char>, pos: int) -> Option<Seq<char>> {
    if pos + 3 < s.len() && s[pos] == '$' && s[pos + 1] == '{' && s[pos + 2] == '{'
        && closing_pair(s, pos + 3, '}', '}', 1) is Some {
        Some(s.subrange(pos + 3, closing_pair(s, pos + 3, '}', '}', 1)->0))
    } else if pos + 2 < s.len() && s[pos] == '$' && s[pos + 1] == '[' && closing_single(
        s,
        pos + 2,
        ']',
        1,
        false,
    ) is Some {
        Some(s.subrange(pos + 2, closing_single(s, pos + 2, ']', 1, false)->0))
    } else if pos + 2 < s.len() && s[pos] == '$' && s[pos + 1] == '(' && closing_single(
        s,
        pos + 2,
        ')',
        1,
        false,
    ) is Some {
        Some(s.subrange(pos + 2, closing_single(s, pos + 2, ')', 1, false)->0))
    } else {
        None
    }
}

/// No expression of `s` has whitespace directly inside its delimiters.
pub open spec fn tight_expressions(s: Seq<char>) -> bool {
    forall|i: int| 0 <= i < s.len() ==> (#[trigger] expr_body(s, i) matches Some(b) ==> trim(b) == b)
}

/// Text pieces are never empty and never follow one another, and each
/// expression comes without surrounding whitespace.
pub open spec fn pieces_well_formed(ps: Seq<ExpressionTypeView>) -> bool {
    forall|k: int|
        0 <= k < ps.len() ==> match #[trigger] ps[k] {
            ExpressionTypeView::Text(t) => t.len() > 0 && (k + 1 < ps.len() ==> !(ps[k + 1] is Text)),
            ExpressionTypeView::CompileTime(e) => trim(e) == e,
            ExpressionTypeView::Runtime(e) => trim(e) == e,
            ExpressionTypeView::Macro(e) => trim(e) == e,
        }
}

proof fn lemma_text_end_stops(s: Seq<char>, i: int)
    requires
        0 <= i,
    ensures
        text_end(s, i) < s.len() ==> expr_at(s, text_end(s, i)) is Some,
    decreases s.len() - i,
{
    if i < s.len() && expr_at(s, i) is None {
        lemma_text_end_stops(s, i + 1);
    }
}

proof fn lemma_pieces_shape(s: Seq<char>, pos: int)
    requires
        0 <= pos,
    ensures
        pieces_from(s, pos) matches Some(ps) ==> pieces_well_formed(ps) && (ps.len() > 0 ==> pos
            < s.len() && ps[0] == (piece_at(s, pos)->0).0),
    decreases s.len() - pos,
{
    if pos < s.len() {
        lemma_extraction_finishes(s, pos);
        let (x, next) = piece_at(s, pos)->0;
        lemma_pieces_shape(s, next);
        lemma_extraction_finishes(s, next);
        let rest = pieces_from(s, next)->0;
        let ps = seq![x] + rest;
        assert(pieces_from(s, pos) == Some(ps));
        match expr_at(s, pos) {
            Some((y, n)) => {
                if pos + 3 < s.len() && s[pos] == '$' && s[pos + 1] == '{' && s[pos + 2] == '{'
                    && closing_pair(s, pos + 3, '}', '}', 1) is Some {
                    let end = closing_pair(s, pos + 3, '}', '}', 1)->0;
                    lemma_trim_idempotent(s.subrange(pos + 3, end));
                } else if pos + 2 < s.len() && s[pos] == '$' && s[pos + 1] == '['
                    && closing_single(s, pos + 2, ']', 1, false) is Some {
                    let end = closing_single(s, pos + 2, ']', 1, false)->0;
                    lemma_trim_idempotent(s.subrange(pos + 2, end));
                } else {
                    let end = closing_single(s, pos + 2, ')', 1, false)->0;
                    lemma_trim_idempotent(s.subrange(pos + 2, end));
                }
            },
            None => {
                lemma_text_end_range(s, pos + 1);
                lemma_text_end_stops(s, pos + 1);
            },
        }
        assert forall|k: int| 0 <= k < ps.len() implies match #[trigger] ps[k] {
            ExpressionTypeView::Text(t) => t.len() > 0 && (k + 1 < ps.len() ==> !(ps[k + 1] is Text)),
            ExpressionTypeView::CompileTime(e) => trim(e) == e,
            ExpressionTypeView::Runtime(e) => trim(e) == e,
            ExpressionTypeView::Macro(e) => trim(e) == e,
        } by {
            if k > 0 {
                assert(ps[k] == rest[k - 1]);
                if k + 1 < ps.len() {
                    assert(ps[k + 1] == rest[k]);
                }
            } else if k + 1 < ps.len() {
                assert(ps[1] == rest[0]);
            }
        }
    }
}

proof fn lemma_pieces_source(s: Seq<char>, pos: int)
    requires
        0 <= pos <= s.len(),
        tight_expressions(s),
    ensures
        pieces_from(s, pos) matches Some(ps) ==> pieces_source(ps) == s.subrange(pos, s.len() as int),
    decreases s.len() - pos,
{
    if pos < s.len() {
        lemma_extraction_finishes(s, pos);
        let (x, next) = piece_at(s, pos)->0;
        lemma_extraction_finishes(s, next);
        let rest = pieces_from(s, next)->0;
        let ps = seq![x] + rest;
        assert(pieces_from(s, pos) == Some(ps));
        assert(ps[0] == x);
        assert(ps.drop_first() =~= rest);
        assert(piece_source(x) =~= s.subrange(pos, next)) by {
            if pos + 3 < s.len() && s[pos] == '$' && s[pos + 1] == '{' && s[pos + 2] == '{'
                && closing_pair(s, pos + 3, '}', '}', 1) is Some {
                lemma_closing_pair_range(s, pos + 3, '}', '}', 1);
                assert(expr_body(s, pos) is Some);
            } else if pos + 2 < s.len() && s[pos] == '$' && s[pos + 1] == '[' && closing_single(
                s,
                pos + 2,
                ']',
                1,
                false,
            ) is Some {
                lemma_closing_single_range(s, pos + 2, ']', 1, false);
                assert(expr_body(s, pos) is Some);
            } else if pos + 2 < s.len() && s[pos] == '$' && s[pos + 1] == '(' && closing_single(
                s,
                pos + 2,
                ')',
                1,
                false,
            ) is Some {
                lemma_closing_single_range(s, pos + 2, ')', 1, false);
                assert(expr_body(s, pos) is Some);
            } else {
                lemma_text_end_range(s, pos + 1);
            }
        }
        lemma_pieces_source(s, next);
        assert(s.subrange(pos, s.len() as int) =~= s.subrange(pos, next) + s.subrange(
            next,
            s.len() as int,
        ));
    }
}

proof fn lemma_text_end_no_dollar(s: Seq<char>, i: int)
    requires
        !s.contains('$'),
        0 <= i,
    ensures
        text_end(s, i) == if i < s.len() {
            s.len() as int
        } else {
            i
        },
    decreases s.len() - i,
{
    if i < s.len() {
        assert(s[i] != '$');
        lemma_text_end_no_dollar(s, i + 1);
    }
}

/// A text without `$` is one plain piece (none where it is empty).
pub proof fn lemma_pieces_without_dollar(s: Seq<char>)
    requires
        !s.contains('$'),
    ensures
        pieces_from(s, 0) == Some(
            if s.len() == 0 {
                Seq::<ExpressionTypeView>::empty()
            } else {
                seq![ExpressionTypeView::Text(s)]
            },
        ),
{
    if s.len() > 0 {
        assert(s[0] != '$');
        lemma_text_end_no_dollar(s, 1);
        assert(s.subrange(0, s.len() as int) =~= s);
        assert(pieces_from(s, s.len() as int) == Some(Seq::<ExpressionTypeView>::empty()));
        assert(seq![ExpressionTypeView::Text(s)] + Seq::<ExpressionTypeView>::empty() =~= seq![
            ExpressionTypeView::Text(s),
        ]);
    }
}

/// The pieces that `extract_expressions` gives are well formed: no text
/// piece is empty or follows another, and every expression comes trimmed.
pub proof fn lemma_extracted_pieces_well_formed(input: Seq<char>)
    ensures
        pieces_from(input, 0) matches Some(ps) && pieces_well_formed(ps),
{
    lemma_extraction_finishes(input, 0);
    lemma_pieces_shape(input, 0);
}

/// Where no expression has whitespace directly inside its delimiters, the
/// pieces that `extract_expressions` gives, written back, are the input.
pub proof fn lemma_extracted_pieces_reassemble(input: Seq<char>)
    requires
        tight_expressions(input),
    ensures
        pieces_from(input, 0) matches Some(ps) && pieces_source(ps) == input,
{
    lemma_extraction_finishes(input, 0);
    lemma_pieces_source(input, 0);
    assert(input.subrange(0, input.len() as int) =~= input);
}


} // verus!
