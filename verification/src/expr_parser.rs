//! Recursive-descent parser from expression tokens to a syntax tree.
//!
//! Precedence, lowest first: `?:`, `||`, `&&`, `== !=`, `< <= > >=`,
//! `+ -`, `* / %`, prefix `! -`, then postfix `.name`, `.name(..)`, `[..]`.
//! The grammar is stated by the spec functions `p_ternary` and its helpers,
//! which read a token sequence from a position and give the tree and the
//! position after it, or the error with the position where it arose.

use vstd::prelude::*;
use crate::lexer::{LexError, LexErrorView, Lexer, Token, TokenView, next_token_spec, token_text, tokens_from};

verus! {

broadcast use vstd::string::group_string_axioms;

// ---------------------------------------------------------------------------
// Syntax tree
// ---------------------------------------------------------------------------

/// Abstract syntax tree of an expression.
#[derive(Debug, PartialEq)]
pub enum Expr {
    Null,
    Bool(bool),
    /// A numeric literal, as written in the source.
    Number(String),
    String(String),
    /// Variable or property reference: `variables.foo`, `parameters['key']`.
    Reference(Reference),
    /// Function call: `eq(a, b)`.
    FunctionCall { name: String, args: Vec<Expr> },
    /// Index access: `arr[0]`.
    Index { object: Box<Expr>, index: Box<Expr> },
    /// Member access: `obj.property`.
    Member { object: Box<Expr>, property: String },
    Unary { op: UnaryOp, expr: Box<Expr> },
    Binary { op: BinaryOp, left: Box<Expr>, right: Box<Expr> },
    Ternary { condition: Box<Expr>, then_expr: Box<Expr>, else_expr: Box<Expr> },
    Array(Vec<Expr>),
    Object(Vec<ObjectEntry>),
}

/// One `key: value` entry of an object literal.
#[derive(Debug, PartialEq)]
pub struct ObjectEntry {
    pub key: String,
    pub value: Expr,
}

/// Reference to a context value.
#[derive(Debug, PartialEq)]
pub struct Reference {
    pub parts: Vec<ReferencePart>,
}

#[derive(Debug, PartialEq)]
pub enum ReferencePart {
    Property(String),
    Index(Box<Expr>),
}

#[derive(Debug, Clone, Copy, PartialEq, Eq, Structural)]
pub enum UnaryOp {
    Not,
    Neg,
}

#[derive(Debug, Clone, Copy, PartialEq, Eq, Structural)]
pub enum BinaryOp {
    Add,
    Sub,
    Mul,
    Div,
    Mod,
    Eq,
    Ne,
    Lt,
    Le,
    Gt,
    Ge,
    And,
    Or,
}

/// Mathematical form of a tree: strings become character sequences and
/// vectors sequences.
pub enum ExprView {
    Null,
    Bool(bool),
    Number(Seq<char>),
    Str(Seq<char>),
    Reference(Seq<RefPartView>),
    FunctionCall { name: Seq<char>, args: Seq<ExprView> },
    Index { object: Box<ExprView>, index: Box<ExprView> },
    Member { object: Box<ExprView>, property: Seq<char> },
    Unary { op: UnaryOp, expr: Box<ExprView> },
    Binary { op: BinaryOp, left: Box<ExprView>, right: Box<ExprView> },
    Ternary { condition: Box<ExprView>, then_expr: Box<ExprView>, else_expr: Box<ExprView> },
    Array(Seq<ExprView>),
    Object(Seq<EntryView>),
}

pub struct EntryView {
    pub key: Seq<char>,
    pub value: ExprView,
}

pub enum RefPartView {
    Property(Seq<char>),
    Index(Box<ExprView>),
}

pub open spec fn expr_view(e: Expr) -> ExprView
    decreases e,
{
    match e {
        Expr::Null => ExprView::Null,
        Expr::Bool(b) => ExprView::Bool(b),
        Expr::Number(n) => ExprView::Number(n@),
        Expr::String(s) => ExprView::Str(s@),
        Expr::Reference(r) => ExprView::Reference(parts_view(r.parts@)),
        Expr::FunctionCall { name, args } => ExprView::FunctionCall { name: name@, args: exprs_view(args@) },
        Expr::Index { object, index } => ExprView::Index {
            object: Box::new(expr_view(*object)),
            index: Box::new(expr_view(*index)),
        },
        Expr::Member { object, property } => ExprView::Member {
            object: Box::new(expr_view(*object)),
            property: property@,
        },
        Expr::Unary { op, expr } => ExprView::Unary { op, expr: Box::new(expr_view(*expr)) },
        Expr::Binary { op, left, right } => ExprView::Binary {
            op,
            left: Box::new(expr_view(*left)),
            right: Box::new(expr_view(*right)),
        },
        Expr::Ternary { condition, then_expr, else_expr } => ExprView::Ternary {
            condition: Box::new(expr_view(*condition)),
            then_expr: Box::new(expr_view(*then_expr)),
            else_expr: Box::new(expr_view(*else_expr)),
        },
        Expr::Array(items) => ExprView::Array(exprs_view(items@)),
        Expr::Object(pairs) => ExprView::Object(pairs_view(pairs@)),
    }
}

pub open spec fn exprs_view(s: Seq<Expr>) -> Seq<ExprView>
    decreases s,
{
    if s.len() == 0 {
        Seq::empty()
    } else {
        exprs_view(s.subrange(0, s.len() - 1)).push(expr_view(s[s.len() - 1]))
    }
}

pub open spec fn parts_view(s: Seq<ReferencePart>) -> Seq<RefPartView>
    decreases s,
{
    if s.len() == 0 {
        Seq::empty()
    } else {
        parts_view(s.subrange(0, s.len() - 1)).push(
            match s[s.len() - 1] {
                ReferencePart::Property(p) => RefPartView::Property(p@),
                ReferencePart::Index(i) => RefPartView::Index(Box::new(expr_view(*i))),
            },
        )
    }
}

pub open spec fn pairs_view(s: Seq<ObjectEntry>) -> Seq<EntryView>
    decreases s,
{
    if s.len() == 0 {
        Seq::empty()
    } else {
        pairs_view(s.subrange(0, s.len() - 1)).push(
            EntryView { key: s[s.len() - 1].key@, value: expr_view(s[s.len() - 1].value) },
        )
    }
}

impl View for Expr {
    type V = ExprView;

    open spec fn view(&self) -> ExprView {
        expr_view(*self)
    }
}

proof fn lemma_exprs_push(s: Seq<Expr>, e: Expr)
    ensures
        exprs_view(s.push(e)) == exprs_view(s).push(expr_view(e)),
{
    assert(s.push(e).subrange(0, s.len() as int) == s);
}

proof fn lemma_parts_push(s: Seq<ReferencePart>, p: ReferencePart)
    ensures
        parts_view(s.push(p)) == parts_view(s).push(
            match p {
                ReferencePart::Property(n) => RefPartView::Property(n@),
                ReferencePart::Index(i) => RefPartView::Index(Box::new(expr_view(*i))),
            },
        ),
{
    assert(s.push(p).subrange(0, s.len() as int) == s);
}

proof fn lemma_pairs_push(s: Seq<ObjectEntry>, p: ObjectEntry)
    ensures
        pairs_view(s.push(p)) == pairs_view(s).push(EntryView { key: p.key@, value: expr_view(p.value) }),
{
    assert(s.push(p).subrange(0, s.len() as int) == s);
}

proof fn lemma_exprs_empty()
    ensures
        exprs_view(Seq::<Expr>::empty()) == Seq::<ExprView>::empty(),
{
}

// ---------------------------------------------------------------------------
// Operators and errors
// ---------------------------------------------------------------------------

pub open spec fn binary_op_text(op: BinaryOp) -> Seq<char> {
    match op {
        BinaryOp::Add => "+"@,
        BinaryOp::Sub => "-"@,
        BinaryOp::Mul => "*"@,
        BinaryOp::Div => "/"@,
        BinaryOp::Mod => "%"@,
        BinaryOp::Eq => "=="@,
        BinaryOp::Ne => "!="@,
        BinaryOp::Lt => "<"@,
        BinaryOp::Le => "<="@,
        BinaryOp::Gt => ">"@,
        BinaryOp::Ge => ">="@,
        BinaryOp::And => "&&"@,
        BinaryOp::Or => "||"@,
    }
}

impl BinaryOp {
    /// The operator's symbol, as displayed.
    pub fn to_display_string(&self) -> (r: String)
        ensures
            r@ == binary_op_text(*self),
    {
        match self {
            BinaryOp::Add => String::from_str("+"),
            BinaryOp::Sub => String::from_str("-"),
            BinaryOp::Mul => String::from_str("*"),
            BinaryOp::Div => String::from_str("/"),
            BinaryOp::Mod => String::from_str("%"),
            BinaryOp::Eq => String::from_str("=="),
            BinaryOp::Ne => String::from_str("!="),
            BinaryOp::Lt => String::from_str("<"),
            BinaryOp::Le => String::from_str("<="),
            BinaryOp::Gt => String::from_str(">"),
            BinaryOp::Ge => String::from_str(">="),
            BinaryOp::And => String::from_str("&&"),
            BinaryOp::Or => String::from_str("||"),
        }
    }
}

/// Parser error.
#[derive(Debug, Clone)]
pub struct ParseExprError {
    pub message: String,
    /// Index of the token at which the error arose.
    pub position: usize,
}

pub struct ExprErrorView {
    pub message: Seq<char>,
    pub position: int,
}

impl View for ParseExprError {
    type V = ExprErrorView;

    open spec fn view(&self) -> ExprErrorView {
        ExprErrorView { message: self.message@, position: self.position as int }
    }
}

pub open spec fn parse_error_text(e: ExprErrorView) -> Seq<char> {
    "parse error at position "@ + crate::text::decimal(e.position as nat) + ": "@ + e.message
}

impl ParseExprError {
    /// "parse error at position N: message".
    pub fn to_display_string(&self) -> (r: String)
        ensures
            r@ == parse_error_text(self@),
    {
        let mut r = String::from_str("parse error at position ");
        let d = crate::text::usize_to_decimal(self.position);
        r.append(d.as_str());
        r.append(": ");
        r.append(self.message.as_str());
        r
    }

    /// The parser error that a lexer error becomes: same message and position.
    pub fn from_lex_error(err: LexError) -> (r: Self)
        ensures
            r.message@ == err.message@,
            r.position == err.position,
    {
        ParseExprError { message: err.message, position: err.position }
    }
}

impl From<LexError> for ParseExprError {
    fn from(err: LexError) -> (r: Self) {
        ParseExprError { message: err.message, position: err.position }
    }
}

impl vstd::std_specs::convert::FromSpecImpl<LexError> for ParseExprError {
    open spec fn obeys_from_spec() -> bool {
        true
    }

    open spec fn from_spec(err: LexError) -> ParseExprError {
        ParseExprError { message: err.message, position: err.position }
    }
}

pub open spec fn lex_error_view(e: LexErrorView) -> ExprErrorView {
    ExprErrorView { message: e.message, position: e.position as int }
}

pub open spec fn err_at(msg: Seq<char>, p: int) -> ExprErrorView {
    ExprErrorView { message: msg, position: p }
}

/// Debug form of a string: in double quotes, with `"` `\` and control
/// characters escaped.
pub uninterp spec fn debug_quoted(s: Seq<char>) -> Seq<char>;

/// `format!("{:?}", s)` of a string.
#[verifier::external_body]
pub(crate) fn debug_quoted_text(s: &str) -> (r: String)
    ensures
        r@ == debug_quoted(s@),
{
    format!("{:?}", s)
}

/// How a token is named in an error message: its variant name, with the
/// payload in brackets (the number as written, strings in debug form).
pub open spec fn token_debug(t: TokenView) -> Seq<char> {
    match t {
        TokenView::Null => "Null"@,
        TokenView::True => "True"@,
        TokenView::False => "False"@,
        TokenView::Number(n) => "Number("@ + n + ")"@,
        TokenView::Str(s) => "String("@ + debug_quoted(s) + ")"@,
        TokenView::Identifier(s) => "Identifier("@ + debug_quoted(s) + ")"@,
        TokenView::Plus => "Plus"@,
        TokenView::Minus => "Minus"@,
        TokenView::Star => "Star"@,
        TokenView::Slash => "Slash"@,
        TokenView::Percent => "Percent"@,
        TokenView::Eq => "Eq"@,
        TokenView::Ne => "Ne"@,
        TokenView::Lt => "Lt"@,
        TokenView::Le => "Le"@,
        TokenView::Gt => "Gt"@,
        TokenView::Ge => "Ge"@,
        TokenView::And => "And"@,
        TokenView::Or => "Or"@,
        TokenView::Not => "Not"@,
        TokenView::Dot => "Dot"@,
        TokenView::Comma => "Comma"@,
        TokenView::Colon => "Colon"@,
        TokenView::Question => "Question"@,
        TokenView::LParen => "LParen"@,
        TokenView::RParen => "RParen"@,
        TokenView::LBracket => "LBracket"@,
        TokenView::RBracket => "RBracket"@,
        TokenView::LBrace => "LBrace"@,
        TokenView::RBrace => "RBrace"@,
        TokenView::Eof => "Eof"@,
    }
}

pub open spec fn unexpected_token(t: TokenView) -> Seq<char> {
    "unexpected token: "@ + token_debug(t)
}

// ---------------------------------------------------------------------------
// The grammar
// ---------------------------------------------------------------------------

/// The token at `p`; past the end, `Eof`.
pub open spec fn tok(ts: Seq<TokenView>, p: int) -> TokenView {
    if 0 <= p < ts.len() {
        ts[p]
    } else {
        TokenView::Eof
    }
}

/// The operator of binary level `k` (0: `* / %`, 1: `+ -`, 2: comparison,
/// 3: equality, 4: `&&`, 5: `||`) that token `t` stands for.
pub open spec fn binary_op_at(k: nat, t: TokenView) -> Option<BinaryOp> {
    if k == 0 {
        match t {
            TokenView::Star => Some(BinaryOp::Mul),
            TokenView::Slash => Some(BinaryOp::Div),
            TokenView::Percent => Some(BinaryOp::Mod),
            _ => None,
        }
    } else if k == 1 {
        match t {
            TokenView::Plus => Some(BinaryOp::Add),
            TokenView::Minus => Some(BinaryOp::Sub),
            _ => None,
        }
    } else if k == 2 {
        match t {
            TokenView::Lt => Some(BinaryOp::Lt),
            TokenView::Le => Some(BinaryOp::Le),
            TokenView::Gt => Some(BinaryOp::Gt),
            TokenView::Ge => Some(BinaryOp::Ge),
            _ => None,
        }
    } else if k == 3 {
        match t {
            TokenView::Eq => Some(BinaryOp::Eq),
            TokenView::Ne => Some(BinaryOp::Ne),
            _ => None,
        }
    } else if k == 4 {
        match t {
            TokenView::And => Some(BinaryOp::And),
            _ => None,
        }
    } else if k == 5 {
        match t {
            TokenView::Or => Some(BinaryOp::Or),
            _ => None,
        }
    } else {
        None
    }
}

/// Every operator token between two operands is read as the operator it
/// spells: the operator displays as exactly the token's text, and each of
/// the thirteen operator symbols has a level that reads it.
pub proof fn lemma_binary_op_spells_token(k: nat, t: TokenView)
    ensures
        binary_op_at(k, t) matches Some(op) ==> binary_op_text(op) == token_text(t),
        (t is Star || t is Slash || t is Percent || t is Plus || t is Minus || t is Lt || t is Le || t is Gt
            || t is Ge || t is Eq || t is Ne || t is And || t is Or) ==> exists|j: nat|
            j < 6 && #[trigger] binary_op_at(j, t) is Some,
{
    if t is Star || t is Slash || t is Percent {
        assert(binary_op_at(0, t) is Some);
    } else if t is Plus || t is Minus {
        assert(binary_op_at(1, t) is Some);
    } else if t is Lt || t is Le || t is Gt || t is Ge {
        assert(binary_op_at(2, t) is Some);
    } else if t is Eq || t is Ne {
        assert(binary_op_at(3, t) is Some);
    } else if t is And {
        assert(binary_op_at(4, t) is Some);
    } else if t is Or {
        assert(binary_op_at(5, t) is Some);
    }
}

/// How tightly an operator binds, tightest first: `* / %`, then `+ -`,
/// then `< <= > >=`, then `== !=`, then `&&`, then `||`.
pub open spec fn binding_rank(op: BinaryOp) -> nat {
    match op {
        BinaryOp::Mul | BinaryOp::Div | BinaryOp::Mod => 0,
        BinaryOp::Add | BinaryOp::Sub => 1,
        BinaryOp::Lt | BinaryOp::Le | BinaryOp::Gt | BinaryOp::Ge => 2,
        BinaryOp::Eq | BinaryOp::Ne => 3,
        BinaryOp::And => 4,
        BinaryOp::Or => 5,
    }
}

/// Each operator is read at the level of its binding strength, so tighter
/// operators group first.
pub proof fn lemma_binary_op_precedence(k: nat, t: TokenView)
    ensures
        binary_op_at(k, t) matches Some(op) ==> k == binding_rank(op),
{
}

/// No two operator tokens are read as the same operator: reading is
/// one-to-one.
pub proof fn lemma_binary_op_distinct(k1: nat, t1: TokenView, k2: nat, t2: TokenView)
    requires
        binary_op_at(k1, t1) is Some,
        binary_op_at(k1, t1) == binary_op_at(k2, t2),
    ensures
        t1 == t2,
{
}

/// `q` lies after `p` and within the tokens.  Every successful parse ends at
/// such a position; the grammar recurses only on it.
pub open spec fn moved(ts: Seq<TokenView>, p: int, q: int) -> bool {
    p < q <= ts.len()
}

/// `cond ? then : else`, or an `||` expression.
pub open spec fn p_ternary(ts: Seq<TokenView>, p: int) -> Result<(ExprView, int), ExprErrorView>
    decreases ts.len() - p, 9nat,
{
    match p_binary(ts, 5, p) {
        Err(e) => Err(e),
        Ok((c, q)) => if tok(ts, q) == TokenView::Question && moved(ts, p, q) {
            match p_ternary(ts, q + 1) {
                Err(e) => Err(e),
                Ok((t, q2)) => if tok(ts, q2) != TokenView::Colon {
                    Err(err_at("expected ':' in ternary expression"@, q2))
                } else if moved(ts, q, q2) {
                    match p_ternary(ts, q2 + 1) {
                        Err(e) => Err(e),
                        Ok((f, q3)) => Ok(
                            (
                                ExprView::Ternary {
                                    condition: Box::new(c),
                                    then_expr: Box::new(t),
                                    else_expr: Box::new(f),
                                },
                                q3,
                            ),
                        ),
                    }
                } else {
                    Ok((c, q))
                },
            }
        } else {
            Ok((c, q))
        },
    }
}

/// A left-associative chain of binary level `k` over the next level down.
pub open spec fn p_binary(ts: Seq<TokenView>, k: nat, p: int) -> Result<(ExprView, int), ExprErrorView>
    decreases ts.len() - p, k + 3,
{
    let first = if k == 0 {
        p_unary(ts, p)
    } else {
        p_binary(ts, (k - 1) as nat, p)
    };
    match first {
        Err(e) => Err(e),
        Ok((l, q)) => if binary_op_at(k, tok(ts, q)) is Some && moved(ts, p, q) {
            binary_tail(ts, k, l, q)
        } else {
            Ok((l, q))
        },
    }
}

/// The rest of a binary chain whose left operand `left` ends at `q`.
pub open spec fn binary_tail(ts: Seq<TokenView>, k: nat, left: ExprView, q: int) -> Result<
    (ExprView, int),
    ExprErrorView,
>
    decreases ts.len() - q, 0nat,
{
    match binary_op_at(k, tok(ts, q)) {
        None => Ok((left, q)),
        Some(op) => {
            let right = if k == 0 {
                p_unary(ts, q + 1)
            } else {
                p_binary(ts, (k - 1) as nat, q + 1)
            };
            match right {
                Err(e) => Err(e),
                Ok((r, q2)) => {
                    let n = ExprView::Binary { op, left: Box::new(left), right: Box::new(r) };
                    if binary_op_at(k, tok(ts, q2)) is Some && moved(ts, q, q2) {
                        binary_tail(ts, k, n, q2)
                    } else {
                        Ok((n, q2))
                    }
                },
            }
        },
    }
}

/// Prefix `!` and `-`, then a postfix expression.
pub open spec fn p_unary(ts: Seq<TokenView>, p: int) -> Result<(ExprView, int), ExprErrorView>
    decreases ts.len() - p, 2nat,
{
    if tok(ts, p) == TokenView::Not {
        match p_unary(ts, p + 1) {
            Err(e) => Err(e),
            Ok((e, q)) => Ok((ExprView::Unary { op: UnaryOp::Not, expr: Box::new(e) }, q)),
        }
    } else if tok(ts, p) == TokenView::Minus {
        match p_unary(ts, p + 1) {
            Err(e) => Err(e),
            Ok((e, q)) => Ok((ExprView::Unary { op: UnaryOp::Neg, expr: Box::new(e) }, q)),
        }
    } else {
        p_postfix(ts, p)
    }
}

/// A leading `!` is read as logical not and a leading `-` as negation of
/// what follows; anything else starts a postfix expression.
pub proof fn lemma_unary_operators(ts: Seq<TokenView>, p: int)
    ensures
        tok(ts, p) == TokenView::Not ==> (p_unary(ts, p) matches Ok((e, q)) ==> (e matches ExprView::Unary {
            op,
            expr,
        } && op == UnaryOp::Not && p_unary(ts, p + 1) == Ok::<(ExprView, int), ExprErrorView>((*expr, q)))),
        tok(ts, p) == TokenView::Minus ==> (p_unary(ts, p) matches Ok((e, q)) ==> (e matches ExprView::Unary {
            op,
            expr,
        } && op == UnaryOp::Neg && p_unary(ts, p + 1) == Ok::<(ExprView, int), ExprErrorView>((*expr, q)))),
        tok(ts, p) != TokenView::Not && tok(ts, p) != TokenView::Minus ==> p_unary(ts, p) == p_postfix(ts, p),
{
}

/// A primary expression followed by member, method-call and index suffixes.
pub open spec fn p_postfix(ts: Seq<TokenView>, p: int) -> Result<(ExprView, int), ExprErrorView>
    decreases ts.len() - p, 1nat,
{
    match p_primary(ts, p) {
        Err(e) => Err(e),
        Ok((e, q)) => if moved(ts, p, q) {
            postfix_tail(ts, e, q)
        } else {
            Ok((e, q))
        },
    }
}

/// The suffixes after `e`, which ends at `q`.  A method call `e.f(args)`
/// becomes the call `f(e, args)`.
pub open spec fn postfix_tail(ts: Seq<TokenView>, e: ExprView, q: int) -> Result<
    (ExprView, int),
    ExprErrorView,
>
    decreases ts.len() - q, 0nat,
{
    if tok(ts, q) == TokenView::Dot {
        match tok(ts, q + 1) {
            TokenView::Identifier(prop) => if tok(ts, q + 2) == TokenView::LParen {
                match p_args(ts, q + 2) {
                    Err(err) => Err(err),
                    Ok((args, q3)) => {
                        let n = ExprView::FunctionCall { name: prop, args: seq![e] + args };
                        if moved(ts, q, q3) {
                            postfix_tail(ts, n, q3)
                        } else {
                            Ok((n, q3))
                        }
                    },
                }
            } else {
                let n = ExprView::Member { object: Box::new(e), property: prop };
                postfix_tail(ts, n, q + 2)
            },
            _ => Err(err_at("expected property name after '.'"@, q + 2)),
        }
    } else if tok(ts, q) == TokenView::LBracket {
        match p_ternary(ts, q + 1) {
            Err(err) => Err(err),
            Ok((i, q2)) => if tok(ts, q2) == TokenView::RBracket {
                let n = ExprView::Index { object: Box::new(e), index: Box::new(i) };
                if moved(ts, q, q2 + 1) {
                    postfix_tail(ts, n, q2 + 1)
                } else {
                    Ok((n, q2 + 1))
                }
            } else {
                Err(err_at("expected ']'"@, q2))
            },
        }
    } else {
        Ok((e, q))
    }
}

/// A parenthesised argument list starting at `p`.
pub open spec fn p_args(ts: Seq<TokenView>, p: int) -> Result<(Seq<ExprView>, int), ExprErrorView>
    decreases ts.len() - p, 0nat,
{
    if tok(ts, p) != TokenView::LParen {
        Err(err_at("expected '('"@, p))
    } else {
        p_list(ts, p + 1, TokenView::RParen, "expected ')'"@)
    }
}

/// The items of a comma-separated list from `p`, which ends with `close`; a
/// trailing comma is allowed.  `msg` is the error when `close` is missing.
pub open spec fn p_list(ts: Seq<TokenView>, p: int, close: TokenView, msg: Seq<char>) -> Result<
    (Seq<ExprView>, int),
    ExprErrorView,
>
    decreases ts.len() - p, 10nat,
{
    if tok(ts, p) == close {
        Ok((Seq::empty(), p + 1))
    } else {
        match p_ternary(ts, p) {
            Err(e) => Err(e),
            Ok((a, q)) => if moved(ts, p, q) {
                list_tail(ts, seq![a], q, close, msg)
            } else {
                Ok((seq![a], q))
            },
        }
    }
}

pub open spec fn list_tail(
    ts: Seq<TokenView>,
    acc: Seq<ExprView>,
    q: int,
    close: TokenView,
    msg: Seq<char>,
) -> Result<(Seq<ExprView>, int), ExprErrorView>
    decreases ts.len() - q, 0nat,
{
    if tok(ts, q) == TokenView::Comma {
        if tok(ts, q + 1) == close {
            Ok((acc, q + 2))
        } else {
            match p_ternary(ts, q + 1) {
                Err(e) => Err(e),
                Ok((a, q2)) => if moved(ts, q, q2) {
                    list_tail(ts, acc.push(a), q2, close, msg)
                } else {
                    Ok((acc.push(a), q2))
                },
            }
        }
    } else if tok(ts, q) == close {
        Ok((acc, q + 1))
    } else {
        Err(err_at(msg, q))
    }
}

/// The `.name` and `[index]` parts after a reference's first name.
pub open spec fn ref_tail(ts: Seq<TokenView>, parts: Seq<RefPartView>, q: int) -> Result<
    (ExprView, int),
    ExprErrorView,
>
    decreases ts.len() - q, 0nat,
{
    if tok(ts, q) == TokenView::Dot {
        match tok(ts, q + 1) {
            TokenView::Identifier(prop) => ref_tail(ts, parts.push(RefPartView::Property(prop)), q + 2),
            _ => Err(err_at("expected property name after '.'"@, q + 2)),
        }
    } else if tok(ts, q) == TokenView::LBracket {
        match p_ternary(ts, q + 1) {
            Err(e) => Err(e),
            Ok((i, q2)) => if tok(ts, q2) == TokenView::RBracket {
                let ps = parts.push(RefPartView::Index(Box::new(i)));
                if moved(ts, q, q2 + 1) {
                    ref_tail(ts, ps, q2 + 1)
                } else {
                    Ok((ExprView::Reference(ps), q2 + 1))
                }
            } else {
                Err(err_at("expected ']'"@, q2))
            },
        }
    } else {
        Ok((ExprView::Reference(parts), q))
    }
}

/// The entries `key: value` of an object literal from `q`.
pub open spec fn object_entries(ts: Seq<TokenView>, acc: Seq<EntryView>, q: int) -> Result<
    (ExprView, int),
    ExprErrorView,
>
    decreases ts.len() - q, 0nat,
{
    let key = match tok(ts, q) {
        TokenView::Identifier(k) => Some(k),
        TokenView::Str(k) => Some(k),
        _ => None,
    };
    match key {
        None => Err(err_at("expected object key"@, q + 1)),
        Some(k) => if tok(ts, q + 1) != TokenView::Colon {
            Err(err_at("expected ':' after object key"@, q + 1))
        } else {
            match p_ternary(ts, q + 2) {
                Err(e) => Err(e),
                Ok((v, q2)) => {
                    let acc2 = acc.push(EntryView { key: k, value: v });
                    if tok(ts, q2) == TokenView::Comma {
                        if tok(ts, q2 + 1) == TokenView::RBrace {
                            Ok((ExprView::Object(acc2), q2 + 2))
                        } else if moved(ts, q, q2 + 1) {
                            object_entries(ts, acc2, q2 + 1)
                        } else {
                            Ok((ExprView::Object(acc2), q2 + 1))
                        }
                    } else if tok(ts, q2) == TokenView::RBrace {
                        Ok((ExprView::Object(acc2), q2 + 1))
                    } else {
                        Err(err_at("expected '}'"@, q2))
                    }
                },
            }
        },
    }
}

/// Literals, references, calls, parenthesised expressions, arrays, objects.
pub open spec fn p_primary(ts: Seq<TokenView>, p: int) -> Result<(ExprView, int), ExprErrorView>
    decreases ts.len() - p, 0nat,
{
    match tok(ts, p) {
        TokenView::Null => Ok((ExprView::Null, p + 1)),
        TokenView::True => Ok((ExprView::Bool(true), p + 1)),
        TokenView::False => Ok((ExprView::Bool(false), p + 1)),
        TokenView::Number(n) => Ok((ExprView::Number(n), p + 1)),
        TokenView::Str(s) => Ok((ExprView::Str(s), p + 1)),
        TokenView::Identifier(name) => if tok(ts, p + 1) == TokenView::LParen {
            match p_args(ts, p + 1) {
                Err(e) => Err(e),
                Ok((args, q)) => Ok((ExprView::FunctionCall { name, args }, q)),
            }
        } else {
            ref_tail(ts, seq![RefPartView::Property(name)], p + 1)
        },
        TokenView::LParen => match p_ternary(ts, p + 1) {
            Err(e) => Err(e),
            Ok((e, q)) => if tok(ts, q) == TokenView::RParen {
                Ok((e, q + 1))
            } else {
                Err(err_at("expected ')'"@, q))
            },
        },
        TokenView::LBracket => match p_list(ts, p + 1, TokenView::RBracket, "expected ']'"@) {
            Err(e) => Err(e),
            Ok((items, q)) => Ok((ExprView::Array(items), q)),
        },
        TokenView::LBrace => if tok(ts, p + 1) == TokenView::RBrace {
            Ok((ExprView::Object(Seq::empty()), p + 2))
        } else {
            object_entries(ts, Seq::empty(), p + 1)
        },
        t => Err(err_at(unexpected_token(t), p)),
    }
}

/// A whole token sequence read from `p`: an expression that must be
/// followed by nothing but the end.
pub open spec fn parse_tokens(ts: Seq<TokenView>, p: int) -> Result<(ExprView, int), ExprErrorView> {
    match p_ternary(ts, p) {
        Err(e) => Err(e),
        Ok((e, q)) => if q < ts.len() && tok(ts, q) != TokenView::Eof {
            Err(err_at(unexpected_token(tok(ts, q)), q))
        } else {
            Ok((e, q))
        },
    }
}

/// An expression read from source text: its tokens, then the grammar.
pub open spec fn parse_text(s: Seq<char>) -> Result<ExprView, ExprErrorView> {
    match tokens_from(s, 0) {
        Err(le) => Err(lex_error_view(le)),
        Ok(ts) => match parse_tokens(ts, 0) {
            Err(e) => Err(e),
            Ok((e, _q)) => Ok(e),
        },
    }
}


// ---------------------------------------------------------------------------
// References
// ---------------------------------------------------------------------------

impl Reference {
    /// A reference to the name `name`.
    pub fn new(name: String) -> (r: Self)
        ensures
            parts_view(r.parts@) == seq![RefPartView::Property(name@)],
    {
        let mut parts: Vec<ReferencePart> = Vec::new();
        parts.push(ReferencePart::Property(name));
        proof {
            lemma_parts_push(Seq::empty(), parts@[0]);
            assert(Seq::<ReferencePart>::empty().push(parts@[0]) == parts@);
        }
        Reference { parts }
    }

    /// This reference followed by `.name`.
    pub fn with_property(self, name: String) -> (r: Self)
        ensures
            parts_view(r.parts@) == parts_view(self.parts@).push(RefPartView::Property(name@)),
    {
        let mut parts = self.parts;
        let ghost old_parts = parts@;
        parts.push(ReferencePart::Property(name));
        proof {
            lemma_parts_push(old_parts, ReferencePart::Property(name));
        }
        Reference { parts }
    }

    /// This reference followed by `[index]`.
    pub fn with_index(self, index: Expr) -> (r: Self)
        ensures
            parts_view(r.parts@) == parts_view(self.parts@).push(RefPartView::Index(Box::new(index@))),
    {
        let mut parts = self.parts;
        let ghost old_parts = parts@;
        let ghost iv = index@;
        parts.push(ReferencePart::Index(Box::new(index)));
        proof {
            lemma_parts_push(old_parts, parts@[old_parts.len() as int]);
            assert(old_parts.push(parts@[old_parts.len() as int]) == parts@);
        }
        Reference { parts }
    }
}

proof fn lemma_exprs_append(s: Seq<Expr>, t: Seq<Expr>)
    ensures
        exprs_view(s + t) == exprs_view(s) + exprs_view(t),
    decreases t.len(),
{
    if t.len() == 0 {
        assert(s + t == s);
        assert(exprs_view(t) == Seq::<ExprView>::empty());
        assert(exprs_view(s) + Seq::<ExprView>::empty() == exprs_view(s));
    } else {
        let t0 = t.subrange(0, t.len() - 1);
        lemma_exprs_append(s, t0);
        assert(s + t == (s + t0).push(t[t.len() - 1]));
        assert(t0.push(t[t.len() - 1]) == t);
        lemma_exprs_push(s + t0, t[t.len() - 1]);
        lemma_exprs_push(t0, t[t.len() - 1]);
        assert(exprs_view(s) + exprs_view(t0).push(expr_view(t[t.len() - 1])) == (exprs_view(s)
            + exprs_view(t0)).push(expr_view(t[t.len() - 1])));
    }
}

/// A successful token sequence is at most one longer than the text after `i`.
proof fn lemma_tokens_len(s: Seq<char>, i: int)
    requires
        0 <= i <= s.len(),
    ensures
        tokens_from(s, i) matches Ok(ts) ==> ts.len() <= s.len() - i + 1,
    decreases s.len() - i,
{
    let (r, j) = next_token_spec(s, i);
    if r is Ok && !(r->Ok_0 is Eof) && i < j <= s.len() {
        lemma_tokens_len(s, j);
    }
}

// ---------------------------------------------------------------------------
// The parser
// ---------------------------------------------------------------------------

pub open spec fn token_views(ts: Seq<Token>) -> Seq<TokenView> {
    ts.map_values(|t: Token| t@)
}

/// A token without a payload.
pub open spec fn bare(t: TokenView) -> bool {
    !(t is Number || t is Str || t is Identifier)
}

/// `r` is what the grammar gave, `s`, and `pos` is where parsing stopped:
/// after the expression, or at the error.
pub open spec fn expr_outcome(
    r: Result<Expr, ParseExprError>,
    pos: int,
    s: Result<(ExprView, int), ExprErrorView>,
) -> bool {
    match r {
        Ok(e) => s == Ok::<(ExprView, int), ExprErrorView>((e@, pos)),
        Err(e) => s == Err::<(ExprView, int), ExprErrorView>(e@) && e.position == pos,
    }
}

pub open spec fn list_outcome(
    r: Result<Vec<Expr>, ParseExprError>,
    pos: int,
    s: Result<(Seq<ExprView>, int), ExprErrorView>,
) -> bool {
    match r {
        Ok(v) => s == Ok::<(Seq<ExprView>, int), ExprErrorView>((exprs_view(v@), pos)),
        Err(e) => s == Err::<(Seq<ExprView>, int), ExprErrorView>(e@) && e.position == pos,
    }
}

/// A copy of a token.
fn copy_token(t: &Token) -> (r: Token)
    ensures
        r@ == t@,
{
    match t {
        Token::Null => Token::Null,
        Token::True => Token::True,
        Token::False => Token::False,
        Token::Number(n) => Token::Number(n.clone()),
        Token::String(s) => Token::String(s.clone()),
        Token::Identifier(s) => Token::Identifier(s.clone()),
        Token::Plus => Token::Plus,
        Token::Minus => Token::Minus,
        Token::Star => Token::Star,
        Token::Slash => Token::Slash,
        Token::Percent => Token::Percent,
        Token::Eq => Token::Eq,
        Token::Ne => Token::Ne,
        Token::Lt => Token::Lt,
        Token::Le => Token::Le,
        Token::Gt => Token::Gt,
        Token::Ge => Token::Ge,
        Token::And => Token::And,
        Token::Or => Token::Or,
        Token::Not => Token::Not,
        Token::Dot => Token::Dot,
        Token::Comma => Token::Comma,
        Token::Colon => Token::Colon,
        Token::Question => Token::Question,
        Token::LParen => Token::LParen,
        Token::RParen => Token::RParen,
        Token::LBracket => Token::LBracket,
        Token::RBracket => Token::RBracket,
        Token::LBrace => Token::LBrace,
        Token::RBrace => Token::RBrace,
        Token::Eof => Token::Eof,
    }
}

/// Whether `t` is the bare token `k`.
fn same_token(t: &Token, k: &Token) -> (b: bool)
    requires
        bare(k@),
    ensures
        b == (t@ == k@),
{
    match k {
        Token::Null => matches!(t, Token::Null),
        Token::True => matches!(t, Token::True),
        Token::False => matches!(t, Token::False),
        Token::Plus => matches!(t, Token::Plus),
        Token::Minus => matches!(t, Token::Minus),
        Token::Star => matches!(t, Token::Star),
        Token::Slash => matches!(t, Token::Slash),
        Token::Percent => matches!(t, Token::Percent),
        Token::Eq => matches!(t, Token::Eq),
        Token::Ne => matches!(t, Token::Ne),
        Token::Lt => matches!(t, Token::Lt),
        Token::Le => matches!(t, Token::Le),
        Token::Gt => matches!(t, Token::Gt),
        Token::Ge => matches!(t, Token::Ge),
        Token::And => matches!(t, Token::And),
        Token::Or => matches!(t, Token::Or),
        Token::Not => matches!(t, Token::Not),
        Token::Dot => matches!(t, Token::Dot),
        Token::Comma => matches!(t, Token::Comma),
        Token::Colon => matches!(t, Token::Colon),
        Token::Question => matches!(t, Token::Question),
        Token::LParen => matches!(t, Token::LParen),
        Token::RParen => matches!(t, Token::RParen),
        Token::LBracket => matches!(t, Token::LBracket),
        Token::RBracket => matches!(t, Token::RBracket),
        Token::LBrace => matches!(t, Token::LBrace),
        Token::RBrace => matches!(t, Token::RBrace),
        Token::Eof => matches!(t, Token::Eof),
        _ => false,
    }
}

/// The text of [`token_debug`].
fn token_debug_string(t: &Token) -> (r: String)
    ensures
        r@ == token_debug(t@),
{
    match t {
        Token::Number(n) => {
            let mut r = String::from_str("Number(");
            r.append(n.as_str());
            r.append(")");
            r
        },
        Token::String(s) => {
            let mut r = String::from_str("String(");
            let q = debug_quoted_text(s.as_str());
            r.append(q.as_str());
            r.append(")");
            r
        },
        Token::Identifier(s) => {
            let mut r = String::from_str("Identifier(");
            let q = debug_quoted_text(s.as_str());
            r.append(q.as_str());
            r.append(")");
            r
        },
        Token::Null => String::from_str("Null"),
        Token::True => String::from_str("True"),
        Token::False => String::from_str("False"),
        Token::Plus => String::from_str("Plus"),
        Token::Minus => String::from_str("Minus"),
        Token::Star => String::from_str("Star"),
        Token::Slash => String::from_str("Slash"),
        Token::Percent => String::from_str("Percent"),
        Token::Eq => String::from_str("Eq"),
        Token::Ne => String::from_str("Ne"),
        Token::Lt => String::from_str("Lt"),
        Token::Le => String::from_str("Le"),
        Token::Gt => String::from_str("Gt"),
        Token::Ge => String::from_str("Ge"),
        Token::And => String::from_str("And"),
        Token::Or => String::from_str("Or"),
        Token::Not => String::from_str("Not"),
        Token::Dot => String::from_str("Dot"),
        Token::Comma => String::from_str("Comma"),
        Token::Colon => String::from_str("Colon"),
        Token::Question => String::from_str("Question"),
        Token::LParen => String::from_str("LParen"),
        Token::RParen => String::from_str("RParen"),
        Token::LBracket => String::from_str("LBracket"),
        Token::RBracket => String::from_str("RBracket"),
        Token::LBrace => String::from_str("LBrace"),
        Token::RBrace => String::from_str("RBrace"),
        Token::Eof => String::from_str("Eof"),
    }
}

/// Recursive descent parser over a token sequence.
pub struct ExprParser {
    tokens: Vec<Token>,
    position: usize,
}

impl ExprParser {
    /// The tokens, as views.
    pub closed spec fn token_seq(&self) -> Seq<TokenView> {
        token_views(self.tokens@)
    }

    /// Index of the next token to read.
    pub closed spec fn pos(&self) -> int {
        self.position as int
    }

    /// The tokens fit with room for the position to pass their end.
    pub closed spec fn wf(&self) -> bool {
        self.tokens@.len() < usize::MAX
    }

    pub fn new(tokens: Vec<Token>) -> (p: Self)
        requires
            tokens@.len() < usize::MAX,
        ensures
            p.wf(),
            p.token_seq() == token_views(tokens@),
            p.pos() == 0,
    {
        ExprParser { tokens, position: 0 }
    }

    /// Parse an expression from source text: tokenize, then parse.
    pub fn parse_str(input: &str) -> (r: Result<Expr, ParseExprError>)
        requires
            input@.len() <= usize::MAX / 4,
        ensures
            match r {
                Ok(e) => parse_text(input@) == Ok::<ExprView, ExprErrorView>(e@),
                Err(e) => parse_text(input@) == Err::<ExprView, ExprErrorView>(e@),
            },
    {
        let mut lexer = Lexer::new(input);
        let tokens = match lexer.tokenize() {
            Ok(t) => t,
            Err(e) => return Err(ParseExprError::from_lex_error(e)),
        };
        proof {
            lemma_tokens_len(input@, 0);
            assert(token_views(tokens@) == tokens@.map_values(|t: Token| t@));
        }
        let mut parser = ExprParser::new(tokens);
        parser.parse()
    }

    /// Parse the whole token sequence into an expression; anything but the
    /// end after it is an error.
    pub fn parse(&mut self) -> (r: Result<Expr, ParseExprError>)
        requires
            old(self).wf(),
        ensures
            final(self).wf(),
            final(self).token_seq() == old(self).token_seq(),
            expr_outcome(r, final(self).pos(), parse_tokens(old(self).token_seq(), old(self).pos())),
    {
        let expr = match self.parse_ternary() {
            Ok(e) => e,
            Err(e) => return Err(e),
        };
        if self.position < self.tokens.len() && !self.at(&Token::Eof) {
            let t = self.peek();
            let msg = self.unexpected(&t);
            return Err(msg);
        }
        Ok(expr)
    }

    /// The next token.
    fn peek(&self) -> (t: Token)
        ensures
            t@ == tok(token_views(self.tokens@), self.position as int),
    {
        if self.position < self.tokens.len() {
            copy_token(&self.tokens[self.position])
        } else {
            Token::Eof
        }
    }

    /// Whether the next token is the bare token `k`.
    fn at(&self, k: &Token) -> (b: bool)
        requires
            bare(k@),
        ensures
            b == (tok(token_views(self.tokens@), self.position as int) == k@),
    {
        if self.position < self.tokens.len() {
            same_token(&self.tokens[self.position], k)
        } else {
            matches!(k, Token::Eof)
        }
    }

    fn advance(&mut self)
        requires
            old(self).position < usize::MAX,
        ensures
            final(self).position == old(self).position + 1,
            final(self).tokens@ == old(self).tokens@,
    {
        self.position = self.position + 1;
    }

    fn error(&self, message: &str) -> (e: ParseExprError)
        ensures
            e.message@ == message@,
            e.position == self.position,
    {
        ParseExprError { message: message.to_string(), position: self.position }
    }

    /// "unexpected token: ..." at the current position.
    fn unexpected(&self, t: &Token) -> (e: ParseExprError)
        ensures
            e.message@ == unexpected_token(t@),
            e.position == self.position,
    {
        let mut m = String::from_str("unexpected token: ");
        let d = token_debug_string(t);
        m.append(d.as_str());
        ParseExprError { message: m, position: self.position }
    }

    /// Consume the bare token `k`, or fail with `msg` where it should be.
    fn expect(&mut self, k: &Token, msg: &str) -> (r: Result<(), ParseExprError>)
        requires
            old(self).wf(),
            bare(k@),
            k@ != TokenView::Eof,
        ensures
            final(self).tokens@ == old(self).tokens@,
            tok(token_views(old(self).tokens@), old(self).position as int) == k@ ==> r is Ok
                && final(self).position == old(self).position + 1
                && (old(self).position as int) < old(self).tokens@.len(),
            tok(token_views(old(self).tokens@), old(self).position as int) != k@ ==> r is Err
                && r->Err_0@ == err_at(msg@, old(self).position as int)
                && final(self).position == old(self).position,
    {
        if self.at(k) {
            self.advance();
            Ok(())
        } else {
            Err(self.error(msg))
        }
    }

    /// The operator of binary level `k` at the current token, if any.
    fn binary_op(&self, k: u8) -> (r: Option<BinaryOp>)
        ensures
            r == binary_op_at(k as nat, tok(token_views(self.tokens@), self.position as int)),
    {
        let t = self.peek();
        if k == 0 {
            match t {
                Token::Star => Some(BinaryOp::Mul),
                Token::Slash => Some(BinaryOp::Div),
                Token::Percent => Some(BinaryOp::Mod),
                _ => None,
            }
        } else if k == 1 {
            match t {
                Token::Plus => Some(BinaryOp::Add),
                Token::Minus => Some(BinaryOp::Sub),
                _ => None,
            }
        } else if k == 2 {
            match t {
                Token::Lt => Some(BinaryOp::Lt),
                Token::Le => Some(BinaryOp::Le),
                Token::Gt => Some(BinaryOp::Gt),
                Token::Ge => Some(BinaryOp::Ge),
                _ => None,
            }
        } else if k == 3 {
            match t {
                Token::Eq => Some(BinaryOp::Eq),
                Token::Ne => Some(BinaryOp::Ne),
                _ => None,
            }
        } else if k == 4 {
            match t {
                Token::And => Some(BinaryOp::And),
                _ => None,
            }
        } else if k == 5 {
            match t {
                Token::Or => Some(BinaryOp::Or),
                _ => None,
            }
        } else {
            None
        }
    }


    fn parse_ternary(&mut self) -> (r: Result<Expr, ParseExprError>)
        requires
            old(self).wf(),
        ensures
            final(self).tokens@ == old(self).tokens@,
            expr_outcome(
                r,
                final(self).position as int,
                p_ternary(token_views(old(self).tokens@), old(self).position as int),
            ),
            r is Ok ==> moved(
                token_views(old(self).tokens@),
                old(self).position as int,
                final(self).position as int,
            ),
        decreases old(self).tokens@.len() - old(self).position, 9nat,
    {
        let ghost ts = token_views(self.tokens@);
        let ghost p = self.position as int;
        let condition = match self.parse_binary(5) {
            Ok(e) => e,
            Err(e) => return Err(e),
        };
        if self.at(&Token::Question) {
            self.advance();
            let then_expr = match self.parse_ternary() {
                Ok(e) => e,
                Err(e) => return Err(e),
            };
            match self.expect(&Token::Colon, "expected ':' in ternary expression") {
                Ok(()) => {},
                Err(e) => return Err(e),
            }
            let else_expr = match self.parse_ternary() {
                Ok(e) => e,
                Err(e) => return Err(e),
            };
            return Ok(
                Expr::Ternary {
                    condition: Box::new(condition),
                    then_expr: Box::new(then_expr),
                    else_expr: Box::new(else_expr),
                },
            );
        }
        Ok(condition)
    }

    fn parse_binary(&mut self, k: u8) -> (r: Result<Expr, ParseExprError>)
        requires
            old(self).wf(),
            k <= 5,
        ensures
            final(self).tokens@ == old(self).tokens@,
            expr_outcome(
                r,
                final(self).position as int,
                p_binary(token_views(old(self).tokens@), k as nat, old(self).position as int),
            ),
            r is Ok ==> moved(
                token_views(old(self).tokens@),
                old(self).position as int,
                final(self).position as int,
            ),
        decreases old(self).tokens@.len() - old(self).position, k + 3,
    {
        let ghost ts = token_views(self.tokens@);
        let ghost p = self.position as int;
        let first = if k == 0 {
            self.parse_unary()
        } else {
            self.parse_binary(k - 1)
        };
        let mut left = match first {
            Ok(e) => e,
            Err(e) => return Err(e),
        };
        let mut op = self.binary_op(k);
        while op.is_some()
            invariant
                self.wf(),
                ts == token_views(self.tokens@),
                self.tokens@ == old(self).tokens@,
                p == old(self).position,
                k <= 5,
                moved(ts, p, self.position as int),
                op == binary_op_at(k as nat, tok(ts, self.position as int)),
                p_binary(ts, k as nat, p) == binary_tail(ts, k as nat, left@, self.position as int),
            decreases ts.len() - self.position,
        {
            let o = op.unwrap();
            let ghost q = self.position as int;
            self.advance();
            let right = if k == 0 {
                self.parse_unary()
            } else {
                self.parse_binary(k - 1)
            };
            let right = match right {
                Ok(e) => e,
                Err(e) => return Err(e),
            };
            let ghost lv = left@;
            left = Expr::Binary { op: o, left: Box::new(left), right: Box::new(right) };
            op = self.binary_op(k);
            proof {
                let n = left@;
                if binary_op_at(k as nat, tok(ts, self.position as int)) is None {
                    assert(binary_tail(ts, k as nat, n, self.position as int) == Ok::<
                        (ExprView, int),
                        ExprErrorView,
                    >((n, self.position as int)));
                }
            }
        }
        Ok(left)
    }

    fn parse_unary(&mut self) -> (r: Result<Expr, ParseExprError>)
        requires
            old(self).wf(),
        ensures
            final(self).tokens@ == old(self).tokens@,
            expr_outcome(
                r,
                final(self).position as int,
                p_unary(token_views(old(self).tokens@), old(self).position as int),
            ),
            r is Ok ==> moved(
                token_views(old(self).tokens@),
                old(self).position as int,
                final(self).position as int,
            ),
        decreases old(self).tokens@.len() - old(self).position, 2nat,
    {
        if self.at(&Token::Not) {
            self.advance();
            let e = match self.parse_unary() {
                Ok(e) => e,
                Err(e) => return Err(e),
            };
            return Ok(Expr::Unary { op: UnaryOp::Not, expr: Box::new(e) });
        }
        if self.at(&Token::Minus) {
            self.advance();
            let e = match self.parse_unary() {
                Ok(e) => e,
                Err(e) => return Err(e),
            };
            return Ok(Expr::Unary { op: UnaryOp::Neg, expr: Box::new(e) });
        }
        self.parse_postfix()
    }

    fn parse_postfix(&mut self) -> (r: Result<Expr, ParseExprError>)
        requires
            old(self).wf(),
        ensures
            final(self).tokens@ == old(self).tokens@,
            expr_outcome(
                r,
                final(self).position as int,
                p_postfix(token_views(old(self).tokens@), old(self).position as int),
            ),
            r is Ok ==> moved(
                token_views(old(self).tokens@),
                old(self).position as int,
                final(self).position as int,
            ),
        decreases old(self).tokens@.len() - old(self).position, 1nat,
    {
        let ghost ts = token_views(self.tokens@);
        let ghost p = self.position as int;
        let mut expr = match self.parse_primary() {
            Ok(e) => e,
            Err(e) => return Err(e),
        };
        while self.at(&Token::Dot) || self.at(&Token::LBracket)
            invariant
                self.wf(),
                ts == token_views(self.tokens@),
                self.tokens@ == old(self).tokens@,
                p == old(self).position,
                moved(ts, p, self.position as int),
                p_postfix(ts, p) == postfix_tail(ts, expr@, self.position as int),
            decreases ts.len() - self.position,
        {
            let ghost q = self.position as int;
            if self.at(&Token::Dot) {
                self.advance();
                let t = self.peek();
                self.advance();
                match t {
                    Token::Identifier(property) => {
                        if self.at(&Token::LParen) {
                            let mut args = match self.parse_args() {
                                Ok(a) => a,
                                Err(e) => return Err(e),
                            };
                            let ghost ev = expr@;
                            let ghost av = args@;
                            let mut all: Vec<Expr> = Vec::new();
                            all.push(expr);
                            all.append(&mut args);
                            proof {
                                lemma_exprs_push(Seq::empty(), all@[0]);
                                assert(Seq::<Expr>::empty().push(all@[0]) == seq![all@[0]]);
                                assert(all@ == seq![all@[0]] + av);
                                lemma_exprs_append(seq![all@[0]], av);
                                assert(exprs_view(Seq::<Expr>::empty()) == Seq::<ExprView>::empty());
                                assert(Seq::<ExprView>::empty().push(ev) == seq![ev]);
                            }
                            expr = Expr::FunctionCall { name: property, args: all };
                        } else {
                            expr = Expr::Member { object: Box::new(expr), property };
                        }
                    },
                    _ => return Err(self.error("expected property name after '.'")),
                }
            } else {
                self.advance();
                let index = match self.parse_ternary() {
                    Ok(e) => e,
                    Err(e) => return Err(e),
                };
                match self.expect(&Token::RBracket, "expected ']'") {
                    Ok(()) => {},
                    Err(e) => return Err(e),
                }
                expr = Expr::Index { object: Box::new(expr), index: Box::new(index) };
            }
        }
        Ok(expr)
    }

    fn parse_args(&mut self) -> (r: Result<Vec<Expr>, ParseExprError>)
        requires
            old(self).wf(),
        ensures
            final(self).tokens@ == old(self).tokens@,
            list_outcome(
                r,
                final(self).position as int,
                p_args(token_views(old(self).tokens@), old(self).position as int),
            ),
            r is Ok ==> moved(
                token_views(old(self).tokens@),
                old(self).position as int,
                final(self).position as int,
            ),
        decreases old(self).tokens@.len() - old(self).position, 0nat,
    {
        match self.expect(&Token::LParen, "expected '('") {
            Ok(()) => {},
            Err(e) => return Err(e),
        }
        self.parse_list(&Token::RParen, "expected ')'")
    }

    /// The items of a comma-separated list up to `close`.
    fn parse_list(&mut self, close: &Token, msg: &str) -> (r: Result<Vec<Expr>, ParseExprError>)
        requires
            old(self).wf(),
            close@ == TokenView::RParen || close@ == TokenView::RBracket,
        ensures
            final(self).tokens@ == old(self).tokens@,
            list_outcome(
                r,
                final(self).position as int,
                p_list(token_views(old(self).tokens@), old(self).position as int, close@, msg@),
            ),
            r is Ok ==> moved(
                token_views(old(self).tokens@),
                old(self).position as int,
                final(self).position as int,
            ),
        decreases old(self).tokens@.len() - old(self).position, 10nat,
    {
        let ghost ts = token_views(self.tokens@);
        let ghost p = self.position as int;
        let mut items: Vec<Expr> = Vec::new();
        if self.at(close) {
            self.advance();
            return Ok(items);
        }
        let first = match self.parse_ternary() {
            Ok(e) => e,
            Err(e) => return Err(e),
        };
        items.push(first);
        proof {
            lemma_exprs_push(Seq::empty(), items@[0]);
            assert(Seq::<Expr>::empty().push(items@[0]) == items@);
            assert(Seq::<ExprView>::empty().push(items@[0]@) == seq![items@[0]@]);
        }
        loop
            invariant
                self.wf(),
                ts == token_views(self.tokens@),
                self.tokens@ == old(self).tokens@,
                p == old(self).position,
                close@ == TokenView::RParen || close@ == TokenView::RBracket,
                moved(ts, p, self.position as int),
                p_list(ts, p, close@, msg@) == list_tail(
                    ts,
                    exprs_view(items@),
                    self.position as int,
                    close@,
                    msg@,
                ),
            decreases ts.len() - self.position,
        {
            if self.at(&Token::Comma) {
                self.advance();
                if self.at(close) {
                    self.advance();
                    return Ok(items);
                }
                let item = match self.parse_ternary() {
                    Ok(e) => e,
                    Err(e) => return Err(e),
                };
                let ghost before = items@;
                items.push(item);
                proof {
                    lemma_exprs_push(before, items@[before.len() as int]);
                    assert(before.push(items@[before.len() as int]) == items@);
                }
            } else if self.at(close) {
                self.advance();
                return Ok(items);
            } else {
                return Err(self.error(msg));
            }
        }
    }

    fn parse_primary(&mut self) -> (r: Result<Expr, ParseExprError>)
        requires
            old(self).wf(),
        ensures
            final(self).tokens@ == old(self).tokens@,
            expr_outcome(
                r,
                final(self).position as int,
                p_primary(token_views(old(self).tokens@), old(self).position as int),
            ),
            r is Ok ==> moved(
                token_views(old(self).tokens@),
                old(self).position as int,
                final(self).position as int,
            ),
        decreases old(self).tokens@.len() - old(self).position, 0nat,
    {
        let ghost ts = token_views(self.tokens@);
        let ghost p = self.position as int;
        let t = self.peek();
        match t {
            Token::Null => {
                self.advance();
                Ok(Expr::Null)
            },
            Token::True => {
                self.advance();
                Ok(Expr::Bool(true))
            },
            Token::False => {
                self.advance();
                Ok(Expr::Bool(false))
            },
            Token::Number(n) => {
                self.advance();
                Ok(Expr::Number(n))
            },
            Token::String(s) => {
                self.advance();
                Ok(Expr::String(s))
            },
            Token::Identifier(name) => {
                self.advance();
                if self.at(&Token::LParen) {
                    let args = match self.parse_args() {
                        Ok(a) => a,
                        Err(e) => return Err(e),
                    };
                    Ok(Expr::FunctionCall { name, args })
                } else {
                    self.parse_reference(name)
                }
            },
            Token::LParen => {
                self.advance();
                let e = match self.parse_ternary() {
                    Ok(e) => e,
                    Err(e) => return Err(e),
                };
                match self.expect(&Token::RParen, "expected ')'") {
                    Ok(()) => {},
                    Err(e) => return Err(e),
                }
                Ok(e)
            },
            Token::LBracket => {
                self.advance();
                let items = match self.parse_list(&Token::RBracket, "expected ']'") {
                    Ok(v) => v,
                    Err(e) => return Err(e),
                };
                Ok(Expr::Array(items))
            },
            Token::LBrace => {
                self.advance();
                self.parse_object()
            },
            _ => Err(self.unexpected(&t)),
        }
    }

    /// The rest of a reference whose first name, `name`, has been read.
    fn parse_reference(&mut self, name: String) -> (r: Result<Expr, ParseExprError>)
        requires
            old(self).wf(),
            0 < old(self).position <= old(self).tokens@.len(),
        ensures
            final(self).tokens@ == old(self).tokens@,
            expr_outcome(
                r,
                final(self).position as int,
                ref_tail(
                    token_views(old(self).tokens@),
                    seq![RefPartView::Property(name@)],
                    old(self).position as int,
                ),
            ),
            r is Ok ==> old(self).position <= final(self).position <= old(self).tokens@.len(),
        decreases old(self).tokens@.len() - old(self).position, 0nat,
    {
        let ghost ts = token_views(self.tokens@);
        let ghost p = self.position as int;
        let mut reference = Reference::new(name);
        while self.at(&Token::Dot) || self.at(&Token::LBracket)
            invariant
                self.wf(),
                ts == token_views(self.tokens@),
                self.tokens@ == old(self).tokens@,
                p == old(self).position,
                p <= self.position <= ts.len(),
                ref_tail(ts, seq![RefPartView::Property(name@)], p) == ref_tail(
                    ts,
                    parts_view(reference.parts@),
                    self.position as int,
                ),
            decreases ts.len() - self.position,
        {
            if self.at(&Token::Dot) {
                self.advance();
                let t2 = self.peek();
                self.advance();
                match t2 {
                    Token::Identifier(prop) => {
                        reference = reference.with_property(prop);
                    },
                    _ => return Err(self.error("expected property name after '.'")),
                }
            } else {
                self.advance();
                let index = match self.parse_ternary() {
                    Ok(e) => e,
                    Err(e) => return Err(e),
                };
                match self.expect(&Token::RBracket, "expected ']'") {
                    Ok(()) => {},
                    Err(e) => return Err(e),
                }
                reference = reference.with_index(index);
            }
        }
        Ok(Expr::Reference(reference))
    }

    /// The rest of an object literal whose `{` has been read.
    fn parse_object(&mut self) -> (r: Result<Expr, ParseExprError>)
        requires
            old(self).wf(),
            0 < old(self).position <= old(self).tokens@.len(),
        ensures
            final(self).tokens@ == old(self).tokens@,
            expr_outcome(
                r,
                final(self).position as int,
                if tok(token_views(old(self).tokens@), old(self).position as int) == TokenView::RBrace {
                    Ok((ExprView::Object(Seq::empty()), old(self).position + 1))
                } else {
                    object_entries(token_views(old(self).tokens@), Seq::empty(), old(self).position as int)
                },
            ),
            r is Ok ==> old(self).position < final(self).position <= old(self).tokens@.len(),
        decreases old(self).tokens@.len() - old(self).position, 0nat,
    {
        let ghost ts = token_views(self.tokens@);
        let ghost p = self.position as int;
        let mut pairs: Vec<ObjectEntry> = Vec::new();
        if self.at(&Token::RBrace) {
            self.advance();
            return Ok(Expr::Object(pairs));
        }
        loop
            invariant
                self.wf(),
                ts == token_views(self.tokens@),
                self.tokens@ == old(self).tokens@,
                p == old(self).position,
                p <= self.position <= ts.len(),
                tok(ts, p) != TokenView::RBrace,
                object_entries(ts, Seq::empty(), p) == object_entries(
                    ts,
                    pairs_view(pairs@),
                    self.position as int,
                ),
            decreases ts.len() - self.position,
        {
            let kt = self.peek();
            self.advance();
            let key = match kt {
                Token::Identifier(s) => s,
                Token::String(s) => s,
                _ => return Err(self.error("expected object key")),
            };
            match self.expect(&Token::Colon, "expected ':' after object key") {
                Ok(()) => {},
                Err(e) => return Err(e),
            }
            let value = match self.parse_ternary() {
                Ok(e) => e,
                Err(e) => return Err(e),
            };
            let ghost before = pairs@;
            let entry = ObjectEntry { key, value };
            proof {
                lemma_pairs_push(before, entry);
            }
            pairs.push(entry);
            if self.at(&Token::Comma) {
                self.advance();
                if self.at(&Token::RBrace) {
                    self.advance();
                    return Ok(Expr::Object(pairs));
                }
            } else if self.at(&Token::RBrace) {
                self.advance();
                return Ok(Expr::Object(pairs));
            } else {
                return Err(self.error("expected '}'"));
            }
        }
    }
}

} // verus!
