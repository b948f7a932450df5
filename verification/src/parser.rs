//! Recursive-descent parser for the template-expression language.
use vstd::prelude::*;
use vstd::string::StringSliceAdditionalSpecFns;
use crate::lexer::{
    lex, option_token_debug, push_option_token_debug, push_token_display, spans_view,
    token_display, token_name, tokenize, LexOutcome, SpecSpanned, SpecToken,
    Spanned, Token,
};

verus! {

/// A binary operator.
#[derive(Debug, Clone, Copy, PartialEq, Eq, Structural)]
pub enum BinOp {
    Add,
    Sub,
    Mul,
    Div,
    Mod,
    Lt,
    Le,
    Gt,
    Ge,
    Eq,
    NotEq,
    StrictEq,
    StrictNotEq,
}

/// An assignment operator.
#[derive(Debug, Clone, Copy, PartialEq, Eq, Structural)]
pub enum AssignOp {
    Assign,
    Add,
    Sub,
    Mul,
    Div,
    Mod,
}

/// An expression of the template language.
#[derive(Debug, PartialEq)]
pub enum Expr {
    Number(String),
    Str(String),
    Template(String),
    Bool(bool),
    Null,
    Undefined,
    Ident(String),
    Member { object: Box<Expr>, property: String, optional: bool },
    Index { object: Box<Expr>, index: Box<Expr> },
    Call { callee: Box<Expr>, args: Vec<Expr> },
    Neg(Box<Expr>),
    Pos(Box<Expr>),
    Not(Box<Expr>),
    Binary { op: BinOp, left: Box<Expr>, right: Box<Expr> },
    And(Box<Expr>, Box<Expr>),
    Or(Box<Expr>, Box<Expr>),
    Coalesce(Box<Expr>, Box<Expr>),
    Ternary { cond: Box<Expr>, then_branch: Box<Expr>, else_branch: Box<Expr> },
    Assign { target: Box<Expr>, op: AssignOp, value: Box<Expr> },
    UpdatePostfix { target: Box<Expr>, increment: bool },
    UpdatePrefix { target: Box<Expr>, increment: bool },
    Object(Vec<ObjectProp>),
    Array(Vec<Expr>),
    Sequence(Vec<Expr>),
    Arrow { params: Vec<String>, body: Box<Expr> },
}

/// A property of an object literal.
#[derive(Debug, PartialEq)]
pub enum ObjectProp {
    KeyValue(String, Expr),
    Computed(Expr, Expr),
    Shorthand(String),
    Spread(Expr),
}

/// The mathematical model of an `Expr`.
pub enum SpecExpr {
    Number(Seq<char>),
    Str(Seq<char>),
    Template(Seq<char>),
    Bool(bool),
    Null,
    Undefined,
    Ident(Seq<char>),
    Member { object: Box<SpecExpr>, property: Seq<char>, optional: bool },
    Index { object: Box<SpecExpr>, index: Box<SpecExpr> },
    Call { callee: Box<SpecExpr>, args: Seq<SpecExpr> },
    Neg(Box<SpecExpr>),
    Pos(Box<SpecExpr>),
    Not(Box<SpecExpr>),
    Binary { op: BinOp, left: Box<SpecExpr>, right: Box<SpecExpr> },
    And(Box<SpecExpr>, Box<SpecExpr>),
    Or(Box<SpecExpr>, Box<SpecExpr>),
    Coalesce(Box<SpecExpr>, Box<SpecExpr>),
    Ternary { cond: Box<SpecExpr>, then_branch: Box<SpecExpr>, else_branch: Box<SpecExpr> },
    Assign { target: Box<SpecExpr>, op: AssignOp, value: Box<SpecExpr> },
    UpdatePostfix { target: Box<SpecExpr>, increment: bool },
    UpdatePrefix { target: Box<SpecExpr>, increment: bool },
    Object(Seq<SpecObjectProp>),
    Array(Seq<SpecExpr>),
    Sequence(Seq<SpecExpr>),
    Arrow { params: Seq<Seq<char>>, body: Box<SpecExpr> },
}

/// The mathematical model of an `ObjectProp`.
pub enum SpecObjectProp {
    KeyValue(Seq<char>, SpecExpr),
    Computed(SpecExpr, SpecExpr),
    Shorthand(Seq<char>),
    Spread(SpecExpr),
}

/// The model of an expression.
pub open spec fn expr_view(e: Expr) -> SpecExpr
    decreases e,
{
    match e {
        Expr::Number(s) => SpecExpr::Number(s@),
        Expr::Str(s) => SpecExpr::Str(s@),
        Expr::Template(s) => SpecExpr::Template(s@),
        Expr::Bool(b) => SpecExpr::Bool(b),
        Expr::Null => SpecExpr::Null,
        Expr::Undefined => SpecExpr::Undefined,
        Expr::Ident(s) => SpecExpr::Ident(s@),
        Expr::Member { object, property, optional } => SpecExpr::Member {
            object: Box::new(expr_view(*object)),
            property: property@,
            optional,
        },
        Expr::Index { object, index } => SpecExpr::Index {
            object: Box::new(expr_view(*object)),
            index: Box::new(expr_view(*index)),
        },
        Expr::Call { callee, args } => SpecExpr::Call {
            callee: Box::new(expr_view(*callee)),
            args: exprs_view(args@),
        },
        Expr::Neg(x) => SpecExpr::Neg(Box::new(expr_view(*x))),
        Expr::Pos(x) => SpecExpr::Pos(Box::new(expr_view(*x))),
        Expr::Not(x) => SpecExpr::Not(Box::new(expr_view(*x))),
        Expr::Binary { op, left, right } => SpecExpr::Binary {
            op,
            left: Box::new(expr_view(*left)),
            right: Box::new(expr_view(*right)),
        },
        Expr::And(l, r) => SpecExpr::And(Box::new(expr_view(*l)), Box::new(expr_view(*r))),
        Expr::Or(l, r) => SpecExpr::Or(Box::new(expr_view(*l)), Box::new(expr_view(*r))),
        Expr::Coalesce(l, r) => SpecExpr::Coalesce(
            Box::new(expr_view(*l)),
            Box::new(expr_view(*r)),
        ),
        Expr::Ternary { cond, then_branch, else_branch } => SpecExpr::Ternary {
            cond: Box::new(expr_view(*cond)),
            then_branch: Box::new(expr_view(*then_branch)),
            else_branch: Box::new(expr_view(*else_branch)),
        },
        Expr::Assign { target, op, value } => SpecExpr::Assign {
            target: Box::new(expr_view(*target)),
            op,
            value: Box::new(expr_view(*value)),
        },
        Expr::UpdatePostfix { target, increment } => SpecExpr::UpdatePostfix {
            target: Box::new(expr_view(*target)),
            increment,
        },
        Expr::UpdatePrefix { target, increment } => SpecExpr::UpdatePrefix {
            target: Box::new(expr_view(*target)),
            increment,
        },
        Expr::Object(props) => SpecExpr::Object(props_view(props@)),
        Expr::Array(items) => SpecExpr::Array(exprs_view(items@)),
        Expr::Sequence(items) => SpecExpr::Sequence(exprs_view(items@)),
        Expr::Arrow { params, body } => SpecExpr::Arrow {
            params: strings_view(params@),
            body: Box::new(expr_view(*body)),
        },
    }
}

/// The models of a sequence of expressions.
pub open spec fn exprs_view(s: Seq<Expr>) -> Seq<SpecExpr>
    decreases s,
{
    if s.len() == 0 {
        seq![]
    } else {
        exprs_view(s.drop_last()).push(expr_view(s.last()))
    }
}

/// The model of an object property.
pub open spec fn prop_view(p: ObjectProp) -> SpecObjectProp
    decreases p,
{
    match p {
        ObjectProp::KeyValue(k, v) => SpecObjectProp::KeyValue(k@, expr_view(v)),
        ObjectProp::Computed(k, v) => SpecObjectProp::Computed(expr_view(k), expr_view(v)),
        ObjectProp::Shorthand(k) => SpecObjectProp::Shorthand(k@),
        ObjectProp::Spread(v) => SpecObjectProp::Spread(expr_view(v)),
    }
}

/// The models of a sequence of object properties.
pub open spec fn props_view(s: Seq<ObjectProp>) -> Seq<SpecObjectProp>
    decreases s,
{
    if s.len() == 0 {
        seq![]
    } else {
        props_view(s.drop_last()).push(prop_view(s.last()))
    }
}

/// The models of a sequence of strings.
pub open spec fn strings_view(s: Seq<String>) -> Seq<Seq<char>> {
    s.map_values(|x: String| x@)
}

impl View for Expr {
    type V = SpecExpr;

    open spec fn view(&self) -> SpecExpr {
        expr_view(*self)
    }
}

impl View for ObjectProp {
    type V = SpecObjectProp;

    open spec fn view(&self) -> SpecObjectProp {
        prop_view(*self)
    }
}

// ---------------------------------------------------------------------------
// The grammar, over the token sequence
// ---------------------------------------------------------------------------

/// A parse failure: the message, the byte offset it reports, and the token
/// index the parser's cursor stood at when it gave up.
pub struct PErr {
    pub message: Seq<char>,
    pub pos: int,
    pub at: int,
}

/// A parsed expression and the token index just past it, or a failure.
pub type PExpr = Result<(SpecExpr, int), PErr>;

/// A parsed list and the token index just past it, or a failure.
pub type PList = Result<(Seq<SpecExpr>, int), PErr>;

/// A parsed object property and the token index just past it, or a failure.
pub type PProp = Result<(SpecObjectProp, int), PErr>;

/// A parsed list of object properties and the index just past it, or a failure.
pub type PProps = Result<(Seq<SpecObjectProp>, int), PErr>;

/// The token at index `c`, if there is one.
pub open spec fn tok(ts: Seq<SpecSpanned>, c: int) -> Option<SpecToken> {
    if 0 <= c < ts.len() {
        Some(ts[c].token)
    } else {
        None
    }
}

/// The byte offset reported for token index `c`: the token's start, or the
/// source length past the last token.
pub open spec fn pos_at(ts: Seq<SpecSpanned>, len: int, c: int) -> int {
    if 0 <= c < ts.len() {
        ts[c].start
    } else {
        len
    }
}

/// A failure with a fixed message, reported at token index `at`.
pub open spec fn fail_at(ts: Seq<SpecSpanned>, len: int, message: Seq<char>, at: int) -> PErr {
    PErr { message, pos: pos_at(ts, len, at), at }
}

/// How the token at `c` is named in messages (`<eof>` past the end).
pub open spec fn got_text(ts: Seq<SpecSpanned>, c: int) -> Seq<char> {
    match tok(ts, c) {
        Some(t) => token_display(t),
        None => "<eof>"@,
    }
}

/// The failure when `expected` is required at `c` but something else is there.
pub open spec fn expect_err(
    ts: Seq<SpecSpanned>,
    len: int,
    c: int,
    expected: SpecToken,
    ctx: Seq<char>,
) -> PErr {
    fail_at(
        ts,
        len,
        "expected `"@ + token_name(expected) + "` "@ + ctx + " (got `"@ + got_text(ts, c) + "`)"@,
        c,
    )
}

/// The failure when tokens are left after a complete expression.
pub open spec fn eof_err(ts: Seq<SpecSpanned>, len: int, c: int) -> PErr {
    fail_at(ts, len, "unexpected trailing token `"@ + got_text(ts, c) + "`"@, c)
}

/// The result of a branch that a successful parse never takes (a sub-parse
/// that moved its cursor backwards).
pub open spec fn junk<T>() -> Result<T, PErr> {
    Err(PErr { message: seq![], pos: 0, at: 0 })
}

/// Whether an expression may stand on the left of an assignment or be the
/// operand of `++` / `--`.
pub open spec fn assignable(e: SpecExpr) -> bool {
    e is Ident || e is Member || e is Index
}

pub open spec fn assign_op(t: Option<SpecToken>) -> Option<AssignOp> {
    match t {
        Some(SpecToken::Assign) => Some(AssignOp::Assign),
        Some(SpecToken::PlusAssign) => Some(AssignOp::Add),
        Some(SpecToken::MinusAssign) => Some(AssignOp::Sub),
        Some(SpecToken::StarAssign) => Some(AssignOp::Mul),
        Some(SpecToken::SlashAssign) => Some(AssignOp::Div),
        Some(SpecToken::PercentAssign) => Some(AssignOp::Mod),
        _ => None,
    }
}

/// Equality operators. The template `==` and `!=` are read as `===` and `!==`.
pub open spec fn equality_op(t: Option<SpecToken>) -> Option<BinOp> {
    match t {
        Some(SpecToken::EqEq) => Some(BinOp::StrictEq),
        Some(SpecToken::Eq) => Some(BinOp::StrictEq),
        Some(SpecToken::BangEqEq) => Some(BinOp::StrictNotEq),
        Some(SpecToken::BangEq) => Some(BinOp::StrictNotEq),
        _ => None,
    }
}

pub open spec fn comparison_op(t: Option<SpecToken>) -> Option<BinOp> {
    match t {
        Some(SpecToken::Lt) => Some(BinOp::Lt),
        Some(SpecToken::LtEq) => Some(BinOp::Le),
        Some(SpecToken::Gt) => Some(BinOp::Gt),
        Some(SpecToken::GtEq) => Some(BinOp::Ge),
        _ => None,
    }
}

pub open spec fn additive_op(t: Option<SpecToken>) -> Option<BinOp> {
    match t {
        Some(SpecToken::Plus) => Some(BinOp::Add),
        Some(SpecToken::Minus) => Some(BinOp::Sub),
        _ => None,
    }
}

pub open spec fn multiplicative_op(t: Option<SpecToken>) -> Option<BinOp> {
    match t {
        Some(SpecToken::Star) => Some(BinOp::Mul),
        Some(SpecToken::Slash) => Some(BinOp::Div),
        Some(SpecToken::Percent) => Some(BinOp::Mod),
        _ => None,
    }
}

/// Whether the token separates the items of a top-level sequence.
pub open spec fn is_separator(t: Option<SpecToken>) -> bool {
    t == Some(SpecToken::Comma) || t == Some(SpecToken::Semicolon)
}

/// Assignment, the lowest precedence; right-associative.
#[verifier::opaque]
pub open spec fn assignment_at(ts: Seq<SpecSpanned>, len: int, c: int) -> PExpr
    decreases ts.len() - c, 14int,
{
    match ternary_at(ts, len, c) {
        Err(e) => Err(e),
        Ok((left, c1)) => if c <= c1 <= ts.len() {
            match assign_op(tok(ts, c1)) {
                None => Ok((left, c1)),
                Some(op) => match assignment_at(ts, len, c1 + 1) {
                    Err(e) => Err(e),
                    Ok((value, c2)) => if assignable(left) {
                        Ok(
                            (
                                SpecExpr::Assign {
                                    target: Box::new(left),
                                    op,
                                    value: Box::new(value),
                                },
                                c2,
                            ),
                        )
                    } else {
                        Err(
                            fail_at(
                                ts,
                                len,
                                "left-hand side of assignment is not assignable"@,
                                c2,
                            ),
                        )
                    },
                },
            }
        } else {
            junk()
        },
    }
}

/// `cond ? then : else`; the branches are assignments.
#[verifier::opaque]
pub open spec fn ternary_at(ts: Seq<SpecSpanned>, len: int, c: int) -> PExpr
    decreases ts.len() - c, 13int,
{
    match coalesce_at(ts, len, c) {
        Err(e) => Err(e),
        Ok((cond, c1)) => if !(c <= c1 <= ts.len()) {
            junk()
        } else if tok(ts, c1) == Some(SpecToken::Question) {
            match assignment_at(ts, len, c1 + 1) {
                Err(e) => Err(e),
                Ok((then_branch, c2)) => if !(c <= c2 <= ts.len()) {
                    junk()
                } else if tok(ts, c2) == Some(SpecToken::Colon) {
                    match assignment_at(ts, len, c2 + 1) {
                        Err(e) => Err(e),
                        Ok((else_branch, c3)) => Ok(
                            (
                                SpecExpr::Ternary {
                                    cond: Box::new(cond),
                                    then_branch: Box::new(then_branch),
                                    else_branch: Box::new(else_branch),
                                },
                                c3,
                            ),
                        ),
                    }
                } else {
                    Err(expect_err(ts, len, c2, SpecToken::Colon, "in ternary"@))
                },
            }
        } else {
            Ok((cond, c1))
        },
    }
}

/// `coalesce` level: a left-associative chain of `or` operands.
#[verifier::opaque]
pub open spec fn coalesce_at(ts: Seq<SpecSpanned>, len: int, c: int) -> PExpr
    decreases ts.len() - c, 12int,
{
    match or_at(ts, len, c) {
        Err(e) => Err(e),
        Ok((left, c1)) => if c <= c1 <= ts.len() {
            coalesce_tail(ts, len, left, c1)
        } else {
            junk()
        },
    }
}

#[verifier::opaque]
pub open spec fn coalesce_tail(ts: Seq<SpecSpanned>, len: int, left: SpecExpr, c: int) -> PExpr
    decreases ts.len() - c, 1int,
{
    if tok(ts, c) == Some(SpecToken::QuestionQuestion) {
        match or_at(ts, len, c + 1) {
            Err(e) => Err(e),
            Ok((right, c2)) => if c < c2 <= ts.len() {
                coalesce_tail(ts, len, SpecExpr::Coalesce(Box::new(left), Box::new(right)), c2)
            } else {
                junk()
            },
        }
    } else {
        Ok((left, c))
    }
}

/// `or` level: a left-associative chain of `and` operands.
#[verifier::opaque]
pub open spec fn or_at(ts: Seq<SpecSpanned>, len: int, c: int) -> PExpr
    decreases ts.len() - c, 11int,
{
    match and_at(ts, len, c) {
        Err(e) => Err(e),
        Ok((left, c1)) => if c <= c1 <= ts.len() {
            or_tail(ts, len, left, c1)
        } else {
            junk()
        },
    }
}

#[verifier::opaque]
pub open spec fn or_tail(ts: Seq<SpecSpanned>, len: int, left: SpecExpr, c: int) -> PExpr
    decreases ts.len() - c, 1int,
{
    if tok(ts, c) == Some(SpecToken::PipePipe) {
        match and_at(ts, len, c + 1) {
            Err(e) => Err(e),
            Ok((right, c2)) => if c < c2 <= ts.len() {
                or_tail(ts, len, SpecExpr::Or(Box::new(left), Box::new(right)), c2)
            } else {
                junk()
            },
        }
    } else {
        Ok((left, c))
    }
}

/// `and` level: a left-associative chain of `equality` operands.
#[verifier::opaque]
pub open spec fn and_at(ts: Seq<SpecSpanned>, len: int, c: int) -> PExpr
    decreases ts.len() - c, 10int,
{
    match equality_at(ts, len, c) {
        Err(e) => Err(e),
        Ok((left, c1)) => if c <= c1 <= ts.len() {
            and_tail(ts, len, left, c1)
        } else {
            junk()
        },
    }
}

#[verifier::opaque]
pub open spec fn and_tail(ts: Seq<SpecSpanned>, len: int, left: SpecExpr, c: int) -> PExpr
    decreases ts.len() - c, 1int,
{
    if tok(ts, c) == Some(SpecToken::AmpAmp) {
        match equality_at(ts, len, c + 1) {
            Err(e) => Err(e),
            Ok((right, c2)) => if c < c2 <= ts.len() {
                and_tail(ts, len, SpecExpr::And(Box::new(left), Box::new(right)), c2)
            } else {
                junk()
            },
        }
    } else {
        Ok((left, c))
    }
}

/// `equality` level: a left-associative chain of `comparison` operands.
#[verifier::opaque]
pub open spec fn equality_at(ts: Seq<SpecSpanned>, len: int, c: int) -> PExpr
    decreases ts.len() - c, 9int,
{
    match comparison_at(ts, len, c) {
        Err(e) => Err(e),
        Ok((left, c1)) => if c <= c1 <= ts.len() {
            equality_tail(ts, len, left, c1)
        } else {
            junk()
        },
    }
}

#[verifier::opaque]
pub open spec fn equality_tail(ts: Seq<SpecSpanned>, len: int, left: SpecExpr, c: int) -> PExpr
    decreases ts.len() - c, 1int,
{
    match equality_op(tok(ts, c)) {
        Some(op) => match comparison_at(ts, len, c + 1) {
            Err(e) => Err(e),
            Ok((right, c2)) => if c < c2 <= ts.len() {
                equality_tail(
                    ts,
                    len,
                    SpecExpr::Binary { op, left: Box::new(left), right: Box::new(right) },
                    c2,
                )
            } else {
                junk()
            },
        },
        None => Ok((left, c)),
    }
}

/// `comparison` level: a left-associative chain of `addition` operands.
#[verifier::opaque]
pub open spec fn comparison_at(ts: Seq<SpecSpanned>, len: int, c: int) -> PExpr
    decreases ts.len() - c, 8int,
{
    match addition_at(ts, len, c) {
        Err(e) => Err(e),
        Ok((left, c1)) => if c <= c1 <= ts.len() {
            comparison_tail(ts, len, left, c1)
        } else {
            junk()
        },
    }
}

#[verifier::opaque]
pub open spec fn comparison_tail(ts: Seq<SpecSpanned>, len: int, left: SpecExpr, c: int) -> PExpr
    decreases ts.len() - c, 1int,
{
    match comparison_op(tok(ts, c)) {
        Some(op) => match addition_at(ts, len, c + 1) {
            Err(e) => Err(e),
            Ok((right, c2)) => if c < c2 <= ts.len() {
                comparison_tail(
                    ts,
                    len,
                    SpecExpr::Binary { op, left: Box::new(left), right: Box::new(right) },
                    c2,
                )
            } else {
                junk()
            },
        },
        None => Ok((left, c)),
    }
}

/// `addition` level: a left-associative chain of `multiplication` operands.
#[verifier::opaque]
pub open spec fn addition_at(ts: Seq<SpecSpanned>, len: int, c: int) -> PExpr
    decreases ts.len() - c, 7int,
{
    match multiplication_at(ts, len, c) {
        Err(e) => Err(e),
        Ok((left, c1)) => if c <= c1 <= ts.len() {
            addition_tail(ts, len, left, c1)
        } else {
            junk()
        },
    }
}

#[verifier::opaque]
pub open spec fn addition_tail(ts: Seq<SpecSpanned>, len: int, left: SpecExpr, c: int) -> PExpr
    decreases ts.len() - c, 1int,
{
    match additive_op(tok(ts, c)) {
        Some(op) => match multiplication_at(ts, len, c + 1) {
            Err(e) => Err(e),
            Ok((right, c2)) => if c < c2 <= ts.len() {
                addition_tail(
                    ts,
                    len,
                    SpecExpr::Binary { op, left: Box::new(left), right: Box::new(right) },
                    c2,
                )
            } else {
                junk()
            },
        },
        None => Ok((left, c)),
    }
}

/// `multiplication` level: a left-associative chain of `unary` operands.
#[verifier::opaque]
pub open spec fn multiplication_at(ts: Seq<SpecSpanned>, len: int, c: int) -> PExpr
    decreases ts.len() - c, 6int,
{
    match unary_at(ts, len, c) {
        Err(e) => Err(e),
        Ok((left, c1)) => if c <= c1 <= ts.len() {
            multiplication_tail(ts, len, left, c1)
        } else {
            junk()
        },
    }
}

#[verifier::opaque]
pub open spec fn multiplication_tail(ts: Seq<SpecSpanned>, len: int, left: SpecExpr, c: int) -> PExpr
    decreases ts.len() - c, 1int,
{
    match multiplicative_op(tok(ts, c)) {
        Some(op) => match unary_at(ts, len, c + 1) {
            Err(e) => Err(e),
            Ok((right, c2)) => if c < c2 <= ts.len() {
                multiplication_tail(
                    ts,
                    len,
                    SpecExpr::Binary { op, left: Box::new(left), right: Box::new(right) },
                    c2,
                )
            } else {
                junk()
            },
        },
        None => Ok((left, c)),
    }
}

/// Prefix operators `!`, `-`, `+`, `++`, `--`.
#[verifier::opaque]
pub open spec fn unary_at(ts: Seq<SpecSpanned>, len: int, c: int) -> PExpr
    decreases ts.len() - c, 5int,
{
    match tok(ts, c) {
        Some(SpecToken::Bang) => match unary_at(ts, len, c + 1) {
            Err(e) => Err(e),
            Ok((e, c2)) => Ok((SpecExpr::Not(Box::new(e)), c2)),
        },
        Some(SpecToken::Minus) => match unary_at(ts, len, c + 1) {
            Err(e) => Err(e),
            Ok((e, c2)) => Ok((SpecExpr::Neg(Box::new(e)), c2)),
        },
        Some(SpecToken::Plus) => match unary_at(ts, len, c + 1) {
            Err(e) => Err(e),
            Ok((e, c2)) => Ok((SpecExpr::Pos(Box::new(e)), c2)),
        },
        Some(SpecToken::PlusPlus) => match unary_at(ts, len, c + 1) {
            Err(e) => Err(e),
            Ok((t, c2)) => if assignable(t) {
                Ok((SpecExpr::UpdatePrefix { target: Box::new(t), increment: true }, c2))
            } else {
                Err(fail_at(ts, len, "++ requires an assignable target"@, c2))
            },
        },
        Some(SpecToken::MinusMinus) => match unary_at(ts, len, c + 1) {
            Err(e) => Err(e),
            Ok((t, c2)) => if assignable(t) {
                Ok((SpecExpr::UpdatePrefix { target: Box::new(t), increment: false }, c2))
            } else {
                Err(fail_at(ts, len, "-- requires an assignable target"@, c2))
            },
        },
        _ => postfix_at(ts, len, c),
    }
}

/// Postfix `++` / `--` after a member-or-call chain.
#[verifier::opaque]
pub open spec fn postfix_at(ts: Seq<SpecSpanned>, len: int, c: int) -> PExpr
    decreases ts.len() - c, 4int,
{
    match member_or_call_at(ts, len, c) {
        Err(e) => Err(e),
        Ok((node, c1)) => if c <= c1 <= ts.len() {
            postfix_tail(ts, len, node, c1)
        } else {
            junk()
        },
    }
}

#[verifier::opaque]
pub open spec fn postfix_tail(ts: Seq<SpecSpanned>, len: int, node: SpecExpr, c: int) -> PExpr
    decreases ts.len() - c,
{
    if tok(ts, c) == Some(SpecToken::PlusPlus) {
        if assignable(node) {
            postfix_tail(
                ts,
                len,
                SpecExpr::UpdatePostfix { target: Box::new(node), increment: true },
                c + 1,
            )
        } else {
            Err(fail_at(ts, len, "++ requires an assignable target"@, c + 1))
        }
    } else if tok(ts, c) == Some(SpecToken::MinusMinus) {
        if assignable(node) {
            postfix_tail(
                ts,
                len,
                SpecExpr::UpdatePostfix { target: Box::new(node), increment: false },
                c + 1,
            )
        } else {
            Err(fail_at(ts, len, "-- requires an assignable target"@, c + 1))
        }
    } else {
        Ok((node, c))
    }
}

/// A primary expression followed by `.name`, `?.name`, `?.(args)`, `[index]`
/// and `(args)` suffixes.
#[verifier::opaque]
pub open spec fn member_or_call_at(ts: Seq<SpecSpanned>, len: int, c: int) -> PExpr
    decreases ts.len() - c, 3int,
{
    match primary_at(ts, len, c) {
        Err(e) => Err(e),
        Ok((node, c1)) => if c <= c1 <= ts.len() {
            member_tail(ts, len, node, c1)
        } else {
            junk()
        },
    }
}

/// The name of the synthetic member that marks an optional call `a?.(args)`.
pub open spec fn optional_call_name() -> Seq<char> {
    "__optional_call__"@
}

#[verifier::opaque]
pub open spec fn member_tail(ts: Seq<SpecSpanned>, len: int, node: SpecExpr, c: int) -> PExpr
    decreases ts.len() - c, 1int,
{
    match tok(ts, c) {
        Some(SpecToken::Dot) => match tok(ts, c + 1) {
            Some(SpecToken::Ident(name)) => member_tail(
                ts,
                len,
                SpecExpr::Member { object: Box::new(node), property: name, optional: false },
                c + 2,
            ),
            other => Err(
                fail_at(
                    ts,
                    len,
                    "expected property name after `.` (got `"@ + option_token_debug(other)
                        + "`)"@,
                    if other is Some {
                        c + 2
                    } else {
                        c + 1
                    },
                ),
            ),
        },
        Some(SpecToken::QuestionDot) => match tok(ts, c + 1) {
            Some(SpecToken::Ident(name)) => member_tail(
                ts,
                len,
                SpecExpr::Member { object: Box::new(node), property: name, optional: true },
                c + 2,
            ),
            Some(SpecToken::LParen) => match args_at(ts, len, c + 2) {
                Err(e) => Err(e),
                Ok((args, c3)) => if c < c3 <= ts.len() {
                    member_tail(
                        ts,
                        len,
                        SpecExpr::Call {
                            callee: Box::new(
                                SpecExpr::Member {
                                    object: Box::new(node),
                                    property: optional_call_name(),
                                    optional: true,
                                },
                            ),
                            args,
                        },
                        c3,
                    )
                } else {
                    junk()
                },
            },
            other => Err(
                fail_at(
                    ts,
                    len,
                    "expected property after `?.` (got `"@ + option_token_debug(other) + "`)"@,
                    c + 1,
                ),
            ),
        },
        Some(SpecToken::LBracket) => match assignment_at(ts, len, c + 1) {
            Err(e) => Err(e),
            Ok((index, c2)) => if !(c <= c2 <= ts.len()) {
                junk()
            } else if tok(ts, c2) == Some(SpecToken::RBracket) {
                member_tail(
                    ts,
                    len,
                    SpecExpr::Index { object: Box::new(node), index: Box::new(index) },
                    c2 + 1,
                )
            } else {
                Err(expect_err(ts, len, c2, SpecToken::RBracket, "after computed index"@))
            },
        },
        Some(SpecToken::LParen) => match args_at(ts, len, c + 1) {
            Err(e) => Err(e),
            Ok((args, c2)) => if c < c2 <= ts.len() {
                member_tail(ts, len, SpecExpr::Call { callee: Box::new(node), args }, c2)
            } else {
                junk()
            },
        },
        _ => Ok((node, c)),
    }
}

/// Call arguments after `(`, through the closing `)`; a trailing comma is allowed.
#[verifier::opaque]
pub open spec fn args_at(ts: Seq<SpecSpanned>, len: int, c: int) -> PList
    decreases ts.len() - c, 16int,
{
    if tok(ts, c) == Some(SpecToken::RParen) {
        Ok((seq![], c + 1))
    } else {
        arg_list(ts, len, c, seq![])
    }
}

#[verifier::opaque]
pub open spec fn arg_list(ts: Seq<SpecSpanned>, len: int, c: int, acc: Seq<SpecExpr>) -> PList
    decreases ts.len() - c, 15int,
{
    match assignment_at(ts, len, c) {
        Err(e) => Err(e),
        Ok((a, c1)) => {
            let acc2 = acc.push(a);
            if !(c <= c1 <= ts.len()) {
                junk()
            } else if tok(ts, c1) == Some(SpecToken::RParen) {
                Ok((acc2, c1 + 1))
            } else if tok(ts, c1) == Some(SpecToken::Comma) {
                if tok(ts, c1 + 1) == Some(SpecToken::RParen) {
                    Ok((acc2, c1 + 2))
                } else {
                    arg_list(ts, len, c1 + 1, acc2)
                }
            } else {
                Err(expect_err(ts, len, c1, SpecToken::Comma, "between call arguments"@))
            }
        },
    }
}

/// Array elements after `[` (when not immediately closed), through the `]`.
#[verifier::opaque]
pub open spec fn array_list(ts: Seq<SpecSpanned>, len: int, c: int, acc: Seq<SpecExpr>) -> PList
    decreases ts.len() - c, 15int,
{
    match assignment_at(ts, len, c) {
        Err(e) => Err(e),
        Ok((a, c1)) => {
            let acc2 = acc.push(a);
            if !(c <= c1 <= ts.len()) {
                junk()
            } else if tok(ts, c1) == Some(SpecToken::RBracket) {
                Ok((acc2, c1 + 1))
            } else if tok(ts, c1) == Some(SpecToken::Comma) {
                if tok(ts, c1 + 1) == Some(SpecToken::RBracket) {
                    Ok((acc2, c1 + 2))
                } else {
                    array_list(ts, len, c1 + 1, acc2)
                }
            } else {
                Err(expect_err(ts, len, c1, SpecToken::Comma, "between array elements"@))
            }
        },
    }
}

/// One property of an object literal.
#[verifier::opaque]
pub open spec fn prop_at(ts: Seq<SpecSpanned>, len: int, c: int) -> PProp
    decreases ts.len() - c, 1int,
{
    match tok(ts, c) {
        Some(SpecToken::Spread) => match assignment_at(ts, len, c + 1) {
            Err(e) => Err(e),
            Ok((v, c2)) => Ok((SpecObjectProp::Spread(v), c2)),
        },
        Some(SpecToken::LBracket) => match assignment_at(ts, len, c + 1) {
            Err(e) => Err(e),
            Ok((k, c2)) => if !(c <= c2 <= ts.len()) {
                junk()
            } else if tok(ts, c2) != Some(SpecToken::RBracket) {
                Err(expect_err(ts, len, c2, SpecToken::RBracket, "after computed key"@))
            } else if tok(ts, c2 + 1) != Some(SpecToken::Colon) {
                Err(expect_err(ts, len, c2 + 1, SpecToken::Colon, "after computed key"@))
            } else {
                match assignment_at(ts, len, c2 + 2) {
                    Err(e) => Err(e),
                    Ok((v, c3)) => Ok((SpecObjectProp::Computed(k, v), c3)),
                }
            },
        },
        Some(SpecToken::Ident(k)) => if tok(ts, c + 1) == Some(SpecToken::Colon) {
            match assignment_at(ts, len, c + 2) {
                Err(e) => Err(e),
                Ok((v, c2)) => Ok((SpecObjectProp::KeyValue(k, v), c2)),
            }
        } else {
            Ok((SpecObjectProp::Shorthand(k), c + 1))
        },
        Some(SpecToken::Str(k)) => if tok(ts, c + 1) == Some(SpecToken::Colon) {
            match assignment_at(ts, len, c + 2) {
                Err(e) => Err(e),
                Ok((v, c2)) => Ok((SpecObjectProp::KeyValue(k, v), c2)),
            }
        } else {
            Err(expect_err(ts, len, c + 1, SpecToken::Colon, "after string key in object literal"@))
        },
        other => Err(
            fail_at(
                ts,
                len,
                "expected property name in object literal (got `"@ + option_token_debug(other)
                    + "`)"@,
                if other is Some {
                    c + 1
                } else {
                    c
                },
            ),
        ),
    }
}

/// Object properties after `{` (when not immediately closed), through the `}`.
#[verifier::opaque]
pub open spec fn prop_list(ts: Seq<SpecSpanned>, len: int, c: int, acc: Seq<SpecObjectProp>) -> PProps
    decreases ts.len() - c, 2int,
{
    match prop_at(ts, len, c) {
        Err(e) => Err(e),
        Ok((p, c1)) => {
            let acc2 = acc.push(p);
            if !(c <= c1 <= ts.len()) {
                junk()
            } else if tok(ts, c1) == Some(SpecToken::RBrace) {
                Ok((acc2, c1 + 1))
            } else if tok(ts, c1) == Some(SpecToken::Comma) {
                if tok(ts, c1 + 1) == Some(SpecToken::RBrace) {
                    Ok((acc2, c1 + 2))
                } else {
                    prop_list(ts, len, c1 + 1, acc2)
                }
            } else {
                Err(expect_err(ts, len, c1, SpecToken::Comma, "between object properties"@))
            }
        },
    }
}

/// After `(`: the parameter names of an arrow function `(a, b) =>`, with the
/// index of the `=>`; `None` when the tokens do not have that shape.
#[verifier::opaque]
pub open spec fn arrow_params_at(ts: Seq<SpecSpanned>, c: int, acc: Seq<Seq<char>>) -> Option<
    (Seq<Seq<char>>, int),
>
    decreases ts.len() - c,
{
    match tok(ts, c) {
        Some(SpecToken::Ident(name)) => {
            let acc2 = acc.push(name);
            if tok(ts, c + 1) == Some(SpecToken::Comma) {
                arrow_params_at(ts, c + 2, acc2)
            } else if tok(ts, c + 1) == Some(SpecToken::RParen) {
                if tok(ts, c + 2) == Some(SpecToken::Arrow) {
                    Some((acc2, c + 2))
                } else {
                    None
                }
            } else {
                None
            }
        },
        _ => None,
    }
}

/// The items of a parenthesized expression after `(`: assignments joined by
/// `,` or `;`, up to the first one not followed by a separator.
#[verifier::opaque]
pub open spec fn paren_list(ts: Seq<SpecSpanned>, len: int, c: int, acc: Seq<SpecExpr>) -> PList
    decreases ts.len() - c, 15int,
{
    match assignment_at(ts, len, c) {
        Err(e) => Err(e),
        Ok((e, c1)) => {
            let acc2 = acc.push(e);
            if !(c <= c1 <= ts.len()) {
                junk()
            } else if is_separator(tok(ts, c1)) {
                paren_list(ts, len, c1 + 1, acc2)
            } else {
                Ok((acc2, c1))
            }
        },
    }
}

/// A parenthesized expression with these items: the item itself when there
/// is one, else the sequence of them.
pub open spec fn parenthesized(items: Seq<SpecExpr>) -> SpecExpr {
    if items.len() == 1 {
        items[0]
    } else {
        SpecExpr::Sequence(items)
    }
}

/// Literals, identifiers, parenthesized expressions, arrow functions, array
/// and object literals.
#[verifier::opaque]
pub open spec fn primary_at(ts: Seq<SpecSpanned>, len: int, c: int) -> PExpr
    decreases ts.len() - c, 2int,
{
    match tok(ts, c) {
        None => Err(fail_at(ts, len, "unexpected end of expression"@, c)),
        Some(SpecToken::Ident(name)) => if tok(ts, c + 1) == Some(SpecToken::Arrow) {
            match assignment_at(ts, len, c + 2) {
                Err(e) => Err(e),
                Ok((body, c2)) => Ok(
                    (SpecExpr::Arrow { params: seq![name], body: Box::new(body) }, c2),
                ),
            }
        } else {
            Ok((SpecExpr::Ident(name), c + 1))
        },
        Some(SpecToken::Number(l)) => Ok((SpecExpr::Number(l), c + 1)),
        Some(SpecToken::Str(s)) => Ok((SpecExpr::Str(s), c + 1)),
        Some(SpecToken::Template(s)) => Ok((SpecExpr::Template(s), c + 1)),
        Some(SpecToken::True) => Ok((SpecExpr::Bool(true), c + 1)),
        Some(SpecToken::False) => Ok((SpecExpr::Bool(false), c + 1)),
        Some(SpecToken::Null) => Ok((SpecExpr::Null, c + 1)),
        Some(SpecToken::Undefined) => Ok((SpecExpr::Undefined, c + 1)),
        Some(SpecToken::LParen) => if tok(ts, c + 1) == Some(SpecToken::RParen) {
            if tok(ts, c + 2) == Some(SpecToken::Arrow) {
                match assignment_at(ts, len, c + 3) {
                    Err(e) => Err(e),
                    Ok((body, c2)) => Ok(
                        (SpecExpr::Arrow { params: seq![], body: Box::new(body) }, c2),
                    ),
                }
            } else {
                Err(
                    fail_at(
                        ts,
                        len,
                        "empty `()` is only valid as the parameter list of an arrow function"@,
                        c + 2,
                    ),
                )
            }
        } else {
            match arrow_params_at(ts, c + 1, seq![]) {
                Some((params, c1)) => if c < c1 < ts.len() {
                    match assignment_at(ts, len, c1 + 1) {
                        Err(e) => Err(e),
                        Ok((body, c2)) => Ok(
                            (SpecExpr::Arrow { params, body: Box::new(body) }, c2),
                        ),
                    }
                } else {
                    junk()
                },
                None => match paren_list(ts, len, c + 1, seq![]) {
                    Err(e) => Err(e),
                    Ok((items, c2)) => if tok(ts, c2) == Some(SpecToken::RParen) {
                        Ok((parenthesized(items), c2 + 1))
                    } else {
                        Err(
                            expect_err(
                                ts,
                                len,
                                c2,
                                SpecToken::RParen,
                                "after parenthesized expression"@,
                            ),
                        )
                    },
                },
            }
        },
        Some(SpecToken::LBracket) => if tok(ts, c + 1) == Some(SpecToken::RBracket) {
            Ok((SpecExpr::Array(seq![]), c + 2))
        } else {
            match array_list(ts, len, c + 1, seq![]) {
                Err(e) => Err(e),
                Ok((items, c2)) => Ok((SpecExpr::Array(items), c2)),
            }
        },
        Some(SpecToken::LBrace) => if tok(ts, c + 1) == Some(SpecToken::RBrace) {
            Ok((SpecExpr::Object(seq![]), c + 2))
        } else {
            match prop_list(ts, len, c + 1, seq![]) {
                Err(e) => Err(e),
                Ok((props, c2)) => Ok((SpecExpr::Object(props), c2)),
            }
        },
        Some(other) => Err(
            PErr {
                message: "unexpected token `"@ + token_display(other) + "` in expression"@,
                pos: pos_at(ts, len, c),
                at: c + 1,
            },
        ),
    }
}

/// The items of a top-level sequence after its first separator. A trailing
/// separator is allowed.
#[verifier::opaque]
pub open spec fn sequence_list(ts: Seq<SpecSpanned>, len: int, c: int, items: Seq<SpecExpr>) -> PList
    decreases ts.len() - c,
{
    if tok(ts, c) is None {
        Ok((items, c))
    } else {
        match assignment_at(ts, len, c) {
            Err(e) => Err(e),
            Ok((e, c1)) => {
                let items2 = items.push(e);
                if is_separator(tok(ts, c1)) {
                    if c <= c1 <= ts.len() {
                        sequence_list(ts, len, c1 + 1, items2)
                    } else {
                        junk()
                    }
                } else {
                    Ok((items2, c1))
                }
            },
        }
    }
}

/// A complete expression from token index `c` on: an assignment, or a
/// sequence of them joined by `,` or `;`, covering every remaining token.
/// On success the index is the number of tokens.
pub open spec fn full_at(ts: Seq<SpecSpanned>, len: int, c: int) -> PExpr {
    match assignment_at(ts, len, c) {
        Err(e) => Err(e),
        Ok((first, c1)) => if is_separator(tok(ts, c1)) {
            match sequence_list(ts, len, c1 + 1, seq![first]) {
                Err(e) => Err(e),
                Ok((items, c2)) => if c2 == ts.len() {
                    Ok(
                        (
                            if items.len() == 1 {
                                items[0]
                            } else {
                                SpecExpr::Sequence(items)
                            },
                            c2,
                        ),
                    )
                } else {
                    Err(eof_err(ts, len, c2))
                },
            }
        } else if c1 == ts.len() {
            Ok((first, c1))
        } else {
            Err(eof_err(ts, len, c1))
        },
    }
}

// ---------------------------------------------------------------------------
// The parser
// ---------------------------------------------------------------------------

/// A parse failure: a message and the byte offset it refers to.
#[derive(Debug, Clone, PartialEq)]
pub struct ParseError {
    pub message: String,
    pub pos: usize,
}

/// A failure together with the token index the cursor stood at.
type Fail = (ParseError, usize);

type ExResult = Result<(Expr, usize), Fail>;

type ListResult = Result<(Vec<Expr>, usize), Fail>;

type PropResult = Result<(ObjectProp, usize), Fail>;

type PropsResult = Result<(Vec<ObjectProp>, usize), Fail>;

pub open spec fn fail_view(f: (ParseError, usize)) -> PErr {
    PErr { message: f.0.message@, pos: f.0.pos as int, at: f.1 as int }
}

pub open spec fn ex_view(r: Result<(Expr, usize), (ParseError, usize)>) -> PExpr {
    match r {
        Ok((e, c)) => Ok((e@, c as int)),
        Err(f) => Err(fail_view(f)),
    }
}

pub open spec fn list_view(r: Result<(Vec<Expr>, usize), (ParseError, usize)>) -> PList {
    match r {
        Ok((v, c)) => Ok((exprs_view(v@), c as int)),
        Err(f) => Err(fail_view(f)),
    }
}

pub open spec fn prop_result_view(r: Result<(ObjectProp, usize), (ParseError, usize)>) -> PProp {
    match r {
        Ok((p, c)) => Ok((p@, c as int)),
        Err(f) => Err(fail_view(f)),
    }
}

pub open spec fn props_result_view(r: Result<(Vec<ObjectProp>, usize), (ParseError, usize)>) -> PProps {
    match r {
        Ok((v, c)) => Ok((props_view(v@), c as int)),
        Err(f) => Err(fail_view(f)),
    }
}

pub open spec fn opt_ref_view(t: Option<&Token>) -> Option<SpecToken> {
    match t {
        Some(t) => Some(t@),
        None => None,
    }
}

fn assign_op_exec(t: Option<&Token>) -> (r: Option<AssignOp>)
    ensures
        r == assign_op(opt_ref_view(t)),
{
    match t {
        Some(Token::Assign) => Some(AssignOp::Assign),
        Some(Token::PlusAssign) => Some(AssignOp::Add),
        Some(Token::MinusAssign) => Some(AssignOp::Sub),
        Some(Token::StarAssign) => Some(AssignOp::Mul),
        Some(Token::SlashAssign) => Some(AssignOp::Div),
        Some(Token::PercentAssign) => Some(AssignOp::Mod),
        _ => None,
    }
}

fn equality_op_exec(t: Option<&Token>) -> (r: Option<BinOp>)
    ensures
        r == equality_op(opt_ref_view(t)),
{
    match t {
        Some(Token::EqEq) => Some(BinOp::StrictEq),
        Some(Token::Eq) => Some(BinOp::StrictEq),
        Some(Token::BangEqEq) => Some(BinOp::StrictNotEq),
        Some(Token::BangEq) => Some(BinOp::StrictNotEq),
        _ => None,
    }
}

fn comparison_op_exec(t: Option<&Token>) -> (r: Option<BinOp>)
    ensures
        r == comparison_op(opt_ref_view(t)),
{
    match t {
        Some(Token::Lt) => Some(BinOp::Lt),
        Some(Token::LtEq) => Some(BinOp::Le),
        Some(Token::Gt) => Some(BinOp::Gt),
        Some(Token::GtEq) => Some(BinOp::Ge),
        _ => None,
    }
}

fn additive_op_exec(t: Option<&Token>) -> (r: Option<BinOp>)
    ensures
        r == additive_op(opt_ref_view(t)),
{
    match t {
        Some(Token::Plus) => Some(BinOp::Add),
        Some(Token::Minus) => Some(BinOp::Sub),
        _ => None,
    }
}

fn multiplicative_op_exec(t: Option<&Token>) -> (r: Option<BinOp>)
    ensures
        r == multiplicative_op(opt_ref_view(t)),
{
    match t {
        Some(Token::Star) => Some(BinOp::Mul),
        Some(Token::Slash) => Some(BinOp::Div),
        Some(Token::Percent) => Some(BinOp::Mod),
        _ => None,
    }
}

/// Whether `e` may be assigned to: an identifier, a member or an index.
fn is_assignable(e: &Expr) -> (r: bool)
    ensures
        r == assignable(e@),
{
    matches!(e, Expr::Ident(_) | Expr::Member { .. } | Expr::Index { .. })
}

fn push_expr(v: &mut Vec<Expr>, e: Expr)
    ensures
        exprs_view(final(v)@) == exprs_view(old(v)@).push(e@),
{
    let ghost prev = v@;
    v.push(e);
    assert(v@.drop_last() == prev);
}

fn push_prop(v: &mut Vec<ObjectProp>, p: ObjectProp)
    ensures
        props_view(final(v)@) == props_view(old(v)@).push(p@),
{
    let ghost prev = v@;
    v.push(p);
    assert(v@.drop_last() == prev);
}

/// A parser over a token sequence of a source of `src_len` bytes.
pub struct Parser<'a> {
    tokens: &'a [Spanned],
    cursor: usize,
    src_len: usize,
}

impl<'a> Parser<'a> {
    /// The models of the tokens being parsed.
    pub closed spec fn toks(&self) -> Seq<SpecSpanned> {
        spans_view(self.tokens@)
    }

    /// The length of the source the tokens came from.
    pub closed spec fn source_len(&self) -> int {
        self.src_len as int
    }

    /// The index of the next token to read.
    pub closed spec fn cursor_at(&self) -> int {
        self.cursor as int
    }

    /// A parser at the first of `tokens`.
    pub fn new(tokens: &'a [Spanned], src_len: usize) -> (r: Self)
        ensures
            r.toks() == spans_view(tokens@),
            r.source_len() == src_len,
            r.cursor_at() == 0,
    {
        Parser { tokens, cursor: 0, src_len }
    }

    fn peek(&self, c: usize) -> (r: Option<&Token>)
        ensures
            opt_ref_view(r) == tok(self.toks(), c as int),
    {
        if c < self.tokens.len() {
            Some(&self.tokens[c].token)
        } else {
            None
        }
    }

    fn pos(&self, c: usize) -> (r: usize)
        ensures
            r == pos_at(self.toks(), self.src_len as int, c as int),
    {
        if c < self.tokens.len() {
            self.tokens[c].start
        } else {
            self.src_len
        }
    }

    fn fail(&self, message: &str, at: usize) -> (r: Fail)
        ensures
            fail_view(r) == fail_at(self.toks(), self.src_len as int, message@, at as int),
    {
        (ParseError { message: String::from_str(message), pos: self.pos(at) }, at)
    }

    fn fail_with(&self, message: String, at: usize) -> (r: Fail)
        ensures
            fail_view(r) == fail_at(self.toks(), self.src_len as int, message@, at as int),
    {
        (ParseError { message, pos: self.pos(at) }, at)
    }

    fn push_got(&self, m: &mut String, c: usize)
        ensures
            final(m)@ == old(m)@ + got_text(self.toks(), c as int),
    {
        match self.peek(c) {
            Some(t) => push_token_display(m, t),
            None => m.append("<eof>"),
        }
    }

    fn expect_fail(&self, c: usize, expected: &Token, ctx: &str) -> (r: Fail)
        ensures
            fail_view(r) == expect_err(self.toks(), self.src_len as int, c as int, expected@, ctx@),
    {
        let mut m = String::from_str("expected `");
        m.append(expected.name());
        m.append("` ");
        m.append(ctx);
        m.append(" (got `");
        self.push_got(&mut m, c);
        m.append("`)");
        self.fail_with(m, c)
    }

    fn eof_fail(&self, c: usize) -> (r: Fail)
        ensures
            fail_view(r) == eof_err(self.toks(), self.src_len as int, c as int),
    {
        let mut m = String::from_str("unexpected trailing token `");
        self.push_got(&mut m, c);
        m.append("`");
        self.fail_with(m, c)
    }

    fn parse_assignment(&self, c: usize) -> (r: ExResult)
        requires
            c <= self.tokens.len(),
        ensures
            ex_view(r) == assignment_at(self.toks(), self.src_len as int, c as int),
            r matches Ok((_, c2)) ==> c <= c2 <= self.tokens.len(),
        decreases self.tokens.len() - c, 14int,
    {
        proof {
            lemma_assignment_at_unfold(self.toks(), self.src_len as int, c as int);
        }
        let (left, c1) = self.parse_ternary(c)?;
        match assign_op_exec(self.peek(c1)) {
            None => Ok((left, c1)),
            Some(op) => {
                let (value, c2) = self.parse_assignment(c1 + 1)?;
                if !is_assignable(&left) {
                    return Err(self.fail("left-hand side of assignment is not assignable", c2));
                }
                Ok((Expr::Assign { target: Box::new(left), op, value: Box::new(value) }, c2))
            },
        }
    }

    fn parse_ternary(&self, c: usize) -> (r: ExResult)
        requires
            c <= self.tokens.len(),
        ensures
            ex_view(r) == ternary_at(self.toks(), self.src_len as int, c as int),
            r matches Ok((_, c2)) ==> c <= c2 <= self.tokens.len(),
        decreases self.tokens.len() - c, 13int,
    {
        proof {
            lemma_ternary_at_unfold(self.toks(), self.src_len as int, c as int);
        }
        let (cond, c1) = self.parse_coalesce(c)?;
        if matches!(self.peek(c1), Some(Token::Question)) {
            let (then_branch, c2) = self.parse_assignment(c1 + 1)?;
            if !matches!(self.peek(c2), Some(Token::Colon)) {
                return Err(self.expect_fail(c2, &Token::Colon, "in ternary"));
            }
            let (else_branch, c3) = self.parse_assignment(c2 + 1)?;
            return Ok(
                (
                    Expr::Ternary {
                        cond: Box::new(cond),
                        then_branch: Box::new(then_branch),
                        else_branch: Box::new(else_branch),
                    },
                    c3,
                ),
            );
        }
        Ok((cond, c1))
    }

    fn parse_coalesce(&self, c: usize) -> (r: ExResult)
        requires
            c <= self.tokens.len(),
        ensures
            ex_view(r) == coalesce_at(self.toks(), self.src_len as int, c as int),
            r matches Ok((_, c2)) ==> c <= c2 <= self.tokens.len(),
        decreases self.tokens.len() - c, 12int,
    {
        proof {
            lemma_coalesce_at_unfold(self.toks(), self.src_len as int, c as int);
        }
        let (first, c1) = self.parse_or(c)?;
        self.coalesce_loop(first, c1)
    }

    fn coalesce_loop(&self, left: Expr, c: usize) -> (r: ExResult)
        requires
            c <= self.tokens.len(),
        ensures
            ex_view(r) == coalesce_tail(self.toks(), self.src_len as int, left@, c as int),
            r matches Ok((_, c2)) ==> c <= c2 <= self.tokens.len(),
        decreases self.tokens.len() - c, 1int,
    {
        proof {
            lemma_coalesce_tail_unfold(self.toks(), self.src_len as int, left@, c as int);
        }
        if matches!(self.peek(c), Some(Token::QuestionQuestion)) {
            let (right, c2) = self.parse_or(c + 1)?;
            self.coalesce_loop(Expr::Coalesce(Box::new(left), Box::new(right)), c2)
        } else {
            Ok((left, c))
        }
    }

    fn parse_or(&self, c: usize) -> (r: ExResult)
        requires
            c <= self.tokens.len(),
        ensures
            ex_view(r) == or_at(self.toks(), self.src_len as int, c as int),
            r matches Ok((_, c2)) ==> c <= c2 <= self.tokens.len(),
        decreases self.tokens.len() - c, 11int,
    {
        proof {
            lemma_or_at_unfold(self.toks(), self.src_len as int, c as int);
        }
        let (first, c1) = self.parse_and(c)?;
        self.or_loop(first, c1)
    }

    fn or_loop(&self, left: Expr, c: usize) -> (r: ExResult)
        requires
            c <= self.tokens.len(),
        ensures
            ex_view(r) == or_tail(self.toks(), self.src_len as int, left@, c as int),
            r matches Ok((_, c2)) ==> c <= c2 <= self.tokens.len(),
        decreases self.tokens.len() - c, 1int,
    {
        proof {
            lemma_or_tail_unfold(self.toks(), self.src_len as int, left@, c as int);
        }
        if matches!(self.peek(c), Some(Token::PipePipe)) {
            let (right, c2) = self.parse_and(c + 1)?;
            self.or_loop(Expr::Or(Box::new(left), Box::new(right)), c2)
        } else {
            Ok((left, c))
        }
    }

    fn parse_and(&self, c: usize) -> (r: ExResult)
        requires
            c <= self.tokens.len(),
        ensures
            ex_view(r) == and_at(self.toks(), self.src_len as int, c as int),
            r matches Ok((_, c2)) ==> c <= c2 <= self.tokens.len(),
        decreases self.tokens.len() - c, 10int,
    {
        proof {
            lemma_and_at_unfold(self.toks(), self.src_len as int, c as int);
        }
        let (first, c1) = self.parse_equality(c)?;
        self.and_loop(first, c1)
    }

    fn and_loop(&self, left: Expr, c: usize) -> (r: ExResult)
        requires
            c <= self.tokens.len(),
        ensures
            ex_view(r) == and_tail(self.toks(), self.src_len as int, left@, c as int),
            r matches Ok((_, c2)) ==> c <= c2 <= self.tokens.len(),
        decreases self.tokens.len() - c, 1int,
    {
        proof {
            lemma_and_tail_unfold(self.toks(), self.src_len as int, left@, c as int);
        }
        if matches!(self.peek(c), Some(Token::AmpAmp)) {
            let (right, c2) = self.parse_equality(c + 1)?;
            self.and_loop(Expr::And(Box::new(left), Box::new(right)), c2)
        } else {
            Ok((left, c))
        }
    }

    fn parse_equality(&self, c: usize) -> (r: ExResult)
        requires
            c <= self.tokens.len(),
        ensures
            ex_view(r) == equality_at(self.toks(), self.src_len as int, c as int),
            r matches Ok((_, c2)) ==> c <= c2 <= self.tokens.len(),
        decreases self.tokens.len() - c, 9int,
    {
        proof {
            lemma_equality_at_unfold(self.toks(), self.src_len as int, c as int);
        }
        let (first, c1) = self.parse_comparison(c)?;
        self.equality_loop(first, c1)
    }

    fn equality_loop(&self, left: Expr, c: usize) -> (r: ExResult)
        requires
            c <= self.tokens.len(),
        ensures
            ex_view(r) == equality_tail(self.toks(), self.src_len as int, left@, c as int),
            r matches Ok((_, c2)) ==> c <= c2 <= self.tokens.len(),
        decreases self.tokens.len() - c, 1int,
    {
        proof {
            lemma_equality_tail_unfold(self.toks(), self.src_len as int, left@, c as int);
        }
        match equality_op_exec(self.peek(c)) {
            Some(op) => {
                let (right, c2) = self.parse_comparison(c + 1)?;
                self.equality_loop(Expr::Binary { op, left: Box::new(left), right: Box::new(right) }, c2)
            },
            None => Ok((left, c)),
        }
    }

    fn parse_comparison(&self, c: usize) -> (r: ExResult)
        requires
            c <= self.tokens.len(),
        ensures
            ex_view(r) == comparison_at(self.toks(), self.src_len as int, c as int),
            r matches Ok((_, c2)) ==> c <= c2 <= self.tokens.len(),
        decreases self.tokens.len() - c, 8int,
    {
        proof {
            lemma_comparison_at_unfold(self.toks(), self.src_len as int, c as int);
        }
        let (first, c1) = self.parse_addition(c)?;
        self.comparison_loop(first, c1)
    }

    fn comparison_loop(&self, left: Expr, c: usize) -> (r: ExResult)
        requires
            c <= self.tokens.len(),
        ensures
            ex_view(r) == comparison_tail(self.toks(), self.src_len as int, left@, c as int),
            r matches Ok((_, c2)) ==> c <= c2 <= self.tokens.len(),
        decreases self.tokens.len() - c, 1int,
    {
        proof {
            lemma_comparison_tail_unfold(self.toks(), self.src_len as int, left@, c as int);
        }
        match comparison_op_exec(self.peek(c)) {
            Some(op) => {
                let (right, c2) = self.parse_addition(c + 1)?;
                self.comparison_loop(Expr::Binary { op, left: Box::new(left), right: Box::new(right) }, c2)
            },
            None => Ok((left, c)),
        }
    }

    fn parse_addition(&self, c: usize) -> (r: ExResult)
        requires
            c <= self.tokens.len(),
        ensures
            ex_view(r) == addition_at(self.toks(), self.src_len as int, c as int),
            r matches Ok((_, c2)) ==> c <= c2 <= self.tokens.len(),
        decreases self.tokens.len() - c, 7int,
    {
        proof {
            lemma_addition_at_unfold(self.toks(), self.src_len as int, c as int);
        }
        let (first, c1) = self.parse_multiplication(c)?;
        self.addition_loop(first, c1)
    }

    fn addition_loop(&self, left: Expr, c: usize) -> (r: ExResult)
        requires
            c <= self.tokens.len(),
        ensures
            ex_view(r) == addition_tail(self.toks(), self.src_len as int, left@, c as int),
            r matches Ok((_, c2)) ==> c <= c2 <= self.tokens.len(),
        decreases self.tokens.len() - c, 1int,
    {
        proof {
            lemma_addition_tail_unfold(self.toks(), self.src_len as int, left@, c as int);
        }
        match additive_op_exec(self.peek(c)) {
            Some(op) => {
                let (right, c2) = self.parse_multiplication(c + 1)?;
                self.addition_loop(Expr::Binary { op, left: Box::new(left), right: Box::new(right) }, c2)
            },
            None => Ok((left, c)),
        }
    }

    fn parse_multiplication(&self, c: usize) -> (r: ExResult)
        requires
            c <= self.tokens.len(),
        ensures
            ex_view(r) == multiplication_at(self.toks(), self.src_len as int, c as int),
            r matches Ok((_, c2)) ==> c <= c2 <= self.tokens.len(),
        decreases self.tokens.len() - c, 6int,
    {
        proof {
            lemma_multiplication_at_unfold(self.toks(), self.src_len as int, c as int);
        }
        let (first, c1) = self.parse_unary(c)?;
        self.multiplication_loop(first, c1)
    }

    fn multiplication_loop(&self, left: Expr, c: usize) -> (r: ExResult)
        requires
            c <= self.tokens.len(),
        ensures
            ex_view(r) == multiplication_tail(self.toks(), self.src_len as int, left@, c as int),
            r matches Ok((_, c2)) ==> c <= c2 <= self.tokens.len(),
        decreases self.tokens.len() - c, 1int,
    {
        proof {
            lemma_multiplication_tail_unfold(self.toks(), self.src_len as int, left@, c as int);
        }
        match multiplicative_op_exec(self.peek(c)) {
            Some(op) => {
                let (right, c2) = self.parse_unary(c + 1)?;
                self.multiplication_loop(Expr::Binary { op, left: Box::new(left), right: Box::new(right) }, c2)
            },
            None => Ok((left, c)),
        }
    }

    fn parse_unary(&self, c: usize) -> (r: ExResult)
        requires
            c <= self.tokens.len(),
        ensures
            ex_view(r) == unary_at(self.toks(), self.src_len as int, c as int),
            r matches Ok((_, c2)) ==> c <= c2 <= self.tokens.len(),
        decreases self.tokens.len() - c, 5int,
    {
        proof {
            lemma_unary_at_unfold(self.toks(), self.src_len as int, c as int);
        }
        match self.peek(c) {
            Some(Token::Bang) => {
                let (e, c2) = self.parse_unary(c + 1)?;
                Ok((Expr::Not(Box::new(e)), c2))
            },
            Some(Token::Minus) => {
                let (e, c2) = self.parse_unary(c + 1)?;
                Ok((Expr::Neg(Box::new(e)), c2))
            },
            Some(Token::Plus) => {
                let (e, c2) = self.parse_unary(c + 1)?;
                Ok((Expr::Pos(Box::new(e)), c2))
            },
            Some(Token::PlusPlus) => {
                let (target, c2) = self.parse_unary(c + 1)?;
                if !is_assignable(&target) {
                    return Err(self.fail("++ requires an assignable target", c2));
                }
                Ok((Expr::UpdatePrefix { target: Box::new(target), increment: true }, c2))
            },
            Some(Token::MinusMinus) => {
                let (target, c2) = self.parse_unary(c + 1)?;
                if !is_assignable(&target) {
                    return Err(self.fail("-- requires an assignable target", c2));
                }
                Ok((Expr::UpdatePrefix { target: Box::new(target), increment: false }, c2))
            },
            _ => self.parse_postfix(c),
        }
    }

    fn parse_postfix(&self, c: usize) -> (r: ExResult)
        requires
            c <= self.tokens.len(),
        ensures
            ex_view(r) == postfix_at(self.toks(), self.src_len as int, c as int),
            r matches Ok((_, c2)) ==> c <= c2 <= self.tokens.len(),
        decreases self.tokens.len() - c, 4int,
    {
        proof {
            lemma_postfix_at_unfold(self.toks(), self.src_len as int, c as int);
        }
        let (first, c1) = self.parse_member_or_call(c)?;
        let mut node = first;
        let mut k: usize = c1;
        #[verifier::loop_isolation(false)]
        loop
            invariant
                c <= c1 <= k <= self.tokens.len(),
                postfix_tail(self.toks(), self.src_len as int, first@, c1 as int) == postfix_tail(
                    self.toks(),
                    self.src_len as int,
                    node@,
                    k as int,
                ),
            decreases self.tokens.len() - k,
        {
            proof {
                lemma_postfix_tail_unfold(self.toks(), self.src_len as int, node@, k as int);
            }
            match self.peek(k) {
                Some(Token::PlusPlus) => {
                    if !is_assignable(&node) {
                        return Err(self.fail("++ requires an assignable target", k + 1));
                    }
                    node = Expr::UpdatePostfix { target: Box::new(node), increment: true };
                },
                Some(Token::MinusMinus) => {
                    if !is_assignable(&node) {
                        return Err(self.fail("-- requires an assignable target", k + 1));
                    }
                    node = Expr::UpdatePostfix { target: Box::new(node), increment: false };
                },
                _ => {
                    break ;
                },
            }
            k = k + 1;
        }
        Ok((node, k))
    }

    fn parse_member_or_call(&self, c: usize) -> (r: ExResult)
        requires
            c <= self.tokens.len(),
        ensures
            ex_view(r) == member_or_call_at(self.toks(), self.src_len as int, c as int),
            r matches Ok((_, c2)) ==> c <= c2 <= self.tokens.len(),
        decreases self.tokens.len() - c, 3int,
    {
        proof {
            lemma_member_or_call_at_unfold(self.toks(), self.src_len as int, c as int);
        }
        let (first, c1) = self.parse_primary(c)?;
        self.member_loop(first, c1)
    }

    fn member_loop(&self, node: Expr, c: usize) -> (r: ExResult)
        requires
            c <= self.tokens.len(),
        ensures
            ex_view(r) == member_tail(self.toks(), self.src_len as int, node@, c as int),
            r matches Ok((_, c2)) ==> c <= c2 <= self.tokens.len(),
        decreases self.tokens.len() - c, 1int,
    {
        proof {
            lemma_member_tail_unfold(self.toks(), self.src_len as int, node@, c as int);
        }
        match self.peek(c) {
            Some(Token::Dot) => {
                match self.peek(c + 1) {
                    Some(Token::Ident(name)) => {
                        let member = Expr::Member {
                            object: Box::new(node),
                            property: name.clone(),
                            optional: false,
                        };
                        self.member_loop(member, c + 2)
                    },
                    other => {
                        let mut m = String::from_str("expected property name after `.` (got `");
                        push_option_token_debug(&mut m, other);
                        m.append("`)");
                        let at = if other.is_some() {
                            c + 2
                        } else {
                            c + 1
                        };
                        Err(self.fail_with(m, at))
                    },
                }
            },
            Some(Token::QuestionDot) => {
                match self.peek(c + 1) {
                    Some(Token::Ident(name)) => {
                        let member = Expr::Member {
                            object: Box::new(node),
                            property: name.clone(),
                            optional: true,
                        };
                        self.member_loop(member, c + 2)
                    },
                    Some(Token::LParen) => {
                        let (args, c3) = self.parse_args(c + 2)?;
                        let callee = Expr::Member {
                            object: Box::new(node),
                            property: String::from_str("__optional_call__"),
                            optional: true,
                        };
                        assert(callee@ == (SpecExpr::Member {
                            object: Box::new(node@),
                            property: optional_call_name(),
                            optional: true,
                        }));
                        self.member_loop(Expr::Call { callee: Box::new(callee), args }, c3)
                    },
                    other => {
                        let mut m = String::from_str("expected property after `?.` (got `");
                        push_option_token_debug(&mut m, other);
                        m.append("`)");
                        Err(self.fail_with(m, c + 1))
                    },
                }
            },
            Some(Token::LBracket) => {
                let (index, c2) = self.parse_assignment(c + 1)?;
                if !matches!(self.peek(c2), Some(Token::RBracket)) {
                    return Err(self.expect_fail(c2, &Token::RBracket, "after computed index"));
                }
                self.member_loop(Expr::Index { object: Box::new(node), index: Box::new(index) }, c2 + 1)
            },
            Some(Token::LParen) => {
                let (args, c2) = self.parse_args(c + 1)?;
                self.member_loop(Expr::Call { callee: Box::new(node), args }, c2)
            },
            _ => Ok((node, c)),
        }
    }

    fn parse_args(&self, c: usize) -> (r: ListResult)
        requires
            c <= self.tokens.len(),
        ensures
            list_view(r) == args_at(self.toks(), self.src_len as int, c as int),
            r matches Ok((_, c2)) ==> c < c2 <= self.tokens.len(),
        decreases self.tokens.len() - c, 16int,
    {
        proof {
            lemma_args_at_unfold(self.toks(), self.src_len as int, c as int);
        }
        if matches!(self.peek(c), Some(Token::RParen)) {
            let args: Vec<Expr> = Vec::new();
            assert(exprs_view(args@) == Seq::<SpecExpr>::empty());
            return Ok((args, c + 1));
        }
        let args: Vec<Expr> = Vec::new();
        assert(exprs_view(args@) == Seq::<SpecExpr>::empty());
        self.arg_items(c, args)
    }

    fn arg_items(&self, c: usize, acc: Vec<Expr>) -> (r: ListResult)
        requires
            c <= self.tokens.len(),
        ensures
            list_view(r) == arg_list(self.toks(), self.src_len as int, c as int, exprs_view(acc@)),
            r matches Ok((_, c2)) ==> c < c2 <= self.tokens.len(),
        decreases self.tokens.len() - c, 15int,
    {
        proof {
            lemma_arg_list_unfold(self.toks(), self.src_len as int, c as int, exprs_view(acc@));
        }
        let mut acc = acc;
        let (a, c1) = self.parse_assignment(c)?;
        push_expr(&mut acc, a);
        if matches!(self.peek(c1), Some(Token::RParen)) {
            return Ok((acc, c1 + 1));
        }
        if !matches!(self.peek(c1), Some(Token::Comma)) {
            return Err(self.expect_fail(c1, &Token::Comma, "between call arguments"));
        }
        if matches!(self.peek(c1 + 1), Some(Token::RParen)) {
            return Ok((acc, c1 + 2));
        }
        self.arg_items(c1 + 1, acc)
    }

    fn paren_items(&self, c: usize, acc: Vec<Expr>) -> (r: ListResult)
        requires
            c <= self.tokens.len(),
        ensures
            list_view(r) == paren_list(self.toks(), self.src_len as int, c as int, exprs_view(acc@)),
            r matches Ok((_, c2)) ==> c <= c2 <= self.tokens.len(),
        decreases self.tokens.len() - c, 15int,
    {
        proof {
            lemma_paren_list_unfold(self.toks(), self.src_len as int, c as int, exprs_view(acc@));
        }
        let mut acc = acc;
        let (a, c1) = self.parse_assignment(c)?;
        push_expr(&mut acc, a);
        if matches!(self.peek(c1), Some(Token::Comma) | Some(Token::Semicolon)) {
            return self.paren_items(c1 + 1, acc);
        }
        Ok((acc, c1))
    }

    fn array_items(&self, c: usize, acc: Vec<Expr>) -> (r: ListResult)
        requires
            c <= self.tokens.len(),
        ensures
            list_view(r) == array_list(self.toks(), self.src_len as int, c as int, exprs_view(acc@)),
            r matches Ok((_, c2)) ==> c < c2 <= self.tokens.len(),
        decreases self.tokens.len() - c, 15int,
    {
        proof {
            lemma_array_list_unfold(self.toks(), self.src_len as int, c as int, exprs_view(acc@));
        }
        let mut acc = acc;
        let (a, c1) = self.parse_assignment(c)?;
        push_expr(&mut acc, a);
        if matches!(self.peek(c1), Some(Token::RBracket)) {
            return Ok((acc, c1 + 1));
        }
        if !matches!(self.peek(c1), Some(Token::Comma)) {
            return Err(self.expect_fail(c1, &Token::Comma, "between array elements"));
        }
        if matches!(self.peek(c1 + 1), Some(Token::RBracket)) {
            return Ok((acc, c1 + 2));
        }
        self.array_items(c1 + 1, acc)
    }

    fn parse_prop(&self, c: usize) -> (r: PropResult)
        requires
            c <= self.tokens.len(),
        ensures
            prop_result_view(r) == prop_at(self.toks(), self.src_len as int, c as int),
            r matches Ok((_, c2)) ==> c < c2 <= self.tokens.len(),
        decreases self.tokens.len() - c, 1int,
    {
        proof {
            lemma_prop_at_unfold(self.toks(), self.src_len as int, c as int);
        }
        match self.peek(c) {
            Some(Token::Spread) => {
                let (v, c2) = self.parse_assignment(c + 1)?;
                Ok((ObjectProp::Spread(v), c2))
            },
            Some(Token::LBracket) => {
                let (k, c2) = self.parse_assignment(c + 1)?;
                if !matches!(self.peek(c2), Some(Token::RBracket)) {
                    return Err(self.expect_fail(c2, &Token::RBracket, "after computed key"));
                }
                if !matches!(self.peek(c2 + 1), Some(Token::Colon)) {
                    return Err(self.expect_fail(c2 + 1, &Token::Colon, "after computed key"));
                }
                let (v, c3) = self.parse_assignment(c2 + 2)?;
                Ok((ObjectProp::Computed(k, v), c3))
            },
            Some(Token::Ident(k)) => {
                if matches!(self.peek(c + 1), Some(Token::Colon)) {
                    let (v, c2) = self.parse_assignment(c + 2)?;
                    Ok((ObjectProp::KeyValue(k.clone(), v), c2))
                } else {
                    Ok((ObjectProp::Shorthand(k.clone()), c + 1))
                }
            },
            Some(Token::String(k)) => {
                if matches!(self.peek(c + 1), Some(Token::Colon)) {
                    let (v, c2) = self.parse_assignment(c + 2)?;
                    Ok((ObjectProp::KeyValue(k.clone(), v), c2))
                } else {
                    Err(self.expect_fail(c + 1, &Token::Colon, "after string key in object literal"))
                }
            },
            other => {
                let mut m = String::from_str("expected property name in object literal (got `");
                push_option_token_debug(&mut m, other);
                m.append("`)");
                let at = if other.is_some() {
                    c + 1
                } else {
                    c
                };
                Err(self.fail_with(m, at))
            },
        }
    }

    fn prop_items(&self, c: usize, acc: Vec<ObjectProp>) -> (r: PropsResult)
        requires
            c <= self.tokens.len(),
        ensures
            props_result_view(r) == prop_list(self.toks(), self.src_len as int, c as int, props_view(acc@)),
            r matches Ok((_, c2)) ==> c < c2 <= self.tokens.len(),
        decreases self.tokens.len() - c, 2int,
    {
        proof {
            lemma_prop_list_unfold(self.toks(), self.src_len as int, c as int, props_view(acc@));
        }
        let mut acc = acc;
        let (p, c1) = self.parse_prop(c)?;
        push_prop(&mut acc, p);
        if matches!(self.peek(c1), Some(Token::RBrace)) {
            return Ok((acc, c1 + 1));
        }
        if !matches!(self.peek(c1), Some(Token::Comma)) {
            return Err(self.expect_fail(c1, &Token::Comma, "between object properties"));
        }
        if matches!(self.peek(c1 + 1), Some(Token::RBrace)) {
            return Ok((acc, c1 + 2));
        }
        self.prop_items(c1 + 1, acc)
    }

    /// After `(`: reads `name (, name)* ) =>` and returns the names with the
    /// index of the `=>`, or `None` when the tokens have another shape.
    fn try_parse_arrow_params(&self, c: usize) -> (r: Option<(Vec<String>, usize)>)
        requires
            c <= self.tokens.len(),
        ensures
            match r {
                Some((params, c1)) => arrow_params_at(self.toks(), c as int, seq![]) == Some(
                    (strings_view(params@), c1 as int),
                ) && c < c1 < self.tokens.len(),
                None => arrow_params_at(self.toks(), c as int, seq![]) is None,
            },
    {
        let mut params: Vec<String> = Vec::new();
        let mut k: usize = c;
        assert(strings_view(params@) == Seq::<Seq<char>>::empty());
        loop
            invariant
                c <= k <= self.tokens.len(),
                arrow_params_at(self.toks(), c as int, seq![]) == arrow_params_at(
                    self.toks(),
                    k as int,
                    strings_view(params@),
                ),
            decreases self.tokens.len() - k,
        {
            proof {
                lemma_arrow_params_at_unfold(self.toks(), k as int, strings_view(params@));
            }
            match self.peek(k) {
                Some(Token::Ident(s)) => {
                    let ghost prev = params@;
                    params.push(s.clone());
                    assert(strings_view(params@) == strings_view(prev).push(s@));
                },
                _ => {
                    return None;
                },
            }
            if matches!(self.peek(k + 1), Some(Token::Comma)) {
                k = k + 2;
            } else if matches!(self.peek(k + 1), Some(Token::RParen)) {
                if matches!(self.peek(k + 2), Some(Token::Arrow)) {
                    return Some((params, k + 2));
                } else {
                    return None;
                }
            } else {
                return None;
            }
        }
    }

    fn parse_primary(&self, c: usize) -> (r: ExResult)
        requires
            c <= self.tokens.len(),
        ensures
            ex_view(r) == primary_at(self.toks(), self.src_len as int, c as int),
            r matches Ok((_, c2)) ==> c < c2 <= self.tokens.len(),
        decreases self.tokens.len() - c, 2int,
    {
        proof {
            lemma_primary_at_unfold(self.toks(), self.src_len as int, c as int);
        }
        match self.peek(c) {
            None => Err(self.fail("unexpected end of expression", c)),
            Some(Token::Ident(name)) => {
                if matches!(self.peek(c + 1), Some(Token::Arrow)) {
                    let (body, c2) = self.parse_assignment(c + 2)?;
                    let mut params: Vec<String> = Vec::new();
                    params.push(name.clone());
                    assert(strings_view(params@) == seq![name@]);
                    Ok((Expr::Arrow { params, body: Box::new(body) }, c2))
                } else {
                    Ok((Expr::Ident(name.clone()), c + 1))
                }
            },
            Some(Token::Number(l)) => Ok((Expr::Number(l.clone()), c + 1)),
            Some(Token::String(s)) => Ok((Expr::Str(s.clone()), c + 1)),
            Some(Token::Template(s)) => Ok((Expr::Template(s.clone()), c + 1)),
            Some(Token::True) => Ok((Expr::Bool(true), c + 1)),
            Some(Token::False) => Ok((Expr::Bool(false), c + 1)),
            Some(Token::Null) => Ok((Expr::Null, c + 1)),
            Some(Token::Undefined) => Ok((Expr::Undefined, c + 1)),
            Some(Token::LParen) => {
                if matches!(self.peek(c + 1), Some(Token::RParen)) {
                    if !matches!(self.peek(c + 2), Some(Token::Arrow)) {
                        return Err(
                            self.fail(
                                "empty `()` is only valid as the parameter list of an arrow function",
                                c + 2,
                            ),
                        );
                    }
                    let (body, c2) = self.parse_assignment(c + 3)?;
                    let params: Vec<String> = Vec::new();
                    assert(strings_view(params@) == Seq::<Seq<char>>::empty());
                    return Ok((Expr::Arrow { params, body: Box::new(body) }, c2));
                }
                match self.try_parse_arrow_params(c + 1) {
                    Some((params, c1)) => {
                        let (body, c2) = self.parse_assignment(c1 + 1)?;
                        Ok((Expr::Arrow { params, body: Box::new(body) }, c2))
                    },
                    None => {
                        let acc: Vec<Expr> = Vec::new();
                        assert(exprs_view(acc@) == Seq::<SpecExpr>::empty());
                        let (mut items, c2) = self.paren_items(c + 1, acc)?;
                        if !matches!(self.peek(c2), Some(Token::RParen)) {
                            return Err(
                                self.expect_fail(c2, &Token::RParen, "after parenthesized expression"),
                            );
                        }
                        proof {
                            lemma_exprs_view(items@);
                        }
                        let e = if items.len() == 1 {
                            items.pop().unwrap()
                        } else {
                            Expr::Sequence(items)
                        };
                        Ok((e, c2 + 1))
                    },
                }
            },
            Some(Token::LBracket) => {
                if matches!(self.peek(c + 1), Some(Token::RBracket)) {
                    let items: Vec<Expr> = Vec::new();
                    assert(exprs_view(items@) == Seq::<SpecExpr>::empty());
                    return Ok((Expr::Array(items), c + 2));
                }
                let acc: Vec<Expr> = Vec::new();
                assert(exprs_view(acc@) == Seq::<SpecExpr>::empty());
                let (items, c2) = self.array_items(c + 1, acc)?;
                Ok((Expr::Array(items), c2))
            },
            Some(Token::LBrace) => {
                if matches!(self.peek(c + 1), Some(Token::RBrace)) {
                    let props: Vec<ObjectProp> = Vec::new();
                    assert(props_view(props@) == Seq::<SpecObjectProp>::empty());
                    return Ok((Expr::Object(props), c + 2));
                }
                let acc: Vec<ObjectProp> = Vec::new();
                assert(props_view(acc@) == Seq::<SpecObjectProp>::empty());
                let (props, c2) = self.prop_items(c + 1, acc)?;
                Ok((Expr::Object(props), c2))
            },
            Some(other) => {
                let mut m = String::from_str("unexpected token `");
                push_token_display(&mut m, other);
                m.append("` in expression");
                Err((ParseError { message: m, pos: self.pos(c) }, c + 1))
            },
        }
    }

    /// Parses a complete expression from the cursor on (see `full_at`): an
    /// assignment, or a `,` / `;` separated sequence of them, which must cover
    /// every remaining token. Afterwards the cursor stands past the last token
    /// on success, and where the parse gave up on failure.
    pub fn parse_full(&mut self) -> (r: Result<Expr, ParseError>)
        requires
            old(self).cursor_at() <= old(self).toks().len(),
        ensures
            final(self).toks() == old(self).toks(),
            final(self).source_len() == old(self).source_len(),
            match full_at(old(self).toks(), old(self).source_len(), old(self).cursor_at()) {
                Ok((e, c)) => r matches Ok(x) && x@ == e && final(self).cursor_at() == c,
                Err(pe) => r matches Err(x) && x.message@ == pe.message && x.pos == pe.pos
                    && final(self).cursor_at() == pe.at,
            },
    {
        match self.parse_full_from(self.cursor) {
            Ok((e, c)) => {
                self.cursor = c;
                Ok(e)
            },
            Err((err, at)) => {
                self.cursor = at;
                Err(err)
            },
        }
    }

    fn parse_full_from(&self, c: usize) -> (r: ExResult)
        requires
            c <= self.tokens.len(),
        ensures
            ex_view(r) == full_at(self.toks(), self.src_len as int, c as int),
    {

        let (first, c1) = self.parse_assignment(c)?;
        if matches!(self.peek(c1), Some(Token::Comma) | Some(Token::Semicolon)) {
            let mut items: Vec<Expr> = Vec::new();
            push_expr(&mut items, first);
            assert(exprs_view(items@) == seq![first@]);
            let mut k: usize = c1 + 1;
            let ghost first_items = exprs_view(items@);
            #[verifier::loop_isolation(false)]
            loop
                invariant
                    c1 < k <= self.tokens.len(),
                    sequence_list(self.toks(), self.src_len as int, c1 + 1, first_items)
                        == sequence_list(self.toks(), self.src_len as int, k as int, exprs_view(items@)),
                decreases self.tokens.len() - k,
            {
                proof {
                    lemma_sequence_list_unfold(self.toks(), self.src_len as int, k as int, exprs_view(items@));
                }
                if self.peek(k).is_none() {
                    break ;
                }
                let (e, k1) = self.parse_assignment(k)?;
                push_expr(&mut items, e);
                if matches!(self.peek(k1), Some(Token::Comma) | Some(Token::Semicolon)) {
                    k = k1 + 1;
                } else {
                    k = k1;
                    break ;
                }
            }
            if k != self.tokens.len() {
                return Err(self.eof_fail(k));
            }
            proof {
                lemma_exprs_view(items@);
            }
            let result = if items.len() == 1 {
                let e = items.pop().unwrap();
                e
            } else {
                Expr::Sequence(items)
            };
            return Ok((result, k));
        }
        if c1 != self.tokens.len() {
            return Err(self.eof_fail(c1));
        }
        Ok((first, c1))
    }

}

/// One unfolding of `assignment_at`.
pub proof fn lemma_assignment_at_unfold(ts: Seq<SpecSpanned>, len: int, c: int)
    ensures
        assignment_at(ts, len, c) == ({
            match ternary_at(ts, len, c) {
                Err(e) => Err(e),
                Ok((left, c1)) => if c <= c1 <= ts.len() {
                    match assign_op(tok(ts, c1)) {
                        None => Ok((left, c1)),
                        Some(op) => match assignment_at(ts, len, c1 + 1) {
                            Err(e) => Err(e),
                            Ok((value, c2)) => if assignable(left) {
                                Ok(
                                    (
                                        SpecExpr::Assign {
                                            target: Box::new(left),
                                            op,
                                            value: Box::new(value),
                                        },
                                        c2,
                                    ),
                                )
                            } else {
                                Err(
                                    fail_at(
                                        ts,
                                        len,
                                        "left-hand side of assignment is not assignable"@,
                                        c2,
                                    ),
                                )
                            },
                        },
                    }
                } else {
                    junk()
                },
            }
        }),
{
    reveal(assignment_at);
    reveal(ternary_at);
}

/// One unfolding of `ternary_at`.
pub proof fn lemma_ternary_at_unfold(ts: Seq<SpecSpanned>, len: int, c: int)
    ensures
        ternary_at(ts, len, c) == ({
            match coalesce_at(ts, len, c) {
                Err(e) => Err(e),
                Ok((cond, c1)) => if !(c <= c1 <= ts.len()) {
                    junk()
                } else if tok(ts, c1) == Some(SpecToken::Question) {
                    match assignment_at(ts, len, c1 + 1) {
                        Err(e) => Err(e),
                        Ok((then_branch, c2)) => if !(c <= c2 <= ts.len()) {
                            junk()
                        } else if tok(ts, c2) == Some(SpecToken::Colon) {
                            match assignment_at(ts, len, c2 + 1) {
                                Err(e) => Err(e),
                                Ok((else_branch, c3)) => Ok(
                                    (
                                        SpecExpr::Ternary {
                                            cond: Box::new(cond),
                                            then_branch: Box::new(then_branch),
                                            else_branch: Box::new(else_branch),
                                        },
                                        c3,
                                    ),
                                ),
                            }
                        } else {
                            Err(expect_err(ts, len, c2, SpecToken::Colon, "in ternary"@))
                        },
                    }
                } else {
                    Ok((cond, c1))
                },
            }
        }),
{
    reveal(ternary_at);
    reveal(assignment_at);
    reveal(coalesce_at);
}

/// One unfolding of `coalesce_at`.
pub proof fn lemma_coalesce_at_unfold(ts: Seq<SpecSpanned>, len: int, c: int)
    ensures
        coalesce_at(ts, len, c) == ({
            match or_at(ts, len, c) {
                Err(e) => Err(e),
                Ok((left, c1)) => if c <= c1 <= ts.len() {
                    coalesce_tail(ts, len, left, c1)
                } else {
                    junk()
                },
            }
        }),
{
    reveal(coalesce_at);
    reveal(coalesce_tail);
    reveal(or_at);
}

/// One unfolding of `coalesce_tail`.
pub proof fn lemma_coalesce_tail_unfold(ts: Seq<SpecSpanned>, len: int, left: SpecExpr, c: int)
    ensures
        coalesce_tail(ts, len, left, c) == ({
            if tok(ts, c) == Some(SpecToken::QuestionQuestion) {
                match or_at(ts, len, c + 1) {
                    Err(e) => Err(e),
                    Ok((right, c2)) => if c < c2 <= ts.len() {
                        coalesce_tail(ts, len, SpecExpr::Coalesce(Box::new(left), Box::new(right)), c2)
                    } else {
                        junk()
                    },
                }
            } else {
                Ok((left, c))
            }
        }),
{
    reveal(coalesce_tail);
    reveal(or_at);
}

/// One unfolding of `or_at`.
pub proof fn lemma_or_at_unfold(ts: Seq<SpecSpanned>, len: int, c: int)
    ensures
        or_at(ts, len, c) == ({
            match and_at(ts, len, c) {
                Err(e) => Err(e),
                Ok((left, c1)) => if c <= c1 <= ts.len() {
                    or_tail(ts, len, left, c1)
                } else {
                    junk()
                },
            }
        }),
{
    reveal(or_at);
    reveal(or_tail);
    reveal(and_at);
}

/// One unfolding of `or_tail`.
pub proof fn lemma_or_tail_unfold(ts: Seq<SpecSpanned>, len: int, left: SpecExpr, c: int)
    ensures
        or_tail(ts, len, left, c) == ({
            if tok(ts, c) == Some(SpecToken::PipePipe) {
                match and_at(ts, len, c + 1) {
                    Err(e) => Err(e),
                    Ok((right, c2)) => if c < c2 <= ts.len() {
                        or_tail(ts, len, SpecExpr::Or(Box::new(left), Box::new(right)), c2)
                    } else {
                        junk()
                    },
                }
            } else {
                Ok((left, c))
            }
        }),
{
    reveal(or_tail);
    reveal(and_at);
}

/// One unfolding of `and_at`.
pub proof fn lemma_and_at_unfold(ts: Seq<SpecSpanned>, len: int, c: int)
    ensures
        and_at(ts, len, c) == ({
            match equality_at(ts, len, c) {
                Err(e) => Err(e),
                Ok((left, c1)) => if c <= c1 <= ts.len() {
                    and_tail(ts, len, left, c1)
                } else {
                    junk()
                },
            }
        }),
{
    reveal(and_at);
    reveal(and_tail);
    reveal(equality_at);
}

/// One unfolding of `and_tail`.
pub proof fn lemma_and_tail_unfold(ts: Seq<SpecSpanned>, len: int, left: SpecExpr, c: int)
    ensures
        and_tail(ts, len, left, c) == ({
            if tok(ts, c) == Some(SpecToken::AmpAmp) {
                match equality_at(ts, len, c + 1) {
                    Err(e) => Err(e),
                    Ok((right, c2)) => if c < c2 <= ts.len() {
                        and_tail(ts, len, SpecExpr::And(Box::new(left), Box::new(right)), c2)
                    } else {
                        junk()
                    },
                }
            } else {
                Ok((left, c))
            }
        }),
{
    reveal(and_tail);
    reveal(equality_at);
}

/// One unfolding of `equality_at`.
pub proof fn lemma_equality_at_unfold(ts: Seq<SpecSpanned>, len: int, c: int)
    ensures
        equality_at(ts, len, c) == ({
            match comparison_at(ts, len, c) {
                Err(e) => Err(e),
                Ok((left, c1)) => if c <= c1 <= ts.len() {
                    equality_tail(ts, len, left, c1)
                } else {
                    junk()
                },
            }
        }),
{
    reveal(equality_at);
    reveal(equality_tail);
    reveal(comparison_at);
}

/// One unfolding of `equality_tail`.
pub proof fn lemma_equality_tail_unfold(ts: Seq<SpecSpanned>, len: int, left: SpecExpr, c: int)
    ensures
        equality_tail(ts, len, left, c) == ({
            match equality_op(tok(ts, c)) {
                Some(op) => match comparison_at(ts, len, c + 1) {
                    Err(e) => Err(e),
                    Ok((right, c2)) => if c < c2 <= ts.len() {
                        equality_tail(
                            ts,
                            len,
                            SpecExpr::Binary { op, left: Box::new(left), right: Box::new(right) },
                            c2,
                        )
                    } else {
                        junk()
                    },
                },
                None => Ok((left, c)),
            }
        }),
{
    reveal(equality_tail);
    reveal(comparison_at);
}

/// One unfolding of `comparison_at`.
pub proof fn lemma_comparison_at_unfold(ts: Seq<SpecSpanned>, len: int, c: int)
    ensures
        comparison_at(ts, len, c) == ({
            match addition_at(ts, len, c) {
                Err(e) => Err(e),
                Ok((left, c1)) => if c <= c1 <= ts.len() {
                    comparison_tail(ts, len, left, c1)
                } else {
                    junk()
                },
            }
        }),
{
    reveal(comparison_at);
    reveal(comparison_tail);
    reveal(addition_at);
}

/// One unfolding of `comparison_tail`.
pub proof fn lemma_comparison_tail_unfold(ts: Seq<SpecSpanned>, len: int, left: SpecExpr, c: int)
    ensures
        comparison_tail(ts, len, left, c) == ({
            match comparison_op(tok(ts, c)) {
                Some(op) => match addition_at(ts, len, c + 1) {
                    Err(e) => Err(e),
                    Ok((right, c2)) => if c < c2 <= ts.len() {
                        comparison_tail(
                            ts,
                            len,
                            SpecExpr::Binary { op, left: Box::new(left), right: Box::new(right) },
                            c2,
                        )
                    } else {
                        junk()
                    },
                },
                None => Ok((left, c)),
            }
        }),
{
    reveal(comparison_tail);
    reveal(addition_at);
}

/// One unfolding of `addition_at`.
pub proof fn lemma_addition_at_unfold(ts: Seq<SpecSpanned>, len: int, c: int)
    ensures
        addition_at(ts, len, c) == ({
            match multiplication_at(ts, len, c) {
                Err(e) => Err(e),
                Ok((left, c1)) => if c <= c1 <= ts.len() {
                    addition_tail(ts, len, left, c1)
                } else {
                    junk()
                },
            }
        }),
{
    reveal(addition_at);
    reveal(addition_tail);
    reveal(multiplication_at);
}

/// One unfolding of `addition_tail`.
pub proof fn lemma_addition_tail_unfold(ts: Seq<SpecSpanned>, len: int, left: SpecExpr, c: int)
    ensures
        addition_tail(ts, len, left, c) == ({
            match additive_op(tok(ts, c)) {
                Some(op) => match multiplication_at(ts, len, c + 1) {
                    Err(e) => Err(e),
                    Ok((right, c2)) => if c < c2 <= ts.len() {
                        addition_tail(
                            ts,
                            len,
                            SpecExpr::Binary { op, left: Box::new(left), right: Box::new(right) },
                            c2,
                        )
                    } else {
                        junk()
                    },
                },
                None => Ok((left, c)),
            }
        }),
{
    reveal(addition_tail);
    reveal(multiplication_at);
}

/// One unfolding of `multiplication_at`.
pub proof fn lemma_multiplication_at_unfold(ts: Seq<SpecSpanned>, len: int, c: int)
    ensures
        multiplication_at(ts, len, c) == ({
            match unary_at(ts, len, c) {
                Err(e) => Err(e),
                Ok((left, c1)) => if c <= c1 <= ts.len() {
                    multiplication_tail(ts, len, left, c1)
                } else {
                    junk()
                },
            }
        }),
{
    reveal(multiplication_at);
    reveal(multiplication_tail);
    reveal(unary_at);
}

/// One unfolding of `multiplication_tail`.
pub proof fn lemma_multiplication_tail_unfold(ts: Seq<SpecSpanned>, len: int, left: SpecExpr, c: int)
    ensures
        multiplication_tail(ts, len, left, c) == ({
            match multiplicative_op(tok(ts, c)) {
                Some(op) => match unary_at(ts, len, c + 1) {
                    Err(e) => Err(e),
                    Ok((right, c2)) => if c < c2 <= ts.len() {
                        multiplication_tail(
                            ts,
                            len,
                            SpecExpr::Binary { op, left: Box::new(left), right: Box::new(right) },
                            c2,
                        )
                    } else {
                        junk()
                    },
                },
                None => Ok((left, c)),
            }
        }),
{
    reveal(multiplication_tail);
    reveal(unary_at);
}

/// One unfolding of `unary_at`.
pub proof fn lemma_unary_at_unfold(ts: Seq<SpecSpanned>, len: int, c: int)
    ensures
        unary_at(ts, len, c) == ({
            match tok(ts, c) {
                Some(SpecToken::Bang) => match unary_at(ts, len, c + 1) {
                    Err(e) => Err(e),
                    Ok((e, c2)) => Ok((SpecExpr::Not(Box::new(e)), c2)),
                },
                Some(SpecToken::Minus) => match unary_at(ts, len, c + 1) {
                    Err(e) => Err(e),
                    Ok((e, c2)) => Ok((SpecExpr::Neg(Box::new(e)), c2)),
                },
                Some(SpecToken::Plus) => match unary_at(ts, len, c + 1) {
                    Err(e) => Err(e),
                    Ok((e, c2)) => Ok((SpecExpr::Pos(Box::new(e)), c2)),
                },
                Some(SpecToken::PlusPlus) => match unary_at(ts, len, c + 1) {
                    Err(e) => Err(e),
                    Ok((t, c2)) => if assignable(t) {
                        Ok((SpecExpr::UpdatePrefix { target: Box::new(t), increment: true }, c2))
                    } else {
                        Err(fail_at(ts, len, "++ requires an assignable target"@, c2))
                    },
                },
                Some(SpecToken::MinusMinus) => match unary_at(ts, len, c + 1) {
                    Err(e) => Err(e),
                    Ok((t, c2)) => if assignable(t) {
                        Ok((SpecExpr::UpdatePrefix { target: Box::new(t), increment: false }, c2))
                    } else {
                        Err(fail_at(ts, len, "-- requires an assignable target"@, c2))
                    },
                },
                _ => postfix_at(ts, len, c),
            }
        }),
{
    reveal(unary_at);
    reveal(postfix_at);
}

/// One unfolding of `postfix_at`.
pub proof fn lemma_postfix_at_unfold(ts: Seq<SpecSpanned>, len: int, c: int)
    ensures
        postfix_at(ts, len, c) == ({
            match member_or_call_at(ts, len, c) {
                Err(e) => Err(e),
                Ok((node, c1)) => if c <= c1 <= ts.len() {
                    postfix_tail(ts, len, node, c1)
                } else {
                    junk()
                },
            }
        }),
{
    reveal(postfix_at);
    reveal(postfix_tail);
    reveal(member_or_call_at);
}

/// One unfolding of `postfix_tail`.
pub proof fn lemma_postfix_tail_unfold(ts: Seq<SpecSpanned>, len: int, node: SpecExpr, c: int)
    ensures
        postfix_tail(ts, len, node, c) == ({
            if tok(ts, c) == Some(SpecToken::PlusPlus) {
                if assignable(node) {
                    postfix_tail(
                        ts,
                        len,
                        SpecExpr::UpdatePostfix { target: Box::new(node), increment: true },
                        c + 1,
                    )
                } else {
                    Err(fail_at(ts, len, "++ requires an assignable target"@, c + 1))
                }
            } else if tok(ts, c) == Some(SpecToken::MinusMinus) {
                if assignable(node) {
                    postfix_tail(
                        ts,
                        len,
                        SpecExpr::UpdatePostfix { target: Box::new(node), increment: false },
                        c + 1,
                    )
                } else {
                    Err(fail_at(ts, len, "-- requires an assignable target"@, c + 1))
                }
            } else {
                Ok((node, c))
            }
        }),
{
    reveal(postfix_tail);
}

/// One unfolding of `member_or_call_at`.
pub proof fn lemma_member_or_call_at_unfold(ts: Seq<SpecSpanned>, len: int, c: int)
    ensures
        member_or_call_at(ts, len, c) == ({
            match primary_at(ts, len, c) {
                Err(e) => Err(e),
                Ok((node, c1)) => if c <= c1 <= ts.len() {
                    member_tail(ts, len, node, c1)
                } else {
                    junk()
                },
            }
        }),
{
    reveal(member_or_call_at);
    reveal(member_tail);
    reveal(primary_at);
}

/// One unfolding of `member_tail`.
pub proof fn lemma_member_tail_unfold(ts: Seq<SpecSpanned>, len: int, node: SpecExpr, c: int)
    ensures
        member_tail(ts, len, node, c) == ({
            match tok(ts, c) {
                Some(SpecToken::Dot) => match tok(ts, c + 1) {
                    Some(SpecToken::Ident(name)) => member_tail(
                        ts,
                        len,
                        SpecExpr::Member { object: Box::new(node), property: name, optional: false },
                        c + 2,
                    ),
                    other => Err(
                        fail_at(
                            ts,
                            len,
                            "expected property name after `.` (got `"@ + option_token_debug(other)
                                + "`)"@,
                            if other is Some {
                                c + 2
                            } else {
                                c + 1
                            },
                        ),
                    ),
                },
                Some(SpecToken::QuestionDot) => match tok(ts, c + 1) {
                    Some(SpecToken::Ident(name)) => member_tail(
                        ts,
                        len,
                        SpecExpr::Member { object: Box::new(node), property: name, optional: true },
                        c + 2,
                    ),
                    Some(SpecToken::LParen) => match args_at(ts, len, c + 2) {
                        Err(e) => Err(e),
                        Ok((args, c3)) => if c < c3 <= ts.len() {
                            member_tail(
                                ts,
                                len,
                                SpecExpr::Call {
                                    callee: Box::new(
                                        SpecExpr::Member {
                                            object: Box::new(node),
                                            property: optional_call_name(),
                                            optional: true,
                                        },
                                    ),
                                    args,
                                },
                                c3,
                            )
                        } else {
                            junk()
                        },
                    },
                    other => Err(
                        fail_at(
                            ts,
                            len,
                            "expected property after `?.` (got `"@ + option_token_debug(other) + "`)"@,
                            c + 1,
                        ),
                    ),
                },
                Some(SpecToken::LBracket) => match assignment_at(ts, len, c + 1) {
                    Err(e) => Err(e),
                    Ok((index, c2)) => if !(c <= c2 <= ts.len()) {
                        junk()
                    } else if tok(ts, c2) == Some(SpecToken::RBracket) {
                        member_tail(
                            ts,
                            len,
                            SpecExpr::Index { object: Box::new(node), index: Box::new(index) },
                            c2 + 1,
                        )
                    } else {
                        Err(expect_err(ts, len, c2, SpecToken::RBracket, "after computed index"@))
                    },
                },
                Some(SpecToken::LParen) => match args_at(ts, len, c + 1) {
                    Err(e) => Err(e),
                    Ok((args, c2)) => if c < c2 <= ts.len() {
                        member_tail(ts, len, SpecExpr::Call { callee: Box::new(node), args }, c2)
                    } else {
                        junk()
                    },
                },
                _ => Ok((node, c)),
            }
        }),
{
    reveal(member_tail);
    reveal(assignment_at);
    reveal(args_at);
}

/// One unfolding of `args_at`.
pub proof fn lemma_args_at_unfold(ts: Seq<SpecSpanned>, len: int, c: int)
    ensures
        args_at(ts, len, c) == ({
            if tok(ts, c) == Some(SpecToken::RParen) {
                Ok((seq![], c + 1))
            } else {
                arg_list(ts, len, c, seq![])
            }
        }),
{
    reveal(args_at);
    reveal(arg_list);
}

/// One unfolding of `arg_list`.
pub proof fn lemma_arg_list_unfold(ts: Seq<SpecSpanned>, len: int, c: int, acc: Seq<SpecExpr>)
    ensures
        arg_list(ts, len, c, acc) == ({
            match assignment_at(ts, len, c) {
                Err(e) => Err(e),
                Ok((a, c1)) => {
                    let acc2 = acc.push(a);
                    if !(c <= c1 <= ts.len()) {
                        junk()
                    } else if tok(ts, c1) == Some(SpecToken::RParen) {
                        Ok((acc2, c1 + 1))
                    } else if tok(ts, c1) == Some(SpecToken::Comma) {
                        if tok(ts, c1 + 1) == Some(SpecToken::RParen) {
                            Ok((acc2, c1 + 2))
                        } else {
                            arg_list(ts, len, c1 + 1, acc2)
                        }
                    } else {
                        Err(expect_err(ts, len, c1, SpecToken::Comma, "between call arguments"@))
                    }
                },
            }
        }),
{
    reveal(arg_list);
    reveal(assignment_at);
}

/// One unfolding of `array_list`.
pub proof fn lemma_array_list_unfold(ts: Seq<SpecSpanned>, len: int, c: int, acc: Seq<SpecExpr>)
    ensures
        array_list(ts, len, c, acc) == ({
            match assignment_at(ts, len, c) {
                Err(e) => Err(e),
                Ok((a, c1)) => {
                    let acc2 = acc.push(a);
                    if !(c <= c1 <= ts.len()) {
                        junk()
                    } else if tok(ts, c1) == Some(SpecToken::RBracket) {
                        Ok((acc2, c1 + 1))
                    } else if tok(ts, c1) == Some(SpecToken::Comma) {
                        if tok(ts, c1 + 1) == Some(SpecToken::RBracket) {
                            Ok((acc2, c1 + 2))
                        } else {
                            array_list(ts, len, c1 + 1, acc2)
                        }
                    } else {
                        Err(expect_err(ts, len, c1, SpecToken::Comma, "between array elements"@))
                    }
                },
            }
        }),
{
    reveal(array_list);
    reveal(assignment_at);
}

/// One unfolding of `paren_list`.
pub proof fn lemma_paren_list_unfold(ts: Seq<SpecSpanned>, len: int, c: int, acc: Seq<SpecExpr>)
    ensures
        paren_list(ts, len, c, acc) == ({
            match assignment_at(ts, len, c) {
                Err(e) => Err(e),
                Ok((e, c1)) => {
                    let acc2 = acc.push(e);
                    if !(c <= c1 <= ts.len()) {
                        junk()
                    } else if is_separator(tok(ts, c1)) {
                        paren_list(ts, len, c1 + 1, acc2)
                    } else {
                        Ok((acc2, c1))
                    }
                },
            }
        }),
{
    reveal(paren_list);
    reveal(assignment_at);
}

/// One unfolding of `prop_at`.
pub proof fn lemma_prop_at_unfold(ts: Seq<SpecSpanned>, len: int, c: int)
    ensures
        prop_at(ts, len, c) == ({
            match tok(ts, c) {
                Some(SpecToken::Spread) => match assignment_at(ts, len, c + 1) {
                    Err(e) => Err(e),
                    Ok((v, c2)) => Ok((SpecObjectProp::Spread(v), c2)),
                },
                Some(SpecToken::LBracket) => match assignment_at(ts, len, c + 1) {
                    Err(e) => Err(e),
                    Ok((k, c2)) => if !(c <= c2 <= ts.len()) {
                        junk()
                    } else if tok(ts, c2) != Some(SpecToken::RBracket) {
                        Err(expect_err(ts, len, c2, SpecToken::RBracket, "after computed key"@))
                    } else if tok(ts, c2 + 1) != Some(SpecToken::Colon) {
                        Err(expect_err(ts, len, c2 + 1, SpecToken::Colon, "after computed key"@))
                    } else {
                        match assignment_at(ts, len, c2 + 2) {
                            Err(e) => Err(e),
                            Ok((v, c3)) => Ok((SpecObjectProp::Computed(k, v), c3)),
                        }
                    },
                },
                Some(SpecToken::Ident(k)) => if tok(ts, c + 1) == Some(SpecToken::Colon) {
                    match assignment_at(ts, len, c + 2) {
                        Err(e) => Err(e),
                        Ok((v, c2)) => Ok((SpecObjectProp::KeyValue(k, v), c2)),
                    }
                } else {
                    Ok((SpecObjectProp::Shorthand(k), c + 1))
                },
                Some(SpecToken::Str(k)) => if tok(ts, c + 1) == Some(SpecToken::Colon) {
                    match assignment_at(ts, len, c + 2) {
                        Err(e) => Err(e),
                        Ok((v, c2)) => Ok((SpecObjectProp::KeyValue(k, v), c2)),
                    }
                } else {
                    Err(expect_err(ts, len, c + 1, SpecToken::Colon, "after string key in object literal"@))
                },
                other => Err(
                    fail_at(
                        ts,
                        len,
                        "expected property name in object literal (got `"@ + option_token_debug(other)
                            + "`)"@,
                        if other is Some {
                            c + 1
                        } else {
                            c
                        },
                    ),
                ),
            }
        }),
{
    reveal(prop_at);
    reveal(assignment_at);
}

/// One unfolding of `prop_list`.
pub proof fn lemma_prop_list_unfold(ts: Seq<SpecSpanned>, len: int, c: int, acc: Seq<SpecObjectProp>)
    ensures
        prop_list(ts, len, c, acc) == ({
            match prop_at(ts, len, c) {
                Err(e) => Err(e),
                Ok((p, c1)) => {
                    let acc2 = acc.push(p);
                    if !(c <= c1 <= ts.len()) {
                        junk()
                    } else if tok(ts, c1) == Some(SpecToken::RBrace) {
                        Ok((acc2, c1 + 1))
                    } else if tok(ts, c1) == Some(SpecToken::Comma) {
                        if tok(ts, c1 + 1) == Some(SpecToken::RBrace) {
                            Ok((acc2, c1 + 2))
                        } else {
                            prop_list(ts, len, c1 + 1, acc2)
                        }
                    } else {
                        Err(expect_err(ts, len, c1, SpecToken::Comma, "between object properties"@))
                    }
                },
            }
        }),
{
    reveal(prop_list);
    reveal(prop_at);
}

/// One unfolding of `arrow_params_at`.
pub proof fn lemma_arrow_params_at_unfold(ts: Seq<SpecSpanned>, c: int, acc: Seq<Seq<char>>)
    ensures
        arrow_params_at(ts, c, acc) == ({
            match tok(ts, c) {
                Some(SpecToken::Ident(name)) => {
                    let acc2 = acc.push(name);
                    if tok(ts, c + 1) == Some(SpecToken::Comma) {
                        arrow_params_at(ts, c + 2, acc2)
                    } else if tok(ts, c + 1) == Some(SpecToken::RParen) {
                        if tok(ts, c + 2) == Some(SpecToken::Arrow) {
                            Some((acc2, c + 2))
                        } else {
                            None
                        }
                    } else {
                        None
                    }
                },
                _ => None,
            }
        }),
{
    reveal(arrow_params_at);
}

/// One unfolding of `primary_at`.
pub proof fn lemma_primary_at_unfold(ts: Seq<SpecSpanned>, len: int, c: int)
    ensures
        primary_at(ts, len, c) == ({
            match tok(ts, c) {
                None => Err(fail_at(ts, len, "unexpected end of expression"@, c)),
                Some(SpecToken::Ident(name)) => if tok(ts, c + 1) == Some(SpecToken::Arrow) {
                    match assignment_at(ts, len, c + 2) {
                        Err(e) => Err(e),
                        Ok((body, c2)) => Ok(
                            (SpecExpr::Arrow { params: seq![name], body: Box::new(body) }, c2),
                        ),
                    }
                } else {
                    Ok((SpecExpr::Ident(name), c + 1))
                },
                Some(SpecToken::Number(l)) => Ok((SpecExpr::Number(l), c + 1)),
                Some(SpecToken::Str(s)) => Ok((SpecExpr::Str(s), c + 1)),
                Some(SpecToken::Template(s)) => Ok((SpecExpr::Template(s), c + 1)),
                Some(SpecToken::True) => Ok((SpecExpr::Bool(true), c + 1)),
                Some(SpecToken::False) => Ok((SpecExpr::Bool(false), c + 1)),
                Some(SpecToken::Null) => Ok((SpecExpr::Null, c + 1)),
                Some(SpecToken::Undefined) => Ok((SpecExpr::Undefined, c + 1)),
                Some(SpecToken::LParen) => if tok(ts, c + 1) == Some(SpecToken::RParen) {
                    if tok(ts, c + 2) == Some(SpecToken::Arrow) {
                        match assignment_at(ts, len, c + 3) {
                            Err(e) => Err(e),
                            Ok((body, c2)) => Ok(
                                (SpecExpr::Arrow { params: seq![], body: Box::new(body) }, c2),
                            ),
                        }
                    } else {
                        Err(
                            fail_at(
                                ts,
                                len,
                                "empty `()` is only valid as the parameter list of an arrow function"@,
                                c + 2,
                            ),
                        )
                    }
                } else {
                    match arrow_params_at(ts, c + 1, seq![]) {
                        Some((params, c1)) => if c < c1 < ts.len() {
                            match assignment_at(ts, len, c1 + 1) {
                                Err(e) => Err(e),
                                Ok((body, c2)) => Ok(
                                    (SpecExpr::Arrow { params, body: Box::new(body) }, c2),
                                ),
                            }
                        } else {
                            junk()
                        },
                        None => match paren_list(ts, len, c + 1, seq![]) {
                            Err(e) => Err(e),
                            Ok((items, c2)) => if tok(ts, c2) == Some(SpecToken::RParen) {
                                Ok((parenthesized(items), c2 + 1))
                            } else {
                                Err(
                                    expect_err(
                                        ts,
                                        len,
                                        c2,
                                        SpecToken::RParen,
                                        "after parenthesized expression"@,
                                    ),
                                )
                            },
                        },
                    }
                },
                Some(SpecToken::LBracket) => if tok(ts, c + 1) == Some(SpecToken::RBracket) {
                    Ok((SpecExpr::Array(seq![]), c + 2))
                } else {
                    match array_list(ts, len, c + 1, seq![]) {
                        Err(e) => Err(e),
                        Ok((items, c2)) => Ok((SpecExpr::Array(items), c2)),
                    }
                },
                Some(SpecToken::LBrace) => if tok(ts, c + 1) == Some(SpecToken::RBrace) {
                    Ok((SpecExpr::Object(seq![]), c + 2))
                } else {
                    match prop_list(ts, len, c + 1, seq![]) {
                        Err(e) => Err(e),
                        Ok((props, c2)) => Ok((SpecExpr::Object(props), c2)),
                    }
                },
                Some(other) => Err(
                    PErr {
                        message: "unexpected token `"@ + token_display(other) + "` in expression"@,
                        pos: pos_at(ts, len, c),
                        at: c + 1,
                    },
                ),
            }
        }),
{
    reveal(primary_at);
    reveal(assignment_at);
    reveal(array_list);
    reveal(prop_list);
    reveal(arrow_params_at);
    reveal(paren_list);
}

/// One unfolding of `sequence_list`.
pub proof fn lemma_sequence_list_unfold(ts: Seq<SpecSpanned>, len: int, c: int, items: Seq<SpecExpr>)
    ensures
        sequence_list(ts, len, c, items) == ({
            if tok(ts, c) is None {
                Ok((items, c))
            } else {
                match assignment_at(ts, len, c) {
                    Err(e) => Err(e),
                    Ok((e, c1)) => {
                        let items2 = items.push(e);
                        if is_separator(tok(ts, c1)) {
                            if c <= c1 <= ts.len() {
                                sequence_list(ts, len, c1 + 1, items2)
                            } else {
                                junk()
                            }
                        } else {
                            Ok((items2, c1))
                        }
                    },
                }
            }
        }),
{
    reveal(sequence_list);
    reveal(assignment_at);
}

/// What parsing the source bytes `b` gives: the expression, or the message
/// and byte offset of the failure. Tokenizer failures are reported with the
/// prefix `lex error: `.
pub open spec fn parse_source(b: Seq<u8>) -> Result<SpecExpr, (Seq<char>, int)> {
    match lex(b) {
        LexOutcome::Tokens(ts) => match full_at(ts, b.len() as int, 0) {
            Ok((e, _)) => Ok(e),
            Err(pe) => Err((pe.message, pe.pos)),
        },
        LexOutcome::Failed(m, p) => Err(("lex error: "@ + m, p)),
    }
}

/// Tokenizes and parses `src`.
pub fn parse(src: &str) -> (r: Result<Expr, ParseError>)
    ensures
        match parse_source(src.spec_bytes()) {
            Ok(e) => r matches Ok(x) && x@ == e,
            Err((m, p)) => r matches Err(x) && x.message@ == m && x.pos == p,
        },
{
    let tokens = match tokenize(src) {
        Ok(t) => t,
        Err(e) => {
            let mut message = String::from_str("lex error: ");
            message.append(e.message.as_str());
            return Err(ParseError { message, pos: e.pos });
        },
    };
    let src_len = src.as_bytes().len();
    let mut p = Parser::new(tokens.as_slice(), src_len);
    p.parse_full()
}

/// The models of a sequence of expressions, element by element.
pub proof fn lemma_exprs_view(s: Seq<Expr>)
    ensures
        exprs_view(s).len() == s.len(),
        forall|i: int| 0 <= i < s.len() ==> #[trigger] exprs_view(s)[i] == expr_view(s[i]),
    decreases s.len(),
{
    if s.len() > 0 {
        lemma_exprs_view(s.drop_last());
    }
}

} // verus!
