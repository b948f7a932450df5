//! What every parse result satisfies, whatever the source: each assignment,
//! `++` and `--` in a parsed expression has an assignable target, each
//! equality test is strict, and each failure is reported at a byte offset
//! within the source.
use vstd::prelude::*;
use crate::lexer::{is_reserved_word, law_token_spans, lex, LexOutcome, SpecSpanned, SpecToken};
use crate::parser::{
    additive_op, args_at, arg_list, array_list, assign_op, assignable, assignment_at, and_at,
    and_tail, coalesce_at, coalesce_tail, comparison_at, comparison_op, comparison_tail,
    equality_at, equality_op, equality_tail, full_at, is_separator, lemma_addition_at_unfold,
    lemma_addition_tail_unfold, lemma_and_at_unfold, lemma_and_tail_unfold,
    lemma_arg_list_unfold, lemma_args_at_unfold, lemma_arrow_params_at_unfold, lemma_array_list_unfold,
    lemma_assignment_at_unfold, lemma_coalesce_at_unfold, lemma_coalesce_tail_unfold,
    lemma_comparison_at_unfold, lemma_comparison_tail_unfold, lemma_equality_at_unfold,
    lemma_equality_tail_unfold, lemma_member_or_call_at_unfold, lemma_member_tail_unfold,
    lemma_multiplication_at_unfold, lemma_multiplication_tail_unfold, lemma_or_at_unfold,
    lemma_or_tail_unfold, lemma_paren_list_unfold, lemma_postfix_at_unfold, lemma_postfix_tail_unfold,
    lemma_primary_at_unfold, lemma_prop_at_unfold, lemma_prop_list_unfold,
    lemma_sequence_list_unfold, lemma_ternary_at_unfold, lemma_unary_at_unfold, addition_at,
    addition_tail, arrow_params_at, member_or_call_at, member_tail, multiplication_at,
    multiplication_tail, multiplicative_op, optional_call_name, or_at, or_tail, parse_source,
    paren_list, postfix_at, postfix_tail, primary_at, prop_at, prop_list, sequence_list, ternary_at, tok,
    unary_at, AssignOp, BinOp, PErr, PExpr, PList, PProp, PProps, SpecExpr, SpecObjectProp,
};

verus! {

/// What the parser guarantees of a tree it returns: every assignment, `++`
/// and `--` has an assignable target (a name, a member access or an index),
/// and every equality test is strict (`==` and `!=` are read as `===` and
/// `!==`).
pub open spec fn well_formed(e: SpecExpr) -> bool
    decreases e,
{
    match e {
        SpecExpr::Member { object, .. } => well_formed(*object),
        SpecExpr::Index { object, index } => well_formed(*object) && well_formed(
            *index,
        ),
        SpecExpr::Call { callee, args } => well_formed(*callee) && all_well_formed(
            args,
        ),
        SpecExpr::Neg(x) => well_formed(*x),
        SpecExpr::Pos(x) => well_formed(*x),
        SpecExpr::Not(x) => well_formed(*x),
        SpecExpr::Binary { op, left, right } => op != BinOp::Eq && op != BinOp::NotEq
            && well_formed(*left) && well_formed(*right),
        SpecExpr::And(l, r) => well_formed(*l) && well_formed(*r),
        SpecExpr::Or(l, r) => well_formed(*l) && well_formed(*r),
        SpecExpr::Coalesce(l, r) => well_formed(*l) && well_formed(*r),
        SpecExpr::Ternary { cond, then_branch, else_branch } => well_formed(*cond)
            && well_formed(*then_branch) && well_formed(*else_branch),
        SpecExpr::Assign { target, value, .. } => assignable(*target) && well_formed(
            *target,
        ) && well_formed(*value),
        SpecExpr::UpdatePostfix { target, .. } => assignable(*target) && well_formed(
            *target,
        ),
        SpecExpr::UpdatePrefix { target, .. } => assignable(*target) && well_formed(
            *target,
        ),
        SpecExpr::Object(props) => props_well_formed(props),
        SpecExpr::Array(items) => all_well_formed(items),
        SpecExpr::Sequence(items) => all_well_formed(items),
        SpecExpr::Arrow { body, .. } => well_formed(*body),
        _ => true,
    }
}

pub open spec fn all_well_formed(items: Seq<SpecExpr>) -> bool
    decreases items,
{
    if items.len() == 0 {
        true
    } else {
        all_well_formed(items.drop_last()) && well_formed(items.last())
    }
}

pub open spec fn prop_well_formed(p: SpecObjectProp) -> bool
    decreases p,
{
    match p {
        SpecObjectProp::KeyValue(_, v) => well_formed(v),
        SpecObjectProp::Computed(k, v) => well_formed(k) && well_formed(v),
        SpecObjectProp::Shorthand(_) => true,
        SpecObjectProp::Spread(v) => well_formed(v),
    }
}

pub open spec fn props_well_formed(ps: Seq<SpecObjectProp>) -> bool
    decreases ps,
{
    if ps.len() == 0 {
        true
    } else {
        props_well_formed(ps.drop_last()) && prop_well_formed(ps.last())
    }
}

/// The byte offsets that the tokens report lie within a source of `len` bytes.
pub open spec fn positions_ok(ts: Seq<SpecSpanned>, len: int) -> bool {
    &&& 0 <= len
    &&& forall|k: int| 0 <= k < ts.len() ==> 0 <= #[trigger] ts[k].start <= len
}

/// A failure is reported with a message at a byte offset within the source.
pub open spec fn error_ok(len: int, p: PErr) -> bool {
    0 <= p.pos <= len && p.message.len() > 0
}

/// An expression parsed from `c` is well formed and ends after `c`.
pub open spec fn expr_result_ok(ts: Seq<SpecSpanned>, len: int, c: int, r: PExpr) -> bool {
    match r {
        Ok((e, c2)) => well_formed(e) && c < c2 <= ts.len(),
        Err(p) => error_ok(len, p),
    }
}

/// The rest of a chain from `c`: well formed and ending at or after `c`.
pub open spec fn tail_result_ok(ts: Seq<SpecSpanned>, len: int, c: int, r: PExpr) -> bool {
    match r {
        Ok((e, c2)) => well_formed(e) && c <= c2 <= ts.len(),
        Err(p) => error_ok(len, p),
    }
}

pub open spec fn list_result_ok(ts: Seq<SpecSpanned>, len: int, c: int, r: PList) -> bool {
    match r {
        Ok((items, c2)) => all_well_formed(items) && c < c2 <= ts.len(),
        Err(p) => error_ok(len, p),
    }
}

pub open spec fn prop_result_ok(ts: Seq<SpecSpanned>, len: int, c: int, r: PProp) -> bool {
    match r {
        Ok((p, c2)) => prop_well_formed(p) && c < c2 <= ts.len(),
        Err(p) => error_ok(len, p),
    }
}

pub open spec fn props_result_ok(ts: Seq<SpecSpanned>, len: int, c: int, r: PProps) -> bool {
    match r {
        Ok((ps, c2)) => props_well_formed(ps) && c < c2 <= ts.len(),
        Err(p) => error_ok(len, p),
    }
}

proof fn lemma_messages()
    ensures
        "expected `"@.len() > 0,
        "++ requires an assignable target"@.len() > 0,
        "-- requires an assignable target"@.len() > 0,
        "empty `()` is only valid as the parameter list of an arrow function"@.len() > 0,
        "expected property after `?.` (got `"@.len() > 0,
        "expected property name after `.` (got `"@.len() > 0,
        "expected property name in object literal (got `"@.len() > 0,
        "left-hand side of assignment is not assignable"@.len() > 0,
        "unexpected end of expression"@.len() > 0,
        "unexpected token `"@.len() > 0,
        "unexpected trailing token `"@.len() > 0,
{
    reveal_strlit("expected `");
    reveal_strlit("++ requires an assignable target");
    reveal_strlit("-- requires an assignable target");
    reveal_strlit("empty `()` is only valid as the parameter list of an arrow function");
    reveal_strlit("expected property after `?.` (got `");
    reveal_strlit("expected property name after `.` (got `");
    reveal_strlit("expected property name in object literal (got `");
    reveal_strlit("left-hand side of assignment is not assignable");
    reveal_strlit("unexpected end of expression");
    reveal_strlit("unexpected token `");
    reveal_strlit("unexpected trailing token `");
}

proof fn lemma_all_push(items: Seq<SpecExpr>, e: SpecExpr)
    ensures
        all_well_formed(items.push(e)) == (all_well_formed(items)
            && well_formed(e)),
{
    assert(items.push(e).drop_last() == items);
}

proof fn lemma_all_props_push(ps: Seq<SpecObjectProp>, p: SpecObjectProp)
    ensures
        props_well_formed(ps.push(p)) == (props_well_formed(ps)
            && prop_well_formed(p)),
{
    assert(ps.push(p).drop_last() == ps);
}

proof fn lemma_assignment(ts: Seq<SpecSpanned>, len: int, c: int)
    requires
        positions_ok(ts, len),
    ensures
        expr_result_ok(ts, len, c, assignment_at(ts, len, c)),
    decreases ts.len() - c, 14int,
{
    lemma_messages();
    lemma_assignment_at_unfold(ts, len, c);
    lemma_ternary(ts, len, c);
    if let Ok((left, c1)) = ternary_at(ts, len, c) {
        if c <= c1 <= ts.len() && assign_op(tok(ts, c1)) is Some {
            lemma_assignment(ts, len, c1 + 1);
        }
    }
}

proof fn lemma_ternary(ts: Seq<SpecSpanned>, len: int, c: int)
    requires
        positions_ok(ts, len),
    ensures
        expr_result_ok(ts, len, c, ternary_at(ts, len, c)),
    decreases ts.len() - c, 13int,
{
    lemma_messages();
    lemma_ternary_at_unfold(ts, len, c);
    lemma_coalesce(ts, len, c);
    if let Ok((cond, c1)) = coalesce_at(ts, len, c) {
        if c <= c1 <= ts.len() && tok(ts, c1) == Some(SpecToken::Question) {
            lemma_assignment(ts, len, c1 + 1);
            if let Ok((then_branch, c2)) = assignment_at(ts, len, c1 + 1) {
                if c <= c2 <= ts.len() && tok(ts, c2) == Some(SpecToken::Colon) {
                    lemma_assignment(ts, len, c2 + 1);
                }
            }
        }
    }
}

proof fn lemma_coalesce(ts: Seq<SpecSpanned>, len: int, c: int)
    requires
        positions_ok(ts, len),
    ensures
        expr_result_ok(ts, len, c, coalesce_at(ts, len, c)),
    decreases ts.len() - c, 12int,
{
    lemma_messages();
    lemma_coalesce_at_unfold(ts, len, c);
    lemma_or(ts, len, c);
    if let Ok((left, c1)) = or_at(ts, len, c) {
        if c <= c1 <= ts.len() {
            lemma_coalesce_tail(ts, len, left, c1);
        }
    }
}

proof fn lemma_coalesce_tail(ts: Seq<SpecSpanned>, len: int, left: SpecExpr, c: int)
    requires
        positions_ok(ts, len),
        c <= ts.len(),
        well_formed(left),
    ensures
        tail_result_ok(ts, len, c, coalesce_tail(ts, len, left, c)),
    decreases ts.len() - c, 1int,
{
    lemma_messages();
    lemma_coalesce_tail_unfold(ts, len, left, c);
    if tok(ts, c) == Some(SpecToken::QuestionQuestion) {
        lemma_or(ts, len, c + 1);
        if let Ok((right, c2)) = or_at(ts, len, c + 1) {
            if c < c2 <= ts.len() {
                let node = SpecExpr::Coalesce(Box::new(left), Box::new(right));
                lemma_coalesce_tail(ts, len, node, c2);
            }
        }
    }
}

proof fn lemma_or(ts: Seq<SpecSpanned>, len: int, c: int)
    requires
        positions_ok(ts, len),
    ensures
        expr_result_ok(ts, len, c, or_at(ts, len, c)),
    decreases ts.len() - c, 11int,
{
    lemma_messages();
    lemma_or_at_unfold(ts, len, c);
    lemma_and(ts, len, c);
    if let Ok((left, c1)) = and_at(ts, len, c) {
        if c <= c1 <= ts.len() {
            lemma_or_tail(ts, len, left, c1);
        }
    }
}

proof fn lemma_or_tail(ts: Seq<SpecSpanned>, len: int, left: SpecExpr, c: int)
    requires
        positions_ok(ts, len),
        c <= ts.len(),
        well_formed(left),
    ensures
        tail_result_ok(ts, len, c, or_tail(ts, len, left, c)),
    decreases ts.len() - c, 1int,
{
    lemma_messages();
    lemma_or_tail_unfold(ts, len, left, c);
    if tok(ts, c) == Some(SpecToken::PipePipe) {
        lemma_and(ts, len, c + 1);
        if let Ok((right, c2)) = and_at(ts, len, c + 1) {
            if c < c2 <= ts.len() {
                let node = SpecExpr::Or(Box::new(left), Box::new(right));
                lemma_or_tail(ts, len, node, c2);
            }
        }
    }
}

proof fn lemma_and(ts: Seq<SpecSpanned>, len: int, c: int)
    requires
        positions_ok(ts, len),
    ensures
        expr_result_ok(ts, len, c, and_at(ts, len, c)),
    decreases ts.len() - c, 10int,
{
    lemma_messages();
    lemma_and_at_unfold(ts, len, c);
    lemma_equality(ts, len, c);
    if let Ok((left, c1)) = equality_at(ts, len, c) {
        if c <= c1 <= ts.len() {
            lemma_and_tail(ts, len, left, c1);
        }
    }
}

proof fn lemma_and_tail(ts: Seq<SpecSpanned>, len: int, left: SpecExpr, c: int)
    requires
        positions_ok(ts, len),
        c <= ts.len(),
        well_formed(left),
    ensures
        tail_result_ok(ts, len, c, and_tail(ts, len, left, c)),
    decreases ts.len() - c, 1int,
{
    lemma_messages();
    lemma_and_tail_unfold(ts, len, left, c);
    if tok(ts, c) == Some(SpecToken::AmpAmp) {
        lemma_equality(ts, len, c + 1);
        if let Ok((right, c2)) = equality_at(ts, len, c + 1) {
            if c < c2 <= ts.len() {
                let node = SpecExpr::And(Box::new(left), Box::new(right));
                lemma_and_tail(ts, len, node, c2);
            }
        }
    }
}

proof fn lemma_equality(ts: Seq<SpecSpanned>, len: int, c: int)
    requires
        positions_ok(ts, len),
    ensures
        expr_result_ok(ts, len, c, equality_at(ts, len, c)),
    decreases ts.len() - c, 9int,
{
    lemma_messages();
    lemma_equality_at_unfold(ts, len, c);
    lemma_comparison(ts, len, c);
    if let Ok((left, c1)) = comparison_at(ts, len, c) {
        if c <= c1 <= ts.len() {
            lemma_equality_tail(ts, len, left, c1);
        }
    }
}

proof fn lemma_equality_tail(ts: Seq<SpecSpanned>, len: int, left: SpecExpr, c: int)
    requires
        positions_ok(ts, len),
        c <= ts.len(),
        well_formed(left),
    ensures
        tail_result_ok(ts, len, c, equality_tail(ts, len, left, c)),
    decreases ts.len() - c, 1int,
{
    lemma_messages();
    lemma_equality_tail_unfold(ts, len, left, c);
    if let Some(op) = equality_op(tok(ts, c)) {
        lemma_comparison(ts, len, c + 1);
        if let Ok((right, c2)) = comparison_at(ts, len, c + 1) {
            if c < c2 <= ts.len() {
                let node = SpecExpr::Binary { op, left: Box::new(left), right: Box::new(right) };
                lemma_equality_tail(ts, len, node, c2);
            }
        }
    }
}

proof fn lemma_comparison(ts: Seq<SpecSpanned>, len: int, c: int)
    requires
        positions_ok(ts, len),
    ensures
        expr_result_ok(ts, len, c, comparison_at(ts, len, c)),
    decreases ts.len() - c, 8int,
{
    lemma_messages();
    lemma_comparison_at_unfold(ts, len, c);
    lemma_addition(ts, len, c);
    if let Ok((left, c1)) = addition_at(ts, len, c) {
        if c <= c1 <= ts.len() {
            lemma_comparison_tail(ts, len, left, c1);
        }
    }
}

proof fn lemma_comparison_tail(ts: Seq<SpecSpanned>, len: int, left: SpecExpr, c: int)
    requires
        positions_ok(ts, len),
        c <= ts.len(),
        well_formed(left),
    ensures
        tail_result_ok(ts, len, c, comparison_tail(ts, len, left, c)),
    decreases ts.len() - c, 1int,
{
    lemma_messages();
    lemma_comparison_tail_unfold(ts, len, left, c);
    if let Some(op) = comparison_op(tok(ts, c)) {
        lemma_addition(ts, len, c + 1);
        if let Ok((right, c2)) = addition_at(ts, len, c + 1) {
            if c < c2 <= ts.len() {
                let node = SpecExpr::Binary { op, left: Box::new(left), right: Box::new(right) };
                lemma_comparison_tail(ts, len, node, c2);
            }
        }
    }
}

proof fn lemma_addition(ts: Seq<SpecSpanned>, len: int, c: int)
    requires
        positions_ok(ts, len),
    ensures
        expr_result_ok(ts, len, c, addition_at(ts, len, c)),
    decreases ts.len() - c, 7int,
{
    lemma_messages();
    lemma_addition_at_unfold(ts, len, c);
    lemma_multiplication(ts, len, c);
    if let Ok((left, c1)) = multiplication_at(ts, len, c) {
        if c <= c1 <= ts.len() {
            lemma_addition_tail(ts, len, left, c1);
        }
    }
}

proof fn lemma_addition_tail(ts: Seq<SpecSpanned>, len: int, left: SpecExpr, c: int)
    requires
        positions_ok(ts, len),
        c <= ts.len(),
        well_formed(left),
    ensures
        tail_result_ok(ts, len, c, addition_tail(ts, len, left, c)),
    decreases ts.len() - c, 1int,
{
    lemma_messages();
    lemma_addition_tail_unfold(ts, len, left, c);
    if let Some(op) = additive_op(tok(ts, c)) {
        lemma_multiplication(ts, len, c + 1);
        if let Ok((right, c2)) = multiplication_at(ts, len, c + 1) {
            if c < c2 <= ts.len() {
                let node = SpecExpr::Binary { op, left: Box::new(left), right: Box::new(right) };
                lemma_addition_tail(ts, len, node, c2);
            }
        }
    }
}

proof fn lemma_multiplication(ts: Seq<SpecSpanned>, len: int, c: int)
    requires
        positions_ok(ts, len),
    ensures
        expr_result_ok(ts, len, c, multiplication_at(ts, len, c)),
    decreases ts.len() - c, 6int,
{
    lemma_messages();
    lemma_multiplication_at_unfold(ts, len, c);
    lemma_unary(ts, len, c);
    if let Ok((left, c1)) = unary_at(ts, len, c) {
        if c <= c1 <= ts.len() {
            lemma_multiplication_tail(ts, len, left, c1);
        }
    }
}

proof fn lemma_multiplication_tail(ts: Seq<SpecSpanned>, len: int, left: SpecExpr, c: int)
    requires
        positions_ok(ts, len),
        c <= ts.len(),
        well_formed(left),
    ensures
        tail_result_ok(ts, len, c, multiplication_tail(ts, len, left, c)),
    decreases ts.len() - c, 1int,
{
    lemma_messages();
    lemma_multiplication_tail_unfold(ts, len, left, c);
    if let Some(op) = multiplicative_op(tok(ts, c)) {
        lemma_unary(ts, len, c + 1);
        if let Ok((right, c2)) = unary_at(ts, len, c + 1) {
            if c < c2 <= ts.len() {
                let node = SpecExpr::Binary { op, left: Box::new(left), right: Box::new(right) };
                lemma_multiplication_tail(ts, len, node, c2);
            }
        }
    }
}

proof fn lemma_unary(ts: Seq<SpecSpanned>, len: int, c: int)
    requires
        positions_ok(ts, len),
    ensures
        expr_result_ok(ts, len, c, unary_at(ts, len, c)),
    decreases ts.len() - c, 5int,
{
    lemma_messages();
    lemma_unary_at_unfold(ts, len, c);
    match tok(ts, c) {
        Some(SpecToken::Bang) | Some(SpecToken::Minus) | Some(SpecToken::Plus) | Some(
            SpecToken::PlusPlus,
        ) | Some(SpecToken::MinusMinus) => {
            lemma_unary(ts, len, c + 1);
        },
        _ => {
            lemma_postfix(ts, len, c);
        },
    }
}

proof fn lemma_postfix(ts: Seq<SpecSpanned>, len: int, c: int)
    requires
        positions_ok(ts, len),
    ensures
        expr_result_ok(ts, len, c, postfix_at(ts, len, c)),
    decreases ts.len() - c, 4int,
{
    lemma_messages();
    lemma_postfix_at_unfold(ts, len, c);
    lemma_member_or_call(ts, len, c);
    if let Ok((node, c1)) = member_or_call_at(ts, len, c) {
        if c <= c1 <= ts.len() {
            lemma_postfix_tail(ts, len, node, c1);
        }
    }
}

proof fn lemma_postfix_tail(ts: Seq<SpecSpanned>, len: int, node: SpecExpr, c: int)
    requires
        positions_ok(ts, len),
        c <= ts.len(),
        well_formed(node),
    ensures
        tail_result_ok(ts, len, c, postfix_tail(ts, len, node, c)),
    decreases ts.len() - c,
{
    lemma_messages();
    lemma_postfix_tail_unfold(ts, len, node, c);
    if assignable(node) {
        if tok(ts, c) == Some(SpecToken::PlusPlus) {
            let next = SpecExpr::UpdatePostfix { target: Box::new(node), increment: true };
            lemma_postfix_tail(ts, len, next, c + 1);
        } else if tok(ts, c) == Some(SpecToken::MinusMinus) {
            let next = SpecExpr::UpdatePostfix { target: Box::new(node), increment: false };
            lemma_postfix_tail(ts, len, next, c + 1);
        }
    }
}

proof fn lemma_member_or_call(ts: Seq<SpecSpanned>, len: int, c: int)
    requires
        positions_ok(ts, len),
    ensures
        expr_result_ok(ts, len, c, member_or_call_at(ts, len, c)),
    decreases ts.len() - c, 3int,
{
    lemma_messages();
    lemma_member_or_call_at_unfold(ts, len, c);
    lemma_primary(ts, len, c);
    if let Ok((node, c1)) = primary_at(ts, len, c) {
        if c <= c1 <= ts.len() {
            lemma_member_tail(ts, len, node, c1);
        }
    }
}

proof fn lemma_member_tail(ts: Seq<SpecSpanned>, len: int, node: SpecExpr, c: int)
    requires
        positions_ok(ts, len),
        c <= ts.len(),
        well_formed(node),
    ensures
        tail_result_ok(ts, len, c, member_tail(ts, len, node, c)),
    decreases ts.len() - c, 1int,
{
    lemma_messages();
    lemma_member_tail_unfold(ts, len, node, c);
    match tok(ts, c) {
        Some(SpecToken::Dot) => {
            if let Some(SpecToken::Ident(name)) = tok(ts, c + 1) {
                let next = SpecExpr::Member {
                    object: Box::new(node),
                    property: name,
                    optional: false,
                };
                lemma_member_tail(ts, len, next, c + 2);
            }
        },
        Some(SpecToken::QuestionDot) => match tok(ts, c + 1) {
            Some(SpecToken::Ident(name)) => {
                let next = SpecExpr::Member {
                    object: Box::new(node),
                    property: name,
                    optional: true,
                };
                lemma_member_tail(ts, len, next, c + 2);
            },
            Some(SpecToken::LParen) => {
                lemma_args(ts, len, c + 2);
                if let Ok((args, c3)) = args_at(ts, len, c + 2) {
                    if c < c3 <= ts.len() {
                        let callee = SpecExpr::Member {
                            object: Box::new(node),
                            property: optional_call_name(),
                            optional: true,
                        };
                        let next = SpecExpr::Call { callee: Box::new(callee), args };
                        assert(well_formed(callee));
                        lemma_member_tail(ts, len, next, c3);
                    }
                }
            },
            _ => {},
        },
        Some(SpecToken::LBracket) => {
            lemma_assignment(ts, len, c + 1);
            if let Ok((index, c2)) = assignment_at(ts, len, c + 1) {
                if c <= c2 <= ts.len() && tok(ts, c2) == Some(SpecToken::RBracket) {
                    let next = SpecExpr::Index { object: Box::new(node), index: Box::new(index) };
                    lemma_member_tail(ts, len, next, c2 + 1);
                }
            }
        },
        Some(SpecToken::LParen) => {
            lemma_args(ts, len, c + 1);
            if let Ok((args, c2)) = args_at(ts, len, c + 1) {
                if c < c2 <= ts.len() {
                    let next = SpecExpr::Call { callee: Box::new(node), args };
                    lemma_member_tail(ts, len, next, c2);
                }
            }
        },
        _ => {},
    }
}

proof fn lemma_args(ts: Seq<SpecSpanned>, len: int, c: int)
    requires
        positions_ok(ts, len),
    ensures
        list_result_ok(ts, len, c, args_at(ts, len, c)),
    decreases ts.len() - c, 16int,
{
    lemma_messages();
    lemma_args_at_unfold(ts, len, c);
    if tok(ts, c) != Some(SpecToken::RParen) {
        lemma_arg_list(ts, len, c, seq![]);
    }
}

proof fn lemma_arg_list(ts: Seq<SpecSpanned>, len: int, c: int, acc: Seq<SpecExpr>)
    requires
        positions_ok(ts, len),
        all_well_formed(acc),
    ensures
        list_result_ok(ts, len, c, arg_list(ts, len, c, acc)),
    decreases ts.len() - c, 15int,
{
    lemma_messages();
    lemma_arg_list_unfold(ts, len, c, acc);
    lemma_assignment(ts, len, c);
    if let Ok((a, c1)) = assignment_at(ts, len, c) {
        lemma_all_push(acc, a);
        if c <= c1 <= ts.len() && tok(ts, c1) == Some(SpecToken::Comma) && tok(ts, c1 + 1)
            != Some(SpecToken::RParen) {
            lemma_arg_list(ts, len, c1 + 1, acc.push(a));
        }
    }
}

proof fn lemma_array_list(ts: Seq<SpecSpanned>, len: int, c: int, acc: Seq<SpecExpr>)
    requires
        positions_ok(ts, len),
        all_well_formed(acc),
    ensures
        list_result_ok(ts, len, c, array_list(ts, len, c, acc)),
    decreases ts.len() - c, 15int,
{
    lemma_messages();
    lemma_array_list_unfold(ts, len, c, acc);
    lemma_assignment(ts, len, c);
    if let Ok((a, c1)) = assignment_at(ts, len, c) {
        lemma_all_push(acc, a);
        if c <= c1 <= ts.len() && tok(ts, c1) == Some(SpecToken::Comma) && tok(ts, c1 + 1)
            != Some(SpecToken::RBracket) {
            lemma_array_list(ts, len, c1 + 1, acc.push(a));
        }
    }
}

proof fn lemma_paren_list(ts: Seq<SpecSpanned>, len: int, c: int, acc: Seq<SpecExpr>)
    requires
        positions_ok(ts, len),
        all_well_formed(acc),
    ensures
        list_result_ok(ts, len, c, paren_list(ts, len, c, acc)),
    decreases ts.len() - c, 15int,
{
    lemma_messages();
    lemma_paren_list_unfold(ts, len, c, acc);
    lemma_assignment(ts, len, c);
    if let Ok((a, c1)) = assignment_at(ts, len, c) {
        lemma_all_push(acc, a);
        if c <= c1 <= ts.len() && is_separator(tok(ts, c1)) {
            lemma_paren_list(ts, len, c1 + 1, acc.push(a));
        }
    }
}

proof fn lemma_prop(ts: Seq<SpecSpanned>, len: int, c: int)
    requires
        positions_ok(ts, len),
    ensures
        prop_result_ok(ts, len, c, prop_at(ts, len, c)),
    decreases ts.len() - c, 1int,
{
    lemma_messages();
    lemma_prop_at_unfold(ts, len, c);
    match tok(ts, c) {
        Some(SpecToken::Spread) => {
            lemma_assignment(ts, len, c + 1);
        },
        Some(SpecToken::LBracket) => {
            lemma_assignment(ts, len, c + 1);
            if let Ok((k, c2)) = assignment_at(ts, len, c + 1) {
                if c <= c2 <= ts.len() && tok(ts, c2) == Some(SpecToken::RBracket)
                    && tok(ts, c2 + 1) == Some(SpecToken::Colon) {
                    lemma_assignment(ts, len, c2 + 2);
                }
            }
        },
        Some(SpecToken::Ident(_)) | Some(SpecToken::Str(_)) => {
            if tok(ts, c + 1) == Some(SpecToken::Colon) {
                lemma_assignment(ts, len, c + 2);
            }
        },
        _ => {},
    }
}

proof fn lemma_prop_list(ts: Seq<SpecSpanned>, len: int, c: int, acc: Seq<SpecObjectProp>)
    requires
        positions_ok(ts, len),
        props_well_formed(acc),
    ensures
        props_result_ok(ts, len, c, prop_list(ts, len, c, acc)),
    decreases ts.len() - c, 2int,
{
    lemma_messages();
    lemma_prop_list_unfold(ts, len, c, acc);
    lemma_prop(ts, len, c);
    if let Ok((p, c1)) = prop_at(ts, len, c) {
        lemma_all_props_push(acc, p);
        if c <= c1 <= ts.len() && tok(ts, c1) == Some(SpecToken::Comma) && tok(ts, c1 + 1)
            != Some(SpecToken::RBrace) {
            lemma_prop_list(ts, len, c1 + 1, acc.push(p));
        }
    }
}

proof fn lemma_arrow_params(ts: Seq<SpecSpanned>, c: int, acc: Seq<Seq<char>>)
    ensures
        arrow_params_at(ts, c, acc) matches Some((_, c1)) ==> c < c1 < ts.len(),
    decreases ts.len() - c,
{
    lemma_arrow_params_at_unfold(ts, c, acc);
    if let Some(SpecToken::Ident(name)) = tok(ts, c) {
        if tok(ts, c + 1) == Some(SpecToken::Comma) {
            lemma_arrow_params(ts, c + 2, acc.push(name));
        }
    }
}

proof fn lemma_primary(ts: Seq<SpecSpanned>, len: int, c: int)
    requires
        positions_ok(ts, len),
    ensures
        expr_result_ok(ts, len, c, primary_at(ts, len, c)),
    decreases ts.len() - c, 2int,
{
    lemma_messages();
    lemma_primary_at_unfold(ts, len, c);
    match tok(ts, c) {
        Some(SpecToken::Ident(_)) => {
            if tok(ts, c + 1) == Some(SpecToken::Arrow) {
                lemma_assignment(ts, len, c + 2);
            }
        },
        Some(SpecToken::LParen) => {
            if tok(ts, c + 1) == Some(SpecToken::RParen) {
                if tok(ts, c + 2) == Some(SpecToken::Arrow) {
                    lemma_assignment(ts, len, c + 3);
                }
            } else {
                lemma_arrow_params(ts, c + 1, seq![]);
                match arrow_params_at(ts, c + 1, seq![]) {
                    Some((_, c1)) => {
                        if c < c1 < ts.len() {
                            lemma_assignment(ts, len, c1 + 1);
                        }
                    },
                    None => {
                        lemma_paren_list(ts, len, c + 1, seq![]);
                        if let Ok((items, _)) = paren_list(ts, len, c + 1, seq![]) {
                            if items.len() == 1 {
                                assert(items.last() == items[0]);
                            }
                        }
                    },
                }
            }
        },
        Some(SpecToken::LBracket) => {
            if tok(ts, c + 1) != Some(SpecToken::RBracket) {
                lemma_array_list(ts, len, c + 1, seq![]);
            } else {
                assert(all_well_formed(seq![]));
                assert(well_formed(SpecExpr::Array(seq![])));
            }
        },
        Some(SpecToken::LBrace) => {
            if tok(ts, c + 1) != Some(SpecToken::RBrace) {
                lemma_prop_list(ts, len, c + 1, seq![]);
            } else {
                assert(props_well_formed(seq![]));
                assert(well_formed(SpecExpr::Object(seq![])));
            }
        },
        _ => {},
    }
}

proof fn lemma_sequence(ts: Seq<SpecSpanned>, len: int, c: int, items: Seq<SpecExpr>)
    requires
        positions_ok(ts, len),
        all_well_formed(items),
        c <= ts.len(),
    ensures
        match sequence_list(ts, len, c, items) {
            Ok((items2, c2)) => all_well_formed(items2) && c <= c2 <= ts.len(),
            Err(p) => error_ok(len, p),
        },
    decreases ts.len() - c,
{
    lemma_messages();
    lemma_sequence_list_unfold(ts, len, c, items);
    if tok(ts, c) is Some {
        lemma_assignment(ts, len, c);
        if let Ok((e, c1)) = assignment_at(ts, len, c) {
            lemma_all_push(items, e);
            if is_separator(tok(ts, c1)) && c <= c1 <= ts.len() {
                lemma_sequence(ts, len, c1 + 1, items.push(e));
            }
        }
    }
}

proof fn lemma_full(ts: Seq<SpecSpanned>, len: int, c: int)
    requires
        positions_ok(ts, len),
    ensures
        expr_result_ok(ts, len, c, full_at(ts, len, c)),
{
    lemma_messages();
    lemma_assignment(ts, len, c);
    if let Ok((first, c1)) = assignment_at(ts, len, c) {
        if is_separator(tok(ts, c1)) {
            lemma_all_push(seq![], first);
            assert(Seq::<SpecExpr>::empty().push(first) == seq![first]);
            lemma_sequence(ts, len, c1 + 1, seq![first]);
            if let Ok((items, c2)) = sequence_list(ts, len, c1 + 1, seq![first]) {
                if items.len() == 1 {
                    assert(items.last() == items[0]);
                }
            }
        }
    }
}

/// Whatever the source, parsing gives an expression in which every
/// assignment, `++` and `--` has an assignable target (a name, a member
/// access or an index) and every equality test is strict, or a failure with
/// a non-empty message at a byte offset within the source.
pub proof fn law_parse_results(b: Seq<u8>)
    ensures
        match parse_source(b) {
            Ok(e) => well_formed(e),
            Err((m, p)) => 0 <= p <= b.len() && m.len() > 0,
        },
{
    reveal_strlit("lex error: ");
    law_token_spans(b);
    if let LexOutcome::Tokens(ts) = lex(b) {
        assert(positions_ok(ts, b.len() as int));
        lemma_full(ts, b.len() as int, 0);
    }
}

/// `await` and `yield` are rejected: a source parses only when none of its
/// identifier tokens is one of those words (the tokenizer fails at such a
/// word, with the message `unsupported keyword`).
pub proof fn law_await_and_yield_rejected(b: Seq<u8>)
    ensures
        parse_source(b) is Ok ==> (lex(b) matches LexOutcome::Tokens(ts) && forall|k: int|
            0 <= k < ts.len() && (#[trigger] ts[k].token) is Ident ==> !is_reserved_word(
                b.subrange(ts[k].start, ts[k].end),
            )),
{
    law_token_spans(b);
}

/// `*`, `/` and `%` between two operands build a multiplication, a division
/// and a remainder of them, in that order, and the chain goes on after the
/// right operand.
pub proof fn law_multiplicative_operators_read_as_written(
    ts: Seq<SpecSpanned>,
    len: int,
    left: SpecExpr,
    c: int,
    right: SpecExpr,
    c2: int,
)
    requires
        unary_at(ts, len, c + 1) == Ok::<(SpecExpr, int), PErr>((right, c2)),
        c < c2 <= ts.len(),
    ensures
        tok(ts, c) == Some(SpecToken::Star) ==> multiplication_tail(ts, len, left, c) == multiplication_tail(
            ts,
            len,
            SpecExpr::Binary { op: BinOp::Mul, left: Box::new(left), right: Box::new(right) },
            c2,
        ),
        tok(ts, c) == Some(SpecToken::Slash) ==> multiplication_tail(ts, len, left, c) == multiplication_tail(
            ts,
            len,
            SpecExpr::Binary { op: BinOp::Div, left: Box::new(left), right: Box::new(right) },
            c2,
        ),
        tok(ts, c) == Some(SpecToken::Percent) ==> multiplication_tail(ts, len, left, c) == multiplication_tail(
            ts,
            len,
            SpecExpr::Binary { op: BinOp::Mod, left: Box::new(left), right: Box::new(right) },
            c2,
        ),
{
    lemma_multiplication_tail_unfold(ts, len, left, c);
}

/// `+` and `-` between two operands build an addition and a subtraction of
/// them, and the chain goes on after the right operand.
pub proof fn law_additive_operators_read_as_written(
    ts: Seq<SpecSpanned>,
    len: int,
    left: SpecExpr,
    c: int,
    right: SpecExpr,
    c2: int,
)
    requires
        multiplication_at(ts, len, c + 1) == Ok::<(SpecExpr, int), PErr>((right, c2)),
        c < c2 <= ts.len(),
    ensures
        tok(ts, c) == Some(SpecToken::Plus) ==> addition_tail(ts, len, left, c) == addition_tail(
            ts,
            len,
            SpecExpr::Binary { op: BinOp::Add, left: Box::new(left), right: Box::new(right) },
            c2,
        ),
        tok(ts, c) == Some(SpecToken::Minus) ==> addition_tail(ts, len, left, c) == addition_tail(
            ts,
            len,
            SpecExpr::Binary { op: BinOp::Sub, left: Box::new(left), right: Box::new(right) },
            c2,
        ),
{
    lemma_addition_tail_unfold(ts, len, left, c);
}

/// `<`, `<=`, `>` and `>=` build the comparison they name.
pub proof fn law_comparison_operators_read_as_written(
    ts: Seq<SpecSpanned>,
    len: int,
    left: SpecExpr,
    c: int,
    right: SpecExpr,
    c2: int,
)
    requires
        addition_at(ts, len, c + 1) == Ok::<(SpecExpr, int), PErr>((right, c2)),
        c < c2 <= ts.len(),
    ensures
        tok(ts, c) == Some(SpecToken::Lt) ==> comparison_tail(ts, len, left, c) == comparison_tail(
            ts,
            len,
            SpecExpr::Binary { op: BinOp::Lt, left: Box::new(left), right: Box::new(right) },
            c2,
        ),
        tok(ts, c) == Some(SpecToken::LtEq) ==> comparison_tail(ts, len, left, c) == comparison_tail(
            ts,
            len,
            SpecExpr::Binary { op: BinOp::Le, left: Box::new(left), right: Box::new(right) },
            c2,
        ),
        tok(ts, c) == Some(SpecToken::Gt) ==> comparison_tail(ts, len, left, c) == comparison_tail(
            ts,
            len,
            SpecExpr::Binary { op: BinOp::Gt, left: Box::new(left), right: Box::new(right) },
            c2,
        ),
        tok(ts, c) == Some(SpecToken::GtEq) ==> comparison_tail(ts, len, left, c) == comparison_tail(
            ts,
            len,
            SpecExpr::Binary { op: BinOp::Ge, left: Box::new(left), right: Box::new(right) },
            c2,
        ),
{
    lemma_comparison_tail_unfold(ts, len, left, c);
}

/// `===` and `==` build a strict equality test, `!==` and `!=` a strict
/// inequality test.
pub proof fn law_equality_operators_read_as_written(
    ts: Seq<SpecSpanned>,
    len: int,
    left: SpecExpr,
    c: int,
    right: SpecExpr,
    c2: int,
)
    requires
        comparison_at(ts, len, c + 1) == Ok::<(SpecExpr, int), PErr>((right, c2)),
        c < c2 <= ts.len(),
    ensures
        tok(ts, c) == Some(SpecToken::EqEq) ==> equality_tail(ts, len, left, c) == equality_tail(
            ts,
            len,
            SpecExpr::Binary { op: BinOp::StrictEq, left: Box::new(left), right: Box::new(right) },
            c2,
        ),
        tok(ts, c) == Some(SpecToken::Eq) ==> equality_tail(ts, len, left, c) == equality_tail(
            ts,
            len,
            SpecExpr::Binary { op: BinOp::StrictEq, left: Box::new(left), right: Box::new(right) },
            c2,
        ),
        tok(ts, c) == Some(SpecToken::BangEqEq) ==> equality_tail(ts, len, left, c) == equality_tail(
            ts,
            len,
            SpecExpr::Binary { op: BinOp::StrictNotEq, left: Box::new(left), right: Box::new(right) },
            c2,
        ),
        tok(ts, c) == Some(SpecToken::BangEq) ==> equality_tail(ts, len, left, c) == equality_tail(
            ts,
            len,
            SpecExpr::Binary { op: BinOp::StrictNotEq, left: Box::new(left), right: Box::new(right) },
            c2,
        ),
{
    lemma_equality_tail_unfold(ts, len, left, c);
}

/// The keyword tokens are literals: `true` and `false` the booleans, `null`
/// and `undefined` themselves, each one token long.
pub proof fn law_keywords_are_literals(ts: Seq<SpecSpanned>, len: int, c: int)
    ensures
        tok(ts, c) == Some(SpecToken::True) ==> primary_at(ts, len, c) == Ok::<(SpecExpr, int), PErr>(
            (SpecExpr::Bool(true), c + 1),
        ),
        tok(ts, c) == Some(SpecToken::False) ==> primary_at(ts, len, c) == Ok::<(SpecExpr, int), PErr>(
            (SpecExpr::Bool(false), c + 1),
        ),
        tok(ts, c) == Some(SpecToken::Null) ==> primary_at(ts, len, c) == Ok::<(SpecExpr, int), PErr>(
            (SpecExpr::Null, c + 1),
        ),
        tok(ts, c) == Some(SpecToken::Undefined) ==> primary_at(ts, len, c) == Ok::<
            (SpecExpr, int),
            PErr,
        >((SpecExpr::Undefined, c + 1)),
{
    lemma_primary_at_unfold(ts, len, c);
}

/// An assignment token between an assignable target and a value builds the
/// assignment it names (`=`, `+=`, `-=`, `*=`, `/=`, `%=`), ending after the
/// value.
pub proof fn law_assignment_operators_read_as_written(
    ts: Seq<SpecSpanned>,
    len: int,
    c: int,
    left: SpecExpr,
    c1: int,
    value: SpecExpr,
    c2: int,
)
    requires
        ternary_at(ts, len, c) == Ok::<(SpecExpr, int), PErr>((left, c1)),
        c <= c1 <= ts.len(),
        assignment_at(ts, len, c1 + 1) == Ok::<(SpecExpr, int), PErr>((value, c2)),
        assignable(left),
    ensures
        tok(ts, c1) == Some(SpecToken::Assign) ==> assignment_at(ts, len, c) == Ok::<(SpecExpr, int), PErr>(
            (SpecExpr::Assign { target: Box::new(left), op: AssignOp::Assign, value: Box::new(value) }, c2),
        ),
        tok(ts, c1) == Some(SpecToken::PlusAssign) ==> assignment_at(ts, len, c) == Ok::<(SpecExpr, int), PErr>(
            (SpecExpr::Assign { target: Box::new(left), op: AssignOp::Add, value: Box::new(value) }, c2),
        ),
        tok(ts, c1) == Some(SpecToken::MinusAssign) ==> assignment_at(ts, len, c) == Ok::<(SpecExpr, int), PErr>(
            (SpecExpr::Assign { target: Box::new(left), op: AssignOp::Sub, value: Box::new(value) }, c2),
        ),
        tok(ts, c1) == Some(SpecToken::StarAssign) ==> assignment_at(ts, len, c) == Ok::<(SpecExpr, int), PErr>(
            (SpecExpr::Assign { target: Box::new(left), op: AssignOp::Mul, value: Box::new(value) }, c2),
        ),
        tok(ts, c1) == Some(SpecToken::SlashAssign) ==> assignment_at(ts, len, c) == Ok::<(SpecExpr, int), PErr>(
            (SpecExpr::Assign { target: Box::new(left), op: AssignOp::Div, value: Box::new(value) }, c2),
        ),
        tok(ts, c1) == Some(SpecToken::PercentAssign) ==> assignment_at(ts, len, c) == Ok::<(SpecExpr, int), PErr>(
            (SpecExpr::Assign { target: Box::new(left), op: AssignOp::Mod, value: Box::new(value) }, c2),
        ),
{
    lemma_assignment_at_unfold(ts, len, c);
}

/// The prefix operators build what they name: `!` a negation, `-` a numeric
/// negation, `+` a numeric conversion, `++` and `--` an increment and a
/// decrement of an assignable target.
pub proof fn law_prefix_operators_read_as_written(
    ts: Seq<SpecSpanned>,
    len: int,
    c: int,
    x: SpecExpr,
    c2: int,
)
    requires
        unary_at(ts, len, c + 1) == Ok::<(SpecExpr, int), PErr>((x, c2)),
    ensures
        tok(ts, c) == Some(SpecToken::Bang) ==> unary_at(ts, len, c) == Ok::<(SpecExpr, int), PErr>(
            (SpecExpr::Not(Box::new(x)), c2),
        ),
        tok(ts, c) == Some(SpecToken::Minus) ==> unary_at(ts, len, c) == Ok::<(SpecExpr, int), PErr>(
            (SpecExpr::Neg(Box::new(x)), c2),
        ),
        tok(ts, c) == Some(SpecToken::Plus) ==> unary_at(ts, len, c) == Ok::<(SpecExpr, int), PErr>(
            (SpecExpr::Pos(Box::new(x)), c2),
        ),
        tok(ts, c) == Some(SpecToken::PlusPlus) && assignable(x) ==> unary_at(ts, len, c) == Ok::<
            (SpecExpr, int),
            PErr,
        >((SpecExpr::UpdatePrefix { target: Box::new(x), increment: true }, c2)),
        tok(ts, c) == Some(SpecToken::MinusMinus) && assignable(x) ==> unary_at(ts, len, c) == Ok::<
            (SpecExpr, int),
            PErr,
        >((SpecExpr::UpdatePrefix { target: Box::new(x), increment: false }, c2)),
{
    lemma_unary_at_unfold(ts, len, c);
}

/// A postfix `++` or `--` after an assignable target builds an increment or a
/// decrement of it, and the chain goes on after the operator.
pub proof fn law_postfix_operators_read_as_written(
    ts: Seq<SpecSpanned>,
    len: int,
    node: SpecExpr,
    c: int,
)
    requires
        assignable(node),
    ensures
        tok(ts, c) == Some(SpecToken::PlusPlus) ==> postfix_tail(ts, len, node, c) == postfix_tail(
            ts,
            len,
            SpecExpr::UpdatePostfix { target: Box::new(node), increment: true },
            c + 1,
        ),
        tok(ts, c) == Some(SpecToken::MinusMinus) ==> postfix_tail(ts, len, node, c) == postfix_tail(
            ts,
            len,
            SpecExpr::UpdatePostfix { target: Box::new(node), increment: false },
            c + 1,
        ),
{
    lemma_postfix_tail_unfold(ts, len, node, c);
}

/// `??`, `||` and `&&` between two operands build the operation they name,
/// operands in source order.
pub proof fn law_logical_operators_read_as_written(
    ts: Seq<SpecSpanned>,
    len: int,
    left: SpecExpr,
    c: int,
    right: SpecExpr,
    c2: int,
)
    requires
        c < c2 <= ts.len(),
    ensures
        tok(ts, c) == Some(SpecToken::QuestionQuestion) && or_at(ts, len, c + 1) == Ok::<
            (SpecExpr, int),
            PErr,
        >((right, c2)) ==> coalesce_tail(ts, len, left, c) == coalesce_tail(
            ts,
            len,
            SpecExpr::Coalesce(Box::new(left), Box::new(right)),
            c2,
        ),
        tok(ts, c) == Some(SpecToken::PipePipe) && and_at(ts, len, c + 1) == Ok::<
            (SpecExpr, int),
            PErr,
        >((right, c2)) ==> or_tail(ts, len, left, c) == or_tail(
            ts,
            len,
            SpecExpr::Or(Box::new(left), Box::new(right)),
            c2,
        ),
        tok(ts, c) == Some(SpecToken::AmpAmp) && equality_at(ts, len, c + 1) == Ok::<
            (SpecExpr, int),
            PErr,
        >((right, c2)) ==> and_tail(ts, len, left, c) == and_tail(
            ts,
            len,
            SpecExpr::And(Box::new(left), Box::new(right)),
            c2,
        ),
{
    lemma_coalesce_tail_unfold(ts, len, left, c);
    lemma_or_tail_unfold(ts, len, left, c);
    lemma_and_tail_unfold(ts, len, left, c);
}

/// `cond ? a : b` builds a conditional with the condition, then the branch
/// after `?`, then the branch after `:`.
pub proof fn law_conditional_reads_in_order(
    ts: Seq<SpecSpanned>,
    len: int,
    c: int,
    cond: SpecExpr,
    c1: int,
    a: SpecExpr,
    c2: int,
    b: SpecExpr,
    c3: int,
)
    requires
        coalesce_at(ts, len, c) == Ok::<(SpecExpr, int), PErr>((cond, c1)),
        c <= c1 <= ts.len(),
        tok(ts, c1) == Some(SpecToken::Question),
        assignment_at(ts, len, c1 + 1) == Ok::<(SpecExpr, int), PErr>((a, c2)),
        c <= c2 <= ts.len(),
        tok(ts, c2) == Some(SpecToken::Colon),
        assignment_at(ts, len, c2 + 1) == Ok::<(SpecExpr, int), PErr>((b, c3)),
    ensures
        ternary_at(ts, len, c) == Ok::<(SpecExpr, int), PErr>(
            (
                SpecExpr::Ternary {
                    cond: Box::new(cond),
                    then_branch: Box::new(a),
                    else_branch: Box::new(b),
                },
                c3,
            ),
        ),
{
    lemma_ternary_at_unfold(ts, len, c);
}

} // verus!
