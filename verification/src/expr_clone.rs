//! Copies of expression trees (`Clone` for `Expr` and `ObjectProp`), proved
//! to have the same model as the original.
use vstd::prelude::*;
use crate::parser::{exprs_view, props_view, strings_view, Expr, ObjectProp};

verus! {

fn copy_expr(e: &Expr) -> (r: Expr)
    ensures
        r@ == e@,
    decreases *e,
{
    match e {
        Expr::Number(s) => Expr::Number(s.clone()),
        Expr::Str(s) => Expr::Str(s.clone()),
        Expr::Template(s) => Expr::Template(s.clone()),
        Expr::Bool(b) => Expr::Bool(*b),
        Expr::Null => Expr::Null,
        Expr::Undefined => Expr::Undefined,
        Expr::Ident(s) => Expr::Ident(s.clone()),
        Expr::Member { object, property, optional } => Expr::Member {
            object: Box::new(copy_expr(object)),
            property: property.clone(),
            optional: *optional,
        },
        Expr::Index { object, index } => Expr::Index {
            object: Box::new(copy_expr(object)),
            index: Box::new(copy_expr(index)),
        },
        Expr::Call { callee, args } => Expr::Call { callee: Box::new(copy_expr(callee)), args: copy_exprs(args) },
        Expr::Neg(x) => Expr::Neg(Box::new(copy_expr(x))),
        Expr::Pos(x) => Expr::Pos(Box::new(copy_expr(x))),
        Expr::Not(x) => Expr::Not(Box::new(copy_expr(x))),
        Expr::Binary { op, left, right } => Expr::Binary {
            op: *op,
            left: Box::new(copy_expr(left)),
            right: Box::new(copy_expr(right)),
        },
        Expr::And(l, r) => Expr::And(Box::new(copy_expr(l)), Box::new(copy_expr(r))),
        Expr::Or(l, r) => Expr::Or(Box::new(copy_expr(l)), Box::new(copy_expr(r))),
        Expr::Coalesce(l, r) => Expr::Coalesce(Box::new(copy_expr(l)), Box::new(copy_expr(r))),
        Expr::Ternary { cond, then_branch, else_branch } => Expr::Ternary {
            cond: Box::new(copy_expr(cond)),
            then_branch: Box::new(copy_expr(then_branch)),
            else_branch: Box::new(copy_expr(else_branch)),
        },
        Expr::Assign { target, op, value } => Expr::Assign {
            target: Box::new(copy_expr(target)),
            op: *op,
            value: Box::new(copy_expr(value)),
        },
        Expr::UpdatePostfix { target, increment } => Expr::UpdatePostfix {
            target: Box::new(copy_expr(target)),
            increment: *increment,
        },
        Expr::UpdatePrefix { target, increment } => Expr::UpdatePrefix {
            target: Box::new(copy_expr(target)),
            increment: *increment,
        },
        Expr::Object(props) => Expr::Object(copy_props(props)),
        Expr::Array(items) => Expr::Array(copy_exprs(items)),
        Expr::Sequence(items) => Expr::Sequence(copy_exprs(items)),
        Expr::Arrow { params, body } => Expr::Arrow { params: copy_strings(params), body: Box::new(copy_expr(body)) },
    }
}

fn copy_exprs(v: &Vec<Expr>) -> (r: Vec<Expr>)
    ensures
        exprs_view(r@) == exprs_view(v@),
    decreases *v,
{
    let mut r: Vec<Expr> = Vec::new();
    let mut i: usize = 0;
    while i < v.len()
        invariant
            i <= v@.len(),
            exprs_view(r@) == exprs_view(v@.take(i as int)),
        decreases v@.len() - i,
    {
        let ghost prev = r@;
        r.push(copy_expr(&v[i]));
        proof {
            assert(r@.drop_last() == prev);
            let t = v@.take(i + 1);
            assert(t.drop_last() == v@.take(i as int));
            assert(t.last() == v@[i as int]);
        }
        i = i + 1;
    }
    assert(v@.take(v@.len() as int) == v@);
    r
}

fn copy_prop(p: &ObjectProp) -> (r: ObjectProp)
    ensures
        r@ == p@,
    decreases *p,
{
    match p {
        ObjectProp::KeyValue(k, v) => ObjectProp::KeyValue(k.clone(), copy_expr(v)),
        ObjectProp::Computed(k, v) => ObjectProp::Computed(copy_expr(k), copy_expr(v)),
        ObjectProp::Shorthand(k) => ObjectProp::Shorthand(k.clone()),
        ObjectProp::Spread(v) => ObjectProp::Spread(copy_expr(v)),
    }
}

fn copy_props(v: &Vec<ObjectProp>) -> (r: Vec<ObjectProp>)
    ensures
        props_view(r@) == props_view(v@),
    decreases *v,
{
    let mut r: Vec<ObjectProp> = Vec::new();
    let mut i: usize = 0;
    while i < v.len()
        invariant
            i <= v@.len(),
            props_view(r@) == props_view(v@.take(i as int)),
        decreases v@.len() - i,
    {
        let ghost prev = r@;
        r.push(copy_prop(&v[i]));
        proof {
            assert(r@.drop_last() == prev);
            let t = v@.take(i + 1);
            assert(t.drop_last() == v@.take(i as int));
            assert(t.last() == v@[i as int]);
        }
        i = i + 1;
    }
    assert(v@.take(v@.len() as int) == v@);
    r
}

fn copy_strings(v: &Vec<String>) -> (r: Vec<String>)
    ensures
        strings_view(r@) == strings_view(v@),
{
    let mut r: Vec<String> = Vec::new();
    let mut i: usize = 0;
    while i < v.len()
        invariant
            i <= v@.len(),
            r@.len() == i,
            forall|j: int| 0 <= j < i ==> #[trigger] r@[j]@ == v@[j]@,
        decreases v@.len() - i,
    {
        r.push(v[i].clone());
        i = i + 1;
    }
    assert(strings_view(r@) =~= strings_view(v@));
    r
}

impl Clone for Expr {
    fn clone(&self) -> (r: Self)
        ensures
            r@ == self@,
    {
        copy_expr(self)
    }
}

impl Clone for ObjectProp {
    fn clone(&self) -> (r: Self)
        ensures
            r@ == self@,
    {
        copy_prop(self)
    }
}

} // verus!
