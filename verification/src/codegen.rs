//! Code generation: expression tree to JavaScript arrow-function source.
//!
//! Every emitted function takes the component state proxy `$s` and returns
//! the expression's value. Bare identifiers resolve through `$s`, so unknown
//! names read as `undefined` instead of throwing, except where an enclosing
//! arrow function's parameter of the same name shadows them.
use vstd::prelude::*;
use crate::parser::{exprs_view, props_view, strings_view, AssignOp, BinOp, Expr, ObjectProp, SpecExpr, SpecObjectProp};
use crate::text::{
    chars_of, hex_char, hex_digit_of, join, number_display, push_char, push_number_display, str_eq,
};

verus! {

/// The shape of the emitted function.
#[derive(Debug, Clone, Copy, PartialEq, Eq, Structural)]
pub enum Mode {
    /// `(($s) => (<expr>))`: for `{{ ... }}`, `:attr`, conditions.
    Read,
    /// `(($s, __v) => { <expr> })`: for writer-only paths.
    Write,
}

// ---------------------------------------------------------------------------
// What the generator emits
// ---------------------------------------------------------------------------

/// An identifier read: the bare name when an enclosing arrow parameter binds
/// it, else a read through the state proxy.
pub open spec fn ident_read(name: Seq<char>, scope: Seq<Seq<char>>) -> Seq<char> {
    if scope.contains(name) {
        name
    } else {
        "$s."@ + name
    }
}

/// The JavaScript source of a binary operator; loose and strict equality
/// both become strict.
pub open spec fn binop_text(op: BinOp) -> Seq<char> {
    match op {
        BinOp::Add => "+"@,
        BinOp::Sub => "-"@,
        BinOp::Mul => "*"@,
        BinOp::Div => "/"@,
        BinOp::Mod => "%"@,
        BinOp::Lt => "<"@,
        BinOp::Le => "<="@,
        BinOp::Gt => ">"@,
        BinOp::Ge => ">="@,
        BinOp::Eq => "==="@,
        BinOp::StrictEq => "==="@,
        BinOp::NotEq => "!=="@,
        BinOp::StrictNotEq => "!=="@,
    }
}

pub open spec fn assign_op_text(op: AssignOp) -> Seq<char> {
    match op {
        AssignOp::Assign => "="@,
        AssignOp::Add => "+="@,
        AssignOp::Sub => "-="@,
        AssignOp::Mul => "*="@,
        AssignOp::Div => "/="@,
        AssignOp::Mod => "%="@,
    }
}

/// How one character is written inside a single-quoted JavaScript string.
pub open spec fn js_char(c: char) -> Seq<char> {
    if c == '\\' {
        seq!['\\', '\\']
    } else if c == '\'' {
        seq!['\\', '\'']
    } else if c == '\n' {
        seq!['\\', 'n']
    } else if c == '\r' {
        seq!['\\', 'r']
    } else if c == '\t' {
        seq!['\\', 't']
    } else if c == '\u{8}' {
        seq!['\\', 'b']
    } else if c == '\u{c}' {
        seq!['\\', 'f']
    } else if (c as int) < 32 {
        seq!['\\', 'u', '0', '0', hex_char((c as int) / 16), hex_char((c as int) % 16)]
    } else {
        seq![c]
    }
}

/// The escaped body of a single-quoted JavaScript string.
pub open spec fn js_body(s: Seq<char>) -> Seq<char>
    decreases s.len(),
{
    if s.len() == 0 {
        seq![]
    } else {
        js_body(s.drop_last()) + js_char(s.last())
    }
}

/// A single-quoted JavaScript string literal whose value is `s`.
pub open spec fn js_string_of(s: Seq<char>) -> Seq<char> {
    seq!['\''] + js_body(s) + seq!['\'']
}

pub open spec fn is_key_start(c: char) -> bool {
    c == '_' || c == '$' || (65 <= (c as int) <= 90) || (97 <= (c as int) <= 122)
}

pub open spec fn is_key_part(c: char) -> bool {
    is_key_start(c) || (48 <= (c as int) <= 57)
}

/// Whether an object key can stand unquoted: an ASCII identifier.
pub open spec fn is_bare_key(k: Seq<char>) -> bool {
    k.len() > 0 && is_key_start(k[0]) && forall|i: int| 0 <= i < k.len() ==> is_key_part(#[trigger] k[i])
}

/// An object key as emitted: bare when it is an identifier, quoted otherwise.
pub open spec fn quoted_key(k: Seq<char>) -> Seq<char> {
    if is_bare_key(k) {
        k
    } else {
        js_string_of(k)
    }
}

/// Whether `e` is a link of a member chain: a member access, an index or a
/// call.
pub open spec fn is_link(e: SpecExpr) -> bool {
    e is Member || e is Index || e is Call
}

/// Whether the member chain that ends in `e` holds an optional link `?.`.
pub open spec fn chain_is_optional(e: SpecExpr) -> bool
    decreases e,
{
    match e {
        SpecExpr::Member { object, optional, .. } => optional || (is_link(*object)
            && chain_is_optional(*object)),
        SpecExpr::Index { object, .. } => is_link(*object) && chain_is_optional(*object),
        SpecExpr::Call { callee, .. } => is_link(*callee) && chain_is_optional(*callee),
        _ => false,
    }
}

/// A member chain is emitted as one piece, parenthesized as a whole when it
/// holds an optional link, so that `?.` short-circuits the rest of the chain.
pub open spec fn chain_wrap(e: SpecExpr, src: Seq<char>) -> Seq<char> {
    if chain_is_optional(e) {
        "("@ + src + ")"@
    } else {
        src
    }
}

/// The source `src` of `x` where a chain continues from it: an optional chain
/// loses its surrounding parentheses, as the longer chain is wrapped instead.
pub open spec fn link_src(src: Seq<char>, x: SpecExpr) -> Seq<char> {
    if is_link(x) && chain_is_optional(x) {
        src.subrange(1, src.len() - 1)
    } else {
        src
    }
}

/// The JavaScript source of an expression, with `scope` the names bound by
/// enclosing arrow functions.
pub open spec fn emit_of(e: SpecExpr, scope: Seq<Seq<char>>) -> Seq<char>
    decreases e,
{
    match e {
        SpecExpr::Number(l) => number_display(l),
        SpecExpr::Str(s) => js_string_of(s),
        SpecExpr::Template(s) => "`"@ + s + "`"@,
        SpecExpr::Bool(b) => if b {
            "true"@
        } else {
            "false"@
        },
        SpecExpr::Null => "null"@,
        SpecExpr::Undefined => "undefined"@,
        SpecExpr::Ident(name) => ident_read(name, scope),
        SpecExpr::Member { object, property, optional } => chain_wrap(
            e,
            link_src(emit_of(*object, scope), *object) + (if optional {
                "?."@
            } else {
                "."@
            }) + property,
        ),
        SpecExpr::Index { object, index } => chain_wrap(
            e,
            link_src(emit_of(*object, scope), *object) + "["@ + emit_of(*index, scope) + "]"@,
        ),
        SpecExpr::Call { callee, args } => match *callee {
            SpecExpr::Member { object, property, optional } => if optional && property
                == "__optional_call__"@ {
                chain_wrap(
                    e,
                    link_src(emit_of(*object, scope), *object) + "?.("@ + join(
                        emit_list(args, scope),
                        ", "@,
                    ) + ")"@,
                )
            } else {
                chain_wrap(
                    e,
                    link_src(emit_of(*callee, scope), *callee) + "("@ + join(
                        emit_list(args, scope),
                        ", "@,
                    ) + ")"@,
                )
            },
            _ => chain_wrap(
                e,
                link_src(emit_of(*callee, scope), *callee) + "("@ + join(emit_list(args, scope), ", "@)
                    + ")"@,
            ),
        },
        SpecExpr::Neg(x) => "(-"@ + emit_of(*x, scope) + ")"@,
        SpecExpr::Pos(x) => "(+"@ + emit_of(*x, scope) + ")"@,
        SpecExpr::Not(x) => "(!"@ + emit_of(*x, scope) + ")"@,
        SpecExpr::Binary { op, left, right } => "("@ + emit_of(*left, scope) + " "@ + binop_text(
            op,
        ) + " "@ + emit_of(*right, scope) + ")"@,
        SpecExpr::And(l, r) => "("@ + emit_of(*l, scope) + " && "@ + emit_of(*r, scope) + ")"@,
        SpecExpr::Or(l, r) => "("@ + emit_of(*l, scope) + " || "@ + emit_of(*r, scope) + ")"@,
        SpecExpr::Coalesce(l, r) => "("@ + emit_of(*l, scope) + " ?? "@ + emit_of(*r, scope)
            + ")"@,
        SpecExpr::Ternary { cond, then_branch, else_branch } => "("@ + emit_of(*cond, scope)
            + " ? "@ + emit_of(*then_branch, scope) + " : "@ + emit_of(*else_branch, scope) + ")"@,
        SpecExpr::Assign { target, op, value } => "("@ + emit_of(*target, scope) + " "@
            + assign_op_text(op) + " "@ + emit_of(*value, scope) + ")"@,
        SpecExpr::UpdatePrefix { target, increment } => "("@ + (if increment {
            "++"@
        } else {
            "--"@
        }) + emit_of(*target, scope) + ")"@,
        SpecExpr::UpdatePostfix { target, increment } => "("@ + emit_of(*target, scope) + (
        if increment {
            "++"@
        } else {
            "--"@
        }) + ")"@,
        SpecExpr::Object(props) => "({ "@ + join(emit_props(props, scope), ", "@) + " })"@,
        SpecExpr::Array(items) => "["@ + join(emit_list(items, scope), ", "@) + "]"@,
        SpecExpr::Sequence(items) => "("@ + join(emit_list(items, scope), ", "@) + ")"@,
        SpecExpr::Arrow { params, body } => if params.len() == 1 {
            "("@ + join(params, ", "@) + " => "@ + emit_of(*body, scope + params) + ")"@
        } else {
            "(("@ + join(params, ", "@) + ") => "@ + emit_of(*body, scope + params) + ")"@
        },
    }
}

/// The sources of a list of expressions.
pub open spec fn emit_list(items: Seq<SpecExpr>, scope: Seq<Seq<char>>) -> Seq<Seq<char>>
    decreases items,
{
    if items.len() == 0 {
        seq![]
    } else {
        emit_list(items.drop_last(), scope).push(emit_of(items.last(), scope))
    }
}

/// The source of one object property.
pub open spec fn emit_prop(p: SpecObjectProp, scope: Seq<Seq<char>>) -> Seq<char>
    decreases p,
{
    match p {
        SpecObjectProp::KeyValue(k, v) => quoted_key(k) + ": "@ + emit_of(v, scope),
        SpecObjectProp::Computed(k, v) => "["@ + emit_of(k, scope) + "]: "@ + emit_of(v, scope),
        SpecObjectProp::Shorthand(name) => name + ": "@ + ident_read(name, scope),
        SpecObjectProp::Spread(v) => "..."@ + emit_of(v, scope),
    }
}

/// The sources of a list of object properties.
pub open spec fn emit_props(ps: Seq<SpecObjectProp>, scope: Seq<Seq<char>>) -> Seq<Seq<char>>
    decreases ps,
{
    if ps.len() == 0 {
        seq![]
    } else {
        emit_props(ps.drop_last(), scope).push(emit_prop(ps.last(), scope))
    }
}

/// The complete function source for an expression.
pub open spec fn compile_of(e: SpecExpr, mode: Mode) -> Seq<char> {
    match mode {
        Mode::Read => "(($s) => ("@ + emit_of(e, seq![]) + "))"@,
        Mode::Write => "(($s, __v) => { "@ + emit_of(e, seq![]) + " })"@,
    }
}
} // verus!
verus! {

// ---------------------------------------------------------------------------
// The generator
// ---------------------------------------------------------------------------

/// Compiles an expression to JavaScript function source: `(($s) => (<expr>))`
/// in `Read` mode, `(($s, __v) => { <expr> })` in `Write` mode.
pub fn compile(expr: &Expr, mode: Mode) -> (r: String)
    ensures
        r@ == compile_of(expr@, mode),
{
    let scope: Vec<String> = Vec::new();
    assert(strings_view(scope@) == Seq::<Seq<char>>::empty());
    let body = emit(expr, scope.as_slice());
    match mode {
        Mode::Read => {
            let mut out = String::from_str("(($s) => (");
            out.append(body.as_str());
            out.append("))");
            out
        },
        Mode::Write => {
            let mut out = String::from_str("(($s, __v) => { ");
            out.append(body.as_str());
            out.append(" })");
            out
        },
    }
}

/// Reads identifier `name`: as itself when an enclosing arrow parameter in
/// `scope` binds it, otherwise through the state proxy as `$s.<name>`.
pub fn emit_ident_read(name: &str, scope: &[String]) -> (r: String)
    ensures
        r@ == ident_read(name@, strings_view(scope@)),
{
    let mut i: usize = 0;
    while i < scope.len()
        invariant
            i <= scope@.len(),
            forall|j: int| 0 <= j < i ==> scope@[j]@ != name@,
        decreases scope@.len() - i,
    {
        if str_eq(scope[i].as_str(), name) {
            assert(strings_view(scope@)[i as int] == name@);
            return String::from_str(name);
        }
        i = i + 1;
    }
    assert(!strings_view(scope@).contains(name@)) by {
        if strings_view(scope@).contains(name@) {
            let j = choose|j: int| 0 <= j < strings_view(scope@).len() && strings_view(scope@)[j] == name@;
            assert(scope@[j]@ == name@);
        }
    }
    let mut out = String::from_str("$s.");
    out.append(name);
    out
}

fn push_js_char(out: &mut String, c: char)
    ensures
        final(out)@ == old(out)@ + js_char(c),
{
    if c == '\\' {
        push_char(out, '\\');
        push_char(out, '\\');
    } else if c == '\'' {
        push_char(out, '\\');
        push_char(out, '\'');
    } else if c == '\n' {
        push_char(out, '\\');
        push_char(out, 'n');
    } else if c == '\r' {
        push_char(out, '\\');
        push_char(out, 'r');
    } else if c == '\t' {
        push_char(out, '\\');
        push_char(out, 't');
    } else if c == '\u{8}' {
        push_char(out, '\\');
        push_char(out, 'b');
    } else if c == '\u{c}' {
        push_char(out, '\\');
        push_char(out, 'f');
    } else if (c as u32) < 32 {
        let v: u32 = c as u32;
        push_char(out, '\\');
        push_char(out, 'u');
        push_char(out, '0');
        push_char(out, '0');
        push_char(out, hex_digit_of(v / 16));
        push_char(out, hex_digit_of(v % 16));
    } else {
        push_char(out, c);
    }
}

/// A single-quoted JavaScript string literal for `s`, with backslash, quote,
/// line terminators and other control characters escaped.
pub fn js_string(s: &str) -> (r: String)
    ensures
        r@ == js_string_of(s@),
{
    let cs = chars_of(s);
    let mut out = String::new();
    push_char(&mut out, '\'');
    let ghost start = out@;
    let mut i: usize = 0;
    while i < cs.len()
        invariant
            i <= cs@.len(),
            cs@ == s@,
            out@ == start + js_body(cs@.take(i as int)),
        decreases cs@.len() - i,
    {
        push_js_char(&mut out, cs[i]);
        proof {
            let t = cs@.take(i + 1);
            assert(t.drop_last() == cs@.take(i as int));
            assert(t.last() == cs@[i as int]);
        }
        i = i + 1;
    }
    assert(cs@.take(cs@.len() as int) == cs@);
    push_char(&mut out, '\'');
    out
}

fn is_key_start_char(c: char) -> (r: bool)
    ensures
        r == is_key_start(c),
{
    let v: u32 = c as u32;
    c == '_' || c == '$' || (65 <= v && v <= 90) || (97 <= v && v <= 122)
}

fn is_key_part_char(c: char) -> (r: bool)
    ensures
        r == is_key_part(c),
{
    let v: u32 = c as u32;
    is_key_start_char(c) || (48 <= v && v <= 57)
}

/// An object key: bare when it is an ASCII identifier, quoted otherwise.
pub fn quote_key(k: &str) -> (r: String)
    ensures
        r@ == quoted_key(k@),
{
    let cs = chars_of(k);
    let mut bare = cs.len() > 0 && is_key_start_char(cs[0]);
    let mut i: usize = 0;
    while i < cs.len()
        invariant
            i <= cs@.len(),
            cs@ == k@,
            bare == (cs@.len() > 0 && is_key_start(cs@[0]) && forall|j: int|
                0 <= j < i ==> is_key_part(#[trigger] cs@[j])),
        decreases cs@.len() - i,
    {
        if !is_key_part_char(cs[i]) {
            bare = false;
        }
        i = i + 1;
    }
    if bare {
        String::from_str(k)
    } else {
        js_string(k)
    }
}

proof fn lemma_emit_list_len(items: Seq<SpecExpr>, scope: Seq<Seq<char>>)
    ensures
        emit_list(items, scope).len() == items.len(),
    decreases items.len(),
{
    if items.len() > 0 {
        lemma_emit_list_len(items.drop_last(), scope);
    }
}

proof fn lemma_emit_props_len(ps: Seq<SpecObjectProp>, scope: Seq<Seq<char>>)
    ensures
        emit_props(ps, scope).len() == ps.len(),
    decreases ps.len(),
{
    if ps.len() > 0 {
        lemma_emit_props_len(ps.drop_last(), scope);
    }
}

/// Appends the sources of `items`, separated by `, `.
fn emit_items(items: &Vec<Expr>, scope: &[String], out: &mut String)
    ensures
        final(out)@ == old(out)@ + join(
            emit_list(exprs_view(items@), strings_view(scope@)),
            ", "@,
        ),
    decreases *items, 0int,
{
    let ghost sv = strings_view(scope@);
    let mut i: usize = 0;
    while i < items.len()
        invariant
            i <= items@.len(),
            sv == strings_view(scope@),
            out@ == old(out)@ + join(emit_list(exprs_view(items@.take(i as int)), sv), ", "@),
        decreases items@.len() - i,
    {
        let ghost prev = out@;
        let ghost before = emit_list(exprs_view(items@.take(i as int)), sv);
        proof {
            lemma_emit_list_len(exprs_view(items@.take(i as int)), sv);
            crate::parser::lemma_exprs_view(items@.take(i as int));
        }
        if i > 0 {
            out.append(", ");
        }
        let part = emit(&items[i], scope);
        out.append(part.as_str());
        proof {
            let t = items@.take(i + 1);
            assert(t.drop_last() == items@.take(i as int));
            assert(t.last() == items@[i as int]);
            assert(exprs_view(t) == exprs_view(items@.take(i as int)).push(items@[i as int]@));
            assert(exprs_view(t).drop_last() == exprs_view(items@.take(i as int)));
            let after = emit_list(exprs_view(t), sv);
            assert(after == before.push(part@));
            lemma_join_push(before, part@, ", "@);
        }
        i = i + 1;
    }
    assert(items@.take(items@.len() as int) == items@);
}

/// Appends the sources of the object properties `props`, separated by `, `.
#[verifier::spinoff_prover]
#[verifier::rlimit(40)]
fn emit_prop_items(props: &Vec<ObjectProp>, scope: &[String], out: &mut String)
    ensures
        final(out)@ == old(out)@ + join(
            emit_props(props_view(props@), strings_view(scope@)),
            ", "@,
        ),
    decreases *props, 0int,
{
    let ghost sv = strings_view(scope@);
    let mut i: usize = 0;
    while i < props.len()
        invariant
            i <= props@.len(),
            sv == strings_view(scope@),
            out@ == old(out)@ + join(emit_props(props_view(props@.take(i as int)), sv), ", "@),
        decreases props@.len() - i,
    {
        let ghost before = emit_props(props_view(props@.take(i as int)), sv);
        proof {
            lemma_emit_props_len(props_view(props@.take(i as int)), sv);
            lemma_props_view_len(props@.take(i as int));
        }
        if i > 0 {
            out.append(", ");
        }
        let part = emit_prop_src(&props[i], scope);
        out.append(part.as_str());
        proof {
            let t = props@.take(i + 1);
            assert(t.drop_last() == props@.take(i as int));
            assert(t.last() == props@[i as int]);
            assert(props_view(t) == props_view(props@.take(i as int)).push(props@[i as int]@));
            assert(props_view(t).drop_last() == props_view(props@.take(i as int)));
            let after = emit_props(props_view(t), sv);
            assert(after == before.push(part@));
            lemma_join_push(before, part@, ", "@);
        }
        i = i + 1;
    }
    assert(props@.take(props@.len() as int) == props@);
}

proof fn lemma_props_view_len(s: Seq<ObjectProp>)
    ensures
        props_view(s).len() == s.len(),
    decreases s.len(),
{
    if s.len() > 0 {
        lemma_props_view_len(s.drop_last());
    }
}

/// The source of one object property.
fn emit_prop_src(p: &ObjectProp, scope: &[String]) -> (r: String)
    ensures
        r@ == emit_prop(p@, strings_view(scope@)),
    decreases *p, 0int,
{
    match p {
        ObjectProp::KeyValue(k, v) => {
            let mut out = quote_key(k.as_str());
            out.append(": ");
            out.append(emit(v, scope).as_str());
            out
        },
        ObjectProp::Computed(k, v) => {
            let mut out = String::from_str("[");
            out.append(emit(k, scope).as_str());
            out.append("]: ");
            out.append(emit(v, scope).as_str());
            out
        },
        ObjectProp::Shorthand(name) => {
            let mut out = name.clone();
            out.append(": ");
            out.append(emit_ident_read(name.as_str(), scope).as_str());
            out
        },
        ObjectProp::Spread(v) => {
            let mut out = String::from_str("...");
            out.append(emit(v, scope).as_str());
            out
        },
    }
}

fn bin_text(op: BinOp) -> (r: &'static str)
    ensures
        r@ == binop_text(op),
{
    match op {
        BinOp::Add => "+",
        BinOp::Sub => "-",
        BinOp::Mul => "*",
        BinOp::Div => "/",
        BinOp::Mod => "%",
        BinOp::Lt => "<",
        BinOp::Le => "<=",
        BinOp::Gt => ">",
        BinOp::Ge => ">=",
        BinOp::Eq | BinOp::StrictEq => "===",
        BinOp::NotEq | BinOp::StrictNotEq => "!==",
    }
}

fn assign_text(op: AssignOp) -> (r: &'static str)
    ensures
        r@ == assign_op_text(op),
{
    match op {
        AssignOp::Assign => "=",
        AssignOp::Add => "+=",
        AssignOp::Sub => "-=",
        AssignOp::Mul => "*=",
        AssignOp::Div => "/=",
        AssignOp::Mod => "%=",
    }
}

/// The scope extended with the parameters of an arrow function.
fn extend_scope(scope: &[String], params: &Vec<String>) -> (r: Vec<String>)
    ensures
        strings_view(r@) == strings_view(scope@) + strings_view(params@),
{
    let mut r: Vec<String> = Vec::new();
    let mut i: usize = 0;
    while i < scope.len()
        invariant
            i <= scope@.len(),
            r@.len() == i,
            forall|k: int| 0 <= k < i ==> #[trigger] r@[k]@ == scope@[k]@,
        decreases scope@.len() - i,
    {
        r.push(scope[i].clone());
        i = i + 1;
    }
    let mut j: usize = 0;
    while j < params.len()
        invariant
            j <= params@.len(),
            r@.len() == scope@.len() + j,
            forall|k: int| 0 <= k < scope@.len() ==> #[trigger] r@[k]@ == scope@[k]@,
            forall|k: int| 0 <= k < j ==> #[trigger] r@[scope@.len() + k]@ == params@[k]@,
        decreases params@.len() - j,
    {
        r.push(params[j].clone());
        j = j + 1;
    }
    assert(strings_view(r@) =~= strings_view(scope@) + strings_view(params@)) by {
        assert forall|k: int| 0 <= k < r@.len() implies #[trigger] strings_view(r@)[k] == (
        strings_view(scope@) + strings_view(params@))[k] by {
            if k >= scope@.len() {
                assert(r@[scope@.len() + (k - scope@.len())]@ == params@[k - scope@.len()]@);
            }
        }
    }
    r
}

/// Adding a part to a joined list.
proof fn lemma_join_push(parts: Seq<Seq<char>>, p: Seq<char>, sep: Seq<char>)
    ensures
        join(parts.push(p), sep) == (if parts.len() == 0 {
            p
        } else {
            join(parts, sep) + sep + p
        }),
{
    assert(parts.push(p).drop_last() == parts);
}

/// Appends the strings of `parts`, separated by `, `.
fn push_joined(out: &mut String, parts: &Vec<String>)
    ensures
        final(out)@ == old(out)@ + join(strings_view(parts@), ", "@),
{
    let mut i: usize = 0;
    while i < parts.len()
        invariant
            i <= parts@.len(),
            out@ == old(out)@ + join(strings_view(parts@.take(i as int)), ", "@),
        decreases parts@.len() - i,
    {
        let ghost before = strings_view(parts@.take(i as int));
        if i > 0 {
            out.append(", ");
        }
        out.append(parts[i].as_str());
        proof {
            let t = parts@.take(i + 1);
            assert(strings_view(t) == before.push(parts@[i as int]@));
            lemma_join_push(before, parts@[i as int]@, ", "@);
        }
        i = i + 1;
    }
    assert(parts@.take(parts@.len() as int) == parts@);
}

/// The JavaScript source of `e`, with `scope` the names bound by enclosing
/// arrow functions.
fn is_link_exec(e: &Expr) -> (r: bool)
    ensures
        r == is_link(e@),
{
    match e {
        Expr::Member { .. } => true,
        Expr::Index { .. } => true,
        Expr::Call { .. } => true,
        _ => false,
    }
}

fn chain_optional(e: &Expr) -> (r: bool)
    ensures
        r == chain_is_optional(e@),
    decreases *e,
{
    match e {
        Expr::Member { object, optional, .. } => *optional || (is_link_exec(object)
            && chain_optional(object)),
        Expr::Index { object, .. } => is_link_exec(object) && chain_optional(object),
        Expr::Call { callee, .. } => is_link_exec(callee) && chain_optional(callee),
        _ => false,
    }
}

fn wrap_chain(e: &Expr, src: String) -> (r: String)
    ensures
        r@ == chain_wrap(e@, src@),
{
    if chain_optional(e) {
        let mut out = String::from_str("(");
        out.append(src.as_str());
        out.append(")");
        out
    } else {
        src
    }
}

/// The characters of `s` without its first and last one.
fn inner_of(s: &str) -> (r: String)
    requires
        s@.len() >= 2,
    ensures
        r@ == s@.subrange(1, s@.len() - 1),
{
    let cs = chars_of(s);
    let mut out = String::new();
    let mut i: usize = 1;
    while i < cs.len() - 1
        invariant
            1 <= i <= cs@.len() - 1,
            cs@ == s@,
            out@ == s@.subrange(1, i as int),
        decreases cs@.len() - i,
    {
        push_char(&mut out, cs[i]);
        i = i + 1;
        assert(s@.subrange(1, i as int) == s@.subrange(1, i - 1).push(s@[i - 1]));
    }
    out
}

proof fn lemma_optional_chain_parenthesized(x: SpecExpr, scope: Seq<Seq<char>>)
    requires
        is_link(x),
        chain_is_optional(x),
    ensures
        emit_of(x, scope).len() >= 2,
{
    reveal_strlit("(");
    reveal_strlit(")");
}

/// The source of `x` where a member chain continues from it (see `link_src`).
fn emit_link(x: &Expr, scope: &[String]) -> (r: String)
    ensures
        r@ == link_src(emit_of(x@, strings_view(scope@)), x@),
    decreases *x, 3int,
{
    let src = emit(x, scope);
    if is_link_exec(x) && chain_optional(x) {
        proof {
            lemma_optional_chain_parenthesized(x@, strings_view(scope@));
        }
        inner_of(src.as_str())
    } else {
        src
    }
}

fn emit(e: &Expr, scope: &[String]) -> (r: String)
    ensures
        r@ == emit_of(e@, strings_view(scope@)),
    decreases *e, 2int,
{
    match e {
        Expr::Number(l) => {
            let mut out = String::new();
            push_number_display(&mut out, l.as_str());
            out
        },
        Expr::Str(s) => js_string(s.as_str()),
        Expr::Template(s) => {
            let mut out = String::from_str("`");
            out.append(s.as_str());
            out.append("`");
            out
        },
        Expr::Bool(b) => if *b {
            String::from_str("true")
        } else {
            String::from_str("false")
        },
        Expr::Null => String::from_str("null"),
        Expr::Undefined => String::from_str("undefined"),
        Expr::Ident(name) => emit_ident_read(name.as_str(), scope),
        Expr::Member { object, property, optional } => {
            let mut out = emit_link(object, scope);
            if *optional {
                out.append("?.");
            } else {
                out.append(".");
            }
            out.append(property.as_str());
            wrap_chain(e, out)
        },
        Expr::Index { object, index } => {
            let mut out = emit_link(object, scope);
            out.append("[");
            out.append(emit(index, scope).as_str());
            out.append("]");
            wrap_chain(e, out)
        },
        Expr::Call { callee, args } => {
            if let Expr::Member { property, optional, object } = &**callee {
                if *optional && str_eq(property.as_str(), "__optional_call__") {
                    assert((**callee)@ == (SpecExpr::Member {
                        object: Box::new((**object)@),
                        property: property@,
                        optional: *optional,
                    }));
                    let mut out = emit_link(object, scope);
                    out.append("?.(");
                    emit_items(args, scope, &mut out);
                    out.append(")");
                    return wrap_chain(e, out);
                }
            }
            let mut out = emit_link(callee, scope);
            out.append("(");
            emit_items(args, scope, &mut out);
            out.append(")");
            wrap_chain(e, out)
        },
        Expr::Neg(x) => {
            let mut out = String::from_str("(-");
            out.append(emit(x, scope).as_str());
            out.append(")");
            out
        },
        Expr::Pos(x) => {
            let mut out = String::from_str("(+");
            out.append(emit(x, scope).as_str());
            out.append(")");
            out
        },
        Expr::Not(x) => {
            let mut out = String::from_str("(!");
            out.append(emit(x, scope).as_str());
            out.append(")");
            out
        },
        Expr::Binary { op, left, right } => {
            let mut out = String::from_str("(");
            out.append(emit(left, scope).as_str());
            out.append(" ");
            out.append(bin_text(*op));
            out.append(" ");
            out.append(emit(right, scope).as_str());
            out.append(")");
            out
        },
        Expr::And(l, r) => {
            let mut out = String::from_str("(");
            out.append(emit(l, scope).as_str());
            out.append(" && ");
            out.append(emit(r, scope).as_str());
            out.append(")");
            out
        },
        Expr::Or(l, r) => {
            let mut out = String::from_str("(");
            out.append(emit(l, scope).as_str());
            out.append(" || ");
            out.append(emit(r, scope).as_str());
            out.append(")");
            out
        },
        Expr::Coalesce(l, r) => {
            let mut out = String::from_str("(");
            out.append(emit(l, scope).as_str());
            out.append(" ?? ");
            out.append(emit(r, scope).as_str());
            out.append(")");
            out
        },
        Expr::Ternary { cond, then_branch, else_branch } => {
            let mut out = String::from_str("(");
            out.append(emit(cond, scope).as_str());
            out.append(" ? ");
            out.append(emit(then_branch, scope).as_str());
            out.append(" : ");
            out.append(emit(else_branch, scope).as_str());
            out.append(")");
            out
        },
        Expr::Assign { target, op, value } => {
            let value_src = emit(value, scope);
            let lhs = emit(target, scope);
            emit_assign(lhs.as_str(), *op, value_src.as_str())
        },
        Expr::UpdatePrefix { target, increment } => {
            let lhs = emit(target, scope);
            emit_update(lhs.as_str(), *increment, true)
        },
        Expr::UpdatePostfix { target, increment } => {
            let lhs = emit(target, scope);
            emit_update(lhs.as_str(), *increment, false)
        },
        Expr::Object(props) => {
            let mut out = String::from_str("({ ");
            emit_prop_items(props, scope, &mut out);
            out.append(" })");
            out
        },
        Expr::Array(items) => {
            let mut out = String::from_str("[");
            emit_items(items, scope, &mut out);
            out.append("]");
            out
        },
        Expr::Sequence(items) => {
            let mut out = String::from_str("(");
            emit_items(items, scope, &mut out);
            out.append(")");
            out
        },
        Expr::Arrow { params, body } => {
            let child_scope = extend_scope(scope, params);
            let body_src = emit(body, child_scope.as_slice());
            if params.len() == 1 {
                let mut out = String::from_str("(");
                push_joined(&mut out, params);
                out.append(" => ");
                out.append(body_src.as_str());
                out.append(")");
                out
            } else {
                let mut out = String::from_str("((");
                push_joined(&mut out, params);
                out.append(") => ");
                out.append(body_src.as_str());
                out.append(")");
                out
            }
        },
    }
}

/// `(<lhs> <op> <value>)` for an assignment, given the sources of its sides.
fn emit_assign(lhs: &str, op: AssignOp, value_src: &str) -> (r: String)
    ensures
        r@ == "("@ + lhs@ + " "@ + assign_op_text(op) + " "@ + value_src@ + ")"@,
{
    let mut out = String::from_str("(");
    out.append(lhs);
    out.append(" ");
    out.append(assign_text(op));
    out.append(" ");
    out.append(value_src);
    out.append(")");
    out
}

/// `(++x)`, `(--x)`, `(x++)` or `(x--)` for the target source `lhs`.
fn emit_update(lhs: &str, increment: bool, prefix: bool) -> (r: String)
    ensures
        r@ == (if prefix {
            "("@ + (if increment {
                "++"@
            } else {
                "--"@
            }) + lhs@ + ")"@
        } else {
            "("@ + lhs@ + (if increment {
                "++"@
            } else {
                "--"@
            }) + ")"@
        }),
{
    let op = if increment {
        "++"
    } else {
        "--"
    };
    let mut out = String::from_str("(");
    if prefix {
        out.append(op);
        out.append(lhs);
    } else {
        out.append(lhs);
        out.append(op);
    }
    out.append(")");
    out
}

} // verus!
