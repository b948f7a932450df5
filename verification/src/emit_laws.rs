//! What the emitted source means: string literals read back as the strings
//! they were made from, object keys stand for themselves, loose equality
//! compiles as strict equality, and arrow parameters shadow state reads.
use vstd::prelude::*;
use crate::codegen::{
    chain_is_optional, chain_wrap, emit_list, emit_of, is_bare_key, js_body, js_char, js_string_of, link_src, quoted_key,
};
use crate::parser::{AssignOp, BinOp, SpecExpr};
use crate::text::{hex_char, join};

verus! {

/// The character that the escape `\x` stands for in a JavaScript string
/// literal, for the escapes of a single character.
pub open spec fn js_simple_escape(x: char) -> Option<char> {
    if x == 'n' {
        Some('\n')
    } else if x == 'r' {
        Some('\r')
    } else if x == 't' {
        Some('\t')
    } else if x == 'b' {
        Some('\u{8}')
    } else if x == 'f' {
        Some('\u{c}')
    } else if x == 'v' {
        Some('\u{b}')
    } else if x == '\\' || x == '\'' || x == '"' {
        Some(x)
    } else {
        None
    }
}

/// The value of a hexadecimal digit.
pub open spec fn hex_value(x: char) -> Option<int> {
    if 48 <= (x as int) <= 57 {
        Some(x as int - 48)
    } else if 97 <= (x as int) <= 102 {
        Some(x as int - 87)
    } else if 65 <= (x as int) <= 70 {
        Some(x as int - 55)
    } else {
        None
    }
}

/// The code point of the escape `\uXXXX` whose four digits start at `t[2]`.
pub open spec fn unicode_escape_value(t: Seq<char>) -> Option<int> {
    match (hex_value(t[2]), hex_value(t[3]), hex_value(t[4]), hex_value(t[5])) {
        (Some(a), Some(b), Some(c), Some(d)) => Some(4096 * a + 256 * b + 16 * c + d),
        _ => None,
    }
}

/// The string that `t` denotes as the text between the quotes of a
/// single-quoted JavaScript string literal: `None` where such text would end
/// the literal early (an unescaped quote or line break) or holds an escape
/// not read here (octal, `\x`, surrogate halves, line continuations).
pub open spec fn js_unescape(t: Seq<char>) -> Option<Seq<char>>
    decreases t.len(),
{
    if t.len() == 0 {
        Some(seq![])
    } else if t[0] == '\'' || t[0] == '\n' || t[0] == '\r' {
        None
    } else if t[0] == '\\' {
        if t.len() < 2 {
            None
        } else if let Some(x) = js_simple_escape(t[1]) {
            match js_unescape(t.skip(2)) {
                Some(r) => Some(seq![x] + r),
                None => None,
            }
        } else if t[1] == 'u' && t.len() >= 6 {
            match unicode_escape_value(t) {
                Some(v) => if v < 0xD800 || 0xE000 <= v {
                    match js_unescape(t.skip(6)) {
                        Some(r) => Some(seq![v as char] + r),
                        None => None,
                    }
                } else {
                    None
                },
                None => None,
            }
        } else {
            None
        }
    } else {
        match js_unescape(t.skip(1)) {
            Some(r) => Some(seq![t[0]] + r),
            None => None,
        }
    }
}

proof fn lemma_js_body_concat(a: Seq<char>, b: Seq<char>)
    ensures
        js_body(a + b) == js_body(a) + js_body(b),
    decreases b.len(),
{
    if b.len() == 0 {
        assert(a + b == a);
        assert(js_body(a) + js_body(b) == js_body(a));
    } else {
        lemma_js_body_concat(a, b.drop_last());
        assert((a + b).drop_last() == a + b.drop_last());
        assert((a + b).last() == b.last());
    }
}

proof fn lemma_js_body_front(s: Seq<char>)
    requires
        s.len() > 0,
    ensures
        js_body(s) == js_char(s[0]) + js_body(s.skip(1)),
{
    let head = seq![s[0]];
    assert(s == head + s.skip(1));
    lemma_js_body_concat(head, s.skip(1));
    assert(head.drop_last() == Seq::<char>::empty());
    assert(js_body(head.drop_last()) == Seq::<char>::empty());
    assert(Seq::<char>::empty() + js_char(s[0]) == js_char(s[0]));
}

pub proof fn lemma_hex_char_value(d: int)
    requires
        0 <= d < 16,
    ensures
        hex_value(hex_char(d)) == Some(d),
{
}

proof fn lemma_js_char_unescape(c: char, t: Seq<char>)
    ensures
        js_unescape(js_char(c) + t) == (match js_unescape(t) {
            Some(r) => Some(seq![c] + r),
            None => None,
        }),
{
    let w = js_char(c) + t;
    if c == '\\' || c == '\'' || c == '\n' || c == '\r' || c == '\t' || c == '\u{8}' || c
        == '\u{c}' {
        assert(w.skip(2) == t);
    } else if (c as int) < 32 {
        let v = c as int;
        lemma_hex_char_value(v / 16);
        lemma_hex_char_value(v % 16);
        assert(w[2] == '0' && w[3] == '0');
        assert(unicode_escape_value(w) == Some(v));
        assert(w.skip(6) == t);
        assert((v as char) == c);
    } else {
        assert(w.skip(1) == t);
    }
}

/// Reading back the body of an emitted string literal gives the string it
/// was made from, so the literal denotes exactly that string in JavaScript.
pub proof fn law_js_string_denotes_its_value(s: Seq<char>)
    ensures
        js_unescape(js_body(s)) == Some(s),
        js_string_of(s) == seq!['\''] + js_body(s) + seq!['\''],
    decreases s.len(),
{
    if s.len() > 0 {
        lemma_js_body_front(s);
        law_js_string_denotes_its_value(s.skip(1));
        lemma_js_char_unescape(s[0], js_body(s.skip(1)));
        assert(seq![s[0]] + s.skip(1) == s);
    }
}

/// An object key is emitted bare only when it is an ASCII identifier;
/// otherwise it is a string literal that denotes the key itself.
pub proof fn law_object_keys_denote_themselves(k: Seq<char>)
    ensures
        is_bare_key(k) ==> quoted_key(k) == k,
        !is_bare_key(k) ==> quoted_key(k) == js_string_of(k) && js_unescape(js_body(k)) == Some(k),
{
    law_js_string_denotes_its_value(k);
}

/// The template `==` and `!=` compile exactly as `===` and `!==`.
pub proof fn law_loose_equality_is_strict(l: SpecExpr, r: SpecExpr, scope: Seq<Seq<char>>)
    ensures
        emit_of(SpecExpr::Binary { op: BinOp::Eq, left: Box::new(l), right: Box::new(r) }, scope)
            == emit_of(
            SpecExpr::Binary { op: BinOp::StrictEq, left: Box::new(l), right: Box::new(r) },
            scope,
        ),
        emit_of(SpecExpr::Binary { op: BinOp::NotEq, left: Box::new(l), right: Box::new(r) }, scope)
            == emit_of(
            SpecExpr::Binary { op: BinOp::StrictNotEq, left: Box::new(l), right: Box::new(r) },
            scope,
        ),
{
}

/// A bare identifier reads through the state proxy unless an enclosing arrow
/// function binds it; inside an arrow function its own parameters shadow the
/// state's properties of the same name.
pub proof fn law_identifier_scoping(
    name: Seq<char>,
    scope: Seq<Seq<char>>,
    params: Seq<Seq<char>>,
)
    ensures
        !scope.contains(name) ==> emit_of(SpecExpr::Ident(name), scope) == "$s."@ + name,
        scope.contains(name) ==> emit_of(SpecExpr::Ident(name), scope) == name,
        params.contains(name) ==> emit_of(SpecExpr::Ident(name), scope + params) == name,
{
    if params.contains(name) {
        let j = choose|j: int| 0 <= j < params.len() && params[j] == name;
        assert((scope + params)[scope.len() + j] == name);
    }
}

/// An optional call `f?.(args)` is emitted as a JavaScript optional call in
/// which the callee's source stands once, so the callee is evaluated once:
/// `(<callee>?.(<args>))`.
pub proof fn law_optional_call_evaluates_callee_once(
    callee: SpecExpr,
    args: Seq<SpecExpr>,
    scope: Seq<Seq<char>>,
)
    ensures
        emit_of(
            SpecExpr::Call {
                callee: Box::new(
                    SpecExpr::Member {
                        object: Box::new(callee),
                        property: "__optional_call__"@,
                        optional: true,
                    },
                ),
                args,
            },
            scope,
        ) == "("@ + link_src(emit_of(callee, scope), callee) + "?.("@ + join(
            emit_list(args, scope),
            ", "@,
        ) + ")"@ + ")"@,
{
    let m = SpecExpr::Member {
        object: Box::new(callee),
        property: "__optional_call__"@,
        optional: true,
    };
    let e = SpecExpr::Call { callee: Box::new(m), args };
    assert(chain_is_optional(m));
    assert(chain_is_optional(e));
    assert(chain_wrap(e, link_src(emit_of(callee, scope), callee) + "?.("@ + join(
        emit_list(args, scope),
        ", "@,
    ) + ")"@) == "("@ + link_src(emit_of(callee, scope), callee) + "?.("@ + join(
        emit_list(args, scope),
        ", "@,
    ) + ")"@ + ")"@);
}

/// A binary operation is emitted with the symbol of its operator between
/// its operands, in parentheses.
pub proof fn law_operators_emit_their_symbol(l: SpecExpr, r: SpecExpr, scope: Seq<Seq<char>>)
    ensures
        emit_of(SpecExpr::Binary { op: BinOp::Add, left: Box::new(l), right: Box::new(r) }, scope)
            == "("@ + emit_of(l, scope) + " "@ + "+"@ + " "@ + emit_of(r, scope) + ")"@,
        emit_of(SpecExpr::Binary { op: BinOp::Sub, left: Box::new(l), right: Box::new(r) }, scope)
            == "("@ + emit_of(l, scope) + " "@ + "-"@ + " "@ + emit_of(r, scope) + ")"@,
        emit_of(SpecExpr::Binary { op: BinOp::Mul, left: Box::new(l), right: Box::new(r) }, scope)
            == "("@ + emit_of(l, scope) + " "@ + "*"@ + " "@ + emit_of(r, scope) + ")"@,
        emit_of(SpecExpr::Binary { op: BinOp::Div, left: Box::new(l), right: Box::new(r) }, scope)
            == "("@ + emit_of(l, scope) + " "@ + "/"@ + " "@ + emit_of(r, scope) + ")"@,
        emit_of(SpecExpr::Binary { op: BinOp::Mod, left: Box::new(l), right: Box::new(r) }, scope)
            == "("@ + emit_of(l, scope) + " "@ + "%"@ + " "@ + emit_of(r, scope) + ")"@,
        emit_of(SpecExpr::Binary { op: BinOp::Lt, left: Box::new(l), right: Box::new(r) }, scope)
            == "("@ + emit_of(l, scope) + " "@ + "<"@ + " "@ + emit_of(r, scope) + ")"@,
        emit_of(SpecExpr::Binary { op: BinOp::Le, left: Box::new(l), right: Box::new(r) }, scope)
            == "("@ + emit_of(l, scope) + " "@ + "<="@ + " "@ + emit_of(r, scope) + ")"@,
        emit_of(SpecExpr::Binary { op: BinOp::Gt, left: Box::new(l), right: Box::new(r) }, scope)
            == "("@ + emit_of(l, scope) + " "@ + ">"@ + " "@ + emit_of(r, scope) + ")"@,
        emit_of(SpecExpr::Binary { op: BinOp::Ge, left: Box::new(l), right: Box::new(r) }, scope)
            == "("@ + emit_of(l, scope) + " "@ + ">="@ + " "@ + emit_of(r, scope) + ")"@,
        emit_of(SpecExpr::Binary { op: BinOp::StrictEq, left: Box::new(l), right: Box::new(r) }, scope)
            == "("@ + emit_of(l, scope) + " "@ + "==="@ + " "@ + emit_of(r, scope) + ")"@,
        emit_of(SpecExpr::Binary { op: BinOp::StrictNotEq, left: Box::new(l), right: Box::new(r) }, scope)
            == "("@ + emit_of(l, scope) + " "@ + "!=="@ + " "@ + emit_of(r, scope) + ")"@,
{
}

/// The literals `true`, `false`, `null` and `undefined` are emitted as those
/// words.
pub proof fn law_literals_emit_as_keywords(scope: Seq<Seq<char>>)
    ensures
        emit_of(SpecExpr::Bool(true), scope) == "true"@,
        emit_of(SpecExpr::Bool(false), scope) == "false"@,
        emit_of(SpecExpr::Null, scope) == "null"@,
        emit_of(SpecExpr::Undefined, scope) == "undefined"@,
{
}

/// An arrow function's body is emitted in the enclosing scope extended by
/// its parameters, so a name bound by any enclosing arrow function (or by
/// this one) is read as itself inside the body, never through `$s`.
pub proof fn law_arrow_bodies_see_enclosing_names(
    params: Seq<Seq<char>>,
    body: SpecExpr,
    scope: Seq<Seq<char>>,
    name: Seq<char>,
)
    ensures
        emit_of(SpecExpr::Arrow { params, body: Box::new(body) }, scope) == (if params.len() == 1 {
            "("@ + join(params, ", "@) + " => "@ + emit_of(body, scope + params) + ")"@
        } else {
            "(("@ + join(params, ", "@) + ") => "@ + emit_of(body, scope + params) + ")"@
        }),
        (scope.contains(name) || params.contains(name)) ==> emit_of(
            SpecExpr::Arrow { params, body: Box::new(SpecExpr::Ident(name)) },
            scope,
        ) == (if params.len() == 1 {
            "("@ + join(params, ", "@) + " => "@ + name + ")"@
        } else {
            "(("@ + join(params, ", "@) + ") => "@ + name + ")"@
        }),
{
    if scope.contains(name) {
        let j = choose|j: int| 0 <= j < scope.len() && scope[j] == name;
        assert((scope + params)[j] == name);
        assert((scope + params).contains(name));
    }
    if params.contains(name) {
        let j = choose|j: int| 0 <= j < params.len() && params[j] == name;
        assert((scope + params)[scope.len() + j] == name);
        assert((scope + params).contains(name));
    }
    if scope.contains(name) || params.contains(name) {
        assert(emit_of(SpecExpr::Ident(name), scope + params) == name);
    }
}

/// An object key is emitted bare exactly when it is an ASCII identifier name:
/// its first character is a letter, `_` or `$`, and every other one a letter,
/// a digit, `_` or `$`. Any other key is emitted as a string literal.
pub proof fn law_bare_keys_are_identifier_names(k: Seq<char>)
    ensures
        quoted_key(k) == k <==> (k.len() > 0 && (k[0] == '_' || k[0] == '$' || ('a' <= k[0]
            && k[0] <= 'z') || ('A' <= k[0] && k[0] <= 'Z')) && forall|i: int|
            0 <= i < k.len() ==> (#[trigger] k[i] == '_' || k[i] == '$' || ('a' <= k[i] && k[i]
                <= 'z') || ('A' <= k[i] && k[i] <= 'Z') || ('0' <= k[i] && k[i] <= '9'))),
        quoted_key(k) != k ==> quoted_key(k) == js_string_of(k),
{
    lemma_js_body_len(k);
    assert(js_string_of(k).len() == js_body(k).len() + 2);
}

proof fn lemma_js_body_len(s: Seq<char>)
    ensures
        js_body(s).len() >= s.len(),
    decreases s.len(),
{
    if s.len() > 0 {
        lemma_js_body_len(s.drop_last());
    }
}

/// An assignment is emitted with the symbol of its operator between target
/// and value, in parentheses.
pub proof fn law_assignments_emit_their_symbol(l: SpecExpr, r: SpecExpr, scope: Seq<Seq<char>>)
    ensures
        emit_of(SpecExpr::Assign { target: Box::new(l), op: AssignOp::Assign, value: Box::new(r) }, scope)
            == "("@ + emit_of(l, scope) + " "@ + "="@ + " "@ + emit_of(r, scope) + ")"@,
        emit_of(SpecExpr::Assign { target: Box::new(l), op: AssignOp::Add, value: Box::new(r) }, scope)
            == "("@ + emit_of(l, scope) + " "@ + "+="@ + " "@ + emit_of(r, scope) + ")"@,
        emit_of(SpecExpr::Assign { target: Box::new(l), op: AssignOp::Sub, value: Box::new(r) }, scope)
            == "("@ + emit_of(l, scope) + " "@ + "-="@ + " "@ + emit_of(r, scope) + ")"@,
        emit_of(SpecExpr::Assign { target: Box::new(l), op: AssignOp::Mul, value: Box::new(r) }, scope)
            == "("@ + emit_of(l, scope) + " "@ + "*="@ + " "@ + emit_of(r, scope) + ")"@,
        emit_of(SpecExpr::Assign { target: Box::new(l), op: AssignOp::Div, value: Box::new(r) }, scope)
            == "("@ + emit_of(l, scope) + " "@ + "/="@ + " "@ + emit_of(r, scope) + ")"@,
        emit_of(SpecExpr::Assign { target: Box::new(l), op: AssignOp::Mod, value: Box::new(r) }, scope)
            == "("@ + emit_of(l, scope) + " "@ + "%="@ + " "@ + emit_of(r, scope) + ")"@,
{
}

/// Unary, logical, conditional and update operations are emitted with their
/// own symbols, operands in source order, each in parentheses.
pub proof fn law_other_operations_emit_their_symbol(
    x: SpecExpr,
    y: SpecExpr,
    z: SpecExpr,
    scope: Seq<Seq<char>>,
)
    ensures
        emit_of(SpecExpr::Not(Box::new(x)), scope) == "(!"@ + emit_of(x, scope) + ")"@,
        emit_of(SpecExpr::Neg(Box::new(x)), scope) == "(-"@ + emit_of(x, scope) + ")"@,
        emit_of(SpecExpr::Pos(Box::new(x)), scope) == "(+"@ + emit_of(x, scope) + ")"@,
        emit_of(SpecExpr::And(Box::new(x), Box::new(y)), scope) == "("@ + emit_of(x, scope)
            + " && "@ + emit_of(y, scope) + ")"@,
        emit_of(SpecExpr::Or(Box::new(x), Box::new(y)), scope) == "("@ + emit_of(x, scope)
            + " || "@ + emit_of(y, scope) + ")"@,
        emit_of(SpecExpr::Coalesce(Box::new(x), Box::new(y)), scope) == "("@ + emit_of(x, scope)
            + " ?? "@ + emit_of(y, scope) + ")"@,
        emit_of(
            SpecExpr::Ternary {
                cond: Box::new(x),
                then_branch: Box::new(y),
                else_branch: Box::new(z),
            },
            scope,
        ) == "("@ + emit_of(x, scope) + " ? "@ + emit_of(y, scope) + " : "@ + emit_of(z, scope)
            + ")"@,
        emit_of(SpecExpr::UpdatePrefix { target: Box::new(x), increment: true }, scope) == "("@
            + "++"@ + emit_of(x, scope) + ")"@,
        emit_of(SpecExpr::UpdatePrefix { target: Box::new(x), increment: false }, scope) == "("@
            + "--"@ + emit_of(x, scope) + ")"@,
        emit_of(SpecExpr::UpdatePostfix { target: Box::new(x), increment: true }, scope) == "("@
            + emit_of(x, scope) + "++"@ + ")"@,
        emit_of(SpecExpr::UpdatePostfix { target: Box::new(x), increment: false }, scope) == "("@
            + emit_of(x, scope) + "--"@ + ")"@,
{
}

} // verus!
