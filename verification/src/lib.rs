//! Build-time compiler from Courvux template expressions to JavaScript
//! arrow-function source.
//!
//! `compile_expression(src)` turns an expression such as
//! `count > 0 ? 'on' : 'off'` into `(($s) => ((($s.count > 0) ? 'on' : 'off')))`,
//! where `$s` is the runtime state proxy, or reports why it cannot.
pub mod codegen;
pub mod emit_laws;
mod expr_clone;
pub mod lexer;
pub mod parse_laws;
pub mod parser;
pub mod text;

pub use codegen::Mode as CodegenMode;
pub use parser::Expr;

use crate::codegen::{compile, compile_of, emit_of, Mode};
use crate::parse_laws::law_parse_results;
use crate::parser::{parse, parse_source, ParseError};
use crate::emit_laws::{lemma_hex_char_value, unicode_escape_value};
use crate::text::{hex_char, hex_digit_of, nat_decimal, push_char, push_decimal};
use vstd::prelude::*;
use vstd::string::StringSliceAdditionalSpecFns;

verus! {

/// Why an expression could not be compiled: a message and the byte offset in
/// the source it refers to.
#[derive(Debug)]
pub struct CompileError {
    pub message: String,
    pub pos: usize,
}

impl From<ParseError> for CompileError {
    fn from(e: ParseError) -> (r: Self) {
        CompileError { message: e.message, pos: e.pos }
    }
}

impl vstd::std_specs::convert::FromSpecImpl<ParseError> for CompileError {
    open spec fn obeys_from_spec() -> bool {
        true
    }

    open spec fn from_spec(e: ParseError) -> Self {
        CompileError { message: e.message, pos: e.pos }
    }
}

/// What compiling the source bytes `b` gives: the function source, or the
/// message and byte offset of the failure.
pub open spec fn compile_source(b: Seq<u8>) -> Result<Seq<char>, (Seq<char>, int)> {
    match parse_source(b) {
        Ok(e) => Ok(compile_of(e, Mode::Read)),
        Err(x) => Err(x),
    }
}

/// Compiles a single template expression to a JavaScript arrow function
/// source of the shape `(($s) => (<expr>))`, where `$s` is the runtime state
/// proxy.
pub fn compile_expression(src: &str) -> (r: Result<String, CompileError>)
    ensures
        match compile_source(src.spec_bytes()) {
            Ok(js) => r matches Ok(x) && x@ == js,
            Err((m, p)) => r matches Err(x) && x.message@ == m && x.pos == p,
        },
{
    match parse(src) {
        Ok(ast) => Ok(compile(&ast, Mode::Read)),
        Err(e) => Err(CompileError::from(e)),
    }
}

/// Compiling a source either gives a function of the shape `(($s) => (<expr>))`,
/// whose body is the generated source of the parsed expression, or fails
/// with a non-empty message and a byte offset within the source.
pub proof fn law_compile_results(b: Seq<u8>)
    ensures
        match compile_source(b) {
            Ok(js) => parse_source(b) matches Ok(e) && js == "(($s) => ("@ + emit_of(e, seq![])
                + "))"@,
            Err((m, p)) => parse_source(b) is Err && 0 <= p <= b.len() && m.len() > 0,
        },
{
    law_parse_results(b);
}

/// How a message is escaped inside a double-quoted JSON string here:
/// backslashes are doubled, double quotes get a backslash, and control
/// characters are written as `\u00XX`.
pub open spec fn json_escape_char(c: char) -> Seq<char> {
    if c == '\\' {
        seq!['\\', '\\']
    } else if c == '"' {
        seq!['\\', '"']
    } else if (c as int) < 32 {
        seq!['\\', 'u', '0', '0', hex_char((c as int) / 16), hex_char((c as int) % 16)]
    } else {
        seq![c]
    }
}

pub open spec fn json_escape(s: Seq<char>) -> Seq<char>
    decreases s.len(),
{
    if s.len() == 0 {
        seq![]
    } else {
        json_escape(s.drop_last()) + json_escape_char(s.last())
    }
}

/// The tagged error record reported across the WebAssembly boundary.
pub open spec fn error_record(message: Seq<char>, pos: int) -> Seq<char> {
    "{\"__compileError\":true,\"error\":\""@ + json_escape(message) + "\",\"pos\":"@
        + nat_decimal(pos as nat) + "}"@
}

/// What the WebAssembly entry point returns for the source bytes `b`: the
/// function source, or the error record.
pub open spec fn compile_or_error_json_of(b: Seq<u8>) -> Seq<char> {
    match compile_source(b) {
        Ok(js) => js,
        Err((m, p)) => error_record(m, p),
    }
}

/// The text between the quotes of a JSON string, read back: `None` where it
/// holds a raw double quote or control character, or an escape not read here
/// (`\uXXXX` outside the Basic Multilingual Plane's scalar values).
pub open spec fn json_unescape(t: Seq<char>) -> Option<Seq<char>>
    decreases t.len(),
{
    if t.len() == 0 {
        Some(seq![])
    } else if t[0] == '"' || (t[0] as int) < 32 {
        None
    } else if t[0] == '\\' {
        if t.len() >= 2 && (t[1] == '\\' || t[1] == '"' || t[1] == '/') {
            match json_unescape(t.skip(2)) {
                Some(r) => Some(seq![t[1]] + r),
                None => None,
            }
        } else if t.len() >= 2 && (t[1] == 'n' || t[1] == 'r' || t[1] == 't' || t[1] == 'b'
            || t[1] == 'f') {
            match json_unescape(t.skip(2)) {
                Some(r) => Some(
                    seq![
                        if t[1] == 'n' {
                            '\n'
                        } else if t[1] == 'r' {
                            '\r'
                        } else if t[1] == 't' {
                            '\t'
                        } else if t[1] == 'b' {
                            '\u{8}'
                        } else {
                            '\u{c}'
                        },
                    ] + r,
                ),
                None => None,
            }
        } else if t.len() >= 6 && t[1] == 'u' {
            match unicode_escape_value(t) {
                Some(v) => if v < 0xD800 || 0xE000 <= v {
                    match json_unescape(t.skip(6)) {
                        Some(r) => Some(seq![v as char] + r),
                        None => None,
                    }
                } else {
                    None
                },
                None => None,
            }
        } else {
            None
        }
    } else {
        match json_unescape(t.skip(1)) {
            Some(r) => Some(seq![t[0]] + r),
            None => None,
        }
    }
}

proof fn lemma_json_escape_concat(a: Seq<char>, b: Seq<char>)
    ensures
        json_escape(a + b) == json_escape(a) + json_escape(b),
    decreases b.len(),
{
    if b.len() == 0 {
        assert(a + b == a);
        assert(json_escape(a) + json_escape(b) == json_escape(a));
    } else {
        lemma_json_escape_concat(a, b.drop_last());
        assert((a + b).drop_last() == a + b.drop_last());
        assert((a + b).last() == b.last());
    }
}

proof fn lemma_char_code_nonnegative(c: char)
    ensures
        0 <= c as int,
{
}

/// Every message is written into the error record so that a JSON reader
/// gets the message back.
pub proof fn law_error_message_reads_back(m: Seq<char>)
    ensures
        json_unescape(json_escape(m)) == Some(m),
    decreases m.len(),
{
    if m.len() > 0 {
        let head = seq![m[0]];
        let rest = m.skip(1);
        assert(m == head + rest);
        lemma_json_escape_concat(head, rest);
        assert(head.drop_last() == Seq::<char>::empty());
        assert(json_escape(head.drop_last()) == Seq::<char>::empty());
        assert(Seq::<char>::empty() + json_escape_char(m[0]) == json_escape_char(m[0]));
        law_error_message_reads_back(rest);
        let w = json_escape(m);
        assert(w == json_escape_char(m[0]) + json_escape(rest));
        if m[0] == '\\' || m[0] == '"' {
            assert(w.skip(2) == json_escape(rest));
        } else if (m[0] as int) < 32 {
            let c = m[0];
            let v = c as int;
            lemma_char_code_nonnegative(c);
            lemma_hex_char_value(v / 16);
            lemma_hex_char_value(v % 16);
            assert(w[2] == '0' && w[3] == '0');
            assert(unicode_escape_value(w) == Some(v));
            assert(w.skip(6) == json_escape(rest));
            assert((v as char) == m[0]);
        } else {
            assert(w.skip(1) == json_escape(rest));
        }
    }
}

/// A host tells the two outcomes apart by the prefix
/// `{"__compileError":true,`: the error record always starts with it and a
/// compiled function never does.
pub proof fn law_error_record_is_recognisable(b: Seq<u8>)
    ensures
        compile_source(b) is Err <==> compile_or_error_json_of(b).len() >= 23
            && compile_or_error_json_of(b).take(23) == "{\"__compileError\":true,"@,
{
    reveal_strlit("{\"__compileError\":true,");
    reveal_strlit("{\"__compileError\":true,\"error\":\"");
    reveal_strlit("(($s) => (");
    match compile_source(b) {
        Ok(js) => {
            law_compile_results(b);
            assert(js[0] == '(');
            if js.len() >= 23 {
                assert(js.take(23)[0] != "{\"__compileError\":true,"@[0]);
            }
        },
        Err((m, p)) => {
            let r = compile_or_error_json_of(b);
            let head = "{\"__compileError\":true,\"error\":\""@;
            let prefix = "{\"__compileError\":true,"@;
            let rest = json_escape(m) + "\",\"pos\":"@ + nat_decimal(p as nat) + "}"@;
            assert(r == head + rest);
            assert(head.take(23) =~= prefix);
            assert(r.take(23) =~= head.take(23));
        },
    }
}

fn push_json_char(out: &mut String, c: char)
    ensures
        final(out)@ == old(out)@ + json_escape_char(c),
{
    if c == '\\' {
        push_char(out, '\\');
        push_char(out, '\\');
    } else if c == '"' {
        push_char(out, '\\');
        push_char(out, '"');
    } else if (c as u32) < 32 {
        let v: u32 = c as u32;
        push_char(out, '\\');
        push_char(out, 'u');
        push_char(out, '0');
        push_char(out, '0');
        push_char(out, hex_digit_of(v / 16));
        push_char(out, hex_digit_of(v % 16));
    } else {
        push_char(out, c);
    }
}

/// The text the WebAssembly entry point hands to its host: the compiled
/// source on success, or `{"__compileError":true,"error":"<message>","pos":<offset>}`
/// on failure (no exception crosses the boundary).
pub fn compile_or_error_json(src: &str) -> (r: String)
    ensures
        r@ == compile_or_error_json_of(src.spec_bytes()),
{
    match compile_expression(src) {
        Ok(js) => js,
        Err(err) => {
            let cs = crate::text::chars_of(err.message.as_str());
            let mut out = String::from_str("{\"__compileError\":true,\"error\":\"");
            let ghost start = out@;
            let mut i: usize = 0;
            while i < cs.len()
                invariant
                    i <= cs@.len(),
                    cs@ == err.message@,
                    out@ == start + json_escape(cs@.take(i as int)),
                decreases cs@.len() - i,
            {
                let c = cs[i];
                push_json_char(&mut out, c);
                proof {
                    let t = cs@.take(i + 1);
                    assert(t.drop_last() == cs@.take(i as int));
                    assert(t.last() == cs@[i as int]);
                }
                i = i + 1;
            }
            assert(cs@.take(cs@.len() as int) == cs@);
            out.append("\",\"pos\":");
            push_decimal(&mut out, err.pos);
            out.append("}");
            out
        },
    }
}

} // verus!
