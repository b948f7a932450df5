use courvux_precompiler::codegen::{compile, emit_ident_read, js_string, quote_key, Mode};
use courvux_precompiler::lexer::{tokenize, Spanned, Token};
use courvux_precompiler::parser::Expr;
use courvux_precompiler::parser::parse;
use courvux_precompiler::{compile_expression, compile_or_error_json, CodegenMode};

fn ok(src: &str) -> String {
    compile_expression(src).expect(&format!("expected `{}` to compile", src))
}

fn err(src: &str) -> (String, usize) {
    let e = compile_expression(src).unwrap_err();
    (e.message, e.pos)
}

// How a number literal reads when rendered through its f64 value.
fn f64_display(lexeme: &str) -> String {
    let n: f64 = lexeme.parse().unwrap();
    if n.is_finite() && n.fract() == 0.0 && n.abs() < 1e15 {
        format!("{}", n as i64)
    } else {
        format!("{}", n)
    }
}

#[test]
fn number_literals_render_like_their_f64_value() {
    for lexeme in [
        "0", "007", "1.0", "1.50", "0.1", ".5", "12.34", "100", "3.14159", "123456789012345",
        "1000000000000000", "0.000001", "0.0001", "00.00", "9007199254740991", "2.5000",
    ] {
        let expected = format!("(($s) => ({}))", f64_display(lexeme));
        assert_eq!(ok(lexeme), expected, "literal {}", lexeme);
    }
}

#[test]
fn number_tokens_in_messages_render_like_f64_debug() {
    for lexeme in [
        "1", "0", "1.5", "0.0001", "0.00001", "10000000000000000", "1234567890123456", "250",
        "0.125", "123000000000000000000",
    ] {
        let v: f64 = lexeme.parse().unwrap();
        let src = format!("a. {}", lexeme);
        let (m, pos) = err(&src);
        assert_eq!(
            m,
            format!("expected property name after `.` (got `Some(Number({:?}))`)", v),
            "literal {}",
            lexeme
        );
        assert_eq!(pos, src.len());
    }
}

#[test]
fn string_tokens_in_messages_render_like_str_debug() {
    for code in 0u32..256 {
        let c = char::from_u32(code).unwrap();
        let s = format!("a{}b", c);
        assert_eq!(Token::String(s.clone()).to_string(), format!("string {:?}", s), "code {}", code);
        assert_eq!(Token::Template(s.clone()).to_string(), format!("template {:?}", s));
    }
    let s = String::from("quote \" back \\ tab \t nul \0 apostrophe '");
    assert_eq!(Token::String(s.clone()).to_string(), format!("string {:?}", s));
    assert_eq!(Token::Ident("x".to_string()).to_string(), "ident x");
    assert_eq!(Token::LParen.to_string(), "LParen");
    assert_eq!(Token::True.to_string(), "true");
    assert_eq!(Token::Number("1.50".to_string()).to_string(), "number 1.5");
}

#[test]
fn ascii_whitespace_matches_char_is_whitespace() {
    for b in 0u8..128 {
        let c = b as char;
        let src = c.to_string();
        let is_space = match tokenize(&src) {
            Ok(tokens) => tokens.is_empty(),
            Err(_) => false,
        };
        assert_eq!(is_space, c.is_whitespace(), "byte {}", b);
    }
}

#[test]
fn tokens_carry_byte_spans() {
    let tokens = tokenize("a  >= 'x'").unwrap();
    let spans: Vec<(usize, usize)> = tokens.iter().map(|t| (t.start, t.end)).collect();
    assert_eq!(spans, vec![(0, 1), (3, 5), (6, 9)]);
    assert_eq!(tokens[1].token, Token::GtEq);
    assert_eq!(tokens[2].token, Token::String("x".to_string()));
}

#[test]
fn tokenizer_longest_match() {
    let kinds: Vec<Token> = tokenize("a === b !== c ... ?. ?? => ++ --")
        .unwrap()
        .into_iter()
        .map(|t| t.token)
        .collect();
    assert_eq!(
        kinds,
        vec![
            Token::Ident("a".to_string()),
            Token::EqEq,
            Token::Ident("b".to_string()),
            Token::BangEqEq,
            Token::Ident("c".to_string()),
            Token::Spread,
            Token::QuestionDot,
            Token::QuestionQuestion,
            Token::Arrow,
            Token::PlusPlus,
            Token::MinusMinus,
        ]
    );
}

#[test]
fn string_escapes_are_resolved_and_reemitted() {
    assert_eq!(ok(r"'a\nb'"), r"(($s) => ('a\nb'))");
    assert_eq!(ok(r#""it's""#), r"(($s) => ('it\'s'))");
    assert_eq!(ok(r"'\q'"), r"(($s) => ('\\q'))");
    assert_eq!(ok("'tab\there'"), r"(($s) => ('tab\there'))");
    assert_eq!(ok("`hi ${x}`"), "(($s) => (`hi ${x}`))");
}

#[test]
fn error_messages_and_positions() {
    assert_eq!(err("count >"), ("unexpected end of expression".to_string(), 7));
    assert_eq!(err("user..name"), ("expected property name after `.` (got `Some(Dot)`)".to_string(), 6));
    assert_eq!(err("function () {}"), ("unexpected trailing token `LBrace`".to_string(), 12));
    assert_eq!(err("class X {}"), ("unexpected trailing token `ident X`".to_string(), 6));
    assert_eq!(err("/regex/"), ("unexpected token `Slash` in expression".to_string(), 0));
    assert_eq!(err("a ? b"), ("expected `Colon` in ternary (got `<eof>`)".to_string(), 5));
    assert_eq!(err("'abc"), ("lex error: unterminated string starting with '".to_string(), 0));
    assert_eq!(err("`abc"), ("lex error: unterminated template literal".to_string(), 0));
    assert_eq!(err("a # b"), ("lex error: unexpected character `#`".to_string(), 2));
    assert_eq!(err("1 = 2"), ("left-hand side of assignment is not assignable".to_string(), 5));
    assert_eq!(err("a.1"), ("unexpected trailing token `number 0.1`".to_string(), 1));
    assert_eq!(err("a?.[0]"), ("expected property after `?.` (got `Some(LBracket)`)".to_string(), 3));
    assert_eq!(
        err("{ 1: 2 }"),
        ("expected property name in object literal (got `Some(Number(1.0))`)".to_string(), 3)
    );
    assert_eq!(
        err("()"),
        ("empty `()` is only valid as the parameter list of an arrow function".to_string(), 2)
    );
    assert_eq!(err("x++ ++"), ("++ requires an assignable target".to_string(), 6));
    assert_eq!(err("++1"), ("++ requires an assignable target".to_string(), 3));
    assert_eq!(err("--1"), ("-- requires an assignable target".to_string(), 3));
    assert_eq!(err("f(a b)"), ("expected `Comma` between call arguments (got `ident b`)".to_string(), 4));
    assert_eq!(err("[1 2]"), ("expected `Comma` between array elements (got `number 2`)".to_string(), 3));
    assert_eq!(err("(a"), ("expected `RParen` after parenthesized expression (got `<eof>`)".to_string(), 2));
    assert_eq!(err("a[1"), ("expected `RBracket` after computed index (got `<eof>`)".to_string(), 3));
    assert_eq!(err("{ [k] 1 }"), ("expected `Colon` after computed key (got `number 1`)".to_string(), 6));
    assert_eq!(err("{ a b }"), ("expected `Comma` between object properties (got `ident b`)".to_string(), 4));
    assert_eq!(err("a 'x'"), ("unexpected trailing token `string \"x\"`".to_string(), 2));
    assert_eq!(err(""), ("unexpected end of expression".to_string(), 0));
    assert_eq!(err("é"), ("lex error: unexpected character `Ã`".to_string(), 0));
}

#[test]
fn operators_associate_and_nest() {
    assert_eq!(ok("a - b - c"), "(($s) => ((($s.a - $s.b) - $s.c)))");
    assert_eq!(ok("a = b = 1"), "(($s) => (($s.a = ($s.b = 1))))");
    assert_eq!(ok("a + b * c"), "(($s) => (($s.a + ($s.b * $s.c))))");
    assert_eq!(ok("a || b && c ?? d"), "(($s) => ((($s.a || ($s.b && $s.c)) ?? $s.d)))");
    assert_eq!(ok("-a % 2 <= +b"), "(($s) => ((((-$s.a) % 2) <= (+$s.b))))");
    assert_eq!(ok("a < b === c >= d"), "(($s) => ((($s.a < $s.b) === ($s.c >= $s.d))))");
    assert_eq!(ok("x -= 1"), "(($s) => (($s.x -= 1)))");
    assert_eq!(ok("x *= 2, y /= 3; z %= 4"), "(($s) => ((($s.x *= 2), ($s.y /= 3), ($s.z %= 4))))");
    assert_eq!(ok("n--"), "(($s) => (($s.n--)))");
    assert_eq!(ok("++a[i]"), "(($s) => ((++$s.a[$s.i])))");
    assert_eq!(ok("(a + b) * c"), "(($s) => ((($s.a + $s.b) * $s.c)))");
}

#[test]
fn arrow_functions_scope_their_parameters() {
    assert_eq!(ok("items.filter(t => !t.done)"), "(($s) => ($s.items.filter((t => (!t.done)))))");
    assert_eq!(ok("(a, b) => a + b + c"), "(($s) => (((a, b) => ((a + b) + $s.c))))");
    assert_eq!(ok("() => x"), "(($s) => ((() => $s.x)))");
    assert_eq!(ok("(t) => t"), "(($s) => ((t => t)))");
    assert_eq!(ok("xs.map(x => ({ x, y }))"), "(($s) => ($s.xs.map((x => ({ x: x, y: $s.y })))))");
}

#[test]
fn optional_chains_and_calls() {
    assert_eq!(ok("fn?.(1)"), "(($s) => (($s.fn?.(1))))");
    assert_eq!(ok("next()?.(1)"), "(($s) => (($s.next()?.(1))))");
    assert_eq!(ok("a?.b?.(x).c"), "(($s) => (($s.a?.b?.($s.x).c)))");
    assert_eq!(ok("a?.b.c"), "(($s) => (($s.a?.b.c)))");
    assert_eq!(ok("f(1, 2,)"), "(($s) => ($s.f(1, 2)))");
}

#[test]
fn object_literal_keys() {
    assert_eq!(
        ok("{ ...a, [k]: 1, 'my-key': 2, \"b\": 3, }"),
        "(($s) => (({ ...$s.a, [$s.k]: 1, 'my-key': 2, b: 3 })))"
    );
    assert_eq!(ok("{}"), "(($s) => (({  })))");
    assert_eq!(ok("[]"), "(($s) => ([]))");
    assert_eq!(ok("[1,]"), "(($s) => ([1]))");
}

#[test]
fn sequences_and_trailing_separators() {
    assert_eq!(ok("a = 1; b = 2;"), "(($s) => ((($s.a = 1), ($s.b = 2))))");
    assert_eq!(ok("a;"), "(($s) => ($s.a))");
    assert_eq!(ok("a,"), "(($s) => ($s.a))");
}

#[test]
fn write_mode_shape() {
    let ast = parse("a = 1").unwrap();
    assert_eq!(compile(&ast, Mode::Write), "(($s, __v) => { ($s.a = 1) })");
    assert_eq!(compile(&ast, CodegenMode::Read), "(($s) => (($s.a = 1)))");
}

#[test]
fn helpers_in_isolation() {
    assert_eq!(emit_ident_read("x", &["x".to_string()]), "x");
    assert_eq!(emit_ident_read("y", &["x".to_string()]), "$s.y");
    assert_eq!(js_string("a'b\\c\u{1}\u{8}\u{c}\r"), "'a\\'b\\\\c\\u0001\\b\\f\\r'");
    assert_eq!(quote_key("ok_1$"), "ok_1$");
    assert_eq!(quote_key("1st"), "'1st'");
    assert_eq!(quote_key(""), "''");
    assert_eq!(quote_key("a-b"), "'a-b'");
}

#[test]
fn wasm_entry_reports_errors_as_tagged_json() {
    assert_eq!(compile_or_error_json("a"), "(($s) => ($s.a))");
    assert_eq!(
        compile_or_error_json("count >"),
        "{\"__compileError\":true,\"error\":\"unexpected end of expression\",\"pos\":7}"
    );
    assert_eq!(
        compile_or_error_json("a 'x'"),
        "{\"__compileError\":true,\"error\":\"unexpected trailing token `string \\\"x\\\"`\",\"pos\":2}"
    );
    assert_eq!(
        compile_or_error_json("a '\\\\'"),
        "{\"__compileError\":true,\"error\":\"unexpected trailing token `string \\\"\\\\\\\\\\\"`\",\"pos\":2}"
    );
}

#[test]
fn control_characters_are_escaped_in_error_records() {
    assert_eq!(
        compile_or_error_json("\u{1}"),
        "{\"__compileError\":true,\"error\":\"lex error: unexpected character `\\u0001`\",\"pos\":0}"
    );
}

#[test]
fn non_ascii_outside_literals_fails_cleanly() {
    let e = tokenize("€").unwrap_err();
    assert_eq!((e.message.as_str(), e.pos), ("unexpected character `\u{e2}`", 0));
    let e = tokenize("!é").unwrap_err();
    assert_eq!((e.message.as_str(), e.pos), ("unexpected character `\u{c3}`", 1));
    assert_eq!(tokenize("a + !!é").unwrap_err().pos, 6);
    assert_eq!(err("x €"), ("lex error: unexpected character `\u{e2}`".to_string(), 2));
    assert!(tokenize("'€ inside a string is fine'").is_ok());
}

#[test]
fn string_and_template_contents_are_the_source_characters() {
    assert_eq!(
        tokenize("'é'").unwrap(),
        vec![Spanned { token: Token::String("é".to_string()), start: 0, end: 4 }]
    );
    assert_eq!(
        tokenize("`€ ${x}`").unwrap(),
        vec![Spanned { token: Token::Template("€ ${x}".to_string()), start: 0, end: 10 }]
    );
    assert_eq!(ok("'€ and é\\n'"), "(($s) => ('€ and é\\n'))");
    assert_eq!(ok("\"日本\""), "(($s) => ('日本'))");
    assert_eq!(ok("'\\é'"), "(($s) => ('\\\\é'))");
}

#[test]
fn parenthesized_sequences() {
    assert_eq!(ok("(a, b)"), "(($s) => (($s.a, $s.b)))");
    assert_eq!(ok("(a; b)"), ok("(a, b)"));
    assert_eq!(ok("(a)"), "(($s) => ($s.a))");
    assert_eq!(
        parse("(a, b)").unwrap(),
        Expr::Sequence(vec![Expr::Ident("a".to_string()), Expr::Ident("b".to_string())])
    );
    assert_eq!(err("(a, b"), ("expected `RParen` after parenthesized expression (got `<eof>`)".to_string(), 5));
}

#[test]
fn string_keys_need_a_value() {
    assert_eq!(
        err("{ 'a-b' }"),
        ("expected `Colon` after string key in object literal (got `RBrace`)".to_string(), 8)
    );
    assert_eq!(ok("{ 'a-b': 1 }"), "(($s) => (({ 'a-b': 1 })))");
}

#[test]
fn optional_chains_short_circuit_as_one_chain() {
    assert_eq!(ok("user?.profile.name"), "(($s) => (($s.user?.profile.name)))");
    assert_eq!(ok("a?.b[0]"), "(($s) => (($s.a?.b[0])))");
    assert_eq!(ok("a?.b()"), "(($s) => (($s.a?.b())))");
    assert_eq!(ok("a.b?.c.d"), "(($s) => (($s.a.b?.c.d)))");
    assert_eq!(ok("a?.b + c.d"), "(($s) => ((($s.a?.b) + $s.c.d)))");
}

#[test]
fn expressions_clone_to_equal_trees() {
    let e = parse("f(a, { k: [1, x => x] }) ? b?.c : -d").unwrap();
    assert_eq!(e.clone(), e);
}

#[test]
fn await_and_yield_are_rejected() {
    assert_eq!(err("await"), ("lex error: unsupported keyword `await`".to_string(), 0));
    assert_eq!(err("a = yield"), ("lex error: unsupported keyword `yield`".to_string(), 4));
    assert_eq!(err("await(x)").1, 0);
    assert!(compile_expression("async () => 1").is_err());
    assert_eq!(ok("awaited + yielding"), "(($s) => (($s.awaited + $s.yielding)))");
}

#[test]
fn non_ascii_debug_rendering_follows_std() {
    for s in ["a\u{200b}b", "e\u{301}", "\u{301}x", "日本", "é\u{2028}", "\u{feff}", "z\u{10ffff}"] {
        assert_eq!(Token::String(s.to_string()).to_string(), format!("string {:?}", s), "{:?}", s);
    }
}

#[test]
fn lone_continuation_like_whitespace_fails() {
    assert_eq!(err("\u{85}").1, 0);
    assert_eq!(err("a\u{a0}b"), ("lex error: unexpected character `\u{c2}`".to_string(), 1));
}
