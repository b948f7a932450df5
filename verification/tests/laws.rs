use courvux_precompiler::codegen::{js_string, quote_key};
use courvux_precompiler::lexer::{tokenize, Token};
use courvux_precompiler::{compile_expression, compile_or_error_json};

const SAMPLES: [&str; 28] = [
    "count + 1",
    "a == b",
    "a != b",
    "x => x + y",
    "{ active: isOn, 'my-key': 2, [k]: v }",
    "save(id), close()",
    "user?.name ?? 'anon'",
    "n++",
    "--n",
    "count >",
    "user..name",
    "1 = 2",
    "++1",
    "x++ ++",
    "a ? b",
    "'abc",
    "`abc",
    "a # b",
    "",
    "   ",
    "a 'x'",
    "f(a b)",
    "\u{1}",
    "{ 1: 2 }",
    "€",
    "a\u{7}b",
    "{ 'k' }",
    "(a, b) + c?.d.e",
];

// Reads the text between the quotes of a single-quoted JavaScript string.
fn js_unquote(lit: &str) -> String {
    let inner: Vec<char> = lit[1..lit.len() - 1].chars().collect();
    let mut out = String::new();
    let mut i = 0;
    while i < inner.len() {
        let c = inner[i];
        assert!(c != '\'' && c != '\n' && c != '\r', "raw {:?} in {}", c, lit);
        if c == '\\' {
            let e = inner[i + 1];
            match e {
                'n' => out.push('\n'),
                'r' => out.push('\r'),
                't' => out.push('\t'),
                'b' => out.push('\u{8}'),
                'f' => out.push('\u{c}'),
                '\\' | '\'' | '"' => out.push(e),
                'u' => {
                    let hex: String = inner[i + 2..i + 6].iter().collect();
                    out.push(char::from_u32(u32::from_str_radix(&hex, 16).unwrap()).unwrap());
                    i += 4;
                }
                other => panic!("escape {:?} in {}", other, lit),
            }
            i += 2;
        } else {
            out.push(c);
            i += 1;
        }
    }
    out
}

// Reads the `error` field of an error record.
fn json_error_field(record: &str) -> String {
    let start = record.find("\"error\":\"").unwrap() + 9;
    let mut out = String::new();
    let mut chars = record[start..].chars();
    loop {
        match chars.next().unwrap() {
            '"' => return out,
            '\\' => match chars.next().unwrap() {
                'u' => {
                    let hex: String = (0..4).map(|_| chars.next().unwrap()).collect();
                    out.push(char::from_u32(u32::from_str_radix(&hex, 16).unwrap()).unwrap());
                }
                c => out.push(c),
            },
            c => out.push(c),
        }
    }
}

#[test]
fn token_spans_are_ordered_and_inside_the_source() {
    for src in ["ab  +  'c d'", "x=>{a:[1,2]}", "a ?. b ?? c === d", "  `t` !== null  "] {
        let ts = tokenize(src).unwrap();
        let mut last_end = 0;
        for t in &ts {
            assert!(last_end <= t.start && t.start < t.end && t.end <= src.len(), "{}", src);
            assert!(src.as_bytes()[last_end..t.start].iter().all(|b| b.is_ascii_whitespace()));
            if let Token::Ident(name) = &t.token {
                assert_eq!(name.as_str(), &src[t.start..t.end]);
            }
            last_end = t.end;
        }
        assert!(src.as_bytes()[last_end..].iter().all(|b| b.is_ascii_whitespace()));
    }
    assert_eq!(tokenize("ab # c").unwrap_err().pos, 3);
}

#[test]
fn string_literals_read_back_as_their_value() {
    let mut all = String::new();
    for code in 0u32..160 {
        all.push(char::from_u32(code).unwrap());
    }
    for s in ["", "plain", "it's", "back\\slash", "line\nbreak\r\t", &all, "é€"] {
        assert_eq!(js_unquote(&js_string(s)), s);
    }
}

#[test]
fn object_keys_stand_for_themselves() {
    for k in ["a-b", "1st", "", "with space", "quo'te"] {
        let q = quote_key(k);
        assert!(q.starts_with('\''), "{}", k);
        assert_eq!(js_unquote(&q), k);
    }
    for k in ["ok", "_x", "$y1"] {
        assert_eq!(quote_key(k), k);
    }
}

#[test]
fn loose_equality_compiles_as_strict() {
    assert_eq!(compile_expression("a == b").unwrap(), compile_expression("a === b").unwrap());
    assert_eq!(compile_expression("a != b").unwrap(), compile_expression("a !== b").unwrap());
}

#[test]
fn compile_results_have_the_promised_shape() {
    for src in SAMPLES {
        match compile_expression(src) {
            Ok(js) => assert!(js.starts_with("(($s) => (") && js.ends_with("))"), "{}", src),
            Err(e) => assert!(e.pos <= src.len() && !e.message.is_empty(), "{}", src),
        }
    }
}

#[test]
fn error_records_are_recognisable_and_read_back() {
    for src in SAMPLES {
        let out = compile_or_error_json(src);
        match compile_expression(src) {
            Ok(js) => {
                assert!(!out.starts_with("{\"__compileError\":true,"));
                assert_eq!(out, js);
            }
            Err(e) => {
                assert!(out.starts_with("{\"__compileError\":true,"), "{}", src);
                assert!(out.ends_with(&format!(",\"pos\":{}}}", e.pos)), "{}", src);
                assert!(out.chars().all(|c| (c as u32) >= 32), "{}", src);
                assert_eq!(json_error_field(&out), e.message, "{}", src);
            }
        }
    }
}

#[test]
fn non_assignable_targets_are_rejected() {
    for src in ["1 = 2", "a + b = 1", "f() += 1", "++1", "(a)++ ++", "--'s'"] {
        assert!(compile_expression(src).is_err(), "{}", src);
    }
    for src in ["a = 1", "a.b = 1", "a[0] += 1", "++a.b", "x--"] {
        assert!(compile_expression(src).is_ok(), "{}", src);
    }
}
