use ink_rs::{
    canonicalize_json, compile_ink, is_parsable_source, AstStmt, CompileOptions, CompilerError,
    DiagnosticSeverity,
};
use serde_json::Value;

#[test]
fn compile_plain_text_and_end_divert() {
    let source = "Hello world\n-> END\n";
    let out = compile_ink(source, CompileOptions::default()).expect("compile should succeed");

    assert!(out.diagnostics.is_empty());

    let json: Value = serde_json::from_str(&out.story_json).expect("json should parse");
    let root = json["root"].as_array().expect("root should be array");

    assert_eq!(root[0], Value::String("^Hello world".to_string()));
    assert_eq!(root[1], Value::String("\n".to_string()));
    assert_eq!(root[2], Value::String("end".to_string()));
}

#[test]
fn compile_knot_block_into_named_container() {
    let source = "Root line\n== start ==\nInside knot\n-> DONE\n";
    let out = compile_ink(source, CompileOptions::default()).expect("compile should succeed");

    let json: Value = serde_json::from_str(&out.story_json).expect("json should parse");
    let root = json["root"].as_array().expect("root should be array");
    let root_tail = root
        .last()
        .and_then(Value::as_object)
        .expect("root tail should be named map");

    assert!(root_tail.contains_key("start"));

    let knot_container = root_tail["start"]
        .as_array()
        .expect("knot container should be array");
    assert_eq!(knot_container[0], Value::String("^Inside knot".to_string()));
    assert_eq!(knot_container[1], Value::String("\n".to_string()));
    assert_eq!(knot_container[2], Value::String("done".to_string()));
}

#[test]
fn strict_mode_fails_on_unimplemented_syntax() {
    let source = "* a choice\n";
    let err = compile_ink(
        source,
        CompileOptions {
            strict: true,
            source_name: None,
        },
    )
    .expect_err("strict mode should fail");

    assert!(matches!(err, CompilerError::StrictMode { .. }));
}

#[test]
fn canonicalize_json_sorts_object_keys_recursively() {
    let raw = r#"{
  "b": {
    "z": 1,
    "a": 2
  },
  "a": [
    {
      "d": 4,
      "c": 3
    }
  ]
}"#;

    let canonical = canonicalize_json(raw).expect("canonicalization should succeed");

    let expected = r#"{
  "a": [
    {
      "c": 3,
      "d": 4
    }
  ],
  "b": {
    "a": 2,
    "z": 1
  }
}"#;

    assert_eq!(canonical, expected);
}

#[test]
fn empty_source_gives_done_and_null() {
    let out = compile_ink("", CompileOptions::default()).expect("compile should succeed");
    let expected = "{\n  \"inkVersion\": 21,\n  \"root\": [\n    \"done\",\n    null\n  ]\n}";
    assert_eq!(out.story_json, expected);
    assert!(out.ast.root.is_empty());
    assert!(out.ast.knots.is_empty());
}

#[test]
fn empty_knot_name_is_a_parse_error() {
    let err = compile_ink("== ==\nText\n", CompileOptions::default()).expect_err("must fail");
    match err {
        CompilerError::Parse { line, message } => {
            assert_eq!(line, 1);
            assert_eq!(message, "knot name cannot be empty");
        }
        other => panic!("unexpected error {:?}", other),
    }
}

#[test]
fn empty_divert_target_is_a_parse_error() {
    let err = compile_ink("Intro\n->   \n", CompileOptions::default()).expect_err("must fail");
    match err {
        CompilerError::Parse { line, message } => {
            assert_eq!(line, 2);
            assert_eq!(message, "empty divert target is not allowed");
        }
        other => panic!("unexpected error {:?}", other),
    }
}

#[test]
fn parse_error_wins_over_strict_mode() {
    let err = compile_ink(
        "* choice\n->\n",
        CompileOptions {
            strict: true,
            source_name: None,
        },
    )
    .expect_err("must fail");
    assert!(matches!(err, CompilerError::Parse { line: 2, .. }));
}

#[test]
fn tunnel_onwards_is_unsupported_with_warning() {
    let out = compile_ink("->-> next\n", CompileOptions::default()).expect("compile should succeed");
    assert_eq!(out.diagnostics.len(), 1);
    let d = &out.diagnostics[0];
    assert_eq!(d.severity, DiagnosticSeverity::Warning);
    assert_eq!(d.code, "UNIMPLEMENTED_SYNTAX");
    assert_eq!(
        d.message,
        "tunnel onwards (`->->`) is not implemented in rust compiler phase-2 scaffold"
    );
    assert_eq!(d.line, 1);
    assert_eq!(d.column, 1);
    assert!(d.is_unimplemented());
    assert_eq!(
        out.ast.root,
        vec![AstStmt::Unsupported { raw: "->-> next".to_string(), line: 1 }]
    );
    let json: Value = serde_json::from_str(&out.story_json).unwrap();
    assert_eq!(json["root"], serde_json::from_str::<Value>("[\"done\", null]").unwrap());
}

#[test]
fn unsupported_syntax_warning_quotes_the_line() {
    let out = compile_ink("  VAR x = 1  \n", CompileOptions::default()).expect("compile");
    assert_eq!(out.diagnostics.len(), 1);
    assert_eq!(
        out.diagnostics[0].message,
        "unsupported ink syntax in phase-2 scaffold: `VAR x = 1`"
    );
    assert_eq!(
        out.ast.root,
        vec![AstStmt::Unsupported { raw: "VAR x = 1".to_string(), line: 1 }]
    );
}

#[test]
fn strict_mode_counts_every_unimplemented_line() {
    let err = compile_ink(
        "* a\nplain\n+ b\n~ x = 1\n",
        CompileOptions {
            strict: true,
            source_name: None,
        },
    )
    .expect_err("must fail");
    assert!(matches!(err, CompilerError::StrictMode { count: 3 }));
}

#[test]
fn divert_targets_end_and_done_ignore_case() {
    let out = compile_ink("-> End\n-> done\n-> -> far\n-> knot\n", CompileOptions::default())
        .expect("compile");
    let json: Value = serde_json::from_str(&out.story_json).unwrap();
    let root = json["root"].as_array().unwrap();
    assert_eq!(root[0], Value::String("end".to_string()));
    assert_eq!(root[1], Value::String("done".to_string()));
    assert_eq!(root[2]["->"], Value::String("-> far".to_string()));
    assert_eq!(root[3]["->"], Value::String("knot".to_string()));
    assert_eq!(root[4], Value::String("done".to_string()));
    assert_eq!(root[5], Value::Null);
    assert_eq!(root.len(), 6);
}

#[test]
fn line_comment_is_plain_text() {
    let out = compile_ink("// note\n", CompileOptions::default()).expect("compile");
    assert_eq!(
        out.ast.root,
        vec![AstStmt::Text { text: "// note".to_string(), line: 1 }]
    );
}

#[test]
fn later_knot_of_same_name_replaces_earlier() {
    let out = compile_ink("== a ==\nX\n=== a ===\nY\n", CompileOptions::default()).expect("compile");
    assert_eq!(out.ast.knots.len(), 2);
    assert_eq!(out.ast.knots[1].line, 3);
    let json: Value = serde_json::from_str(&out.story_json).unwrap();
    let named = json["root"][1].as_object().unwrap();
    assert_eq!(named.len(), 1);
    assert_eq!(
        named["a"],
        serde_json::from_str::<Value>("[\"^Y\", \"\\n\", \"done\", null]").unwrap()
    );
}

#[test]
fn crlf_line_endings_are_trimmed() {
    let out = compile_ink("Hello\r\n\r\n-> END\r\n", CompileOptions::default()).expect("compile");
    assert_eq!(
        out.ast.root,
        vec![
            AstStmt::Text { text: "Hello".to_string(), line: 1 },
            AstStmt::Divert { target: "END".to_string(), line: 3 },
        ]
    );
}

#[test]
fn lines_of_equals_only_are_not_parsable() {
    assert!(!is_parsable_source("Intro\n  ===  \n"));
    assert!(is_parsable_source("== a ==\n= stitch\n"));
    assert!(is_parsable_source(""));
}

#[test]
fn strict_success_matches_lenient_success() {
    let src = "Root\n== k ==\nIn k\n-> END\n";
    let strict = compile_ink(
        src,
        CompileOptions {
            strict: true,
            source_name: None,
        },
    )
    .expect("strict");
    let lenient = compile_ink(src, CompileOptions::default()).expect("lenient");
    assert_eq!(strict, lenient);
}

#[test]
fn diagnostics_come_in_line_order() {
    let out = compile_ink("VAR a = 1\ntext\n{x}\n->-> y\n", CompileOptions::default()).expect("c");
    let lines: Vec<usize> = out.diagnostics.iter().map(|d| d.line).collect();
    assert_eq!(lines, vec![1, 3, 4]);
}

#[test]
fn generated_containers_end_in_terminator() {
    let out = compile_ink("A\n== k ==\n-> END\n== j ==\nB\n", CompileOptions::default()).expect("c");
    let json: Value = serde_json::from_str(&out.story_json).unwrap();
    let root = json["root"].as_array().unwrap();
    assert_eq!(root[root.len() - 2], Value::String("done".to_string()));
    for (_, v) in root[root.len() - 1].as_object().unwrap() {
        let c = v.as_array().unwrap();
        let t = &c[c.len() - 2];
        assert!(t == "done" || t == "end");
    }
}

#[test]
fn canonicalize_rejects_invalid_json() {
    let err = canonicalize_json("{ not json").expect_err("must fail");
    assert!(matches!(err, CompilerError::Json(_)));
}

#[test]
fn canonicalize_keeps_scalars_and_arrays() {
    let out = canonicalize_json("[1, -2, 1.5, true, null, \"s\"]").expect("ok");
    assert_eq!(out, "[\n  1,\n  -2,\n  1.5,\n  true,\n  null,\n  \"s\"\n]");
}

fn line_text(c: &mut ink_rs::parser::LineCursor) -> Option<(String, usize)> {
    c.advance().map(|l| (l.raw.iter().collect(), l.line))
}

#[test]
fn line_cursor_drops_the_carriage_return_of_crlf() {
    let mut c = ink_rs::parser::LineCursor::new("a\r\nb\n\r\nc\r");
    assert_eq!(c.checkpoint(), 0);
    assert_eq!(line_text(&mut c), Some(("a".to_string(), 1)));
    assert_eq!(line_text(&mut c), Some(("b".to_string(), 2)));
    assert_eq!(line_text(&mut c), Some(("".to_string(), 3)));
    assert_eq!(line_text(&mut c), Some(("c\r".to_string(), 4)));
    assert!(c.is_eof());
    assert_eq!(line_text(&mut c), None);
}

#[test]
fn parse_story_leaves_the_parser_drained() {
    let mut p = ink_rs::parser::Parser::new("Hi\n* x\n== k ==\n-> END\n");
    let (ast, diags) = p.parse_story();
    assert_eq!(ast.root.len(), 2);
    assert_eq!(ast.knots.len(), 1);
    assert_eq!(diags.len(), 1);
    assert_eq!(diags[0].line, 2);
    assert_eq!(diags[0].column, 1);
    let (again, more) = p.parse_story();
    assert!(again.root.is_empty() && again.knots.is_empty());
    assert!(more.is_empty());
}
