use djs::ast::BinOp;
use djs::json::{extract_json_string, json_extract_value};
use djs::lint::impure_captures;
use djs::module::{import_sources, join_sources, strip_imports};
use djs::text::decimal;

fn chars(s: &str) -> Vec<char> {
    s.chars().collect()
}

#[test]
fn lint_reports_captured_imports() {
    let src = "import { add } from \"./math\";\nfunction test() { return add(1, 2); }\nfunction ok(f) { return f(1); }";
    assert_eq!(impure_captures(src), vec![("test".to_string(), "add".to_string())]);
}

#[test]
fn lint_without_imports_reports_nothing() {
    assert!(impure_captures("function test() { return add(1, 2); }").is_empty());
}

#[test]
fn lint_matches_substrings_and_every_import() {
    let src = "import { a, bc } from \"./m\";\nfunction f() { return abc(x); }";
    assert_eq!(
        impure_captures(src),
        vec![("f".to_string(), "a".to_string()), ("f".to_string(), "bc".to_string())]
    );
}

#[test]
fn lint_names_anonymous_functions_by_first_identifier() {
    let src = "import { g } from \"./m\";\nh(function(x) { return g(x); })";
    assert_eq!(impure_captures(src), vec![("x".to_string(), "g".to_string())]);
}

#[test]
fn json_string_fields() {
    let cfg = "{ \"name\": \"app\", \"entry\":   \"src/main.js\" }";
    assert_eq!(extract_json_string(cfg, "entry"), Some("src/main.js".to_string()));
    assert_eq!(extract_json_string(cfg, "name"), Some("app".to_string()));
    assert_eq!(extract_json_string(cfg, "missing"), None);
    assert_eq!(extract_json_string("{\"entry\": 3}", "entry"), None);
    assert_eq!(extract_json_string("{\"entry\": \"open", "entry"), None);
}

#[test]
fn json_value_extraction() {
    let s = chars("\"ab\", {\"x\": [1, {}]} , 42 ]");
    assert_eq!(json_extract_value(&s, 0), Ok(("\"ab\"".to_string(), 4)));
    assert_eq!(json_extract_value(&s, 6), Ok(("{\"x\": [1, {}]}".to_string(), 20)));
    assert_eq!(json_extract_value(&s, 22), Ok(("42".to_string(), 26)));
    assert!(json_extract_value(&s, 100).is_err());
    let unclosed = chars("[1, [2");
    assert_eq!(json_extract_value(&unclosed, 0), Ok(("[1, [2".to_string(), 6)));
}

#[test]
fn imported_module_paths() {
    let src = "import { a } from \"./x\";\nimport { b, c } from \"./y\";\na(b)";
    assert_eq!(import_sources(src), Ok(vec!["./x".to_string(), "./y".to_string()]));
    assert!(import_sources("import { a } \"./x\"").is_err());
    assert_eq!(import_sources("1 + 2"), Ok(vec![]));
}

#[test]
fn imports_are_stripped_and_exports_made_plain() {
    let src = "import { a,\n  b } from \"./x\";\nexport function f(x) { return a(x); }\r\nf(1)";
    assert_eq!(strip_imports(src), "function f(x) { return a(x); }\nf(1)\n");
}

#[test]
fn bundle_joins_non_empty_modules() {
    let parts = vec!["A".to_string(), String::new(), "B".to_string()];
    assert_eq!(join_sources(&parts, "main"), "A\n\nB\n\nmain");
    assert_eq!(join_sources(&vec![], "main"), "main");
}

#[test]
fn decimal_digits() {
    assert_eq!(decimal(0), "0");
    assert_eq!(decimal(7), "7");
    assert_eq!(decimal(1200), "1200");
    assert_eq!(decimal(u64::MAX), "18446744073709551615");
}

#[test]
fn bundle_headers() {
    assert_eq!(
        djs::module::deploy_bundle("main.js", "code"),
        "// DJS Production Bundle\n// Entry: main.js\n// Generated by DJS v0.1.0\n\ncode\n"
    );
    let b = djs::module::production_bundle("main.js", "dist/bundle.js", "code");
    assert!(b.starts_with("// DJS Production Bundle\n// Entry: main.js\n// Generated by DJS v0.1.0\n//\n"));
    assert!(b.ends_with("// Run with: djs run dist/bundle.js\n\ncode\n"));
}

#[test]
fn operator_symbols() {
    assert_eq!(BinOp::Add.symbol(), "+");
    assert_eq!(BinOp::Ge.symbol(), ">=");
    assert_eq!(BinOp::And.symbol(), "&&");
    assert_eq!(BinOp::Or.symbol(), "||");
}

#[test]
fn lint_exempts_imports_taken_as_parameters() {
    let src = "import { add } from './math';\nfunction test(add) { return add(1, 2); }\ntest(add)";
    assert!(impure_captures(src).is_empty());
    let mixed = "import { add, mul } from './math';\nfunction calc(add) { return mul(add(1, 2), 3); }";
    assert_eq!(impure_captures(mixed), vec![("calc".to_string(), "mul".to_string())]);
}
