use djs::compiler::Compiler;
use djs::lexer::Lexer;
use djs::module::{bind_imports, import_sources, parse_source};
use djs::parser::Parser;

fn compile_message(src: &str) -> String {
    let mut compiler = Compiler::new();
    match compiler.compile_program(src) {
        Ok(_) => panic!("expected an error for {:?}", src),
        Err(e) => e,
    }
}

fn parser_for(src: &str) -> Parser {
    let mut lexer = Lexer::new(src);
    Parser::new(lexer.tokenize())
}

#[test]
fn error_for_unfinished_call() {
    assert_eq!(compile_message("foo("), "Unexpected token: EOF");
}

#[test]
fn error_for_unclosed_function_body() {
    assert_eq!(compile_message("function (x) {"), "Expected RBrace, got EOF");
}

#[test]
fn error_for_bad_object_key() {
    assert_eq!(compile_message("{(}"), "Expected object key, got LParen");
}

#[test]
fn error_for_missing_property_name() {
    assert_eq!(compile_message("a.(b)"), "Expected property name, got LParen");
}

#[test]
fn error_for_missing_colon() {
    assert_eq!(compile_message("a ? b c"), "Expected Colon, got Ident(\"c\")");
}

#[test]
fn error_for_bad_parameter() {
    assert_eq!(compile_message("function f(,) { return 1 }"), "Expected param name, got Comma");
    assert_eq!(
        compile_message("function f(...) { return 1 }"),
        "Expected param name after ..., got RParen"
    );
    assert_eq!(
        compile_message("function f({a,}) { return 1 }"),
        "Expected field name in destructuring, got RBrace"
    );
}

#[test]
fn parser_stops_where_the_error_is() {
    let mut p = parser_for("(a b");
    assert_eq!(p.parse_expr(), Err("Expected RParen, got Ident(\"b\")".to_string()));
    assert_eq!(p.pos, 3);
    let mut q = parser_for("]");
    assert_eq!(q.parse_expr(), Err("Unexpected token: RBracket".to_string()));
    assert_eq!(q.pos, 0);
}

#[test]
fn import_errors() {
    assert_eq!(import_sources("import x from \"y\""), Err("Expected LBrace, got Ident(\"x\")".to_string()));
    assert_eq!(
        import_sources("import { x } \"y\""),
        Err("Expected 'from' after import destructuring".to_string())
    );
    assert_eq!(import_sources("import { x } from y"), Err("Expected module path, got Ident(\"y\")".to_string()));
    assert_eq!(import_sources("import { 1 } from \"y\"").map_err(|e| e.starts_with("Expected import name, got ")), Err(true));
}

#[test]
fn source_offers_exports_over_declarations() {
    let src = "export function f(a) { return a; }\nfunction g() { return 1; }\nfunction f() { return 2; }";
    let (imports, offered, code) = parse_source(src).unwrap().unwrap();
    assert!(imports.is_empty());
    let names: Vec<&str> = offered.iter().map(|(k, _)| k.as_str()).collect();
    assert_eq!(names, vec!["f", "g"]);
    assert_eq!(offered[0].1.params.len(), 1);
    assert_eq!(code, "function f(/* body */)\nfunction g(/* body */)\nfunction f(/* body */)");
}

#[test]
fn source_export_replaces_declaration() {
    let src = "function f() { return 2; }\nexport function f(a, b) { return a; }";
    let (_, offered, _) = parse_source(src).unwrap().unwrap();
    assert_eq!(offered.len(), 1);
    assert_eq!(offered[0].1.params.len(), 2);
}

#[test]
fn source_reads_imports_and_skips_expressions() {
    let src = "import { a, b } from \"./m\"\n1 + 2\nfunction h() { return 3 }";
    let (imports, offered, code) = parse_source(src).unwrap().unwrap();
    assert_eq!(imports.len(), 1);
    assert_eq!(imports[0].names, vec!["a".to_string(), "b".to_string()]);
    assert_eq!(imports[0].source, "./m");
    assert_eq!(offered.len(), 1);
    assert_eq!(offered[0].0, "h");
    assert_eq!(code, "function h(/* body */)");
}

#[test]
fn source_errors() {
    assert_eq!(parse_source("export x"), Some(Err("Expected 'function' after export".to_string())));
    assert_eq!(
        parse_source("export function (a) { return a }"),
        Some(Err("Expected function name after export, got LParen".to_string()))
    );
}

#[test]
fn source_that_never_ends() {
    assert!(parse_source("import { a } from \"./m\";").is_none());
    assert!(parse_source("1 + )").is_none());
}

#[test]
fn empty_source_reads_nothing() {
    let (imports, offered, code) = parse_source("").unwrap().unwrap();
    assert!(imports.is_empty() && offered.is_empty() && code.is_empty());
}

#[test]
fn imports_bind_offered_functions() {
    let (_, mut own, _) = parse_source("function a() { return 1 }\nfunction f() { return 0 }").unwrap().unwrap();
    let (_, dep, _) = parse_source("export function f(x) { return x }\nfunction g() { return 3 }").unwrap().unwrap();
    let names = vec!["f".to_string(), "g".to_string()];
    assert_eq!(bind_imports(&mut own, "./dep", &names, &dep), Ok(()));
    let keys: Vec<&str> = own.iter().map(|(k, _)| k.as_str()).collect();
    assert_eq!(keys, vec!["a", "f", "g"]);
    assert_eq!(own[1].1.params.len(), 1);
}

#[test]
fn import_of_a_name_not_offered_is_an_error() {
    let (_, mut own, _) = parse_source("").unwrap().unwrap();
    let (_, dep, _) = parse_source("function g() { return 3 }").unwrap().unwrap();
    let names = vec!["g".to_string(), "h".to_string()];
    assert_eq!(
        bind_imports(&mut own, "./dep", &names, &dep),
        Err("Module './dep' does not export 'h'".to_string())
    );
}

#[test]
fn failed_compile_keeps_functions_compiled_before() {
    let mut compiler = Compiler::new();
    assert_eq!(compiler.compile_program("1 +").err(), Some("Unexpected token: EOF".to_string()));
    assert!(compiler.functions.is_empty());
    let mut second = Compiler::new();
    assert_eq!(
        second.compile_program("function f() { return 1 }\nfunction g(,) { return 2 }").err(),
        Some("Expected param name, got Comma".to_string())
    );
    assert_eq!(second.functions.len(), 1);
    assert_eq!(second.functions[0].name, "f");
}
