use djs::ast::{BinOp, Expr, Param, Stmt};
use djs::lexer::{Lexer, Token};
use djs::parser::Parser;
use djs::values::param_name;

fn tokens(src: &str) -> Vec<Token> {
    Lexer::new(src).tokenize()
}

#[test]
fn tokens_end_with_one_eof() {
    let ts = tokens("a + 1 // note\n/* block */ \"s\"");
    assert_eq!(ts.len(), 5);
    assert!(matches!(&ts[0], Token::Ident(n) if n == "a"));
    assert!(matches!(ts[1], Token::Add));
    assert!(matches!(&ts[2], Token::Number(n) if n == "1"));
    assert!(matches!(&ts[3], Token::StrLit(s) if s == "s"));
    assert!(matches!(ts[4], Token::EOF));
    assert!(matches!(tokens("")[..], [Token::EOF]));
}

#[test]
fn keywords_and_literals() {
    let ts = tokens("function import export from return new true false x_1");
    assert!(matches!(ts[0], Token::Function));
    assert!(matches!(ts[1], Token::Import));
    assert!(matches!(ts[2], Token::Export));
    assert!(matches!(ts[3], Token::From));
    assert!(matches!(ts[4], Token::Return));
    assert!(matches!(ts[5], Token::New));
    assert!(matches!(&ts[6], Token::Number(n) if n == "1"));
    assert!(matches!(&ts[7], Token::Number(n) if n == "0"));
    assert!(matches!(&ts[8], Token::Ident(n) if n == "x_1"));
}

#[test]
fn string_escapes() {
    let ts = tokens("'a\\nb' \"q\\\"\"");
    assert!(matches!(&ts[0], Token::StrLit(s) if s == "a\nb"));
    assert!(matches!(&ts[1], Token::StrLit(s) if s == "q\""));
}

#[test]
fn operators() {
    let ts = tokens("== != <= >= && || ... ? : < > % / * -");
    assert!(matches!(ts[0], Token::Eq));
    assert!(matches!(ts[1], Token::Ne));
    assert!(matches!(ts[2], Token::Le));
    assert!(matches!(ts[3], Token::Ge));
    assert!(matches!(ts[4], Token::And));
    assert!(matches!(ts[5], Token::Or));
    assert!(matches!(ts[6], Token::Spread));
    assert!(matches!(ts[7], Token::Question));
    assert!(matches!(ts[8], Token::Colon));
    assert!(matches!(ts[9], Token::Lt));
    assert!(matches!(ts[10], Token::Gt));
    assert!(matches!(ts[11], Token::Mod));
    assert!(matches!(ts[12], Token::Div));
    assert!(matches!(ts[13], Token::Mul));
    assert!(matches!(ts[14], Token::Sub));
}

#[test]
fn precedence_of_binary_operators() {
    let mut p = Parser::new(tokens("1 + 2 * 3 > 4"));
    let e = p.parse_expr().unwrap();
    let expected = Expr::Binary(
        Box::new(Expr::Binary(
            Box::new(Expr::Number("1".into())),
            BinOp::Add,
            Box::new(Expr::Binary(
                Box::new(Expr::Number("2".into())),
                BinOp::Mul,
                Box::new(Expr::Number("3".into())),
            )),
        )),
        BinOp::Gt,
        Box::new(Expr::Number("4".into())),
    );
    assert_eq!(e, expected);
}

#[test]
fn conditional_is_right_associative() {
    let mut p = Parser::new(tokens("a ? b : c ? d : e"));
    match p.parse_expr().unwrap() {
        Expr::Conditional(c, _, f) => {
            assert_eq!(*c, Expr::Ident("a".into()));
            assert!(matches!(*f, Expr::Conditional(_, _, _)));
        }
        other => panic!("unexpected {:?}", other),
    }
}

#[test]
fn method_call_and_property_chain() {
    let mut p = Parser::new(tokens("obj.items[0].map(f)"));
    match p.parse_expr().unwrap() {
        Expr::MethodCall(base, m, args) => {
            assert_eq!(m, "map");
            assert_eq!(args, vec![Expr::Ident("f".into())]);
            assert!(matches!(*base, Expr::Index(_, _)));
        }
        other => panic!("unexpected {:?}", other),
    }
}

#[test]
fn function_declaration_with_all_parameter_kinds() {
    let mut p = Parser::new(tokens("function f(a, {b, c}, ...rest) { return a; }"));
    let d = p.parse_func_decl().unwrap();
    assert_eq!(d.name, "f");
    assert_eq!(
        d.params,
        vec![
            Param::Name("a".into()),
            Param::Destructure(vec!["b".into(), "c".into()]),
            Param::Rest("rest".into()),
        ]
    );
    assert_eq!(d.body, vec![Stmt::Return(Expr::Ident("a".into()))]);
}

#[test]
fn import_statement() {
    let mut p = Parser::new(tokens("import { add, sub } from \"./math\";"));
    p.consume();
    let imp = p.parse_import().unwrap();
    assert_eq!(imp.names, vec!["add".to_string(), "sub".to_string()]);
    assert_eq!(imp.source, "./math");
}

#[test]
fn parse_errors() {
    assert!(Parser::new(tokens("(1 + 2")).parse_expr().is_err());
    assert!(Parser::new(tokens("function (x) {}")).parse_func_decl().is_err());
    let mut p = Parser::new(tokens("{ a } \"x\""));
    assert!(p.parse_import().is_err());
}

#[test]
fn param_names() {
    assert_eq!(param_name(&Param::Name("x".into())), "x");
    assert_eq!(param_name(&Param::Destructure(vec!["a".into()])), "_");
    assert_eq!(param_name(&Param::Rest("r".into())), "_");
}

#[test]
fn describe_escapes_ascii_like_debug() {
    let all_ascii: String = (0u8..128).map(|b| b as char).collect();
    for s in ["plain", "a\"b", "back\\slash", "line\nbreak\ttab\rret", "\u{0}\u{1}\u{1b}\u{7f}", all_ascii.as_str()] {
        assert_eq!(Token::StrLit(s.to_string()).describe(), format!("StrLit({:?})", s));
        assert_eq!(Token::Ident(s.to_string()).describe(), format!("Ident({:?})", s));
    }
}

#[test]
fn tokenize_reads_to_the_end() {
    let mut lexer = Lexer::new("x + y // trailing");
    let tokens = lexer.tokenize();
    assert_eq!(tokens.len(), 4);
    assert!(matches!(tokens[3], Token::EOF));
    assert!(matches!(lexer.next_token(), Token::EOF));
}

#[test]
fn describe_escapes_other_characters_like_debug() {
    let mut samples: Vec<String> = vec![
        "\u{85}".to_string(),
        "\u{a0}x".to_string(),
        "e\u{301}".to_string(),
        "\u{200b}\u{feff}".to_string(),
        "caf\u{e9} \u{1f600}".to_string(),
        "\u{2028}\u{e000}".to_string(),
    ];
    let spread: String = (0x80u32..0x3000).step_by(7).filter_map(char::from_u32).collect();
    samples.push(spread);
    for s in &samples {
        assert_eq!(Token::StrLit(s.clone()).describe(), format!("StrLit({:?})", s));
        assert_eq!(Token::Ident(s.clone()).describe(), format!("Ident({:?})", s));
    }
}
