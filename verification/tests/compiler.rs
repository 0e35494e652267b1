use std::rc::Rc;
use djs::compiler::{Compiler, Scope};
use djs::opcode::{Constant, OpCode};

#[test]
fn test_compiler_compile_simple_expr() {
    let mut compiler = Compiler::new();
    let result = compiler.compile_program("2 + 3");
    assert!(result.is_ok());
    let (chunk, _decls) = result.unwrap();
    assert!(!chunk.code.is_empty());
    assert!(matches!(chunk.code.last(), Some(OpCode::Return)));
}

#[test]
fn test_compiler_compile_function_decl() {
    let mut compiler = Compiler::new();
    let result = compiler.compile_program("function foo(x) {return x + 1}\nfoo(1)");
    assert!(result.is_ok());
    let (chunk, decls) = result.unwrap();
    assert_eq!(decls.len(), 1);
    assert_eq!(decls[0].name, "foo");
    assert!(!chunk.code.is_empty());
}

#[test]
fn test_compiler_compile_conditional() {
    let mut compiler = Compiler::new();
    let result = compiler.compile_program("1 ? 10 : 20");
    assert!(result.is_ok());
    let (chunk, _) = result.unwrap();
    let has_jump = chunk.code.iter().any(|op| matches!(op, OpCode::JumpIfFalsePop(_)));
    assert!(has_jump);
}

#[test]
fn test_compiler_compile_comparison() {
    let mut compiler = Compiler::new();
    let result = compiler.compile_program("5 > 3");
    assert!(result.is_ok());
    let (chunk, _) = result.unwrap();
    assert!(chunk.code.iter().any(|op| matches!(op, OpCode::Gt)));
}

#[test]
fn test_compiler_compile_string() {
    let mut compiler = Compiler::new();
    let result = compiler.compile_program("\"hello\"");
    assert!(result.is_ok());
    let (chunk, _) = result.unwrap();
    assert!(chunk.code.iter().any(|op| matches!(op, OpCode::PushConst(_))));
}

#[test]
fn test_compiler_compile_array_literal() {
    let mut compiler = Compiler::new();
    let result = compiler.compile_program("[1, 2, 3]");
    assert!(result.is_ok());
    let (chunk, _) = result.unwrap();
    assert!(chunk.code.iter().any(|op| matches!(op, OpCode::MakeArray)));
}

#[test]
fn test_compiler_compile_object_literal() {
    let mut compiler = Compiler::new();
    let result = compiler.compile_program("{name: \"max\"}");
    assert!(result.is_ok());
    let (chunk, _) = result.unwrap();
    assert!(chunk.code.iter().any(|op| matches!(op, OpCode::MakeObject(_))));
}

#[test]
fn test_compiler_compile_nested_function() {
    let mut compiler = Compiler::new();
    let result = compiler.compile_program(
        "function outer(x) {function inner(y) {return y * 2} return inner(x) + 1}\nouter(5)",
    );
    assert!(result.is_ok());
    assert_eq!(compiler.functions.len(), 2);
}

#[test]
fn test_compiler_compile_closure_capture() {
    let mut compiler = Compiler::new();
    let result = compiler.compile_program("function make_adder(x) {function(y) {return x + y}}\nmake_adder(5)");
    assert!(result.is_ok());
    assert_eq!(compiler.functions.len(), 2);
}

#[test]
fn simple_expression_compiles_to_exact_code() {
    let mut compiler = Compiler::new();
    let (chunk, decls) = compiler.compile_program("2 + 3").unwrap();
    assert!(decls.is_empty());
    assert_eq!(chunk.code, vec![OpCode::PushConst(0), OpCode::PushConst(1), OpCode::Add, OpCode::Return]);
    assert_eq!(
        chunk.constants,
        vec![Constant::Number("2".to_string()), Constant::Number("3".to_string())]
    );
}

#[test]
fn conditional_jumps_are_patched_to_their_targets() {
    let mut compiler = Compiler::new();
    let (chunk, _) = compiler.compile_program("1 ? 10 : 20").unwrap();
    assert_eq!(
        chunk.code,
        vec![
            OpCode::PushConst(0),
            OpCode::JumpIfFalsePop(4),
            OpCode::PushConst(1),
            OpCode::Jump(5),
            OpCode::PushConst(2),
            OpCode::Return,
        ]
    );
}

#[test]
fn and_operator_short_circuits() {
    let mut compiler = Compiler::new();
    let (chunk, _) = compiler.compile_program("a && b").unwrap();
    assert_eq!(
        chunk.code,
        vec![
            OpCode::LoadGlobal(0),
            OpCode::Dup,
            OpCode::JumpIfFalsePop(5),
            OpCode::Pop,
            OpCode::LoadGlobal(1),
            OpCode::ToBool,
            OpCode::Return,
        ]
    );
    assert_eq!(chunk.globals, vec!["a".to_string(), "b".to_string()]);
}

#[test]
fn functions_become_globals_or_locals() {
    let mut compiler = Compiler::new();
    let (chunk, _) = compiler.compile_program("function f(x) {return x}\nf(1)").unwrap();
    assert_eq!(chunk.code[0], OpCode::MakeClosure(0));
    assert_eq!(chunk.code[1], OpCode::StoreGlobal(0));
    assert_eq!(chunk.code[2], OpCode::LoadGlobal(0));

    let mut compiler = Compiler::new();
    let (chunk, _) = compiler.compile_program_with_mode("function f(x) {return x}\nf(1)", true).unwrap();
    assert_eq!(chunk.code[0], OpCode::MakeClosure(0));
    assert_eq!(chunk.code[1], OpCode::StoreLocal(0));
    assert_eq!(chunk.code[2], OpCode::LoadLocal(0));
    assert!(chunk.globals.is_empty());
}

#[test]
fn named_function_layout() {
    let mut compiler = Compiler::new();
    compiler.compile_program("function f(a, {b, c}, ...d) {return a}").unwrap();
    let f = &compiler.functions[0];
    assert_eq!(f.name, "f");
    assert_eq!(f.param_count, 3);
    assert_eq!(f.param_offset, 1);
    assert_eq!(f.nesting_depth, 0);
    assert_eq!(f.rest_slot, Some(2));
    assert_eq!(f.destructured_params, vec![(1, vec!["b".to_string(), "c".to_string()])]);
    assert_eq!(f.chunk.code, vec![OpCode::LoadLocal(1), OpCode::Return]);
}

#[test]
fn function_without_return_returns_true() {
    let mut compiler = Compiler::new();
    compiler.compile_program("function f() {function g() {return 1}}").unwrap();
    assert_eq!(compiler.functions.len(), 2);
    assert_eq!(compiler.functions[0].name, "g");
    assert_eq!(compiler.functions[0].nesting_depth, 1);
    let f = &compiler.functions[1];
    assert_eq!(f.name, "f");
    assert_eq!(
        f.chunk.code,
        vec![OpCode::MakeClosure(0), OpCode::StoreLocal(0), OpCode::PushConst(0), OpCode::Return]
    );
    assert_eq!(f.chunk.constants, vec![Constant::Bool(true)]);
}

#[test]
fn anonymous_function_captures_outer_parameter() {
    let mut compiler = Compiler::new();
    compiler
        .compile_program("function make_adder(x) {return function(y) {return x + y}}")
        .unwrap();
    assert_eq!(compiler.functions.len(), 2);
    let anon = &compiler.functions[0];
    assert_eq!(anon.name, "<anonymous>");
    assert_eq!(anon.nesting_depth, 1);
    assert_eq!(anon.captured_slots, vec![(1, 1)]);
    assert_eq!(anon.chunk.code, vec![OpCode::LoadLocal(1), OpCode::LoadLocal(0), OpCode::Add, OpCode::Return]);
    let outer = &compiler.functions[1];
    assert_eq!(outer.chunk.code, vec![OpCode::MakeClosure(0), OpCode::Return]);
}

#[test]
fn spread_call_counts_plain_arguments() {
    let mut compiler = Compiler::new();
    let (chunk, _) = compiler.compile_program("f(1, ...xs, 2)").unwrap();
    assert!(chunk.code.contains(&OpCode::CallSpread(2)));
    assert!(chunk.code.contains(&OpCode::Spread));
}

#[test]
fn new_promise_compiles_its_executor() {
    let mut compiler = Compiler::new();
    let (chunk, _) = compiler.compile_program("new Promise(function(resolve, reject) {return resolve(1)})").unwrap();
    assert_eq!(chunk.code, vec![OpCode::MakeClosure(0), OpCode::MakePromise, OpCode::Return]);
}

#[test]
fn compile_error_on_bad_syntax() {
    let mut compiler = Compiler::new();
    assert!(compiler.compile_program("function f( {").is_err());
    assert!(compiler.compile_program("1 +").is_err());
}

#[test]
fn scope_declare_then_resolve() {
    let mut scope = Scope::new();
    let a = scope.declare("a");
    let b = scope.declare("b");
    assert_eq!((a, b), (0, 1));
    assert_eq!(scope.resolve("a"), Some(0));
    assert_eq!(scope.resolve("b"), Some(1));
    assert_eq!(scope.resolve("c"), None);
    scope.declare_at("c", 7);
    assert_eq!(scope.resolve("c"), Some(7));
    assert_eq!(scope.declare("d"), 8);
}

#[test]
fn scope_resolves_through_parent() {
    let mut outer = Scope::new();
    outer.declare("x");
    let mut inner = Scope::with_parent(Rc::new(outer));
    inner.declare("y");
    assert_eq!(inner.resolve("x"), Some(0));
    assert_eq!(inner.resolve("y"), Some(0));
}

#[test]
fn without_funcs_drops_excluded_names() {
    let mut s = Scope::new();
    s.declare("f");
    s.declare("g");
    s.declare_at("v", 5);
    let filtered = Scope::without_funcs(Rc::new(s), &vec!["g".to_string(), "v".to_string()]);
    assert_eq!(filtered.resolve("f"), Some(0));
    assert_eq!(filtered.resolve("g"), None);
    assert_eq!(filtered.resolve("v"), None);
}

#[test]
fn collect_vars_gathers_outermost_first() {
    let mut outer = Scope::new();
    outer.declare("a");
    outer.declare("b");
    let mut inner = Scope::with_parent(Rc::new(outer));
    inner.declare_at("a", 4);
    let mut vars: Vec<(String, usize)> = Vec::new();
    let mut next = 0usize;
    Scope::collect_vars(&Rc::new(inner), &mut vars, &mut next, &vec!["b".to_string()]);
    assert_eq!(vars, vec![("a".to_string(), 4)]);
    assert_eq!(next, 5);
}

fn jump_targets_within(code: &[OpCode]) -> bool {
    code.iter().all(|op| match op {
        OpCode::Jump(t)
        | OpCode::JumpIfFalse(t)
        | OpCode::JumpIfTrue(t)
        | OpCode::JumpIfFalsePop(t)
        | OpCode::JumpIfTruePop(t) => *t <= code.len(),
        _ => true,
    })
}

#[test]
fn compiled_jumps_land_inside_their_chunks() {
    let mut compiler = Compiler::new();
    let src = "function f(a, b) {return a && b ? function(x) {return x || a} : b}\nf(1, 0) ? 2 : 3";
    let (chunk, _) = compiler.compile_program(src).unwrap();
    assert!(jump_targets_within(&chunk.code));
    assert_eq!(compiler.functions.len(), 2);
    for f in &compiler.functions {
        assert!(jump_targets_within(&f.chunk.code));
    }
    let before = compiler.functions.len();
    let first_name = compiler.functions[0].name.clone();
    compiler.compile_program("function g() {return 1}").unwrap();
    assert_eq!(compiler.functions.len(), before + 1);
    assert_eq!(compiler.functions[0].name, first_name);
}

#[test]
fn destructured_fields_take_their_own_slots() {
    let mut compiler = Compiler::new();
    compiler.compile_program("function f(a, {b, c}, ...d) {return d}").unwrap();
    let f = &compiler.functions[0];
    assert_eq!(f.chunk.code, vec![OpCode::LoadLocal(4), OpCode::Return]);
    let mut second = Compiler::new();
    second.compile_program("function h({b, c}, e) {return c + e}").unwrap();
    assert_eq!(
        second.functions[0].chunk.code,
        vec![OpCode::LoadLocal(2), OpCode::LoadLocal(3), OpCode::Add, OpCode::Return]
    );
}

#[test]
fn captures_follow_all_parameter_slots() {
    let mut compiler = Compiler::new();
    compiler
        .compile_program("function outer(x) {function g({p, q}, r) {return x}\nreturn g}")
        .unwrap();
    let g = &compiler.functions[0];
    assert_eq!(g.name, "g");
    assert_eq!(g.captured_slots, vec![(1, 4)]);
    assert_eq!(g.chunk.code, vec![OpCode::LoadLocal(4), OpCode::Return]);
    let mut anon = Compiler::new();
    anon.compile_program("function make(x) {return function({p, q}) {return x}}").unwrap();
    assert_eq!(anon.functions[0].captured_slots, vec![(1, 2)]);
}

#[test]
fn test_vm_compiled_function_count() {
    let mut compiler = Compiler::new();
    compiler.compile_program("1 + 1").unwrap();
    assert_eq!(compiler.functions.len(), 0);

    let mut compiler2 = Compiler::new();
    compiler2.compile_program("function foo() {return 1}\nfoo()").unwrap();
    assert_eq!(compiler2.functions.len(), 1);
}

#[test]
fn test_vm_multiple_functions() {
    let mut compiler = Compiler::new();
    compiler.compile_program("function foo(x) {return x + 1}\nfoo(1)").unwrap();
    assert_eq!(compiler.functions.len(), 1);
    assert_eq!(compiler.functions[0].param_count, 1);
}

#[test]
fn test_compile_program_multiple_functions() {
    let mut compiler = Compiler::new();
    let source = r#"
function add(a, b) { return a + b; }
function sub(a, b) { return a - b; }
add(10, sub(7, 2))
"#;
    let (chunk, decls) = compiler.compile_program(source).unwrap();
    assert_eq!(decls.len(), 2);
    assert_eq!(compiler.functions.len(), 2);
    assert!(matches!(chunk.code.last(), Some(OpCode::Return)));
}

#[test]
fn test_compile_program_single_function() {
    let mut compiler = Compiler::new();
    let (chunk, decls) = compiler
        .compile_program("function fib(n) {return n > 1 ? fib(n-1) + fib(n-2) : n}\nfib(5)")
        .unwrap();
    assert_eq!(decls.len(), 1);
    assert_eq!(decls[0].name, "fib");
    assert_eq!(compiler.functions.len(), 1);
    assert!(matches!(chunk.code.last(), Some(OpCode::Return)));
}

#[test]
fn without_funcs_keeps_other_slots_and_next_slot() {
    let mut outer = Scope::new();
    outer.declare("z");
    let mut s = Scope::with_parent(Rc::new(outer));
    s.declare_at("a", 3);
    s.declare_at("g", 7);
    s.declare_at("b", 1);
    let mut filtered = Scope::without_funcs(Rc::new(s), &vec!["g".to_string()]);
    assert_eq!(filtered.resolve("a"), Some(3));
    assert_eq!(filtered.resolve("b"), Some(1));
    assert_eq!(filtered.resolve("z"), Some(0));
    assert_eq!(filtered.declare("c"), 4);
}
