use djs::opcode::{Chunk, Constant, OpCode};

#[test]
fn test_chunk_new() {
    let chunk = Chunk::new();
    assert!(chunk.code.is_empty());
    assert!(chunk.constants.is_empty());
    assert!(chunk.properties.is_empty());
    assert!(chunk.globals.is_empty());
}

#[test]
fn test_chunk_add_constant() {
    let mut chunk = Chunk::new();
    let idx1 = chunk.add_constant(Constant::Number("42".to_string()));
    let idx2 = chunk.add_constant(Constant::Str("hello".into()));
    assert_eq!(idx1, 0);
    assert_eq!(idx2, 1);
    assert_eq!(chunk.constants.len(), 2);
}

#[test]
fn test_chunk_emit() {
    let mut chunk = Chunk::new();
    chunk.emit(OpCode::PushConst(0));
    chunk.emit(OpCode::Add);
    chunk.emit(OpCode::Return);
    assert_eq!(chunk.code.len(), 3);
    assert_eq!(chunk.code[0], OpCode::PushConst(0));
    assert_eq!(chunk.code[1], OpCode::Add);
    assert_eq!(chunk.code[2], OpCode::Return);
}

#[test]
fn test_chunk_patch_jump() {
    let mut chunk = Chunk::new();
    let jump_idx = chunk.code.len();
    chunk.emit(OpCode::JumpIfFalse(0));
    chunk.emit(OpCode::PushConst(0));
    let target = chunk.code.len();
    chunk.patch_jump(jump_idx, target);
    assert_eq!(chunk.code[jump_idx], OpCode::JumpIfFalse(target));
}

#[test]
fn test_chunk_patch_jump_if_true() {
    let mut chunk = Chunk::new();
    let jump_idx = chunk.code.len();
    chunk.emit(OpCode::JumpIfTrue(0));
    let target = 99;
    chunk.patch_jump(jump_idx, target);
    assert_eq!(chunk.code[jump_idx], OpCode::JumpIfTrue(target));
}

#[test]
fn test_chunk_patch_jump_unconditional() {
    let mut chunk = Chunk::new();
    let jump_idx = chunk.code.len();
    chunk.emit(OpCode::Jump(0));
    let target = 42;
    chunk.patch_jump(jump_idx, target);
    assert_eq!(chunk.code[jump_idx], OpCode::Jump(target));
}

#[test]
fn test_chunk_add_global_dedup() {
    let mut chunk = Chunk::new();
    let idx1 = chunk.add_global("foo");
    let idx2 = chunk.add_global("foo");
    let idx3 = chunk.add_global("bar");
    assert_eq!(idx1, 0);
    assert_eq!(idx2, 0);
    assert_eq!(idx3, 1);
    assert_eq!(chunk.globals.len(), 2);
}

#[test]
fn test_chunk_add_property_dedup() {
    let mut chunk = Chunk::new();
    let idx1 = chunk.add_property("length");
    let idx2 = chunk.add_property("length");
    let idx3 = chunk.add_property("size");
    assert_eq!(idx1, 0);
    assert_eq!(idx2, 0);
    assert_eq!(idx3, 1);
}

#[test]
fn test_chunk_code_offset() {
    let mut chunk = Chunk::new();
    assert_eq!(chunk.code_offset(), 0);
    chunk.emit(OpCode::PushConst(0));
    assert_eq!(chunk.code_offset(), 1);
    chunk.emit(OpCode::Add);
    assert_eq!(chunk.code_offset(), 2);
}

#[test]
fn test_chunk_disassemble() {
    let mut chunk = Chunk::new();
    chunk.emit(OpCode::PushConst(0));
    chunk.emit(OpCode::Add);
    chunk.emit(OpCode::Return);
    let _listing = chunk.disassemble("test");
}

#[test]
fn disassemble_lists_each_instruction() {
    let mut chunk = Chunk::new();
    chunk.emit(OpCode::PushConst(7));
    chunk.emit(OpCode::Add);
    chunk.emit(OpCode::JumpIfFalsePop(12));
    assert_eq!(
        chunk.disassemble("main"),
        "\n== main ==\n     0: PushConst(7)\n     1: Add\n     2: JumpIfFalsePop(12)\n"
    );
}

#[test]
fn describe_writes_operands_in_decimal() {
    assert_eq!(OpCode::MakeObject(305).describe(), "MakeObject(305)");
    assert_eq!(OpCode::MakePromise.describe(), "MakePromise");
    assert_eq!(OpCode::CallSpread(0).describe(), "CallSpread(0)");
}

#[test]
fn patch_jump_leaves_to_bool_and_other_instructions() {
    let mut chunk = Chunk::new();
    chunk.emit(OpCode::ToBool);
    chunk.emit(OpCode::Dup);
    chunk.patch_jump(0, 5);
    chunk.patch_jump(7, 5);
    assert_eq!(chunk.code, vec![OpCode::ToBool, OpCode::Dup]);
}

#[test]
fn interning_a_name_twice_keeps_one_entry() {
    let mut chunk = Chunk::new();
    chunk.add_global("a");
    chunk.add_global("b");
    let again = chunk.add_global("a");
    assert_eq!(again, 0);
    assert_eq!(chunk.globals, vec!["a".to_string(), "b".to_string()]);
}
