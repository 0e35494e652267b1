//! Every jump the compiler emits lands inside its own chunk (at most one past the
//! last instruction), and compiling only ever appends functions: those compiled
//! before keep their index and their code.
use vstd::prelude::*;
use crate::ast::{BinOp, ExprV, StmtV, ParamV, FuncDeclV};
use crate::opcode::{OpCode, ConstantV, ChunkV, CompiledFunctionV, intern};
use crate::codegen::{
    ScopeV, CR, c_expr, c_items, c_plain, c_entries, c_anon, c_anon_stmts, c_stmt, c_fn, c_fn_stmts,
    c_decls, c_program, emit, push_const, patch_here, with_globals, with_properties,
    empty_chunk, root_scope, op_code, anon_captures, anon_params, param_slots, anon_cap_slots,
    named_params, set_var, decl_names, cap_named_stmts, named_cap_slots, declare_decls, last_return,
    scope_in, without_funcs, except, lookup, declare,
};
use crate::lexer::{TokenV, tokenize_spec};
use crate::grammar::{tok_at, g_func_decl, g_cond};

verus! {

/// The target of a jump instruction.
pub open spec fn jump_target(op: OpCode) -> Option<usize> {
    match op {
        OpCode::Jump(t) => Some(t),
        OpCode::JumpIfFalse(t) => Some(t),
        OpCode::JumpIfTrue(t) => Some(t),
        OpCode::JumpIfFalsePop(t) => Some(t),
        OpCode::JumpIfTruePop(t) => Some(t),
        _ => None,
    }
}

/// Every jump in `code` targets an instruction of it, or the end.
pub open spec fn jumps_within(code: Seq<OpCode>) -> bool {
    forall|i: int| 0 <= i < code.len() ==> (#[trigger] jump_target(code[i]) matches Some(t) ==> t
        <= code.len())
}

/// Every compiled function's jumps stay inside its chunk.
pub open spec fn all_jumps_within(fs: Seq<CompiledFunctionV>) -> bool {
    forall|i: int| 0 <= i < fs.len() ==> jumps_within(#[trigger] fs[i].chunk.code)
}

/// `fs2` holds `fs` as its first functions.
pub open spec fn extends(fs: Seq<CompiledFunctionV>, fs2: Seq<CompiledFunctionV>) -> bool {
    fs.len() <= fs2.len() && forall|i: int| 0 <= i < fs.len() ==> fs2[i] == fs[i]
}

/// The functions and the chunk are well formed.
pub open spec fn good(fs: Seq<CompiledFunctionV>, ch: ChunkV) -> bool {
    all_jumps_within(fs) && jumps_within(ch.code)
}

/// What compiling keeps: well-formedness, the functions compiled before, and the
/// code emitted before (the chunk only grows).
pub open spec fn kept(fs: Seq<CompiledFunctionV>, ch: ChunkV, r: CR) -> bool {
    r matches Ok((fs2, ch2)) ==> good(fs2, ch2) && extends(fs, fs2) && ch.code.len()
        <= ch2.code.len()
}

proof fn lemma_emit(ch: ChunkV, op: OpCode)
    requires
        jumps_within(ch.code),
        jump_target(op) matches Some(t) ==> t <= ch.code.len() + 1,
    ensures
        jumps_within(emit(ch, op).code),
        emit(ch, op).code.len() == ch.code.len() + 1,
{
    let c2 = emit(ch, op).code;
    assert forall|i: int| 0 <= i < c2.len() implies (#[trigger] jump_target(c2[i]) matches Some(t)
        ==> t <= c2.len()) by {
        if i < ch.code.len() {
            assert(c2[i] == ch.code[i]);
        }
    }
}

proof fn lemma_patch(ch: ChunkV, j: int)
    requires
        jumps_within(ch.code),
        0 <= j < ch.code.len(),
    ensures
        jumps_within(patch_here(ch, j).code),
        patch_here(ch, j).code.len() == ch.code.len(),
{
    let c2 = patch_here(ch, j).code;
    assert forall|i: int| 0 <= i < c2.len() implies (#[trigger] jump_target(c2[i]) matches Some(t)
        ==> t <= c2.len()) by {
        if i != j {
            assert(c2[i] == ch.code[i]);
        }
    }
}

proof fn lemma_push_fn(fs: Seq<CompiledFunctionV>, f: CompiledFunctionV)
    requires
        all_jumps_within(fs),
        jumps_within(f.chunk.code),
    ensures
        all_jumps_within(fs.push(f)),
        extends(fs, fs.push(f)),
{
    assert forall|i: int| 0 <= i < fs.push(f).len() implies jumps_within(
        #[trigger] fs.push(f)[i].chunk.code,
    ) by {
        if i < fs.len() {
            assert(fs.push(f)[i] == fs[i]);
        }
    }
}

proof fn lemma_extends_trans(a: Seq<CompiledFunctionV>, b: Seq<CompiledFunctionV>, c: Seq<CompiledFunctionV>)
    requires
        extends(a, b),
        extends(b, c),
    ensures
        extends(a, c),
{
    assert forall|i: int| 0 <= i < a.len() implies c[i] == a[i] by {
        assert(c[i] == b[i]);
    }
}

proof fn lemma_empty()
    ensures
        jumps_within(empty_chunk().code),
{
}

proof fn lemma_c_expr(fs: Seq<CompiledFunctionV>, ch: ChunkV, sc: ScopeV, e: ExprV)
    requires
        good(fs, ch),
    ensures
        kept(fs, ch, c_expr(fs, ch, sc, e)),
    decreases e, 0int,
{
    match e {
        ExprV::Number(n) => {
            lemma_emit(push_const(ch, ConstantV::Number(n)), OpCode::PushConst(ch.constants.len() as u32));
        },
        ExprV::Str(s) => {
            lemma_emit(push_const(ch, ConstantV::Str(s)), OpCode::PushConst(ch.constants.len() as u32));
        },
        ExprV::Ident(n) => {
            let (gi, gs) = intern(ch.globals, n);
            lemma_emit(ch, OpCode::LoadLocal(0));
            lemma_emit(with_globals(ch, gs), OpCode::LoadGlobal(gi as u32));
            match crate::codegen::resolve(sc, n) {
                Some(slot) => lemma_emit(ch, OpCode::LoadLocal(slot as u32)),
                None => {},
            }
        },
        ExprV::Binary(l, op, r) => {
            lemma_c_expr(fs, ch, sc, *l);
            match c_expr(fs, ch, sc, *l) {
                Ok((fs1, ch1)) => {
                    if op == BinOp::And || op == BinOp::Or {
                        let ch2 = emit(ch1, OpCode::Dup);
                        let j = ch2.code.len() as int;
                        let jump = if op == BinOp::And {
                            OpCode::JumpIfFalsePop(0)
                        } else {
                            OpCode::JumpIfTruePop(0)
                        };
                        lemma_emit(ch1, OpCode::Dup);
                        lemma_emit(ch2, jump);
                        lemma_emit(emit(ch2, jump), OpCode::Pop);
                        let ch3 = emit(emit(ch2, jump), OpCode::Pop);
                        lemma_c_expr(fs1, ch3, sc, *r);
                        match c_expr(fs1, ch3, sc, *r) {
                            Ok((fs2, ch4)) => {
                                lemma_patch(ch4, j);
                                lemma_emit(patch_here(ch4, j), OpCode::ToBool);
                                lemma_extends_trans(fs, fs1, fs2);
                            },
                            Err(_) => {},
                        }
                    } else {
                        lemma_c_expr(fs1, ch1, sc, *r);
                        match c_expr(fs1, ch1, sc, *r) {
                            Ok((fs2, ch2)) => {
                                lemma_emit(ch2, op_code(op));
                                lemma_extends_trans(fs, fs1, fs2);
                            },
                            Err(_) => {},
                        }
                    }
                },
                Err(_) => {},
            }
        },
        ExprV::Conditional(c, t, f) => {
            lemma_c_expr(fs, ch, sc, *c);
            match c_expr(fs, ch, sc, *c) {
                Ok((fs1, ch1)) => {
                    let j = ch1.code.len() as int;
                    lemma_emit(ch1, OpCode::JumpIfFalsePop(0));
                    lemma_c_expr(fs1, emit(ch1, OpCode::JumpIfFalsePop(0)), sc, *t);
                    match c_expr(fs1, emit(ch1, OpCode::JumpIfFalsePop(0)), sc, *t) {
                        Ok((fs2, ch3)) => {
                            let k = ch3.code.len() as int;
                            lemma_emit(ch3, OpCode::Jump(0));
                            lemma_patch(emit(ch3, OpCode::Jump(0)), j);
                            let ch4 = patch_here(emit(ch3, OpCode::Jump(0)), j);
                            lemma_c_expr(fs2, ch4, sc, *f);
                            match c_expr(fs2, ch4, sc, *f) {
                                Ok((fs3, ch5)) => {
                                    lemma_patch(ch5, k);
                                    lemma_extends_trans(fs, fs1, fs2);
                                    lemma_extends_trans(fs, fs2, fs3);
                                },
                                Err(_) => {},
                            }
                        },
                        Err(_) => {},
                    }
                },
                Err(_) => {},
            }
        },
        ExprV::Call(f, args) => {
            lemma_c_expr(fs, ch, sc, *f);
            match c_expr(fs, ch, sc, *f) {
                Ok((fs1, ch1)) => {
                    lemma_c_items(fs1, ch1, sc, args, 0);
                    match c_items(fs1, ch1, sc, args, 0) {
                        Ok((fs2, ch2)) => {
                            lemma_emit(ch2, OpCode::Call(0));
                            lemma_emit(ch2, OpCode::CallSpread(0));
                            lemma_emit(ch2, OpCode::CallSpread(crate::codegen::non_spread_count(args) as u16));
                            lemma_emit(ch2, OpCode::Call(args.len() as u16));
                            lemma_extends_trans(fs, fs1, fs2);
                        },
                        Err(_) => {},
                    }
                },
                Err(_) => {},
            }
        },
        ExprV::Function(params, body) => {
            lemma_c_anon(fs, sc, params, body);
            match c_anon(fs, sc, params, body) {
                Ok((fs1, idx)) => {
                    lemma_emit(ch, OpCode::MakeClosure(idx as u32));
                },
                Err(_) => {},
            }
        },
        ExprV::ArrayLiteral(es) => {
            lemma_emit(ch, OpCode::PushDepthMarker);
            lemma_c_items(fs, emit(ch, OpCode::PushDepthMarker), sc, es, 0);
            match c_items(fs, emit(ch, OpCode::PushDepthMarker), sc, es, 0) {
                Ok((fs1, ch1)) => {
                    lemma_emit(ch1, OpCode::MakeArray);
                },
                Err(_) => {},
            }
        },
        ExprV::ObjectLiteral(es) => {
            lemma_c_entries(fs, ch, sc, es, 0);
            match c_entries(fs, ch, sc, es, 0) {
                Ok((fs1, ch1)) => {
                    lemma_emit(ch1, OpCode::MakeObject(es.len() as u16));
                },
                Err(_) => {},
            }
        },
        ExprV::Index(b, i) => {
            lemma_c_expr(fs, ch, sc, *b);
            match c_expr(fs, ch, sc, *b) {
                Ok((fs1, ch1)) => {
                    lemma_c_expr(fs1, ch1, sc, *i);
                    match c_expr(fs1, ch1, sc, *i) {
                        Ok((fs2, ch2)) => {
                            lemma_emit(ch2, OpCode::Index);
                            lemma_extends_trans(fs, fs1, fs2);
                        },
                        Err(_) => {},
                    }
                },
                Err(_) => {},
            }
        },
        ExprV::PropAccess(o, p) => {
            lemma_c_expr(fs, ch, sc, *o);
            match c_expr(fs, ch, sc, *o) {
                Ok((fs1, ch1)) => {
                    let (pi, ps) = intern(ch1.properties, p);
                    lemma_emit(with_properties(ch1, ps), OpCode::GetProperty(pi as u32));
                },
                Err(_) => {},
            }
        },
        ExprV::MethodCall(o, m, args) => {
            lemma_c_expr(fs, ch, sc, *o);
            match c_expr(fs, ch, sc, *o) {
                Ok((fs1, ch1)) => {
                    let pc = push_const(ch1, ConstantV::Str(m));
                    lemma_emit(
                        crate::opcode::ChunkV {
                            code: ch1.code,
                            constants: ch1.constants.push(ConstantV::Str(m)),
                            properties: ch1.properties,
                            globals: ch1.globals,
                        },
                        OpCode::PushConst(ch1.constants.len() as u32),
                    );
                    lemma_c_plain(fs1, pc, sc, args, 0);
                    match c_plain(fs1, pc, sc, args, 0) {
                        Ok((fs2, ch2)) => {
                            lemma_emit(ch2, OpCode::MethodCall(args.len() as u16));
                            lemma_extends_trans(fs, fs1, fs2);
                        },
                        Err(_) => {},
                    }
                },
                Err(_) => {},
            }
        },
        ExprV::Spread(_) => {},
        ExprV::New(c, args) => {
            if *c == ExprV::Ident(crate::codegen::promise_name()) && args.len() > 0 {
                lemma_c_expr(fs, ch, sc, args[0]);
                match c_expr(fs, ch, sc, args[0]) {
                    Ok((fs1, ch1)) => {
                        lemma_emit(ch1, OpCode::MakePromise);
                    },
                    Err(_) => {},
                }
            } else {
                lemma_c_expr(fs, ch, sc, *c);
                match c_expr(fs, ch, sc, *c) {
                    Ok((fs1, ch1)) => {
                        lemma_c_plain(fs1, ch1, sc, args, 0);
                        match c_plain(fs1, ch1, sc, args, 0) {
                            Ok((fs2, ch2)) => {
                                lemma_emit(ch2, OpCode::Call(args.len() as u16));
                                lemma_extends_trans(fs, fs1, fs2);
                            },
                            Err(_) => {},
                        }
                    },
                    Err(_) => {},
                }
            }
        },
    }
}

proof fn lemma_c_items(fs: Seq<CompiledFunctionV>, ch: ChunkV, sc: ScopeV, es: Seq<ExprV>, i: int)
    requires
        good(fs, ch),
    ensures
        kept(fs, ch, c_items(fs, ch, sc, es, i)),
    decreases es, es.len() - i,
{
    if 0 <= i < es.len() {
        let r = match es[i] {
            ExprV::Spread(x) => match c_expr(fs, ch, sc, *x) {
                Ok((fs1, ch1)) => Ok((fs1, emit(ch1, OpCode::Spread))),
                Err(_) => Err(()),
            },
            _ => c_expr(fs, ch, sc, es[i]),
        };
        match es[i] {
            ExprV::Spread(x) => {
                lemma_c_expr(fs, ch, sc, *x);
                match c_expr(fs, ch, sc, *x) {
                    Ok((fs1, ch1)) => {
                        lemma_emit(ch1, OpCode::Spread);
                    },
                    Err(_) => {},
                }
            },
            _ => {
                lemma_c_expr(fs, ch, sc, es[i]);
            },
        }
        match r {
            Ok((fs1, ch1)) => {
                lemma_c_items(fs1, ch1, sc, es, i + 1);
                match c_items(fs1, ch1, sc, es, i + 1) {
                    Ok((fs2, ch2)) => {
                        lemma_extends_trans(fs, fs1, fs2);
                    },
                    Err(_) => {},
                }
            },
            Err(_) => {},
        }
    }
}

proof fn lemma_c_plain(fs: Seq<CompiledFunctionV>, ch: ChunkV, sc: ScopeV, es: Seq<ExprV>, i: int)
    requires
        good(fs, ch),
    ensures
        kept(fs, ch, c_plain(fs, ch, sc, es, i)),
    decreases es, es.len() - i,
{
    if 0 <= i < es.len() {
        lemma_c_expr(fs, ch, sc, es[i]);
        match c_expr(fs, ch, sc, es[i]) {
            Ok((fs1, ch1)) => {
                lemma_c_plain(fs1, ch1, sc, es, i + 1);
                match c_plain(fs1, ch1, sc, es, i + 1) {
                    Ok((fs2, ch2)) => {
                        lemma_extends_trans(fs, fs1, fs2);
                    },
                    Err(_) => {},
                }
            },
            Err(_) => {},
        }
    }
}

proof fn lemma_c_entries(
    fs: Seq<CompiledFunctionV>,
    ch: ChunkV,
    sc: ScopeV,
    es: Seq<(Seq<char>, ExprV)>,
    i: int,
)
    requires
        good(fs, ch),
    ensures
        kept(fs, ch, c_entries(fs, ch, sc, es, i)),
    decreases es, es.len() - i,
{
    if 0 <= i < es.len() {
        let pc = push_const(ch, ConstantV::Str(es[i].0));
        lemma_emit(
            crate::opcode::ChunkV {
                code: ch.code,
                constants: ch.constants.push(ConstantV::Str(es[i].0)),
                properties: ch.properties,
                globals: ch.globals,
            },
            OpCode::PushConst(ch.constants.len() as u32),
        );
        lemma_c_expr(fs, pc, sc, es[i].1);
        match c_expr(fs, pc, sc, es[i].1) {
            Ok((fs1, ch1)) => {
                lemma_c_entries(fs1, ch1, sc, es, i + 1);
                match c_entries(fs1, ch1, sc, es, i + 1) {
                    Ok((fs2, ch2)) => {
                        lemma_extends_trans(fs, fs1, fs2);
                    },
                    Err(_) => {},
                }
            },
            Err(_) => {},
        }
    }
}

/// What compiling a function keeps: well-formedness and the functions before; the
/// index given is that of the last function.
pub open spec fn kept_fn(fs: Seq<CompiledFunctionV>, r: Result<(Seq<CompiledFunctionV>, usize), ()>) -> bool {
    r matches Ok((fs2, idx)) ==> all_jumps_within(fs2) && extends(fs, fs2) && fs2.len() > fs.len()
        && idx == (fs2.len() - 1) as usize
}

proof fn lemma_c_anon(fs: Seq<CompiledFunctionV>, sc: ScopeV, params: Seq<ParamV>, body: Seq<StmtV>)
    requires
        all_jumps_within(fs),
    ensures
        kept_fn(fs, c_anon(fs, sc, params, body)),
    decreases body, body.len() + 1,
{
    let caps = anon_captures(sc, body);
    match anon_params(scope_in(sc), params, 0, None, seq![]) {
        Ok((s1, rest, destr)) => match param_slots(params) {
            Ok(total) => match anon_cap_slots(sc, s1, caps, 0, total, seq![]) {
                Ok((s2, slots)) => {
                    lemma_empty();
                    lemma_c_anon_stmts(fs, empty_chunk(), s2, body, 0);
                    match c_anon_stmts(fs, empty_chunk(), s2, body, 0) {
                        Ok((fs1, ch1, _)) => {
                            lemma_emit(ch1, OpCode::Return);
                            let ch2 = if ch1.code.len() == 0 || ch1.code.last() != OpCode::Return {
                                emit(ch1, OpCode::Return)
                            } else {
                                ch1
                            };
                            let f = CompiledFunctionV {
                                chunk: ch2,
                                param_count: params.len() as usize,
                                name: crate::codegen::anonymous_name(),
                                captured_slots: slots,
                                rest_slot: rest,
                                destructured_params: destr,
                                param_offset: 0,
                                nesting_depth: 1,
                            };
                            lemma_push_fn(fs1, f);
                            lemma_extends_trans(fs, fs1, fs1.push(f));
                        },
                        Err(_) => {},
                    }
                },
                Err(_) => {},
            },
            Err(_) => {},
        },
        Err(_) => {},
    }
}

/// What compiling statements keeps.
pub open spec fn kept_stmts(
    fs: Seq<CompiledFunctionV>,
    ch: ChunkV,
    r: Result<(Seq<CompiledFunctionV>, ChunkV, ScopeV), ()>,
) -> bool {
    r matches Ok((fs2, ch2, _)) ==> good(fs2, ch2) && extends(fs, fs2) && ch.code.len()
        <= ch2.code.len()
}

proof fn lemma_c_anon_stmts(
    fs: Seq<CompiledFunctionV>,
    ch: ChunkV,
    sc: ScopeV,
    body: Seq<StmtV>,
    i: int,
)
    requires
        good(fs, ch),
    ensures
        kept_stmts(fs, ch, c_anon_stmts(fs, ch, sc, body, i)),
    decreases body, body.len() - i,
{
    if 0 <= i < body.len() {
        lemma_c_stmt(fs, ch, sc, body[i]);
        match c_stmt(fs, ch, sc, body[i]) {
            Ok((fs1, ch1, sc1)) => {
                lemma_c_anon_stmts(fs1, ch1, sc1, body, i + 1);
                match c_anon_stmts(fs1, ch1, sc1, body, i + 1) {
                    Ok((fs2, ch2, _)) => {
                        lemma_extends_trans(fs, fs1, fs2);
                    },
                    Err(_) => {},
                }
            },
            Err(_) => {},
        }
    }
}

proof fn lemma_c_stmt(fs: Seq<CompiledFunctionV>, ch: ChunkV, sc: ScopeV, st: StmtV)
    requires
        good(fs, ch),
    ensures
        kept_stmts(fs, ch, c_stmt(fs, ch, sc, st)),
    decreases st, 0int,
{
    match st {
        StmtV::FuncDecl(d) => match without_funcs(sc, seq![]) {
            Ok(filtered) => {
                lemma_c_fn(fs, filtered, d);
                match c_fn(fs, filtered, d) {
                    Ok((fs1, idx)) => match declare(sc, d.name) {
                        Ok((sc1, slot)) => {
                            lemma_emit(ch, OpCode::MakeClosure(idx as u32));
                            lemma_emit(
                                emit(ch, OpCode::MakeClosure(idx as u32)),
                                OpCode::StoreLocal(slot as u32),
                            );
                        },
                        Err(_) => {},
                    },
                    Err(_) => {},
                }
            },
            Err(_) => {},
        },
        StmtV::Return(e) => {
            lemma_c_expr(fs, ch, sc, e);
            match c_expr(fs, ch, sc, e) {
                Ok((fs1, ch1)) => {
                    lemma_emit(ch1, OpCode::Return);
                },
                Err(_) => {},
            }
        },
        StmtV::Expr(e) => {
            lemma_c_expr(fs, ch, sc, e);
            match c_expr(fs, ch, sc, e) {
                Ok((fs1, ch1)) => {
                    lemma_emit(ch1, OpCode::Pop);
                },
                Err(_) => {},
            }
        },
        _ => {},
    }
}

proof fn lemma_c_fn(fs: Seq<CompiledFunctionV>, parent: ScopeV, d: FuncDeclV)
    requires
        all_jumps_within(fs),
    ensures
        kept_fn(fs, c_fn(fs, parent, d)),
    decreases d, 0int,
{
    let nesting: usize = if parent.parent is Some {
        1
    } else {
        0
    };
    let off: int = if d.name.len() == 0 {
        0
    } else {
        1
    };
    match named_params(scope_in(parent), d.params, 0, off, None, seq![]) {
        Ok((s1, rest, destr)) => {
            let s2 = if off > 0 {
                ScopeV { parent: s1.parent, vars: set_var(s1.vars, d.name, 0), next_slot: s1.next_slot }
            } else {
                s1
            };
            match param_slots(d.params) {
                Ok(total) => {
                    let sibs = decl_names(d.body, 0);
                    let caps = cap_named_stmts(s2, d.body, 0, seq![], d.name, sibs);
                    match named_cap_slots(s2, caps, 0, off + total, 0, seq![]) {
                        Ok((s3, slots)) => match declare_decls(s3, d.body, 0) {
                            Ok(s4) => {
                                let lr = last_return(d.body, d.body.len() as int);
                                lemma_empty();
                                lemma_c_fn_stmts(fs, empty_chunk(), s4, d.body, 0, sibs, lr);
                                match c_fn_stmts(fs, empty_chunk(), s4, d.body, 0, sibs, lr) {
                                    Ok((fs1, ch1)) => {
                                        let pc = push_const(ch1, ConstantV::Bool(true));
                                        lemma_emit(
                                            crate::opcode::ChunkV {
                                                code: ch1.code,
                                                constants: ch1.constants.push(ConstantV::Bool(true)),
                                                properties: ch1.properties,
                                                globals: ch1.globals,
                                            },
                                            OpCode::PushConst(ch1.constants.len() as u32),
                                        );
                                        lemma_emit(pc, OpCode::Return);
                                        let ch2 = if lr is None {
                                            emit(pc, OpCode::Return)
                                        } else {
                                            ch1
                                        };
                                        let f = CompiledFunctionV {
                                            chunk: ch2,
                                            param_count: d.params.len() as usize,
                                            name: d.name,
                                            captured_slots: slots,
                                            rest_slot: rest,
                                            destructured_params: destr,
                                            param_offset: off as usize,
                                            nesting_depth: nesting,
                                        };
                                        lemma_push_fn(fs1, f);
                                        lemma_extends_trans(fs, fs1, fs1.push(f));
                                    },
                                    Err(_) => {},
                                }
                            },
                            Err(_) => {},
                        },
                        Err(_) => {},
                    }
                },
                Err(_) => {},
            }
        },
        Err(_) => {},
    }
}

proof fn lemma_c_fn_stmts(
    fs: Seq<CompiledFunctionV>,
    ch: ChunkV,
    sc: ScopeV,
    body: Seq<StmtV>,
    i: int,
    sibs: Seq<Seq<char>>,
    lr: Option<int>,
)
    requires
        good(fs, ch),
    ensures
        kept(fs, ch, c_fn_stmts(fs, ch, sc, body, i, sibs, lr)),
    decreases body, body.len() - i,
{
    if 0 <= i < body.len() {
        let r: CR = match body[i] {
            StmtV::FuncDecl(nested) => {
                match without_funcs(sc, except(sibs, nested.name)) {
                    Ok(filtered) => match c_fn(fs, filtered, nested) {
                        Ok((fs1, idx)) => match lookup(sc.vars, nested.name) {
                            Some(slot) => Ok(
                                (
                                    fs1,
                                    emit(
                                        emit(ch, OpCode::MakeClosure(idx as u32)),
                                        OpCode::StoreLocal(slot as u32),
                                    ),
                                ),
                            ),
                            None => Err(()),
                        },
                        Err(_) => Err(()),
                    },
                    Err(_) => Err(()),
                }
            },
            StmtV::Return(e) => match c_expr(fs, ch, sc, e) {
                Ok((fs1, ch1)) => Ok(
                    (
                        fs1,
                        emit(
                            ch1,
                            if lr == Some(i) {
                                OpCode::Return
                            } else {
                                OpCode::Pop
                            },
                        ),
                    ),
                ),
                Err(_) => Err(()),
            },
            StmtV::Expr(e) => match c_expr(fs, ch, sc, e) {
                Ok((fs1, ch1)) => Ok((fs1, emit(ch1, OpCode::Pop))),
                Err(_) => Err(()),
            },
            _ => Ok((fs, ch)),
        };
        match body[i] {
            StmtV::FuncDecl(nested) => {
                match without_funcs(sc, except(sibs, nested.name)) {
                    Ok(filtered) => {
                        lemma_c_fn(fs, filtered, nested);
                        match c_fn(fs, filtered, nested) {
                            Ok((fs1, idx)) => match lookup(sc.vars, nested.name) {
                                Some(slot) => {
                                    lemma_emit(ch, OpCode::MakeClosure(idx as u32));
                                    lemma_emit(
                                        emit(ch, OpCode::MakeClosure(idx as u32)),
                                        OpCode::StoreLocal(slot as u32),
                                    );
                                },
                                None => {},
                            },
                            Err(_) => {},
                        }
                    },
                    Err(_) => {},
                }
            },
            StmtV::Return(e) => {
                lemma_c_expr(fs, ch, sc, e);
                match c_expr(fs, ch, sc, e) {
                    Ok((fs1, ch1)) => {
                        lemma_emit(ch1, OpCode::Return);
                        lemma_emit(ch1, OpCode::Pop);
                    },
                    Err(_) => {},
                }
            },
            StmtV::Expr(e) => {
                lemma_c_expr(fs, ch, sc, e);
                match c_expr(fs, ch, sc, e) {
                    Ok((fs1, ch1)) => {
                        lemma_emit(ch1, OpCode::Pop);
                    },
                    Err(_) => {},
                }
            },
            _ => {},
        }
        match r {
            Ok((fs1, ch1)) => {
                lemma_c_fn_stmts(fs1, ch1, sc, body, i + 1, sibs, lr);
                match c_fn_stmts(fs1, ch1, sc, body, i + 1, sibs, lr) {
                    Ok((fs2, ch2)) => {
                        lemma_extends_trans(fs, fs1, fs2);
                    },
                    Err(_) => {},
                }
            },
            Err(_) => {},
        }
    }
}

proof fn lemma_c_decls(
    ts: Seq<TokenV>,
    p: int,
    fs: Seq<CompiledFunctionV>,
    ch: ChunkV,
    sc: ScopeV,
    ds: Seq<FuncDeclV>,
    as_locals: bool,
)
    requires
        good(fs, ch),
    ensures
        c_decls(ts, p, fs, ch, sc, ds, as_locals) matches Ok((fs2, ch2, _, _, _)) ==> good(fs2, ch2)
            && extends(fs, fs2),
    decreases ts.len() - p,
{
    if tok_at(ts, p) is Function && tok_at(ts, p + 1) is Ident {
        match g_func_decl(ts, p) {
            Ok((d, q)) => {
                if p < q && q <= ts.len() {
                    lemma_c_fn(fs, root_scope(), d);
                    match c_fn(fs, root_scope(), d) {
                        Ok((fs1, idx)) => {
                            if as_locals {
                                match declare(sc, d.name) {
                                    Ok((sc1, slot)) => {
                                        lemma_emit(ch, OpCode::MakeClosure(idx as u32));
                                        let ch1 = emit(
                                            emit(ch, OpCode::MakeClosure(idx as u32)),
                                            OpCode::StoreLocal(slot as u32),
                                        );
                                        lemma_emit(
                                            emit(ch, OpCode::MakeClosure(idx as u32)),
                                            OpCode::StoreLocal(slot as u32),
                                        );
                                        lemma_c_decls(ts, q, fs1, ch1, sc1, ds.push(d), as_locals);
                                        match c_decls(ts, q, fs1, ch1, sc1, ds.push(d), as_locals) {
                                            Ok((fs2, _, _, _, _)) => {
                                                lemma_extends_trans(fs, fs1, fs2);
                                            },
                                            Err(_) => {},
                                        }
                                    },
                                    Err(_) => {},
                                }
                            } else {
                                let (gi, gs) = intern(ch.globals, d.name);
                                let c0 = with_globals(ch, gs);
                                lemma_emit(c0, OpCode::MakeClosure(idx as u32));
                                let ch1 = emit(
                                    emit(c0, OpCode::MakeClosure(idx as u32)),
                                    OpCode::StoreGlobal(gi as u32),
                                );
                                lemma_emit(
                                    emit(c0, OpCode::MakeClosure(idx as u32)),
                                    OpCode::StoreGlobal(gi as u32),
                                );
                                lemma_c_decls(ts, q, fs1, ch1, sc, ds.push(d), as_locals);
                                match c_decls(ts, q, fs1, ch1, sc, ds.push(d), as_locals) {
                                    Ok((fs2, _, _, _, _)) => {
                                        lemma_extends_trans(fs, fs1, fs2);
                                    },
                                    Err(_) => {},
                                }
                            }
                        },
                        Err(_) => {},
                    }
                }
            },
            Err(_) => {},
        }
    }
}

/// Compiling a program keeps every jump inside its chunk, in the top-level chunk and
/// in every function, and keeps the functions compiled before as they were.
pub proof fn law_compiled_jumps_stay_in_their_chunk(
    src: Seq<char>,
    as_locals: bool,
    fs: Seq<CompiledFunctionV>,
)
    requires
        all_jumps_within(fs),
    ensures
        c_program(src, as_locals, fs) matches Ok((fs2, ch, _)) ==> all_jumps_within(fs2)
            && jumps_within(ch.code) && extends(fs, fs2),
{
    let ts = tokenize_spec(src);
    lemma_empty();
    lemma_c_decls(ts, 0, fs, empty_chunk(), root_scope(), seq![], as_locals);
    match c_decls(ts, 0, fs, empty_chunk(), root_scope(), seq![], as_locals) {
        Ok((fs1, ch1, sc1, ds, p)) => {
            lemma_emit(ch1, OpCode::Return);
            match g_cond(ts, p) {
                Ok((e, _)) => {
                    lemma_c_expr(fs1, ch1, sc1, e);
                    match c_expr(fs1, ch1, sc1, e) {
                        Ok((fs2, ch2)) => {
                            lemma_emit(ch2, OpCode::Return);
                            lemma_extends_trans(fs, fs1, fs2);
                        },
                        Err(_) => {},
                    }
                },
                Err(_) => {},
            }
        },
        Err(_) => {},
    }
}

} // verus!
