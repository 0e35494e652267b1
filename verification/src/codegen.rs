//! What the compiler emits, as functions on values: scopes, capture analysis, and
//! code generation for expressions, statements, functions and programs.
//!
//! Slot arithmetic is checked: a slot number that would not fit in `usize`, or a
//! destructuring parameter without fields in a function expression, makes
//! compilation fail (`Err(())`). Counts written into instructions are cut to the
//! instruction's width, as `as` casts do.
use vstd::prelude::*;
use crate::ast::{BinOp, ParamV, ExprV, StmtV, FuncDeclV};
use crate::opcode::{OpCode, ConstantV, ChunkV, CompiledFunctionV, intern, with_target};
use crate::lexer::{TokenV, tokenize_spec};
use crate::grammar::{tok_at, g_func_decl, g_cond};

verus! {

// ---------------------------------------------------------------------------
// Scopes
// ---------------------------------------------------------------------------

/// A scope as a value: its variables' slots, the next free slot, and the scope
/// around it.
pub struct ScopeV {
    pub parent: Option<Box<ScopeV>>,
    pub vars: Seq<(Seq<char>, usize)>,
    pub next_slot: usize,
}

/// The slot of `k` among `vars` (its first entry).
pub open spec fn lookup(vars: Seq<(Seq<char>, usize)>, k: Seq<char>) -> Option<usize>
    decreases vars.len(),
{
    if vars.len() == 0 {
        None
    } else if vars[0].0 == k {
        Some(vars[0].1)
    } else {
        lookup(vars.drop_first(), k)
    }
}

/// `vars` with `k` bound to `v`: its entry updated in place, or appended.
pub open spec fn set_var(vars: Seq<(Seq<char>, usize)>, k: Seq<char>, v: usize) -> Seq<
    (Seq<char>, usize),
>
    decreases vars.len(),
{
    if vars.len() == 0 {
        seq![(k, v)]
    } else if vars[0].0 == k {
        vars.update(0, (k, v))
    } else {
        seq![vars[0]] + set_var(vars.drop_first(), k, v)
    }
}

/// The slot of `k` in `s` or in the scopes around it.
pub open spec fn resolve(s: ScopeV, k: Seq<char>) -> Option<usize>
    decreases s,
{
    match lookup(s.vars, k) {
        Some(v) => Some(v),
        None => match s.parent {
            Some(p) => resolve(*p, k),
            None => None,
        },
    }
}

/// A fresh scope inside `parent`.
pub open spec fn scope_in(parent: ScopeV) -> ScopeV {
    ScopeV { parent: Some(Box::new(parent)), vars: seq![], next_slot: 0 }
}

/// The scope with no variables and nothing around it.
pub open spec fn root_scope() -> ScopeV {
    ScopeV { parent: None, vars: seq![], next_slot: 0 }
}

/// Declares `k` at the next free slot; the scope after and the slot.
pub open spec fn declare(s: ScopeV, k: Seq<char>) -> Result<(ScopeV, usize), ()> {
    if s.next_slot < usize::MAX {
        Ok(
            (
                ScopeV {
                    parent: s.parent,
                    vars: set_var(s.vars, k, s.next_slot),
                    next_slot: (s.next_slot + 1) as usize,
                },
                s.next_slot,
            ),
        )
    } else {
        Err(())
    }
}

/// Binds `k` to `slot`, moving the next free slot past it.
pub open spec fn declare_at(s: ScopeV, k: Seq<char>, slot: int) -> Result<ScopeV, ()> {
    if 0 <= slot < usize::MAX {
        Ok(
            ScopeV {
                parent: s.parent,
                vars: set_var(s.vars, k, slot as usize),
                next_slot: if s.next_slot > slot + 1 {
                    s.next_slot
                } else {
                    (slot + 1) as usize
                },
            },
        )
    } else {
        Err(())
    }
}

/// The one past the largest slot in `vars` (0 for none).
pub open spec fn slots_end(vars: Seq<(Seq<char>, usize)>) -> Result<usize, ()>
    decreases vars.len(),
{
    if vars.len() == 0 {
        Ok(0)
    } else {
        match slots_end(vars.drop_last()) {
            Ok(n) => {
                let v = vars.last().1;
                if v < usize::MAX {
                    Ok(
                        if n > v + 1 {
                            n
                        } else {
                            (v + 1) as usize
                        },
                    )
                } else {
                    Err(())
                }
            },
            Err(_) => Err(()),
        }
    }
}

/// The variables of `vars` whose names are not in `exclude`.
pub open spec fn kept(vars: Seq<(Seq<char>, usize)>, exclude: Seq<Seq<char>>) -> Seq<
    (Seq<char>, usize),
> {
    vars.filter(|e: (Seq<char>, usize)| !exclude.contains(e.0))
}

/// The scope `s` without the names in `exclude`, inside the same parent, with its next
/// free slot one past its largest remaining slot.
pub open spec fn without_funcs(s: ScopeV, exclude: Seq<Seq<char>>) -> Result<ScopeV, ()> {
    match slots_end(kept(s.vars, exclude)) {
        Ok(n) => Ok(ScopeV { parent: s.parent, vars: kept(s.vars, exclude), next_slot: n }),
        Err(_) => Err(()),
    }
}

// ---------------------------------------------------------------------------
// Capture analysis
// ---------------------------------------------------------------------------

/// `acc` with `n` added at its end when it is not there yet.
pub open spec fn add_name(acc: Seq<Seq<char>>, n: Seq<char>) -> Seq<Seq<char>> {
    if acc.contains(n) {
        acc
    } else {
        acc.push(n)
    }
}

/// Names that an anonymous function captures from `sc`: every name used in `e` (and
/// in the returns and expression statements of function expressions inside it) that
/// resolves in `sc`, in order of first use.
pub open spec fn cap_anon(sc: ScopeV, e: ExprV, acc: Seq<Seq<char>>) -> Seq<Seq<char>>
    decreases e, 0int,
{
    match e {
        ExprV::Ident(n) => if resolve(sc, n) is Some {
            add_name(acc, n)
        } else {
            acc
        },
        ExprV::Binary(l, _, r) => cap_anon(sc, *r, cap_anon(sc, *l, acc)),
        ExprV::Conditional(c, t, f) => cap_anon(sc, *f, cap_anon(sc, *t, cap_anon(sc, *c, acc))),
        ExprV::Call(f, args) => cap_anon_list(sc, args, 0, cap_anon(sc, *f, acc)),
        ExprV::ArrayLiteral(es) => cap_anon_list(sc, es, 0, acc),
        ExprV::ObjectLiteral(es) => cap_anon_entries(sc, es, 0, acc),
        ExprV::Index(b, i) => cap_anon(sc, *i, cap_anon(sc, *b, acc)),
        ExprV::PropAccess(o, _) => cap_anon(sc, *o, acc),
        ExprV::MethodCall(o, _, args) => cap_anon_list(sc, args, 0, cap_anon(sc, *o, acc)),
        ExprV::Function(_, body) => cap_anon_body(sc, body, 0, acc),
        ExprV::New(c, args) => cap_anon_list(sc, args, 0, cap_anon(sc, *c, acc)),
        ExprV::Spread(x) => cap_anon(sc, *x, acc),
        _ => acc,
    }
}

pub open spec fn cap_anon_list(sc: ScopeV, es: Seq<ExprV>, i: int, acc: Seq<Seq<char>>) -> Seq<
    Seq<char>,
>
    decreases es, es.len() - i,
{
    if 0 <= i < es.len() {
        cap_anon_list(sc, es, i + 1, cap_anon(sc, es[i], acc))
    } else {
        acc
    }
}

pub open spec fn cap_anon_entries(
    sc: ScopeV,
    es: Seq<(Seq<char>, ExprV)>,
    i: int,
    acc: Seq<Seq<char>>,
) -> Seq<Seq<char>>
    decreases es, es.len() - i,
{
    if 0 <= i < es.len() {
        cap_anon_entries(sc, es, i + 1, cap_anon(sc, es[i].1, acc))
    } else {
        acc
    }
}

/// The returns and expression statements of a body.
pub open spec fn cap_anon_body(sc: ScopeV, body: Seq<StmtV>, i: int, acc: Seq<Seq<char>>) -> Seq<
    Seq<char>,
>
    decreases body, body.len() - i,
{
    if 0 <= i < body.len() {
        let acc2 = match body[i] {
            StmtV::Return(e) => cap_anon(sc, e, acc),
            StmtV::Expr(e) => cap_anon(sc, e, acc),
            _ => acc,
        };
        cap_anon_body(sc, body, i + 1, acc2)
    } else {
        acc
    }
}

/// The body of an anonymous function: its returns and expression statements, and
/// those of the function declarations directly inside it.
pub open spec fn cap_anon_outer(sc: ScopeV, body: Seq<StmtV>, i: int, acc: Seq<Seq<char>>) -> Seq<
    Seq<char>,
>
    decreases body.len() - i,
{
    if 0 <= i < body.len() {
        let acc2 = match body[i] {
            StmtV::Return(e) => cap_anon(sc, e, acc),
            StmtV::Expr(e) => cap_anon(sc, e, acc),
            StmtV::FuncDecl(d) => cap_anon_body(sc, d.body, 0, acc),
            _ => acc,
        };
        cap_anon_outer(sc, body, i + 1, acc2)
    } else {
        acc
    }
}

/// The returns inside returned function expressions, at any depth.
pub open spec fn cap_returned(sc: ScopeV, e: ExprV, acc: Seq<Seq<char>>) -> Seq<Seq<char>>
    decreases e, 0int,
{
    match e {
        ExprV::Function(_, body) => cap_returned_body(sc, body, 0, acc),
        _ => acc,
    }
}

pub open spec fn cap_returned_body(
    sc: ScopeV,
    body: Seq<StmtV>,
    i: int,
    acc: Seq<Seq<char>>,
) -> Seq<Seq<char>>
    decreases body, body.len() - i,
{
    if 0 <= i < body.len() {
        let acc2 = match body[i] {
            StmtV::Return(e) => cap_returned(sc, e, cap_anon(sc, e, acc)),
            _ => acc,
        };
        cap_returned_body(sc, body, i + 1, acc2)
    } else {
        acc
    }
}

/// What an anonymous function with this body captures from `sc`.
pub open spec fn anon_captures(sc: ScopeV, body: Seq<StmtV>) -> Seq<Seq<char>> {
    cap_returned_body(sc, body, 0, cap_anon_outer(sc, body, 0, seq![]))
}

/// Names that a named function captures: like `cap_anon`, but never `skip` (its own
/// name; inside function expressions nothing is skipped) nor a name in `sibs` (the
/// functions declared beside it).
pub open spec fn cap_named(
    sc: ScopeV,
    e: ExprV,
    acc: Seq<Seq<char>>,
    skip: Seq<char>,
    sibs: Seq<Seq<char>>,
) -> Seq<Seq<char>>
    decreases e, 0int,
{
    match e {
        ExprV::Ident(n) => if n != skip && !sibs.contains(n) && resolve(sc, n) is Some {
            add_name(acc, n)
        } else {
            acc
        },
        ExprV::Binary(l, _, r) => cap_named(sc, *r, cap_named(sc, *l, acc, skip, sibs), skip, sibs),
        ExprV::Conditional(c, t, f) => cap_named(
            sc,
            *f,
            cap_named(sc, *t, cap_named(sc, *c, acc, skip, sibs), skip, sibs),
            skip,
            sibs,
        ),
        ExprV::Call(f, args) => cap_named_list(
            sc,
            args,
            0,
            cap_named(sc, *f, acc, skip, sibs),
            skip,
            sibs,
        ),
        ExprV::ArrayLiteral(es) => cap_named_list(sc, es, 0, acc, skip, sibs),
        ExprV::ObjectLiteral(es) => cap_named_entries(sc, es, 0, acc, skip, sibs),
        ExprV::Index(b, i) => cap_named(sc, *i, cap_named(sc, *b, acc, skip, sibs), skip, sibs),
        ExprV::PropAccess(o, _) => cap_named(sc, *o, acc, skip, sibs),
        ExprV::MethodCall(o, _, args) => cap_named_list(
            sc,
            args,
            0,
            cap_named(sc, *o, acc, skip, sibs),
            skip,
            sibs,
        ),
        ExprV::Function(_, body) => cap_named_body(sc, body, 0, acc, seq![], sibs),
        ExprV::New(c, args) => cap_named_list(
            sc,
            args,
            0,
            cap_named(sc, *c, acc, skip, sibs),
            skip,
            sibs,
        ),
        ExprV::Spread(x) => cap_named(sc, *x, acc, skip, sibs),
        _ => acc,
    }
}

pub open spec fn cap_named_list(
    sc: ScopeV,
    es: Seq<ExprV>,
    i: int,
    acc: Seq<Seq<char>>,
    skip: Seq<char>,
    sibs: Seq<Seq<char>>,
) -> Seq<Seq<char>>
    decreases es, es.len() - i,
{
    if 0 <= i < es.len() {
        cap_named_list(sc, es, i + 1, cap_named(sc, es[i], acc, skip, sibs), skip, sibs)
    } else {
        acc
    }
}

pub open spec fn cap_named_entries(
    sc: ScopeV,
    es: Seq<(Seq<char>, ExprV)>,
    i: int,
    acc: Seq<Seq<char>>,
    skip: Seq<char>,
    sibs: Seq<Seq<char>>,
) -> Seq<Seq<char>>
    decreases es, es.len() - i,
{
    if 0 <= i < es.len() {
        cap_named_entries(sc, es, i + 1, cap_named(sc, es[i].1, acc, skip, sibs), skip, sibs)
    } else {
        acc
    }
}

/// The returns and expression statements of a body.
pub open spec fn cap_named_body(
    sc: ScopeV,
    body: Seq<StmtV>,
    i: int,
    acc: Seq<Seq<char>>,
    skip: Seq<char>,
    sibs: Seq<Seq<char>>,
) -> Seq<Seq<char>>
    decreases body, body.len() - i,
{
    if 0 <= i < body.len() {
        let acc2 = match body[i] {
            StmtV::Return(e) => cap_named(sc, e, acc, skip, sibs),
            StmtV::Expr(e) => cap_named(sc, e, acc, skip, sibs),
            _ => acc,
        };
        cap_named_body(sc, body, i + 1, acc2, skip, sibs)
    } else {
        acc
    }
}

/// A declaration nested in a named function: its returns and expression statements,
/// and those of the declarations directly inside it.
pub open spec fn cap_nested_decl(
    sc: ScopeV,
    body: Seq<StmtV>,
    i: int,
    acc: Seq<Seq<char>>,
    skip: Seq<char>,
    sibs: Seq<Seq<char>>,
) -> Seq<Seq<char>>
    decreases body.len() - i,
{
    if 0 <= i < body.len() {
        let acc2 = match body[i] {
            StmtV::Return(e) => cap_named(sc, e, acc, skip, sibs),
            StmtV::Expr(e) => cap_named(sc, e, acc, skip, sibs),
            StmtV::FuncDecl(inner) => cap_named_body(sc, inner.body, 0, acc, skip, sibs),
            _ => acc,
        };
        cap_nested_decl(sc, body, i + 1, acc2, skip, sibs)
    } else {
        acc
    }
}

/// The statements of a named function's body.
pub open spec fn cap_named_stmts(
    sc: ScopeV,
    body: Seq<StmtV>,
    i: int,
    acc: Seq<Seq<char>>,
    skip: Seq<char>,
    sibs: Seq<Seq<char>>,
) -> Seq<Seq<char>>
    decreases body.len() - i,
{
    if 0 <= i < body.len() {
        let acc2 = match body[i] {
            StmtV::Return(e) => cap_named(sc, e, acc, skip, sibs),
            StmtV::Expr(e) => cap_named(sc, e, acc, skip, sibs),
            StmtV::FuncDecl(d) => cap_nested_decl(sc, d.body, 0, acc, skip, sibs),
            _ => acc,
        };
        cap_named_stmts(sc, body, i + 1, acc2, skip, sibs)
    } else {
        acc
    }
}

/// `names` without `name`.
pub open spec fn except(names: Seq<Seq<char>>, name: Seq<char>) -> Seq<Seq<char>> {
    names.filter(|n: Seq<char>| n != name)
}

/// The names of the function declarations in a body.
pub open spec fn decl_names(body: Seq<StmtV>, i: int) -> Seq<Seq<char>>
    decreases body.len() - i,
{
    if 0 <= i < body.len() {
        match body[i] {
            StmtV::FuncDecl(d) => seq![d.name] + decl_names(body, i + 1),
            _ => decl_names(body, i + 1),
        }
    } else {
        seq![]
    }
}


// ---------------------------------------------------------------------------
// Chunks
// ---------------------------------------------------------------------------

/// `ch` with `op` appended to its code.
pub open spec fn emit(ch: ChunkV, op: OpCode) -> ChunkV {
    ChunkV {
        code: ch.code.push(op),
        constants: ch.constants,
        properties: ch.properties,
        globals: ch.globals,
    }
}

/// `ch` with the constant `c` added and pushed.
pub open spec fn push_const(ch: ChunkV, c: ConstantV) -> ChunkV {
    emit(
        ChunkV {
            code: ch.code,
            constants: ch.constants.push(c),
            properties: ch.properties,
            globals: ch.globals,
        },
        OpCode::PushConst(ch.constants.len() as u32),
    )
}

/// `ch` with the jump at `at` aimed at the current end of the code.
pub open spec fn patch_here(ch: ChunkV, at: int) -> ChunkV {
    ChunkV {
        code: ch.code.update(at, with_target(ch.code[at], ch.code.len() as usize)),
        constants: ch.constants,
        properties: ch.properties,
        globals: ch.globals,
    }
}

pub open spec fn with_globals(ch: ChunkV, gs: Seq<Seq<char>>) -> ChunkV {
    ChunkV { code: ch.code, constants: ch.constants, properties: ch.properties, globals: gs }
}

pub open spec fn with_properties(ch: ChunkV, ps: Seq<Seq<char>>) -> ChunkV {
    ChunkV { code: ch.code, constants: ch.constants, properties: ps, globals: ch.globals }
}

/// The empty chunk.
pub open spec fn empty_chunk() -> ChunkV {
    ChunkV { code: seq![], constants: seq![], properties: seq![], globals: seq![] }
}

/// The instruction for an arithmetic or comparison operator.
pub open spec fn op_code(op: BinOp) -> OpCode {
    match op {
        BinOp::Add => OpCode::Add,
        BinOp::Sub => OpCode::Sub,
        BinOp::Mul => OpCode::Mul,
        BinOp::Div => OpCode::Div,
        BinOp::Mod => OpCode::Mod,
        BinOp::Eq => OpCode::Eq,
        BinOp::Ne => OpCode::Ne,
        BinOp::Lt => OpCode::Lt,
        BinOp::Gt => OpCode::Gt,
        BinOp::Le => OpCode::Le,
        BinOp::Ge => OpCode::Ge,
        BinOp::And => OpCode::Ge,
        BinOp::Or => OpCode::Ge,
    }
}

/// The number of items that are not spreads.
pub open spec fn non_spread_count(es: Seq<ExprV>) -> nat
    decreases es.len(),
{
    if es.len() == 0 {
        0
    } else {
        non_spread_count(es.drop_last()) + if es.last() is Spread {
            0nat
        } else {
            1nat
        }
    }
}

/// Whether any item is a spread.
pub open spec fn has_spread(es: Seq<ExprV>) -> bool {
    exists|i: int| 0 <= i < es.len() && #[trigger] es[i] is Spread
}

/// The name under which anonymous functions are compiled.
pub open spec fn anonymous_name() -> Seq<char> {
    seq!['<', 'a', 'n', 'o', 'n', 'y', 'm', 'o', 'u', 's', '>']
}

/// The name `Promise`.
pub open spec fn promise_name() -> Seq<char> {
    seq!['P', 'r', 'o', 'm', 'i', 's', 'e']
}

// ---------------------------------------------------------------------------
// Parameters and captured slots
// ---------------------------------------------------------------------------

/// The number of frame slots a parameter takes: one for a name or a rest parameter,
/// one per field for a destructuring.
pub open spec fn param_width(p: ParamV) -> int {
    match p {
        ParamV::Destructure(fs) => fs.len() as int,
        _ => 1,
    }
}

/// The number of slots that the first `k` parameters take together: where the
/// parameter at `k` starts, counted from the first parameter's slot.
pub open spec fn slots_before(params: Seq<ParamV>, k: int) -> int
    decreases k,
{
    if k <= 0 || k > params.len() {
        0
    } else {
        slots_before(params, k - 1) + param_width(params[k - 1])
    }
}

/// The slots before a parameter never decrease along the list.
pub proof fn lemma_slots_before_grow(params: Seq<ParamV>, k1: int, k2: int)
    requires
        0 <= k1 <= k2 <= params.len(),
    ensures
        slots_before(params, k1) <= slots_before(params, k2),
    decreases k2 - k1,
{
    if k1 < k2 {
        lemma_slots_before_grow(params, k1, k2 - 1);
        assert(param_width(params[k2 - 1]) >= 0);
    }
}

/// The number of slots that all the parameters take; `Err` when it does not fit.
pub open spec fn param_slots(params: Seq<ParamV>) -> Result<usize, ()> {
    let n = slots_before(params, params.len() as int);
    if n <= usize::MAX {
        Ok(n as usize)
    } else {
        Err(())
    }
}

/// Declares each of `names` from `j` on at the next free slots.
pub open spec fn declare_each(s: ScopeV, names: Seq<Seq<char>>, j: int) -> Result<ScopeV, ()>
    decreases names.len() - j,
{
    if 0 <= j < names.len() {
        match declare(s, names[j]) {
            Ok((s1, _)) => declare_each(s1, names, j + 1),
            Err(_) => Err(()),
        }
    } else {
        Ok(s)
    }
}

/// An anonymous function's parameters from `i` on, declared in order; the scope, the
/// rest parameter's index and the destructured parameters.
pub open spec fn anon_params(
    s: ScopeV,
    params: Seq<ParamV>,
    i: int,
    rest: Option<usize>,
    destr: Seq<(usize, Seq<Seq<char>>)>,
) -> Result<(ScopeV, Option<usize>, Seq<(usize, Seq<Seq<char>>)>), ()>
    decreases params.len() - i,
{
    if 0 <= i < params.len() {
        match params[i] {
            ParamV::Name(n) => match declare(s, n) {
                Ok((s1, _)) => anon_params(s1, params, i + 1, rest, destr),
                Err(_) => Err(()),
            },
            ParamV::Destructure(fs) => {
                if fs.len() == 0 {
                    Err(())
                } else {
                    match declare_each(s, fs, 0) {
                        Ok(s1) => anon_params(s1, params, i + 1, rest, destr.push((i as usize, fs))),
                        Err(_) => Err(()),
                    }
                }
            },
            ParamV::Rest(n) => match declare(s, n) {
                Ok((s1, _)) => anon_params(s1, params, i + 1, Some(i as usize), destr),
                Err(_) => Err(()),
            },
        }
    } else {
        Ok((s, rest, destr))
    }
}

/// Binds the captured names from `i` on to the slots after the parameters (`total + i`),
/// recording `(slot in outer, slot here)` for each.
pub open spec fn anon_cap_slots(
    outer: ScopeV,
    s: ScopeV,
    caps: Seq<Seq<char>>,
    i: int,
    total: usize,
    slots: Seq<(usize, usize)>,
) -> Result<(ScopeV, Seq<(usize, usize)>), ()>
    decreases caps.len() - i,
{
    if 0 <= i < caps.len() {
        let from = match resolve(outer, caps[i]) {
            Some(v) => v,
            None => 0,
        };
        let slot = total + i;
        if slot < usize::MAX {
            let s1 = ScopeV {
                parent: s.parent,
                vars: set_var(s.vars, caps[i], slot as usize),
                next_slot: if s.next_slot > slot + 1 {
                    s.next_slot
                } else {
                    (slot + 1) as usize
                },
            };
            anon_cap_slots(outer, s1, caps, i + 1, total, slots.push((from, slot as usize)))
        } else {
            Err(())
        }
    } else {
        Ok((s, slots))
    }
}

/// Binds each of `fields` from `j` on to `base + j`.
pub open spec fn declare_fields_at(s: ScopeV, fields: Seq<Seq<char>>, j: int, base: int) -> Result<
    ScopeV,
    (),
>
    decreases fields.len() - j,
{
    if 0 <= j < fields.len() {
        match declare_at(s, fields[j], base + j) {
            Ok(s1) => declare_fields_at(s1, fields, j + 1, base),
            Err(_) => Err(()),
        }
    } else {
        Ok(s)
    }
}

/// A named function's parameters from `i` on, the parameter at `i` starting at slot
/// `at`: a name or rest parameter takes that slot, a destructuring's fields take the
/// slots from it on, and the next parameter starts after them.
pub open spec fn named_params(
    s: ScopeV,
    params: Seq<ParamV>,
    i: int,
    at: int,
    rest: Option<usize>,
    destr: Seq<(usize, Seq<Seq<char>>)>,
) -> Result<(ScopeV, Option<usize>, Seq<(usize, Seq<Seq<char>>)>), ()>
    decreases params.len() - i,
{
    if 0 <= i < params.len() {
        match params[i] {
            ParamV::Name(n) => match declare_at(s, n, at) {
                Ok(s1) => named_params(s1, params, i + 1, at + 1, rest, destr),
                Err(_) => Err(()),
            },
            ParamV::Destructure(fs) => match declare_fields_at(s, fs, 0, at) {
                Ok(s1) => named_params(
                    s1,
                    params,
                    i + 1,
                    at + fs.len(),
                    rest,
                    destr.push((i as usize, fs)),
                ),
                Err(_) => Err(()),
            },
            ParamV::Rest(n) => match declare_at(s, n, at) {
                Ok(s1) => named_params(s1, params, i + 1, at + 1, Some(i as usize), destr),
                Err(_) => Err(()),
            },
        }
    } else {
        Ok((s, rest, destr))
    }
}

/// Binds the captured names from `i` on that are not already local to the next slots
/// from `base + k` (`k` counting the ones bound so far).
pub open spec fn named_cap_slots(
    s: ScopeV,
    caps: Seq<Seq<char>>,
    i: int,
    base: int,
    k: int,
    slots: Seq<(usize, usize)>,
) -> Result<(ScopeV, Seq<(usize, usize)>), ()>
    decreases caps.len() - i,
{
    if 0 <= i < caps.len() {
        if lookup(s.vars, caps[i]) is Some {
            named_cap_slots(s, caps, i + 1, base, k, slots)
        } else {
            let from = match resolve(s, caps[i]) {
                Some(v) => v,
                None => 0,
            };
            let slot = base + k;
            if 0 <= slot < usize::MAX {
                let s1 = ScopeV {
                    parent: s.parent,
                    vars: set_var(s.vars, caps[i], slot as usize),
                    next_slot: if s.next_slot > slot + 1 {
                        s.next_slot
                    } else {
                        (slot + 1) as usize
                    },
                };
                named_cap_slots(s1, caps, i + 1, base, k + 1, slots.push((from, slot as usize)))
            } else {
                Err(())
            }
        }
    } else {
        Ok((s, slots))
    }
}

/// Declares the names of the function declarations in a body from `i` on.
pub open spec fn declare_decls(s: ScopeV, body: Seq<StmtV>, i: int) -> Result<ScopeV, ()>
    decreases body.len() - i,
{
    if 0 <= i < body.len() {
        match body[i] {
            StmtV::FuncDecl(d) => match declare(s, d.name) {
                Ok((s1, _)) => declare_decls(s1, body, i + 1),
                Err(_) => Err(()),
            },
            _ => declare_decls(s, body, i + 1),
        }
    } else {
        Ok(s)
    }
}

/// The index of the last return statement before `i`.
pub open spec fn last_return(body: Seq<StmtV>, i: int) -> Option<int>
    decreases i,
{
    if 0 < i <= body.len() {
        if body[i - 1] is Return {
            Some(i - 1)
        } else {
            last_return(body, i - 1)
        }
    } else {
        None
    }
}

// ---------------------------------------------------------------------------
// Code generation
// ---------------------------------------------------------------------------

/// The compiled functions and the chunk after compiling something.
pub type CR = Result<(Seq<CompiledFunctionV>, ChunkV), ()>;

/// Compiles `e` in scope `sc`, appending to `ch` (and to `fs` for the functions
/// inside it).
pub open spec fn c_expr(fs: Seq<CompiledFunctionV>, ch: ChunkV, sc: ScopeV, e: ExprV) -> CR
    decreases e, 0int,
{
    match e {
        ExprV::Number(n) => Ok((fs, push_const(ch, ConstantV::Number(n)))),
        ExprV::Str(s) => Ok((fs, push_const(ch, ConstantV::Str(s)))),
        ExprV::Ident(n) => match resolve(sc, n) {
            Some(slot) => Ok((fs, emit(ch, OpCode::LoadLocal(slot as u32)))),
            None => {
                let (gi, gs) = intern(ch.globals, n);
                Ok((fs, emit(with_globals(ch, gs), OpCode::LoadGlobal(gi as u32))))
            },
        },
        ExprV::Binary(l, op, r) => {
            if op == BinOp::And || op == BinOp::Or {
                match c_expr(fs, ch, sc, *l) {
                    Ok((fs1, ch1)) => {
                        let ch2 = emit(ch1, OpCode::Dup);
                        let j = ch2.code.len() as int;
                        let jump = if op == BinOp::And {
                            OpCode::JumpIfFalsePop(0)
                        } else {
                            OpCode::JumpIfTruePop(0)
                        };
                        let ch3 = emit(emit(ch2, jump), OpCode::Pop);
                        match c_expr(fs1, ch3, sc, *r) {
                            Ok((fs2, ch4)) => Ok((fs2, emit(patch_here(ch4, j), OpCode::ToBool))),
                            Err(_) => Err(()),
                        }
                    },
                    Err(_) => Err(()),
                }
            } else {
                match c_expr(fs, ch, sc, *l) {
                    Ok((fs1, ch1)) => match c_expr(fs1, ch1, sc, *r) {
                        Ok((fs2, ch2)) => Ok((fs2, emit(ch2, op_code(op)))),
                        Err(_) => Err(()),
                    },
                    Err(_) => Err(()),
                }
            }
        },
        ExprV::Conditional(c, t, f) => match c_expr(fs, ch, sc, *c) {
            Ok((fs1, ch1)) => {
                let j = ch1.code.len() as int;
                match c_expr(fs1, emit(ch1, OpCode::JumpIfFalsePop(0)), sc, *t) {
                    Ok((fs2, ch3)) => {
                        let k = ch3.code.len() as int;
                        let ch4 = patch_here(emit(ch3, OpCode::Jump(0)), j);
                        match c_expr(fs2, ch4, sc, *f) {
                            Ok((fs3, ch5)) => Ok((fs3, patch_here(ch5, k))),
                            Err(_) => Err(()),
                        }
                    },
                    Err(_) => Err(()),
                }
            },
            Err(_) => Err(()),
        },
        ExprV::Call(f, args) => match c_expr(fs, ch, sc, *f) {
            Ok((fs1, ch1)) => match c_items(fs1, ch1, sc, args, 0) {
                Ok((fs2, ch2)) => {
                    if has_spread(args) {
                        Ok((fs2, emit(ch2, OpCode::CallSpread(non_spread_count(args) as u16))))
                    } else {
                        Ok((fs2, emit(ch2, OpCode::Call(args.len() as u16))))
                    }
                },
                Err(_) => Err(()),
            },
            Err(_) => Err(()),
        },
        ExprV::Function(params, body) => match c_anon(fs, sc, params, body) {
            Ok((fs1, idx)) => Ok((fs1, emit(ch, OpCode::MakeClosure(idx as u32)))),
            Err(_) => Err(()),
        },
        ExprV::ArrayLiteral(es) => match c_items(fs, emit(ch, OpCode::PushDepthMarker), sc, es, 0) {
            Ok((fs1, ch1)) => Ok((fs1, emit(ch1, OpCode::MakeArray))),
            Err(_) => Err(()),
        },
        ExprV::ObjectLiteral(es) => match c_entries(fs, ch, sc, es, 0) {
            Ok((fs1, ch1)) => Ok((fs1, emit(ch1, OpCode::MakeObject(es.len() as u16)))),
            Err(_) => Err(()),
        },
        ExprV::Index(b, i) => match c_expr(fs, ch, sc, *b) {
            Ok((fs1, ch1)) => match c_expr(fs1, ch1, sc, *i) {
                Ok((fs2, ch2)) => Ok((fs2, emit(ch2, OpCode::Index))),
                Err(_) => Err(()),
            },
            Err(_) => Err(()),
        },
        ExprV::PropAccess(o, p) => match c_expr(fs, ch, sc, *o) {
            Ok((fs1, ch1)) => {
                let (pi, ps) = intern(ch1.properties, p);
                Ok((fs1, emit(with_properties(ch1, ps), OpCode::GetProperty(pi as u32))))
            },
            Err(_) => Err(()),
        },
        ExprV::MethodCall(o, m, args) => match c_expr(fs, ch, sc, *o) {
            Ok((fs1, ch1)) => match c_plain(fs1, push_const(ch1, ConstantV::Str(m)), sc, args, 0) {
                Ok((fs2, ch2)) => Ok((fs2, emit(ch2, OpCode::MethodCall(args.len() as u16)))),
                Err(_) => Err(()),
            },
            Err(_) => Err(()),
        },
        ExprV::Spread(_) => Ok((fs, ch)),
        ExprV::New(c, args) => {
            if *c == ExprV::Ident(promise_name()) && args.len() > 0 {
                match c_expr(fs, ch, sc, args[0]) {
                    Ok((fs1, ch1)) => Ok((fs1, emit(ch1, OpCode::MakePromise))),
                    Err(_) => Err(()),
                }
            } else {
                match c_expr(fs, ch, sc, *c) {
                    Ok((fs1, ch1)) => match c_plain(fs1, ch1, sc, args, 0) {
                        Ok((fs2, ch2)) => Ok((fs2, emit(ch2, OpCode::Call(args.len() as u16)))),
                        Err(_) => Err(()),
                    },
                    Err(_) => Err(()),
                }
            }
        },
    }
}

/// Arguments or array elements from `i` on: a spread compiles its operand, then
/// `Spread`.
pub open spec fn c_items(fs: Seq<CompiledFunctionV>, ch: ChunkV, sc: ScopeV, es: Seq<ExprV>, i: int) -> CR
    decreases es, es.len() - i,
{
    if 0 <= i < es.len() {
        let r = match es[i] {
            ExprV::Spread(x) => match c_expr(fs, ch, sc, *x) {
                Ok((fs1, ch1)) => Ok((fs1, emit(ch1, OpCode::Spread))),
                Err(_) => Err(()),
            },
            _ => c_expr(fs, ch, sc, es[i]),
        };
        match r {
            Ok((fs1, ch1)) => c_items(fs1, ch1, sc, es, i + 1),
            Err(_) => Err(()),
        }
    } else {
        Ok((fs, ch))
    }
}

/// Expressions from `i` on, one after another.
pub open spec fn c_plain(fs: Seq<CompiledFunctionV>, ch: ChunkV, sc: ScopeV, es: Seq<ExprV>, i: int) -> CR
    decreases es, es.len() - i,
{
    if 0 <= i < es.len() {
        match c_expr(fs, ch, sc, es[i]) {
            Ok((fs1, ch1)) => c_plain(fs1, ch1, sc, es, i + 1),
            Err(_) => Err(()),
        }
    } else {
        Ok((fs, ch))
    }
}

/// Object entries from `i` on: each key pushed as a string constant, then its value.
pub open spec fn c_entries(
    fs: Seq<CompiledFunctionV>,
    ch: ChunkV,
    sc: ScopeV,
    es: Seq<(Seq<char>, ExprV)>,
    i: int,
) -> CR
    decreases es, es.len() - i,
{
    if 0 <= i < es.len() {
        match c_expr(fs, push_const(ch, ConstantV::Str(es[i].0)), sc, es[i].1) {
            Ok((fs1, ch1)) => c_entries(fs1, ch1, sc, es, i + 1),
            Err(_) => Err(()),
        }
    } else {
        Ok((fs, ch))
    }
}

/// An anonymous function expression: compiles it into a new function (appended to
/// `fs`) and gives its index.
pub open spec fn c_anon(fs: Seq<CompiledFunctionV>, sc: ScopeV, params: Seq<ParamV>, body: Seq<StmtV>) -> Result<
    (Seq<CompiledFunctionV>, usize),
    (),
>
    decreases body, body.len() + 1,
{
    let caps = anon_captures(sc, body);
    match anon_params(scope_in(sc), params, 0, None, seq![]) {
        Ok((s1, rest, destr)) => match param_slots(params) {
            Ok(total) => match anon_cap_slots(sc, s1, caps, 0, total, seq![]) {
                Ok((s2, slots)) => match c_anon_stmts(fs, empty_chunk(), s2, body, 0) {
                    Ok((fs1, ch1, _)) => {
                        let ch2 = if ch1.code.len() == 0 || ch1.code.last() != OpCode::Return {
                            emit(ch1, OpCode::Return)
                        } else {
                            ch1
                        };
                        let f = CompiledFunctionV {
                            chunk: ch2,
                            param_count: params.len() as usize,
                            name: anonymous_name(),
                            captured_slots: slots,
                            rest_slot: rest,
                            destructured_params: destr,
                            param_offset: 0,
                            nesting_depth: 1,
                        };
                        Ok((fs1.push(f), fs1.len() as usize))
                    },
                    Err(_) => Err(()),
                },
                Err(_) => Err(()),
            },
            Err(_) => Err(()),
        },
        Err(_) => Err(()),
    }
}

/// The statements of an anonymous function from `i` on.
pub open spec fn c_anon_stmts(
    fs: Seq<CompiledFunctionV>,
    ch: ChunkV,
    sc: ScopeV,
    body: Seq<StmtV>,
    i: int,
) -> Result<(Seq<CompiledFunctionV>, ChunkV, ScopeV), ()>
    decreases body, body.len() - i,
{
    if 0 <= i < body.len() {
        match c_stmt(fs, ch, sc, body[i]) {
            Ok((fs1, ch1, sc1)) => c_anon_stmts(fs1, ch1, sc1, body, i + 1),
            Err(_) => Err(()),
        }
    } else {
        Ok((fs, ch, sc))
    }
}

/// A statement of an anonymous function: a declaration is compiled as a function
/// (inside `sc` without re-numbering) and stored in a new local; a return returns;
/// an expression statement is evaluated and dropped.
pub open spec fn c_stmt(fs: Seq<CompiledFunctionV>, ch: ChunkV, sc: ScopeV, st: StmtV) -> Result<
    (Seq<CompiledFunctionV>, ChunkV, ScopeV),
    (),
>
    decreases st, 0int,
{
    match st {
        StmtV::FuncDecl(d) => match without_funcs(sc, seq![]) {
            Ok(filtered) => match c_fn(fs, filtered, d) {
                Ok((fs1, idx)) => match declare(sc, d.name) {
                    Ok((sc1, slot)) => Ok(
                        (
                            fs1,
                            emit(
                                emit(ch, OpCode::MakeClosure(idx as u32)),
                                OpCode::StoreLocal(slot as u32),
                            ),
                            sc1,
                        ),
                    ),
                    Err(_) => Err(()),
                },
                Err(_) => Err(()),
            },
            Err(_) => Err(()),
        },
        StmtV::Return(e) => match c_expr(fs, ch, sc, e) {
            Ok((fs1, ch1)) => Ok((fs1, emit(ch1, OpCode::Return), sc)),
            Err(_) => Err(()),
        },
        StmtV::Expr(e) => match c_expr(fs, ch, sc, e) {
            Ok((fs1, ch1)) => Ok((fs1, emit(ch1, OpCode::Pop), sc)),
            Err(_) => Err(()),
        },
        _ => Ok((fs, ch, sc)),
    }
}

/// A named function declaration inside `parent`: compiled into a new function
/// (after the ones inside it) whose index is returned.
pub open spec fn c_fn(fs: Seq<CompiledFunctionV>, parent: ScopeV, d: FuncDeclV) -> Result<
    (Seq<CompiledFunctionV>, usize),
    (),
>
    decreases d, 0int,
{
    let nesting: usize = if parent.parent is Some {
        1
    } else {
        0
    };
    let off: int = if d.name.len() == 0 {
        0
    } else {
        1
    };
    match named_params(scope_in(parent), d.params, 0, off, None, seq![]) {
        Ok((s1, rest, destr)) => {
            let s2 = if off > 0 {
                ScopeV { parent: s1.parent, vars: set_var(s1.vars, d.name, 0), next_slot: s1.next_slot }
            } else {
                s1
            };
            match param_slots(d.params) {
                Ok(total) => {
                    let sibs = decl_names(d.body, 0);
                    let caps = cap_named_stmts(s2, d.body, 0, seq![], d.name, sibs);
                    match named_cap_slots(s2, caps, 0, off + total, 0, seq![]) {
                        Ok((s3, slots)) => match declare_decls(s3, d.body, 0) {
                            Ok(s4) => {
                                let lr = last_return(d.body, d.body.len() as int);
                                match c_fn_stmts(fs, empty_chunk(), s4, d.body, 0, sibs, lr) {
                                    Ok((fs1, ch1)) => {
                                        let ch2 = if lr is None {
                                            emit(push_const(ch1, ConstantV::Bool(true)), OpCode::Return)
                                        } else {
                                            ch1
                                        };
                                        let f = CompiledFunctionV {
                                            chunk: ch2,
                                            param_count: d.params.len() as usize,
                                            name: d.name,
                                            captured_slots: slots,
                                            rest_slot: rest,
                                            destructured_params: destr,
                                            param_offset: off as usize,
                                            nesting_depth: nesting,
                                        };
                                        Ok((fs1.push(f), fs1.len() as usize))
                                    },
                                    Err(_) => Err(()),
                                }
                            },
                            Err(_) => Err(()),
                        },
                        Err(_) => Err(()),
                    }
                },
                Err(_) => Err(()),
            }
        },
        Err(_) => Err(()),
    }
}

/// The statements of a named function from `i` on. A nested declaration is compiled
/// inside this scope without the other declarations beside it and stored in its
/// local; only the last return returns (earlier ones drop their value).
pub open spec fn c_fn_stmts(
    fs: Seq<CompiledFunctionV>,
    ch: ChunkV,
    sc: ScopeV,
    body: Seq<StmtV>,
    i: int,
    sibs: Seq<Seq<char>>,
    lr: Option<int>,
) -> CR
    decreases body, body.len() - i,
{
    if 0 <= i < body.len() {
        let r: CR = match body[i] {
            StmtV::FuncDecl(nested) => {
                match without_funcs(sc, except(sibs, nested.name)) {
                    Ok(filtered) => match c_fn(fs, filtered, nested) {
                        Ok((fs1, idx)) => match lookup(sc.vars, nested.name) {
                            Some(slot) => Ok(
                                (
                                    fs1,
                                    emit(
                                        emit(ch, OpCode::MakeClosure(idx as u32)),
                                        OpCode::StoreLocal(slot as u32),
                                    ),
                                ),
                            ),
                            None => Err(()),
                        },
                        Err(_) => Err(()),
                    },
                    Err(_) => Err(()),
                }
            },
            StmtV::Return(e) => match c_expr(fs, ch, sc, e) {
                Ok((fs1, ch1)) => Ok(
                    (
                        fs1,
                        emit(
                            ch1,
                            if lr == Some(i) {
                                OpCode::Return
                            } else {
                                OpCode::Pop
                            },
                        ),
                    ),
                ),
                Err(_) => Err(()),
            },
            StmtV::Expr(e) => match c_expr(fs, ch, sc, e) {
                Ok((fs1, ch1)) => Ok((fs1, emit(ch1, OpCode::Pop))),
                Err(_) => Err(()),
            },
            _ => Ok((fs, ch)),
        };
        match r {
            Ok((fs1, ch1)) => c_fn_stmts(fs1, ch1, sc, body, i + 1, sibs, lr),
            Err(_) => Err(()),
        }
    } else {
        Ok((fs, ch))
    }
}

// ---------------------------------------------------------------------------
// Programs
// ---------------------------------------------------------------------------

/// The function declarations that open a program, from token `p` on: each compiled
/// at top level and stored in a local (`as_locals`) or in the global of its name.
/// The state after them and the position where they end.
pub open spec fn c_decls(
    ts: Seq<TokenV>,
    p: int,
    fs: Seq<CompiledFunctionV>,
    ch: ChunkV,
    sc: ScopeV,
    ds: Seq<FuncDeclV>,
    as_locals: bool,
) -> Result<(Seq<CompiledFunctionV>, ChunkV, ScopeV, Seq<FuncDeclV>, int), Option<(Seq<char>, Seq<CompiledFunctionV>)>>
    decreases ts.len() - p,
{
    if tok_at(ts, p) is Function && tok_at(ts, p + 1) is Ident {
        match g_func_decl(ts, p) {
            Ok((d, q)) => {
                if p < q && q <= ts.len() {
                    match c_fn(fs, root_scope(), d) {
                        Ok((fs1, idx)) => {
                            if as_locals {
                                match declare(sc, d.name) {
                                    Ok((sc1, slot)) => c_decls(
                                        ts,
                                        q,
                                        fs1,
                                        emit(
                                            emit(ch, OpCode::MakeClosure(idx as u32)),
                                            OpCode::StoreLocal(slot as u32),
                                        ),
                                        sc1,
                                        ds.push(d),
                                        as_locals,
                                    ),
                                    Err(_) => Err(None),
                                }
                            } else {
                                let (gi, gs) = intern(ch.globals, d.name);
                                c_decls(
                                    ts,
                                    q,
                                    fs1,
                                    emit(
                                        emit(with_globals(ch, gs), OpCode::MakeClosure(idx as u32)),
                                        OpCode::StoreGlobal(gi as u32),
                                    ),
                                    sc,
                                    ds.push(d),
                                    as_locals,
                                )
                            }
                        },
                        Err(_) => Err(None),
                    }
                } else {
                    Err(None)
                }
            },
            Err((m, _)) => Err(Some((m, fs))),
        }
    } else {
        Ok((fs, ch, sc, ds, p))
    }
}

/// A program: its opening function declarations, then an optional expression, then
/// `Return`. The functions, the top-level chunk and the declarations; or, where the
/// program does not parse, the parser's message with the functions compiled before
/// the parser stopped (`Some`); `None` where a limit of the machine is reached.
pub open spec fn c_program(src: Seq<char>, as_locals: bool, fs: Seq<CompiledFunctionV>) -> Result<
    (Seq<CompiledFunctionV>, ChunkV, Seq<FuncDeclV>),
    Option<(Seq<char>, Seq<CompiledFunctionV>)>,
> {
    let ts = tokenize_spec(src);
    if ts.len() >= usize::MAX - 1 {
        Err(None)
    } else {
        c_finish(ts, c_decls(ts, 0, fs, empty_chunk(), root_scope(), seq![], as_locals))
    }
}

/// After the opening declarations: the optional expression, then `Return`.
pub open spec fn c_finish(
    ts: Seq<TokenV>,
    r: Result<(Seq<CompiledFunctionV>, ChunkV, ScopeV, Seq<FuncDeclV>, int), Option<(Seq<char>, Seq<CompiledFunctionV>)>>,
) -> Result<(Seq<CompiledFunctionV>, ChunkV, Seq<FuncDeclV>), Option<(Seq<char>, Seq<CompiledFunctionV>)>> {
    match r {
        Ok((fs1, ch1, sc1, ds, p)) => {
            if tok_at(ts, p) is EOF {
                Ok((fs1, emit(ch1, OpCode::Return), ds))
            } else {
                match g_cond(ts, p) {
                    Ok((e, _)) => match c_expr(fs1, ch1, sc1, e) {
                        Ok((fs2, ch2)) => Ok((fs2, emit(ch2, OpCode::Return), ds)),
                        Err(_) => Err(None),
                    },
                    Err((m, _)) => Err(Some((m, fs1))),
                }
            }
        },
        Err(e) => Err(e),
    }
}

} // verus!
