//! The layout of a compiled function's frame: slot 0 holds a named function itself,
//! the parameters follow it (a name or rest parameter in one slot, each field of a
//! destructuring in a slot of its own), and the captured variables come after all
//! of them, one slot each, in the order they were found.
use vstd::prelude::*;
use crate::ast::{ParamV, StmtV, FuncDeclV};
use crate::codegen::{
    ScopeV, param_width, slots_before, param_slots, lemma_slots_before_grow, named_cap_slots,
    anon_cap_slots, c_fn, c_anon, lookup, set_var, declare_at, declare_fields_at, named_params,
    declare, declare_each, anon_params, resolve,
};
use crate::opcode::CompiledFunctionV;

verus! {

/// Two different slots of the parameters, the `j`-th of parameter `k` and the `m`-th
/// of parameter `l`, are different frame slots, and every one of them comes before
/// the slot where the captured variables start.
pub proof fn law_parameter_slots_are_distinct(params: Seq<ParamV>, k: int, j: int, l: int, m: int)
    requires
        0 <= k < params.len(),
        0 <= j < param_width(params[k]),
        0 <= l < params.len(),
        0 <= m < param_width(params[l]),
        k != l || j != m,
    ensures
        slots_before(params, k) + j != slots_before(params, l) + m,
        slots_before(params, k) + j < slots_before(params, params.len() as int),
{
    lemma_slots_before_grow(params, k + 1, params.len() as int);
    lemma_slots_before_grow(params, l + 1, params.len() as int);
    if k < l {
        lemma_slots_before_grow(params, k + 1, l);
    } else if l < k {
        lemma_slots_before_grow(params, l + 1, k);
    }
}

proof fn lemma_named_cap_slots(
    s: ScopeV,
    caps: Seq<Seq<char>>,
    i: int,
    base: int,
    k: int,
    slots: Seq<(usize, usize)>,
)
    requires
        slots.len() == k,
        forall|t: int| 0 <= t < slots.len() ==> slots[t].1 == base + t,
    ensures
        named_cap_slots(s, caps, i, base, k, slots) matches Ok((_, out)) ==> forall|t: int|
            0 <= t < out.len() ==> out[t].1 == base + t,
    decreases caps.len() - i,
{
    if 0 <= i < caps.len() {
        if crate::codegen::lookup(s.vars, caps[i]) is Some {
            lemma_named_cap_slots(s, caps, i + 1, base, k, slots);
        } else {
            let from = match crate::codegen::resolve(s, caps[i]) {
                Some(v) => v,
                None => 0,
            };
            let slot = base + k;
            if 0 <= slot < usize::MAX {
                let s1 = ScopeV {
                    parent: s.parent,
                    vars: crate::codegen::set_var(s.vars, caps[i], slot as usize),
                    next_slot: if s.next_slot > slot + 1 {
                        s.next_slot
                    } else {
                        (slot + 1) as usize
                    },
                };
                let sl2 = slots.push((from, slot as usize));
                assert forall|t: int| 0 <= t < sl2.len() implies sl2[t].1 == base + t by {
                    if t < slots.len() {
                        assert(sl2[t] == slots[t]);
                    }
                }
                lemma_named_cap_slots(s1, caps, i + 1, base, k + 1, sl2);
            }
        }
    }
}

proof fn lemma_anon_cap_slots(
    outer: ScopeV,
    s: ScopeV,
    caps: Seq<Seq<char>>,
    i: int,
    total: usize,
    slots: Seq<(usize, usize)>,
)
    requires
        0 <= i,
        slots.len() == i,
        forall|t: int| 0 <= t < slots.len() ==> slots[t].1 == total + t,
    ensures
        anon_cap_slots(outer, s, caps, i, total, slots) matches Ok((_, out)) ==> forall|t: int|
            0 <= t < out.len() ==> out[t].1 == total + t,
    decreases caps.len() - i,
{
    if 0 <= i < caps.len() {
        let from = match crate::codegen::resolve(outer, caps[i]) {
            Some(v) => v,
            None => 0,
        };
        let slot = total + i;
        if slot < usize::MAX {
            let s1 = ScopeV {
                parent: s.parent,
                vars: crate::codegen::set_var(s.vars, caps[i], slot as usize),
                next_slot: if s.next_slot > slot + 1 {
                    s.next_slot
                } else {
                    (slot + 1) as usize
                },
            };
            let sl2 = slots.push((from, slot as usize));
            assert forall|t: int| 0 <= t < sl2.len() implies sl2[t].1 == total + t by {
                if t < slots.len() {
                    assert(sl2[t] == slots[t]);
                }
            }
            lemma_anon_cap_slots(outer, s1, caps, i + 1, total, sl2);
        }
    }
}

/// The slot of `x` in the scope `p` (if any) or around it.
pub open spec fn resolve_in(p: Option<Box<ScopeV>>, x: Seq<char>) -> Option<usize> {
    match p {
        Some(q) => resolve(*q, x),
        None => None,
    }
}

/// A slot, or 0 for a name that resolves nowhere.
pub open spec fn or_zero(o: Option<usize>) -> usize {
    match o {
        Some(v) => v,
        None => 0,
    }
}

/// The names from `caps[i..]` that binding captured names (`named_cap_slots`) gives
/// new slots to, in order: those that are not local yet.
pub open spec fn bound_caps(s: ScopeV, caps: Seq<Seq<char>>, i: int, base: int, k: int) -> Seq<
    Seq<char>,
>
    decreases caps.len() - i,
{
    if 0 <= i < caps.len() {
        if lookup(s.vars, caps[i]) is Some {
            bound_caps(s, caps, i + 1, base, k)
        } else {
            let slot = base + k;
            if 0 <= slot < usize::MAX {
                let s1 = ScopeV {
                    parent: s.parent,
                    vars: set_var(s.vars, caps[i], slot as usize),
                    next_slot: if s.next_slot > slot + 1 {
                        s.next_slot
                    } else {
                        (slot + 1) as usize
                    },
                };
                seq![caps[i]] + bound_caps(s1, caps, i + 1, base, k + 1)
            } else {
                seq![]
            }
        }
    } else {
        seq![]
    }
}

/// The scope of a named function's body before its captured names are bound: its
/// parameters, and its own name at slot 0.
pub open spec fn params_scope(parent: ScopeV, d: FuncDeclV) -> ScopeV {
    let off: int = if d.name.len() == 0 {
        0
    } else {
        1
    };
    match named_params(crate::codegen::scope_in(parent), d.params, 0, off, None, seq![]) {
        Ok((s1, _, _)) => if off > 0 {
            ScopeV { parent: s1.parent, vars: set_var(s1.vars, d.name, 0), next_slot: s1.next_slot }
        } else {
            s1
        },
        Err(_) => crate::codegen::scope_in(parent),
    }
}

/// The names a named function captures from around it, in the order of their slots.
pub open spec fn captured_names(parent: ScopeV, d: FuncDeclV) -> Seq<Seq<char>> {
    let off: int = if d.name.len() == 0 {
        0
    } else {
        1
    };
    let s2 = params_scope(parent, d);
    let sibs = crate::codegen::decl_names(d.body, 0);
    let caps = crate::codegen::cap_named_stmts(s2, d.body, 0, seq![], d.name, sibs);
    match param_slots(d.params) {
        Ok(total) => bound_caps(s2, caps, 0, off + total, 0),
        Err(_) => seq![],
    }
}

proof fn lemma_fields_parent(s: ScopeV, fs: Seq<Seq<char>>, j0: int, base: int)
    ensures
        declare_fields_at(s, fs, j0, base) matches Ok(s1) ==> s1.parent == s.parent,
    decreases fs.len() - j0,
{
    if 0 <= j0 < fs.len() {
        if let Ok(s1) = declare_at(s, fs[j0], base + j0) {
            lemma_fields_parent(s1, fs, j0 + 1, base);
        }
    }
}

proof fn lemma_named_params_parent(
    s: ScopeV,
    params: Seq<ParamV>,
    i: int,
    at: int,
    rest: Option<usize>,
    destr: Seq<(usize, Seq<Seq<char>>)>,
)
    ensures
        named_params(s, params, i, at, rest, destr) matches Ok((s1, _, _)) ==> s1.parent == s.parent,
    decreases params.len() - i,
{
    if 0 <= i < params.len() {
        match params[i] {
            ParamV::Name(n) => {
                if let Ok(s1) = declare_at(s, n, at) {
                    lemma_named_params_parent(s1, params, i + 1, at + 1, rest, destr);
                }
            },
            ParamV::Rest(n) => {
                if let Ok(s1) = declare_at(s, n, at) {
                    lemma_named_params_parent(s1, params, i + 1, at + 1, Some(i as usize), destr);
                }
            },
            ParamV::Destructure(fs) => {
                lemma_fields_parent(s, fs, 0, at);
                if let Ok(s1) = declare_fields_at(s, fs, 0, at) {
                    lemma_named_params_parent(
                        s1,
                        params,
                        i + 1,
                        at + fs.len(),
                        rest,
                        destr.push((i as usize, fs)),
                    );
                }
            },
        }
    }
}

proof fn lemma_named_cap_pairs(
    s: ScopeV,
    caps: Seq<Seq<char>>,
    i: int,
    base: int,
    k: int,
    slots: Seq<(usize, usize)>,
)
    requires
        slots.len() == k,
    ensures
        named_cap_slots(s, caps, i, base, k, slots) matches Ok((_, out)) ==> out.len() == k
            + bound_caps(s, caps, i, base, k).len() && (forall|t: int| 0 <= t < k ==> out[t]
            == slots[t]) && (forall|t: int|
            0 <= t < bound_caps(s, caps, i, base, k).len() ==> #[trigger] out[k + t] == (
                or_zero(resolve_in(s.parent, bound_caps(s, caps, i, base, k)[t])),
                (base + k + t) as usize,
            )),
    decreases caps.len() - i,
{
    if 0 <= i < caps.len() {
        if lookup(s.vars, caps[i]) is Some {
            lemma_named_cap_pairs(s, caps, i + 1, base, k, slots);
        } else {
            let from = match resolve(s, caps[i]) {
                Some(v) => v,
                None => 0,
            };
            let slot = base + k;
            if 0 <= slot < usize::MAX {
                let s1 = ScopeV {
                    parent: s.parent,
                    vars: set_var(s.vars, caps[i], slot as usize),
                    next_slot: if s.next_slot > slot + 1 {
                        s.next_slot
                    } else {
                        (slot + 1) as usize
                    },
                };
                let sl2 = slots.push((from, slot as usize));
                assert(from == or_zero(resolve_in(s.parent, caps[i])));
                lemma_named_cap_pairs(s1, caps, i + 1, base, k + 1, sl2);
                let b = bound_caps(s, caps, i, base, k);
                let b1 = bound_caps(s1, caps, i + 1, base, k + 1);
                assert(b == seq![caps[i]] + b1);
                if named_cap_slots(s, caps, i, base, k, slots) is Ok {
                    let out = named_cap_slots(s, caps, i, base, k, slots)->Ok_0.1;
                    assert(out == named_cap_slots(s1, caps, i + 1, base, k + 1, sl2)->Ok_0.1);
                    assert forall|t: int| 0 <= t < k implies out[t] == slots[t] by {
                        assert(out[t] == sl2[t]);
                    }
                    assert forall|t: int| 0 <= t < b.len() implies #[trigger] out[k + t] == (
                        or_zero(resolve_in(s.parent, b[t])),
                        (base + k + t) as usize,
                    ) by {
                        if t == 0 {
                            assert(out[k] == sl2[k]);
                        } else {
                            assert(b[t] == b1[t - 1]);
                            assert(out[(k + 1) + (t - 1)] == (
                                or_zero(resolve_in(s1.parent, b1[t - 1])),
                                (base + (k + 1) + (t - 1)) as usize,
                            ));
                        }
                    }
                }
            }
        }
    }
}

proof fn lemma_anon_cap_pairs(
    outer: ScopeV,
    s: ScopeV,
    caps: Seq<Seq<char>>,
    i: int,
    total: usize,
    slots: Seq<(usize, usize)>,
)
    requires
        0 <= i <= caps.len(),
        slots.len() == i,
    ensures
        anon_cap_slots(outer, s, caps, i, total, slots) matches Ok((_, out)) ==> out.len()
            == caps.len() && (forall|t: int| 0 <= t < i ==> out[t] == slots[t]) && (forall|t: int|
            i <= t < caps.len() ==> #[trigger] out[t] == (
                or_zero(resolve(outer, caps[t])),
                (total + t) as usize,
            )),
    decreases caps.len() - i,
{
    if i < caps.len() {
        let from = match resolve(outer, caps[i]) {
            Some(v) => v,
            None => 0,
        };
        let slot = total + i;
        if slot < usize::MAX {
            let s1 = ScopeV {
                parent: s.parent,
                vars: set_var(s.vars, caps[i], slot as usize),
                next_slot: if s.next_slot > slot + 1 {
                    s.next_slot
                } else {
                    (slot + 1) as usize
                },
            };
            let sl2 = slots.push((from, slot as usize));
            lemma_anon_cap_pairs(outer, s1, caps, i + 1, total, sl2);
            if anon_cap_slots(outer, s, caps, i, total, slots) is Ok {
                let out = anon_cap_slots(outer, s, caps, i, total, slots)->Ok_0.1;
                assert forall|t: int| 0 <= t < i implies out[t] == slots[t] by {
                    assert(out[t] == sl2[t]);
                }
                assert(out[i] == sl2[i]);
            }
        }
    }
}

/// A compiled named function (the last of the functions afterwards, whose index is
/// the one returned while the count of functions fits in `usize`) records, for the
/// `t`-th name it captures, the slot that name has around the function (0 where it
/// has none) and the slot it gets in the function: `param_offset` plus the slots of
/// all the parameters, plus `t`, which is where the machine places it.
pub proof fn law_named_captures_follow_parameters(
    fs: Seq<CompiledFunctionV>,
    parent: ScopeV,
    d: FuncDeclV,
)
    ensures
        c_fn(fs, parent, d) matches Ok((fs1, i)) ==> (fs1.len() <= usize::MAX + 1 ==> i as int
            == fs1.len() - 1),
        c_fn(fs, parent, d) matches Ok((fs1, _)) ==> fs1.len() > 0
            && fs1.last().captured_slots.len() == captured_names(parent, d).len() && forall|t: int|
            0 <= t < fs1.last().captured_slots.len() ==> #[trigger] fs1.last().captured_slots[t] == (
                or_zero(resolve(parent, captured_names(parent, d)[t])),
                (fs1.last().param_offset + slots_before(d.params, d.params.len() as int) + t) as usize,
            ),
{
    let off: int = if d.name.len() == 0 {
        0
    } else {
        1
    };
    lemma_slots_before_grow(d.params, 0, d.params.len() as int);
    match crate::codegen::named_params(crate::codegen::scope_in(parent), d.params, 0, off, None, seq![]) {
        Ok((s1, rest, destr)) => {
            let s2 = if off > 0 {
                ScopeV {
                    parent: s1.parent,
                    vars: crate::codegen::set_var(s1.vars, d.name, 0),
                    next_slot: s1.next_slot,
                }
            } else {
                s1
            };
            match param_slots(d.params) {
                Ok(total) => {
                    let sibs = crate::codegen::decl_names(d.body, 0);
                    let caps = crate::codegen::cap_named_stmts(s2, d.body, 0, seq![], d.name, sibs);
                    lemma_named_cap_slots(s2, caps, 0, off + total, 0, seq![]);
                    lemma_named_cap_pairs(s2, caps, 0, off + total, 0, seq![]);
                    lemma_named_params_parent(
                        crate::codegen::scope_in(parent),
                        d.params,
                        0,
                        off,
                        None,
                        seq![],
                    );
                    assert(s2 == params_scope(parent, d));
                    assert(s2.parent == Some(Box::new(parent)));
                    assert(captured_names(parent, d) == bound_caps(s2, caps, 0, off + total, 0));
                    match named_cap_slots(s2, caps, 0, off + total, 0, seq![]) {
                        Ok((s3, slots)) => match crate::codegen::declare_decls(s3, d.body, 0) {
                            Ok(s4) => {
                                let lr = crate::codegen::last_return(d.body, d.body.len() as int);
                                match crate::codegen::c_fn_stmts(
                                    fs,
                                    crate::codegen::empty_chunk(),
                                    s4,
                                    d.body,
                                    0,
                                    sibs,
                                    lr,
                                ) {
                                    Ok((fs1, ch1)) => {
                                        let nesting: usize = if parent.parent is Some {
                                            1
                                        } else {
                                            0
                                        };
                                        let ch2 = if lr is None {
                                            crate::codegen::emit(
                                                crate::codegen::push_const(
                                                    ch1,
                                                    crate::opcode::ConstantV::Bool(true),
                                                ),
                                                crate::opcode::OpCode::Return,
                                            )
                                        } else {
                                            ch1
                                        };
                                        let f = CompiledFunctionV {
                                            chunk: ch2,
                                            param_count: d.params.len() as usize,
                                            name: d.name,
                                            captured_slots: slots,
                                            rest_slot: rest,
                                            destructured_params: destr,
                                            param_offset: off as usize,
                                            nesting_depth: nesting,
                                        };
                                        assert(c_fn(fs, parent, d) == Ok::<
                                            (Seq<CompiledFunctionV>, usize),
                                            (),
                                        >((fs1.push(f), fs1.len() as usize)));
                                        assert(fs1.push(f)[fs1.len() as int] == f);
                                        assert(total == slots_before(d.params, d.params.len() as int));
                                        let names = captured_names(parent, d);
                                        assert(slots.len() == names.len());
                                        assert forall|t: int| 0 <= t < slots.len() implies slots[t] == (
                                            or_zero(resolve(parent, names[t])),
                                            (off + total + t) as usize,
                                        ) by {
                                            assert(slots[0 + t] == (
                                                or_zero(resolve_in(s2.parent, names[t])),
                                                (off + total + 0 + t) as usize,
                                            ));
                                        }
                                        assert forall|t: int| 0 <= t < slots.len() implies slots[t].1
                                            == off + slots_before(d.params, d.params.len() as int) + t by {
                                        }
                                    },
                                    Err(_) => {},
                                }
                            },
                            Err(_) => {},
                        },
                        Err(_) => {},
                    }
                },
                Err(_) => {},
            }
        },
        Err(_) => {},
    }
}

/// A compiled function expression (the last of the functions afterwards) records, for
/// the `t`-th name it captures, the slot that name has in the scope around it (0
/// where it has none) and the slot it gets inside: the slots of all the parameters
/// plus `t`.
pub proof fn law_anon_captures_follow_parameters(
    fs: Seq<CompiledFunctionV>,
    sc: ScopeV,
    params: Seq<ParamV>,
    body: Seq<StmtV>,
)
    ensures
        c_anon(fs, sc, params, body) matches Ok((fs1, _)) ==> fs1.len() > 0
            && fs1.last().param_offset == 0 && fs1.last().captured_slots.len()
            == crate::codegen::anon_captures(sc, body).len() && forall|t: int|
            0 <= t < fs1.last().captured_slots.len() ==> #[trigger] fs1.last().captured_slots[t] == (
                or_zero(resolve(sc, crate::codegen::anon_captures(sc, body)[t])),
                (slots_before(params, params.len() as int) + t) as usize,
            ),
{
    let caps = crate::codegen::anon_captures(sc, body);
    lemma_slots_before_grow(params, 0, params.len() as int);
    match crate::codegen::anon_params(crate::codegen::scope_in(sc), params, 0, None, seq![]) {
        Ok((s1, rest, destr)) => match param_slots(params) {
            Ok(total) => {
                lemma_anon_cap_slots(sc, s1, caps, 0, total, seq![]);
                lemma_anon_cap_pairs(sc, s1, caps, 0, total, seq![]);
                match anon_cap_slots(sc, s1, caps, 0, total, seq![]) {
                    Ok((s2, slots)) => match crate::codegen::c_anon_stmts(
                        fs,
                        crate::codegen::empty_chunk(),
                        s2,
                        body,
                        0,
                    ) {
                        Ok((fs1, ch1, _)) => {
                            let ch2 = if ch1.code.len() == 0 || ch1.code.last()
                                != crate::opcode::OpCode::Return {
                                crate::codegen::emit(ch1, crate::opcode::OpCode::Return)
                            } else {
                                ch1
                            };
                            let f = CompiledFunctionV {
                                chunk: ch2,
                                param_count: params.len() as usize,
                                name: crate::codegen::anonymous_name(),
                                captured_slots: slots,
                                rest_slot: rest,
                                destructured_params: destr,
                                param_offset: 0,
                                nesting_depth: 1,
                            };
                            assert(c_anon(fs, sc, params, body) == Ok::<
                                (Seq<CompiledFunctionV>, usize),
                                (),
                            >((fs1.push(f), fs1.len() as usize)));
                            assert(fs1.push(f)[fs1.len() as int] == f);
                        },
                        Err(_) => {},
                    },
                    Err(_) => {},
                }
            },
            Err(_) => {},
        },
        Err(_) => {},
    }
}


/// The name that takes the `j`-th slot of the parameter `p`: its name, or the `j`-th
/// field of a destructuring.
pub open spec fn slot_name(p: ParamV, j: int) -> Seq<char> {
    match p {
        ParamV::Name(n) => n,
        ParamV::Rest(n) => n,
        ParamV::Destructure(fs) => fs[j],
    }
}

/// No two slots of the parameters carry the same name.
pub open spec fn slot_names_distinct(params: Seq<ParamV>) -> bool {
    forall|k: int, j: int, l: int, m: int|
        #![trigger slot_name(params[k], j), slot_name(params[l], m)]
        0 <= k < params.len() && 0 <= j < param_width(params[k]) && 0 <= l < params.len() && 0 <= m
            < param_width(params[l]) && (k != l || j != m) ==> slot_name(params[k], j)
            != slot_name(params[l], m)
}

proof fn lemma_lookup_set_same(vars: Seq<(Seq<char>, usize)>, k: Seq<char>, v: usize)
    ensures
        lookup(set_var(vars, k, v), k) == Some(v),
    decreases vars.len(),
{
    if vars.len() > 0 && vars[0].0 != k {
        lemma_lookup_set_same(vars.drop_first(), k, v);
        assert((seq![vars[0]] + set_var(vars.drop_first(), k, v)).drop_first() =~= set_var(
            vars.drop_first(),
            k,
            v,
        ));
    }
}

proof fn lemma_lookup_set_other(vars: Seq<(Seq<char>, usize)>, k: Seq<char>, v: usize, x: Seq<char>)
    requires
        x != k,
    ensures
        lookup(set_var(vars, k, v), x) == lookup(vars, x),
    decreases vars.len(),
{
    if vars.len() == 0 {
        let t = seq![(k, v)];
        assert(t[0].0 == k);
        assert(t.drop_first() =~= Seq::<(Seq<char>, usize)>::empty());
        assert(lookup(t, x) == lookup(t.drop_first(), x));
        assert(lookup(Seq::<(Seq<char>, usize)>::empty(), x) is None);
    } else {
        if vars[0].0 == k {
            let u = vars.update(0, (k, v));
            assert(u[0].0 == k);
            assert(u.drop_first() =~= vars.drop_first());
            assert(lookup(u, x) == lookup(u.drop_first(), x));
        } else {
            lemma_lookup_set_other(vars.drop_first(), k, v, x);
            let t = seq![vars[0]] + set_var(vars.drop_first(), k, v);
            assert(t[0] == vars[0]);
            assert(t.drop_first() =~= set_var(vars.drop_first(), k, v));
        }
    }
}

proof fn lemma_fields_keep(s: ScopeV, fs: Seq<Seq<char>>, j0: int, base: int, x: Seq<char>)
    requires
        0 <= j0,
        declare_fields_at(s, fs, j0, base) is Ok,
        forall|j: int| j0 <= j < fs.len() ==> fs[j] != x,
    ensures
        declare_fields_at(s, fs, j0, base) matches Ok(s1) && lookup(s1.vars, x) == lookup(s.vars, x),
    decreases fs.len() - j0,
{
    if j0 < fs.len() {
        let s1 = declare_at(s, fs[j0], base + j0)->Ok_0;
        lemma_lookup_set_other(s.vars, fs[j0], (base + j0) as usize, x);
        lemma_fields_keep(s1, fs, j0 + 1, base, x);
    }
}

proof fn lemma_fields_bind(s: ScopeV, fs: Seq<Seq<char>>, j0: int, base: int, j: int)
    requires
        0 <= j0 <= j < fs.len(),
        declare_fields_at(s, fs, j0, base) is Ok,
        forall|a: int, b: int| 0 <= a < fs.len() && 0 <= b < fs.len() && a != b ==> fs[a] != fs[b],
    ensures
        declare_fields_at(s, fs, j0, base) matches Ok(s1) && lookup(s1.vars, fs[j]) == Some(
            (base + j) as usize,
        ),
    decreases fs.len() - j0,
{
    let s1 = declare_at(s, fs[j0], base + j0)->Ok_0;
    if j0 == j {
        lemma_lookup_set_same(s.vars, fs[j], (base + j) as usize);
        assert forall|t: int| j0 + 1 <= t < fs.len() implies fs[t] != fs[j] by {}
        lemma_fields_keep(s1, fs, j0 + 1, base, fs[j]);
    } else {
        lemma_fields_bind(s1, fs, j0 + 1, base, j);
    }
}

proof fn lemma_params_keep(
    s: ScopeV,
    params: Seq<ParamV>,
    i: int,
    at: int,
    rest: Option<usize>,
    destr: Seq<(usize, Seq<Seq<char>>)>,
    x: Seq<char>,
)
    requires
        0 <= i,
        named_params(s, params, i, at, rest, destr) is Ok,
        forall|l: int, m: int|
            #![trigger slot_name(params[l], m)]
            i <= l < params.len() && 0 <= m < param_width(params[l]) ==> slot_name(params[l], m) != x,
    ensures
        named_params(s, params, i, at, rest, destr) matches Ok((s1, _, _)) && lookup(s1.vars, x)
            == lookup(s.vars, x),
    decreases params.len() - i,
{
    if i < params.len() {
        match params[i] {
            ParamV::Name(n) => {
                assert(slot_name(params[i], 0) == n);
                let s1 = declare_at(s, n, at)->Ok_0;
                lemma_lookup_set_other(s.vars, n, at as usize, x);
                lemma_params_keep(s1, params, i + 1, at + 1, rest, destr, x);
            },
            ParamV::Rest(n) => {
                assert(slot_name(params[i], 0) == n);
                let s1 = declare_at(s, n, at)->Ok_0;
                lemma_lookup_set_other(s.vars, n, at as usize, x);
                lemma_params_keep(s1, params, i + 1, at + 1, Some(i as usize), destr, x);
            },
            ParamV::Destructure(fs) => {
                assert forall|j: int| 0 <= j < fs.len() implies fs[j] != x by {
                    assert(slot_name(params[i], j) == fs[j]);
                }
                lemma_fields_keep(s, fs, 0, at, x);
                let s1 = declare_fields_at(s, fs, 0, at)->Ok_0;
                lemma_params_keep(
                    s1,
                    params,
                    i + 1,
                    at + fs.len(),
                    rest,
                    destr.push((i as usize, fs)),
                    x,
                );
            },
        }
    }
}

proof fn lemma_params_bind(
    s: ScopeV,
    params: Seq<ParamV>,
    i: int,
    off: int,
    rest: Option<usize>,
    destr: Seq<(usize, Seq<Seq<char>>)>,
    k: int,
    j: int,
)
    requires
        0 <= i <= k < params.len(),
        0 <= j < param_width(params[k]),
        named_params(s, params, i, off + slots_before(params, i), rest, destr) is Ok,
        slot_names_distinct(params),
    ensures
        named_params(s, params, i, off + slots_before(params, i), rest, destr) matches Ok((s1, _, _))
            && lookup(s1.vars, slot_name(params[k], j)) == Some(
            (off + slots_before(params, k) + j) as usize,
        ),
    decreases params.len() - i,
{
    let at = off + slots_before(params, i);
    let x = slot_name(params[k], j);
    assert(slots_before(params, i + 1) == slots_before(params, i) + param_width(params[i]));
    if i == k {
        assert forall|l: int, m: int|
            #![trigger slot_name(params[l], m)]
            i + 1 <= l < params.len() && 0 <= m < param_width(params[l]) implies slot_name(
            params[l],
            m,
        ) != x by {
            assert(slot_name(params[k], j) != slot_name(params[l], m));
        }
        match params[i] {
            ParamV::Name(n) => {
                let s1 = declare_at(s, n, at)->Ok_0;
                lemma_lookup_set_same(s.vars, n, at as usize);
                lemma_params_keep(s1, params, i + 1, at + 1, rest, destr, x);
            },
            ParamV::Rest(n) => {
                let s1 = declare_at(s, n, at)->Ok_0;
                lemma_lookup_set_same(s.vars, n, at as usize);
                lemma_params_keep(s1, params, i + 1, at + 1, Some(i as usize), destr, x);
            },
            ParamV::Destructure(fs) => {
                assert forall|a: int, b: int|
                    0 <= a < fs.len() && 0 <= b < fs.len() && a != b implies fs[a] != fs[b] by {
                    assert(slot_name(params[k], a) == fs[a]);
                    assert(slot_name(params[k], b) == fs[b]);
                }
                lemma_fields_bind(s, fs, 0, at, j);
                let s1 = declare_fields_at(s, fs, 0, at)->Ok_0;
                lemma_params_keep(
                    s1,
                    params,
                    i + 1,
                    at + fs.len(),
                    rest,
                    destr.push((i as usize, fs)),
                    x,
                );
            },
        }
    } else {
        match params[i] {
            ParamV::Name(n) => {
                let s1 = declare_at(s, n, at)->Ok_0;
                lemma_params_bind(s1, params, i + 1, off, rest, destr, k, j);
            },
            ParamV::Rest(n) => {
                let s1 = declare_at(s, n, at)->Ok_0;
                lemma_params_bind(s1, params, i + 1, off, Some(i as usize), destr, k, j);
            },
            ParamV::Destructure(fs) => {
                let s1 = declare_fields_at(s, fs, 0, at)->Ok_0;
                lemma_params_bind(s1, params, i + 1, off, rest, destr.push((i as usize, fs)), k, j);
            },
        }
    }
}

/// Declaring a named function's parameters from slot `off` on binds the name of each
/// of their slots (a parameter's name, or a field of a destructuring) to that slot:
/// the `j`-th slot of the parameter at `k` is `off` plus the slots of the parameters
/// before it, plus `j`. (Where two slots carry the same name, the later one wins, so
/// the law speaks of parameters whose names differ.)
pub proof fn law_parameters_bound_to_their_slots(
    s: ScopeV,
    params: Seq<ParamV>,
    off: int,
    k: int,
    j: int,
)
    requires
        named_params(s, params, 0, off, None, seq![]) is Ok,
        slot_names_distinct(params),
        0 <= k < params.len(),
        0 <= j < param_width(params[k]),
    ensures
        named_params(s, params, 0, off, None, seq![]) matches Ok((s1, _, _)) && lookup(
            s1.vars,
            slot_name(params[k], j),
        ) == Some((off + slots_before(params, k) + j) as usize),
{
    assert(slots_before(params, 0) == 0);
    lemma_params_bind(s, params, 0, off, None, seq![], k, j);
}


proof fn lemma_each_next(s: ScopeV, fs: Seq<Seq<char>>, j0: int)
    requires
        0 <= j0 <= fs.len(),
        declare_each(s, fs, j0) is Ok,
    ensures
        declare_each(s, fs, j0) matches Ok(s1) && s1.next_slot == s.next_slot + (fs.len() - j0),
    decreases fs.len() - j0,
{
    if j0 < fs.len() {
        let s1 = declare(s, fs[j0])->Ok_0.0;
        lemma_each_next(s1, fs, j0 + 1);
    }
}

proof fn lemma_each_keep(s: ScopeV, fs: Seq<Seq<char>>, j0: int, x: Seq<char>)
    requires
        0 <= j0 <= fs.len(),
        declare_each(s, fs, j0) is Ok,
        forall|j: int| j0 <= j < fs.len() ==> fs[j] != x,
    ensures
        declare_each(s, fs, j0) matches Ok(s1) && lookup(s1.vars, x) == lookup(s.vars, x),
    decreases fs.len() - j0,
{
    if j0 < fs.len() {
        let s1 = declare(s, fs[j0])->Ok_0.0;
        lemma_lookup_set_other(s.vars, fs[j0], s.next_slot, x);
        lemma_each_keep(s1, fs, j0 + 1, x);
    }
}

proof fn lemma_each_bind(s: ScopeV, fs: Seq<Seq<char>>, j0: int, j: int)
    requires
        0 <= j0 <= j < fs.len(),
        declare_each(s, fs, j0) is Ok,
        forall|a: int, b: int| 0 <= a < fs.len() && 0 <= b < fs.len() && a != b ==> fs[a] != fs[b],
    ensures
        declare_each(s, fs, j0) matches Ok(s1) && lookup(s1.vars, fs[j]) == Some(
            (s.next_slot + (j - j0)) as usize,
        ),
    decreases fs.len() - j0,
{
    let s1 = declare(s, fs[j0])->Ok_0.0;
    if j0 == j {
        lemma_lookup_set_same(s.vars, fs[j], s.next_slot);
        lemma_each_keep(s1, fs, j0 + 1, fs[j]);
    } else {
        lemma_each_bind(s1, fs, j0 + 1, j);
    }
}

proof fn lemma_anon_keep(
    s: ScopeV,
    params: Seq<ParamV>,
    i: int,
    rest: Option<usize>,
    destr: Seq<(usize, Seq<Seq<char>>)>,
    x: Seq<char>,
)
    requires
        0 <= i,
        anon_params(s, params, i, rest, destr) is Ok,
        forall|l: int, m: int|
            #![trigger slot_name(params[l], m)]
            i <= l < params.len() && 0 <= m < param_width(params[l]) ==> slot_name(params[l], m) != x,
    ensures
        anon_params(s, params, i, rest, destr) matches Ok((s1, _, _)) && lookup(s1.vars, x)
            == lookup(s.vars, x),
    decreases params.len() - i,
{
    if i < params.len() {
        match params[i] {
            ParamV::Name(n) => {
                assert(slot_name(params[i], 0) == n);
                let s1 = declare(s, n)->Ok_0.0;
                lemma_lookup_set_other(s.vars, n, s.next_slot, x);
                lemma_anon_keep(s1, params, i + 1, rest, destr, x);
            },
            ParamV::Rest(n) => {
                assert(slot_name(params[i], 0) == n);
                let s1 = declare(s, n)->Ok_0.0;
                lemma_lookup_set_other(s.vars, n, s.next_slot, x);
                lemma_anon_keep(s1, params, i + 1, Some(i as usize), destr, x);
            },
            ParamV::Destructure(fs) => {
                assert forall|j: int| 0 <= j < fs.len() implies fs[j] != x by {
                    assert(slot_name(params[i], j) == fs[j]);
                }
                lemma_each_keep(s, fs, 0, x);
                let s1 = declare_each(s, fs, 0)->Ok_0;
                lemma_anon_keep(s1, params, i + 1, rest, destr.push((i as usize, fs)), x);
            },
        }
    }
}

proof fn lemma_anon_bind(
    s: ScopeV,
    params: Seq<ParamV>,
    i: int,
    rest: Option<usize>,
    destr: Seq<(usize, Seq<Seq<char>>)>,
    k: int,
    j: int,
)
    requires
        0 <= i <= k < params.len(),
        0 <= j < param_width(params[k]),
        s.next_slot == slots_before(params, i),
        anon_params(s, params, i, rest, destr) is Ok,
        slot_names_distinct(params),
    ensures
        anon_params(s, params, i, rest, destr) matches Ok((s1, _, _)) && lookup(
            s1.vars,
            slot_name(params[k], j),
        ) == Some((slots_before(params, k) + j) as usize),
    decreases params.len() - i,
{
    let x = slot_name(params[k], j);
    assert(slots_before(params, i + 1) == slots_before(params, i) + param_width(params[i]));
    if i == k {
        assert forall|l: int, m: int|
            #![trigger slot_name(params[l], m)]
            i + 1 <= l < params.len() && 0 <= m < param_width(params[l]) implies slot_name(
            params[l],
            m,
        ) != x by {
            assert(slot_name(params[k], j) != slot_name(params[l], m));
        }
        match params[i] {
            ParamV::Name(n) => {
                let s1 = declare(s, n)->Ok_0.0;
                lemma_lookup_set_same(s.vars, n, s.next_slot);
                lemma_anon_keep(s1, params, i + 1, rest, destr, x);
            },
            ParamV::Rest(n) => {
                let s1 = declare(s, n)->Ok_0.0;
                lemma_lookup_set_same(s.vars, n, s.next_slot);
                lemma_anon_keep(s1, params, i + 1, Some(i as usize), destr, x);
            },
            ParamV::Destructure(fs) => {
                assert forall|a: int, b: int|
                    0 <= a < fs.len() && 0 <= b < fs.len() && a != b implies fs[a] != fs[b] by {
                    assert(slot_name(params[k], a) == fs[a]);
                    assert(slot_name(params[k], b) == fs[b]);
                }
                lemma_each_bind(s, fs, 0, j);
                let s1 = declare_each(s, fs, 0)->Ok_0;
                lemma_anon_keep(s1, params, i + 1, rest, destr.push((i as usize, fs)), x);
            },
        }
    } else {
        match params[i] {
            ParamV::Name(n) => {
                let s1 = declare(s, n)->Ok_0.0;
                lemma_anon_bind(s1, params, i + 1, rest, destr, k, j);
            },
            ParamV::Rest(n) => {
                let s1 = declare(s, n)->Ok_0.0;
                lemma_anon_bind(s1, params, i + 1, Some(i as usize), destr, k, j);
            },
            ParamV::Destructure(fs) => {
                lemma_each_next(s, fs, 0);
                let s1 = declare_each(s, fs, 0)->Ok_0;
                lemma_anon_bind(s1, params, i + 1, rest, destr.push((i as usize, fs)), k, j);
            },
        }
    }
}

/// Declaring a function expression's parameters in a fresh scope binds the name of
/// each of their slots to that slot: the `j`-th slot of the parameter at `k` is the
/// slots of the parameters before it, plus `j`, as for a named function with no slot
/// of its own.
pub proof fn law_anon_parameters_bound_to_their_slots(s: ScopeV, params: Seq<ParamV>, k: int, j: int)
    requires
        s.next_slot == 0,
        anon_params(s, params, 0, None, seq![]) is Ok,
        slot_names_distinct(params),
        0 <= k < params.len(),
        0 <= j < param_width(params[k]),
    ensures
        anon_params(s, params, 0, None, seq![]) matches Ok((s1, _, _)) && lookup(
            s1.vars,
            slot_name(params[k], j),
        ) == Some((slots_before(params, k) + j) as usize),
{
    assert(slots_before(params, 0) == 0);
    lemma_anon_bind(s, params, 0, None, seq![], k, j);
}

} // verus!
