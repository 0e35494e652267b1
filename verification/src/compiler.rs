//! The compiler from syntax trees to bytecode, and the scopes it resolves names in.
//!
//! Each compiling function is proved to build exactly what the functions of
//! `codegen` describe.
use vstd::prelude::*;
use std::rc::Rc;
use crate::ast::{
    lemma_expr_parts, lemma_stmt_parts, lemma_decl_parts, ExprV, Expr, Stmt, Param, ParamV, StmtV, FuncDecl, BinOp, param_v, params_v, func_decl_v, strings_v, expr_v, exprs_v, entries_v, stmt_v, stmts_v,
};
use crate::codegen::{ScopeV, lookup, set_var, resolve, declare, declare_at, kept, slots_end, without_funcs};
use crate::codegen::{
    add_name, cap_anon, cap_anon_list, cap_anon_entries, cap_anon_body, cap_anon_outer, cap_returned,
    cap_returned_body, anon_captures, cap_named, cap_named_list, cap_named_entries, cap_named_body,
    cap_nested_decl, cap_named_stmts, param_slots, slots_before, param_width, lemma_slots_before_grow, declare_each, anon_params, anon_cap_slots,
    declare_fields_at, named_params, named_cap_slots, declare_decls, last_return, decl_names,
    except, CR, c_expr, c_items, c_plain, c_entries, c_anon, c_stmt, c_fn, c_fn_stmts, emit,
    push_const, op_code, has_spread, non_spread_count, promise_name, anonymous_name, root_scope,
    scope_in, empty_chunk, c_anon_stmts, c_decls, c_program, c_finish,
};
use crate::lexer::{Lexer, Token, tokens_view};
use crate::parser::Parser;
use crate::ast::FuncDeclV;
use crate::grammar::{tok_at, g_func_decl, g_cond, done};
use crate::opcode::{
    OpCode, Constant, ConstantV, Chunk, ChunkV, CompiledFunction, CompiledFunctionV, names_v,
    destructured_v, functions_v,
};

verus! {

// ---------------------------------------------------------------------------
// Scopes
// ---------------------------------------------------------------------------

/// The variables of a function being compiled, each with its frame slot, inside the
/// scope of the function around it.
pub struct Scope {
    parent: Option<Rc<Scope>>,
    vars: Vec<(String, usize)>,
    next_slot: usize,
}

/// The views of a scope's variables.
pub open spec fn vars_v(v: Seq<(String, usize)>) -> Seq<(Seq<char>, usize)> {
    v.map_values(|e: (String, usize)| (e.0@, e.1))
}

/// A scope as a value.
pub closed spec fn scope_v(s: Scope) -> ScopeV
    decreases s,
{
    ScopeV {
        parent: match s.parent {
            Some(p) => Some(Box::new(scope_v(*p))),
            None => None,
        },
        vars: vars_v(s.vars@),
        next_slot: s.next_slot,
    }
}

impl View for Scope {
    type V = ScopeV;

    closed spec fn view(&self) -> ScopeV {
        scope_v(*self)
    }
}

/// Shares the scope behind `r` (`Rc::clone`: a new pointer to the same value).
#[verifier::external_body]
fn share(r: &Rc<Scope>) -> (s: Rc<Scope>)
    ensures
        *s == **r,
{
    Rc::clone(r)
}

/// The index of the first entry of `vars` named `k`.
proof fn lemma_lookup(vars: Seq<(Seq<char>, usize)>, k: Seq<char>)
    ensures
        lookup(vars, k) is None <==> forall|j: int| 0 <= j < vars.len() ==> vars[j].0 != k,
        lookup(vars, k) is Some ==> exists|j: int|
            0 <= j < vars.len() && vars[j].0 == k && lookup(vars, k) == Some(vars[j].1) && (
            forall|m: int| 0 <= m < j ==> vars[m].0 != k),
    decreases vars.len(),
{
    if vars.len() > 0 {
        lemma_lookup(vars.drop_first(), k);
        if vars[0].0 != k {
            assert forall|j: int| 0 < j < vars.len() implies vars[j] == vars.drop_first()[j - 1] by {}
            if lookup(vars, k) is Some {
                let j = choose|j: int|
                    0 <= j < vars.drop_first().len() && vars.drop_first()[j].0 == k && lookup(
                        vars.drop_first(),
                        k,
                    ) == Some(vars.drop_first()[j].1) && (forall|m: int|
                        0 <= m < j ==> vars.drop_first()[m].0 != k);
                assert(vars[j + 1] == vars.drop_first()[j]);
                assert forall|m: int| 0 <= m < j + 1 implies vars[m].0 != k by {
                    if m > 0 {
                        assert(vars[m] == vars.drop_first()[m - 1]);
                    }
                }
            }
        } else {
            assert(vars[0].0 == k);
        }
    }
}

/// `lookup` finds the entry at `j` when it is the first one named `k`.
proof fn lemma_lookup_at(vars: Seq<(Seq<char>, usize)>, k: Seq<char>, j: int)
    requires
        0 <= j < vars.len(),
        vars[j].0 == k,
        forall|m: int| 0 <= m < j ==> vars[m].0 != k,
    ensures
        lookup(vars, k) == Some(vars[j].1),
    decreases j,
{
    if j > 0 {
        assert forall|m: int| 0 <= m < j - 1 implies vars.drop_first()[m].0 != k by {
            assert(vars.drop_first()[m] == vars[m + 1]);
        }
        lemma_lookup_at(vars.drop_first(), k, j - 1);
    }
}

/// `set_var` updates the first entry named `k`, or appends one.
proof fn lemma_set_var(vars: Seq<(Seq<char>, usize)>, k: Seq<char>, v: usize, j: int)
    requires
        0 <= j <= vars.len(),
        forall|m: int| 0 <= m < j ==> vars[m].0 != k,
        j < vars.len() ==> vars[j].0 == k,
    ensures
        set_var(vars, k, v) == (if j < vars.len() {
            vars.update(j, (k, v))
        } else {
            vars.push((k, v))
        }),
    decreases j,
{
    if j == 0 {
        if vars.len() == 0 {
            assert(seq![(k, v)] =~= vars.push((k, v)));
        }
    } else {
        assert forall|m: int| 0 <= m < j - 1 implies vars.drop_first()[m].0 != k by {
            assert(vars.drop_first()[m] == vars[m + 1]);
        }
        lemma_set_var(vars.drop_first(), k, v, j - 1);
        if j < vars.len() {
            assert(seq![vars[0]] + vars.drop_first().update(j - 1, (k, v)) =~= vars.update(
                j,
                (k, v),
            ));
        } else {
            assert(seq![vars[0]] + vars.drop_first().push((k, v)) =~= vars.push((k, v)));
        }
    }
}

/// The index of the first entry of `vars` named `name`, or `vars.len()`.
fn find_var(vars: &Vec<(String, usize)>, name: &str) -> (j: usize)
    ensures
        j <= vars@.len(),
        forall|m: int| 0 <= m < j ==> vars_v(vars@)[m].0 != name@,
        j < vars@.len() ==> vars_v(vars@)[j as int].0 == name@,
{
    let key = name.to_owned();
    let mut j: usize = 0;
    while j < vars.len()
        invariant
            j <= vars@.len(),
            key@ == name@,
            forall|m: int| 0 <= m < j ==> vars_v(vars@)[m].0 != name@,
        decreases vars.len() - j,
    {
        if vars[j].0 == key {
            return j;
        }
        j = j + 1;
    }
    j
}

/// Whether `names` holds `name`.
fn holds(names: &Vec<String>, name: &String) -> (r: bool)
    ensures
        r == strings_v(names@).contains(name@),
{
    let mut i: usize = 0;
    while i < names.len()
        invariant
            i <= names@.len(),
            forall|m: int| 0 <= m < i ==> strings_v(names@)[m] != name@,
        decreases names.len() - i,
    {
        if names[i] == *name {
            assert(strings_v(names@)[i as int] == name@);
            return true;
        }
        i = i + 1;
    }
    false
}

/// A copy of a scope's variables.
fn copy_vars(vars: &Vec<(String, usize)>) -> (r: Vec<(String, usize)>)
    ensures
        vars_v(r@) == vars_v(vars@),
{
    let mut out: Vec<(String, usize)> = Vec::new();
    let mut i: usize = 0;
    while i < vars.len()
        invariant
            i <= vars@.len(),
            vars_v(out@) == vars_v(vars@).take(i as int),
        decreases vars.len() - i,
    {
        let ghost before = out@;
        out.push((vars[i].0.clone(), vars[i].1));
        assert(vars_v(out@) =~= vars_v(before).push(vars_v(vars@)[i as int]));
        assert(vars_v(vars@).take(i + 1) =~= vars_v(vars@).take(i as int).push(
            vars_v(vars@)[i as int],
        ));
        i = i + 1;
    }
    assert(vars_v(vars@).take(vars@.len() as int) =~= vars_v(vars@));
    out
}

/// The variables of `vars` whose names are not in `exclude`, and the slot past the
/// largest of them; `None` when one of those slots is the largest `usize`.
fn kept_vars(vars: &Vec<(String, usize)>, exclude: &Vec<String>) -> (r: Option<
    (Vec<(String, usize)>, usize),
>)
    ensures
        match slots_end(kept(vars_v(vars@), strings_v(exclude@))) {
            Ok(n) => r matches Some((out, m)) && vars_v(out@) == kept(
                vars_v(vars@),
                strings_v(exclude@),
            ) && m == n,
            Err(_) => r is None,
        },
{
    let ghost vs = vars_v(vars@);
    let ghost ex = strings_v(exclude@);
    let mut out: Vec<(String, usize)> = Vec::new();
    let mut mx: usize = 0;
    let mut ok = true;
    let mut i: usize = 0;
    while i < vars.len()
        invariant
            i <= vars@.len(),
            vs == vars_v(vars@),
            ex == strings_v(exclude@),
            vars_v(out@) == kept(vs.take(i as int), ex),
            ok ==> slots_end(kept(vs.take(i as int), ex)) == Ok::<usize, ()>(mx),
            !ok ==> slots_end(kept(vs.take(i as int), ex)) is Err,
        decreases vars.len() - i,
    {
        let ghost pre = vs.take(i as int);
        let ghost nxt = vs.take(i + 1);
        assert(nxt.len() == i + 1);
        assert(nxt.drop_last() =~= pre);
        assert(nxt.last() == vs[i as int]);
        let ghost f = |e: (Seq<char>, usize)| !ex.contains(e.0);
        assert(kept(nxt, ex) == nxt.filter(f));
        assert(kept(pre, ex) == pre.filter(f));
        reveal(Seq::filter);
        assert(nxt.filter(f) == (if f(nxt.last()) {
            nxt.drop_last().filter(f).push(nxt.last())
        } else {
            nxt.drop_last().filter(f)
        }));
        assert(kept(nxt, ex) == (if !ex.contains(vs[i as int].0) {
            kept(pre, ex).push(vs[i as int])
        } else {
            kept(pre, ex)
        }));
        if !holds(exclude, &vars[i].0) {
            let ghost before = out@;
            out.push((vars[i].0.clone(), vars[i].1));
            assert(vars_v(out@) =~= vars_v(before).push(vs[i as int]));
            assert(kept(nxt, ex).drop_last() =~= kept(pre, ex));
            let slot = vars[i].1;
            if ok {
                if slot < usize::MAX {
                    if mx <= slot {
                        mx = slot + 1;
                    }
                } else {
                    ok = false;
                }
            }
        }
        i = i + 1;
    }
    assert(vs.take(vars@.len() as int) =~= vs);
    if ok {
        Some((out, mx))
    } else {
        None
    }
}

/// The scopes of `s` and around it, outermost first: the variables not in `exclude`
/// bound in `vars` and `next` moved past their slots.
pub open spec fn collect(
    s: ScopeV,
    vars: Seq<(Seq<char>, usize)>,
    next: usize,
    exclude: Seq<Seq<char>>,
) -> Result<(Seq<(Seq<char>, usize)>, usize), ()>
    decreases s, 1int,
{
    let outer = match s.parent {
        Some(p) => collect(*p, vars, next, exclude),
        None => Ok((vars, next)),
    };
    match outer {
        Ok((v1, n1)) => collect_own(s.vars, 0, v1, n1, exclude),
        Err(_) => Err(()),
    }
}

/// The entries of `own` from `i` on, as `collect` binds them.
pub open spec fn collect_own(
    own: Seq<(Seq<char>, usize)>,
    i: int,
    vars: Seq<(Seq<char>, usize)>,
    next: usize,
    exclude: Seq<Seq<char>>,
) -> Result<(Seq<(Seq<char>, usize)>, usize), ()>
    decreases own.len() - i,
{
    if 0 <= i < own.len() {
        if exclude.contains(own[i].0) {
            collect_own(own, i + 1, vars, next, exclude)
        } else if own[i].1 < usize::MAX {
            collect_own(
                own,
                i + 1,
                set_var(vars, own[i].0, own[i].1),
                if next > own[i].1 + 1 {
                    next
                } else {
                    (own[i].1 + 1) as usize
                },
                exclude,
            )
        } else {
            Err(())
        }
    } else {
        Ok((vars, next))
    }
}

/// Binds `name` to `slot` in `vars`, updating its entry or appending one.
fn bind_in(vars: &mut Vec<(String, usize)>, name: &String, slot: usize)
    ensures
        vars_v(final(vars)@) == set_var(vars_v(old(vars)@), name@, slot),
{
    let j = find_var(vars, name.as_str());
    proof {
        lemma_set_var(vars_v(vars@), name@, slot, j as int);
    }
    let ghost before = vars@;
    if j < vars.len() {
        vars.set(j, (name.clone(), slot));
        assert(vars_v(vars@) =~= vars_v(before).update(j as int, (name@, slot)));
    } else {
        vars.push((name.clone(), slot));
        assert(vars_v(vars@) =~= vars_v(before).push((name@, slot)));
    }
}

impl Scope {
    /// The top-level scope: no variables, nothing around it.
    pub fn new() -> (s: Self)
        ensures
            s@ == crate::codegen::root_scope(),
    {
        let s = Scope { parent: None, vars: Vec::new(), next_slot: 0 };
        assert(vars_v(s.vars@) =~= Seq::<(Seq<char>, usize)>::empty());
        s
    }

    /// An empty scope inside `parent`.
    pub fn with_parent(parent: Rc<Scope>) -> (s: Self)
        ensures
            s@ == crate::codegen::scope_in(parent@),
    {
        let s = Scope { parent: Some(parent), vars: Vec::new(), next_slot: 0 };
        assert(vars_v(s.vars@) =~= Seq::<(Seq<char>, usize)>::empty());
        s
    }

    /// The slot of `name` in this scope or, failing that, in the scopes around it.
    pub fn resolve(&self, name: &str) -> (r: Option<usize>)
        ensures
            r == resolve(self@, name@),
        decreases self@,
    {
        let j = find_var(&self.vars, name);
        proof {
            lemma_lookup(vars_v(self.vars@), name@);
            if j < self.vars@.len() {
                lemma_lookup_at(vars_v(self.vars@), name@, j as int);
            }
        }
        if j < self.vars.len() {
            Some(self.vars[j].1)
        } else {
            match &self.parent {
                Some(p) => {
                    assert(decreases_to!(self@ => (**p)@));
                    p.resolve(name)
                },
                None => None,
            }
        }
    }

    /// A copy of this scope, sharing the scopes around it.
    pub fn duplicate(&self) -> (s: Scope)
        ensures
            s@ == self@,
    {
        let parent = match &self.parent {
            Some(p) => Some(share(p)),
            None => None,
        };
        Scope { parent, vars: copy_vars(&self.vars), next_slot: self.next_slot }
    }

    /// `current` without the names in `exclude`, inside the same parent, its next free
    /// slot one past its largest remaining slot; `None` when that slot would not fit.
    fn without_funcs_checked(current: &Scope, exclude: &Vec<String>) -> (r: Option<Scope>)
        ensures
            match without_funcs(current@, strings_v(exclude@)) {
                Ok(s) => r matches Some(x) && x@ == s,
                Err(_) => r is None,
            },
    {
        match kept_vars(&current.vars, exclude) {
            Some((vars, next_slot)) => {
                let parent = match &current.parent {
                    Some(p) => Some(share(p)),
                    None => None,
                };
                Some(Scope { parent, vars, next_slot })
            },
            None => None,
        }
    }

    /// The scope `current` without the names in `exclude` (the functions declared
    /// beside the one being compiled), inside the same parent, with its next free slot
    /// one past its largest remaining slot.
    pub fn without_funcs(current: Rc<Scope>, exclude: &Vec<String>) -> (s: Self)
        requires
            without_funcs(current@, strings_v(exclude@)) is Ok,
        ensures
            without_funcs(current@, strings_v(exclude@)) == Ok::<ScopeV, ()>(s@),
    {
        match Self::without_funcs_checked(&current, exclude) {
            Some(s) => s,
            None => Scope::new(),
        }
    }

    /// Binds in `vars` the variables of `scope` and of the scopes around it, outermost
    /// first, except those in `exclude`, moving `next_slot` past each of their slots.
    pub fn collect_vars(
        scope: &Rc<Scope>,
        vars: &mut Vec<(String, usize)>,
        next_slot: &mut usize,
        exclude: &Vec<String>,
    )
        requires
            collect((**scope)@, vars_v(old(vars)@), *old(next_slot), strings_v(exclude@)) is Ok,
        ensures
            collect((**scope)@, vars_v(old(vars)@), *old(next_slot), strings_v(exclude@))
                == Ok::<(Seq<(Seq<char>, usize)>, usize), ()>(
                (vars_v(final(vars)@), *final(next_slot)),
            ),
        decreases (**scope)@,
    {
        let ghost ex = strings_v(exclude@);
        let ghost total = collect((**scope)@, vars_v(vars@), *next_slot, ex);
        if let Some(p) = &scope.parent {
            assert(decreases_to!((**scope)@ => (**p)@));
            Self::collect_vars(p, vars, next_slot, exclude);
        }
        let own = &scope.vars;
        let ghost ov = vars_v(own@);
        assert(ov == (**scope)@.vars);
        let mut i: usize = 0;
        while i < own.len()
            invariant
                i <= own@.len(),
                ov == vars_v(own@),
                ex == strings_v(exclude@),
                total is Ok,
                collect_own(ov, i as int, vars_v(vars@), *next_slot, ex) == total,
            decreases own.len() - i,
        {
            let slot = own[i].1;
            if !holds(exclude, &own[i].0) {
                bind_in(vars, &own[i].0, slot);
                if *next_slot <= slot {
                    *next_slot = slot + 1;
                }
            }
            i = i + 1;
        }
    }

    /// Binds `name` to `slot` in this scope, keeping the next free slot.
    fn bind(&mut self, name: &str, slot: usize)
        ensures
            final(self)@ == (ScopeV {
                parent: old(self)@.parent,
                vars: set_var(old(self)@.vars, name@, slot),
                next_slot: old(self)@.next_slot,
            }),
    {
        let j = find_var(&self.vars, name);
        proof {
            lemma_set_var(vars_v(self.vars@), name@, slot, j as int);
        }
        let ghost before = self.vars@;
        if j < self.vars.len() {
            self.vars.set(j, (name.to_owned(), slot));
            assert(vars_v(self.vars@) =~= vars_v(before).update(j as int, (name@, slot)));
        } else {
            self.vars.push((name.to_owned(), slot));
            assert(vars_v(self.vars@) =~= vars_v(before).push((name@, slot)));
        }
    }

    /// Declares `name` at the next free slot and returns that slot.
    pub fn declare(&mut self, name: &str) -> (slot: usize)
        requires
            old(self)@.next_slot < usize::MAX,
        ensures
            declare(old(self)@, name@) == Ok::<(ScopeV, usize), ()>((final(self)@, slot)),
    {
        let slot = self.next_slot;
        self.bind(name, slot);
        self.next_slot = self.next_slot + 1;
        slot
    }

    /// Binds `name` to `slot`, moving the next free slot past it.
    pub fn declare_at(&mut self, name: &str, slot: usize)
        requires
            slot < usize::MAX,
        ensures
            declare_at(old(self)@, name@, slot as int) == Ok::<ScopeV, ()>(final(self)@),
    {
        self.bind(name, slot);
        if self.next_slot <= slot {
            self.next_slot = slot + 1;
        }
    }
}

// ---------------------------------------------------------------------------
// Capture analysis
// ---------------------------------------------------------------------------


/// Adds `n` at the end of `acc` unless it is there already.
fn add_name_to(acc: &mut Vec<String>, n: &String)
    ensures
        strings_v(final(acc)@) == add_name(strings_v(old(acc)@), n@),
{
    if !holds(acc, n) {
        let ghost before = acc@;
        acc.push(n.clone());
        assert(strings_v(acc@) =~= strings_v(before).push(n@));
    }
}

/// The names used in `e` that an anonymous function compiled in `sc` captures.
fn collect_anon(sc: &Scope, e: &Expr, acc: &mut Vec<String>)
    ensures
        strings_v(final(acc)@) == cap_anon(sc@, expr_v(*e), strings_v(old(acc)@)),
    decreases expr_v(*e), 0int,
{
    proof {
        lemma_expr_parts(*e);
    }
    match e {
        Expr::Ident(n) => {
            if sc.resolve(n.as_str()).is_some() {
                add_name_to(acc, n);
            }
        },
        Expr::Binary(l, _, r) => {
            collect_anon(sc, l, acc);
            collect_anon(sc, r, acc);
        },
        Expr::Conditional(c, t, f) => {
            collect_anon(sc, c, acc);
            collect_anon(sc, t, acc);
            collect_anon(sc, f, acc);
        },
        Expr::Call(f, args) => {
            collect_anon(sc, f, acc);
            collect_anon_list(sc, args, acc);
        },
        Expr::ArrayLiteral(es) => collect_anon_list(sc, es, acc),
        Expr::ObjectLiteral(es) => collect_anon_entries(sc, es, acc),
        Expr::Index(b, i) => {
            collect_anon(sc, b, acc);
            collect_anon(sc, i, acc);
        },
        Expr::PropAccess(o, _) => collect_anon(sc, o, acc),
        Expr::MethodCall(o, _, args) => {
            collect_anon(sc, o, acc);
            collect_anon_list(sc, args, acc);
        },
        Expr::Function(_, body) => collect_anon_body(sc, body, acc),
        Expr::New(c, args) => {
            collect_anon(sc, c, acc);
            collect_anon_list(sc, args, acc);
        },
        Expr::Spread(x) => collect_anon(sc, x, acc),
        _ => {},
    }
}

fn collect_anon_list(sc: &Scope, es: &Vec<Expr>, acc: &mut Vec<String>)
    ensures
        strings_v(final(acc)@) == cap_anon_list(sc@, exprs_v(es@), 0, strings_v(old(acc)@)),
    decreases exprs_v(es@), 1int,
{
    let ghost total = cap_anon_list(sc@, exprs_v(es@), 0, strings_v(acc@));
    let mut i: usize = 0;
    while i < es.len()
        invariant
            i <= es@.len(),
            cap_anon_list(sc@, exprs_v(es@), i as int, strings_v(acc@)) == total,
        decreases es.len() - i,
    {
        assert(exprs_v(es@)[i as int] == expr_v(es@[i as int]));
        collect_anon(sc, &es[i], acc);
        i = i + 1;
    }
}

fn collect_anon_entries(sc: &Scope, es: &Vec<(String, Expr)>, acc: &mut Vec<String>)
    ensures
        strings_v(final(acc)@) == cap_anon_entries(sc@, entries_v(es@), 0, strings_v(old(acc)@)),
    decreases entries_v(es@), 1int,
{
    let ghost total = cap_anon_entries(sc@, entries_v(es@), 0, strings_v(acc@));
    let mut i: usize = 0;
    while i < es.len()
        invariant
            i <= es@.len(),
            cap_anon_entries(sc@, entries_v(es@), i as int, strings_v(acc@)) == total,
        decreases es.len() - i,
    {
        assert(entries_v(es@)[i as int] == (es@[i as int].0@, expr_v(es@[i as int].1)));
        collect_anon(sc, &es[i].1, acc);
        i = i + 1;
    }
}

/// The returns and expression statements of `body`.
fn collect_anon_body(sc: &Scope, body: &Vec<Stmt>, acc: &mut Vec<String>)
    ensures
        strings_v(final(acc)@) == cap_anon_body(sc@, stmts_v(body@), 0, strings_v(old(acc)@)),
    decreases stmts_v(body@), 1int,
{
    let ghost total = cap_anon_body(sc@, stmts_v(body@), 0, strings_v(acc@));
    let mut i: usize = 0;
    while i < body.len()
        invariant
            i <= body@.len(),
            cap_anon_body(sc@, stmts_v(body@), i as int, strings_v(acc@)) == total,
        decreases body.len() - i,
    {
        assert(stmts_v(body@)[i as int] == stmt_v(body@[i as int]));
        match &body[i] {
            Stmt::Return(e) => collect_anon(sc, e, acc),
            Stmt::Expr(e) => collect_anon(sc, e, acc),
            _ => {},
        }
        i = i + 1;
    }
}

/// The names inside returned function expressions at any depth.
fn collect_returned(sc: &Scope, e: &Expr, acc: &mut Vec<String>)
    ensures
        strings_v(final(acc)@) == cap_returned(sc@, expr_v(*e), strings_v(old(acc)@)),
    decreases expr_v(*e), 0int,
{
    proof {
        lemma_expr_parts(*e);
    }
    match e {
        Expr::Function(_, body) => collect_returned_body(sc, body, acc),
        _ => {},
    }
}

fn collect_returned_body(sc: &Scope, body: &Vec<Stmt>, acc: &mut Vec<String>)
    ensures
        strings_v(final(acc)@) == cap_returned_body(sc@, stmts_v(body@), 0, strings_v(old(acc)@)),
    decreases stmts_v(body@), 1int,
{
    let ghost total = cap_returned_body(sc@, stmts_v(body@), 0, strings_v(acc@));
    let mut i: usize = 0;
    while i < body.len()
        invariant
            i <= body@.len(),
            cap_returned_body(sc@, stmts_v(body@), i as int, strings_v(acc@)) == total,
        decreases body.len() - i,
    {
        assert(stmts_v(body@)[i as int] == stmt_v(body@[i as int]));
        match &body[i] {
            Stmt::Return(e) => {
                collect_anon(sc, e, acc);
                collect_returned(sc, e, acc);
            },
            _ => {},
        }
        i = i + 1;
    }
}

/// What an anonymous function with this body, compiled in `sc`, captures.
fn anon_captures_of(sc: &Scope, body: &Vec<Stmt>) -> (caps: Vec<String>)
    ensures
        strings_v(caps@) == anon_captures(sc@, stmts_v(body@)),
{
    let mut acc: Vec<String> = Vec::new();
    assert(strings_v(acc@) =~= Seq::<Seq<char>>::empty());
    let ghost total = cap_anon_outer(sc@, stmts_v(body@), 0, seq![]);
    let mut i: usize = 0;
    while i < body.len()
        invariant
            i <= body@.len(),
            cap_anon_outer(sc@, stmts_v(body@), i as int, strings_v(acc@)) == total,
        decreases body.len() - i,
    {
        assert(stmts_v(body@)[i as int] == stmt_v(body@[i as int]));
        match &body[i] {
            Stmt::Return(e) => collect_anon(sc, e, &mut acc),
            Stmt::Expr(e) => collect_anon(sc, e, &mut acc),
            Stmt::FuncDecl(d) => collect_anon_body(sc, &d.body, &mut acc),
            _ => {},
        }
        i = i + 1;
    }
    collect_returned_body(sc, body, &mut acc);
    acc
}

/// The names used in `e` that a named function compiled in `sc` captures: never
/// `skip` nor one of `sibs`.
fn collect_named(sc: &Scope, e: &Expr, acc: &mut Vec<String>, skip: &String, sibs: &Vec<String>)
    ensures
        strings_v(final(acc)@) == cap_named(
            sc@,
            expr_v(*e),
            strings_v(old(acc)@),
            skip@,
            strings_v(sibs@),
        ),
    decreases expr_v(*e), 0int,
{
    proof {
        lemma_expr_parts(*e);
    }
    match e {
        Expr::Ident(n) => {
            if *n != *skip && !holds(sibs, n) && sc.resolve(n.as_str()).is_some() {
                add_name_to(acc, n);
            }
        },
        Expr::Binary(l, _, r) => {
            collect_named(sc, l, acc, skip, sibs);
            collect_named(sc, r, acc, skip, sibs);
        },
        Expr::Conditional(c, t, f) => {
            collect_named(sc, c, acc, skip, sibs);
            collect_named(sc, t, acc, skip, sibs);
            collect_named(sc, f, acc, skip, sibs);
        },
        Expr::Call(f, args) => {
            collect_named(sc, f, acc, skip, sibs);
            collect_named_list(sc, args, acc, skip, sibs);
        },
        Expr::ArrayLiteral(es) => collect_named_list(sc, es, acc, skip, sibs),
        Expr::ObjectLiteral(es) => collect_named_entries(sc, es, acc, skip, sibs),
        Expr::Index(b, i) => {
            collect_named(sc, b, acc, skip, sibs);
            collect_named(sc, i, acc, skip, sibs);
        },
        Expr::PropAccess(o, _) => collect_named(sc, o, acc, skip, sibs),
        Expr::MethodCall(o, _, args) => {
            collect_named(sc, o, acc, skip, sibs);
            collect_named_list(sc, args, acc, skip, sibs);
        },
        Expr::Function(_, body) => {
            let none = String::new();
            collect_named_body(sc, body, acc, &none, sibs);
        },
        Expr::New(c, args) => {
            collect_named(sc, c, acc, skip, sibs);
            collect_named_list(sc, args, acc, skip, sibs);
        },
        Expr::Spread(x) => collect_named(sc, x, acc, skip, sibs),
        _ => {},
    }
}

fn collect_named_list(
    sc: &Scope,
    es: &Vec<Expr>,
    acc: &mut Vec<String>,
    skip: &String,
    sibs: &Vec<String>,
)
    ensures
        strings_v(final(acc)@) == cap_named_list(
            sc@,
            exprs_v(es@),
            0,
            strings_v(old(acc)@),
            skip@,
            strings_v(sibs@),
        ),
    decreases exprs_v(es@), 1int,
{
    let ghost total = cap_named_list(sc@, exprs_v(es@), 0, strings_v(acc@), skip@, strings_v(sibs@));
    let mut i: usize = 0;
    while i < es.len()
        invariant
            i <= es@.len(),
            cap_named_list(sc@, exprs_v(es@), i as int, strings_v(acc@), skip@, strings_v(sibs@))
                == total,
        decreases es.len() - i,
    {
        assert(exprs_v(es@)[i as int] == expr_v(es@[i as int]));
        collect_named(sc, &es[i], acc, skip, sibs);
        i = i + 1;
    }
}

fn collect_named_entries(
    sc: &Scope,
    es: &Vec<(String, Expr)>,
    acc: &mut Vec<String>,
    skip: &String,
    sibs: &Vec<String>,
)
    ensures
        strings_v(final(acc)@) == cap_named_entries(
            sc@,
            entries_v(es@),
            0,
            strings_v(old(acc)@),
            skip@,
            strings_v(sibs@),
        ),
    decreases entries_v(es@), 1int,
{
    let ghost total = cap_named_entries(
        sc@,
        entries_v(es@),
        0,
        strings_v(acc@),
        skip@,
        strings_v(sibs@),
    );
    let mut i: usize = 0;
    while i < es.len()
        invariant
            i <= es@.len(),
            cap_named_entries(sc@, entries_v(es@), i as int, strings_v(acc@), skip@, strings_v(sibs@))
                == total,
        decreases es.len() - i,
    {
        assert(entries_v(es@)[i as int] == (es@[i as int].0@, expr_v(es@[i as int].1)));
        collect_named(sc, &es[i].1, acc, skip, sibs);
        i = i + 1;
    }
}

/// The returns and expression statements of `body`.
fn collect_named_body(
    sc: &Scope,
    body: &Vec<Stmt>,
    acc: &mut Vec<String>,
    skip: &String,
    sibs: &Vec<String>,
)
    ensures
        strings_v(final(acc)@) == cap_named_body(
            sc@,
            stmts_v(body@),
            0,
            strings_v(old(acc)@),
            skip@,
            strings_v(sibs@),
        ),
    decreases stmts_v(body@), 1int,
{
    let ghost total = cap_named_body(sc@, stmts_v(body@), 0, strings_v(acc@), skip@, strings_v(sibs@));
    let mut i: usize = 0;
    while i < body.len()
        invariant
            i <= body@.len(),
            cap_named_body(sc@, stmts_v(body@), i as int, strings_v(acc@), skip@, strings_v(sibs@))
                == total,
        decreases body.len() - i,
    {
        assert(stmts_v(body@)[i as int] == stmt_v(body@[i as int]));
        match &body[i] {
            Stmt::Return(e) => collect_named(sc, e, acc, skip, sibs),
            Stmt::Expr(e) => collect_named(sc, e, acc, skip, sibs),
            _ => {},
        }
        i = i + 1;
    }
}

/// A declaration nested in a named function: its returns and expression statements,
/// and those of the declarations directly inside it.
fn collect_nested_decl(
    sc: &Scope,
    body: &Vec<Stmt>,
    acc: &mut Vec<String>,
    skip: &String,
    sibs: &Vec<String>,
)
    ensures
        strings_v(final(acc)@) == cap_nested_decl(
            sc@,
            stmts_v(body@),
            0,
            strings_v(old(acc)@),
            skip@,
            strings_v(sibs@),
        ),
{
    let ghost total = cap_nested_decl(sc@, stmts_v(body@), 0, strings_v(acc@), skip@, strings_v(sibs@));
    let mut i: usize = 0;
    while i < body.len()
        invariant
            i <= body@.len(),
            cap_nested_decl(sc@, stmts_v(body@), i as int, strings_v(acc@), skip@, strings_v(sibs@))
                == total,
        decreases body.len() - i,
    {
        assert(stmts_v(body@)[i as int] == stmt_v(body@[i as int]));
        match &body[i] {
            Stmt::Return(e) => collect_named(sc, e, acc, skip, sibs),
            Stmt::Expr(e) => collect_named(sc, e, acc, skip, sibs),
            Stmt::FuncDecl(inner) => collect_named_body(sc, &inner.body, acc, skip, sibs),
            _ => {},
        }
        i = i + 1;
    }
}

/// What a named function called `skip`, with this body and the declarations `sibs`
/// in it, captures from `sc` (its own scope).
fn named_captures_of(sc: &Scope, body: &Vec<Stmt>, skip: &String, sibs: &Vec<String>) -> (caps: Vec<
    String,
>)
    ensures
        strings_v(caps@) == cap_named_stmts(
            sc@,
            stmts_v(body@),
            0,
            seq![],
            skip@,
            strings_v(sibs@),
        ),
{
    let mut acc: Vec<String> = Vec::new();
    assert(strings_v(acc@) =~= Seq::<Seq<char>>::empty());
    let ghost total = cap_named_stmts(sc@, stmts_v(body@), 0, seq![], skip@, strings_v(sibs@));
    let mut i: usize = 0;
    while i < body.len()
        invariant
            i <= body@.len(),
            cap_named_stmts(sc@, stmts_v(body@), i as int, strings_v(acc@), skip@, strings_v(sibs@))
                == total,
        decreases body.len() - i,
    {
        assert(stmts_v(body@)[i as int] == stmt_v(body@[i as int]));
        match &body[i] {
            Stmt::Return(e) => collect_named(sc, e, &mut acc, skip, sibs),
            Stmt::Expr(e) => collect_named(sc, e, &mut acc, skip, sibs),
            Stmt::FuncDecl(d) => collect_nested_decl(sc, &d.body, &mut acc, skip, sibs),
            _ => {},
        }
        i = i + 1;
    }
    acc
}

// ---------------------------------------------------------------------------
// Parameters and captured slots
// ---------------------------------------------------------------------------

/// The number of slots the parameters take; `None` when it does not fit.
fn param_slot_count(params: &Vec<Param>) -> (r: Option<usize>)
    ensures
        match param_slots(params_v(params@)) {
            Ok(n) => r == Some(n),
            Err(_) => r is None,
        },
{
    let ghost pv = params_v(params@);
    let mut acc: usize = 0;
    let mut i: usize = 0;
    while i < params.len()
        invariant
            i <= params@.len(),
            pv == params_v(params@),
            pv.len() == params@.len(),
            acc == slots_before(pv, i as int),
        decreases params.len() - i,
    {
        assert(pv[i as int] == param_v(params@[i as int]));
        let w: usize = match &params[i] {
            Param::Destructure(fs) => {
                assert(pv[i as int] == ParamV::Destructure(strings_v(fs@)));
                fs.len()
            },
            _ => 1,
        };
        assert(w == param_width(pv[i as int]));
        if w > usize::MAX - acc {
            proof {
                lemma_slots_before_grow(pv, i + 1, pv.len() as int);
            }
            return None;
        }
        acc = acc + w;
        i = i + 1;
    }
    Some(acc)
}

impl Scope {
    /// Declares each of `names` at the next free slots; `false` (leaving the scope
    /// somewhere in between) when a slot would not fit.
    fn declare_each_name(&mut self, names: &Vec<String>) -> (ok: bool)
        ensures
            match declare_each(old(self)@, strings_v(names@), 0) {
                Ok(s) => ok && final(self)@ == s,
                Err(_) => !ok,
            },
    {
        let ghost total = declare_each(self@, strings_v(names@), 0);
        let mut j: usize = 0;
        while j < names.len()
            invariant
                j <= names@.len(),
                declare_each(self@, strings_v(names@), j as int) == total,
                total == declare_each(old(self)@, strings_v(names@), 0),
            decreases names.len() - j,
        {
            if self.next_slot == usize::MAX {
                return false;
            }
            self.declare(names[j].as_str());
            j = j + 1;
        }
        true
    }

    /// Declares an anonymous function's parameters in order; the index of the rest
    /// parameter and the destructured parameters, or `None`.
    fn declare_anon_params(&mut self, params: &Vec<Param>) -> (r: Option<
        (Option<usize>, Vec<(usize, Vec<String>)>),
    >)
        ensures
            match anon_params(old(self)@, params_v(params@), 0, None, seq![]) {
                Ok((s, rest, destr)) => r matches Some((r2, d2)) && final(self)@ == s && r2 == rest
                    && destructured_v(d2@) == destr,
                Err(_) => r is None,
            },
    {
        let ghost pv = params_v(params@);
        let ghost total = anon_params(self@, pv, 0, None, seq![]);
        let mut rest: Option<usize> = None;
        let mut destr: Vec<(usize, Vec<String>)> = Vec::new();
        assert(destructured_v(destr@) =~= Seq::<(usize, Seq<Seq<char>>)>::empty());
        let mut i: usize = 0;
        while i < params.len()
            invariant
                i <= params@.len(),
                pv == params_v(params@),
                anon_params(self@, pv, i as int, rest, destructured_v(destr@)) == total,
                total == anon_params(old(self)@, params_v(params@), 0, None, seq![]),
            decreases params.len() - i,
        {
            assert(pv[i as int] == param_v(params@[i as int]));
            match &params[i] {
                Param::Name(n) => {
                    if self.next_slot == usize::MAX {
                        return None;
                    }
                    self.declare(n.as_str());
                },
                Param::Destructure(fs) => {
                    if fs.len() == 0 {
                        return None;
                    }
                    if !self.declare_each_name(fs) {
                        return None;
                    }
                    let ghost before = destr@;
                    destr.push((i, copy_names(fs)));
                    assert(names_v(fs@) =~= strings_v(fs@));
                    assert(destructured_v(destr@) =~= destructured_v(before).push(
                        (i, strings_v(fs@)),
                    ));
                },
                Param::Rest(n) => {
                    if self.next_slot == usize::MAX {
                        return None;
                    }
                    self.declare(n.as_str());
                    rest = Some(i);
                },
            }
            i = i + 1;
        }
        Some((rest, destr))
    }

    /// Binds the captured names to the slots after the parameters (`total + i`);
    /// the `(slot in outer, slot here)` of each, or `None`.
    fn bind_anon_captures(&mut self, outer: &Scope, caps: &Vec<String>, total: usize) -> (r: Option<
        Vec<(usize, usize)>,
    >)
        ensures
            match anon_cap_slots(outer@, old(self)@, strings_v(caps@), 0, total, seq![]) {
                Ok((s, slots)) => r matches Some(v) && final(self)@ == s && v@ == slots,
                Err(_) => r is None,
            },
    {
        let ghost cv = strings_v(caps@);
        let ghost whole = anon_cap_slots(outer@, self@, cv, 0, total, seq![]);
        let mut slots: Vec<(usize, usize)> = Vec::new();
        let mut i: usize = 0;
        while i < caps.len()
            invariant
                i <= caps@.len(),
                cv == strings_v(caps@),
                anon_cap_slots(outer@, self@, cv, i as int, total, slots@) == whole,
                whole == anon_cap_slots(outer@, old(self)@, strings_v(caps@), 0, total, seq![]),
            decreases caps.len() - i,
        {
            let from = match outer.resolve(caps[i].as_str()) {
                Some(v) => v,
                None => 0,
            };
            if total >= usize::MAX - i {
                return None;
            }
            let slot = total + i;
            self.bind(caps[i].as_str(), slot);
            if self.next_slot <= slot {
                self.next_slot = slot + 1;
            }
            slots.push((from, slot));
            i = i + 1;
        }
        Some(slots)
    }

    /// Binds each of `fields` to `base + j`, or `false`.
    fn declare_fields(&mut self, fields: &Vec<String>, base: usize) -> (ok: bool)
        ensures
            match declare_fields_at(old(self)@, strings_v(fields@), 0, base as int) {
                Ok(s) => ok && final(self)@ == s,
                Err(_) => !ok,
            },
            ok ==> base + fields@.len() <= usize::MAX,
    {
        let ghost total = declare_fields_at(self@, strings_v(fields@), 0, base as int);
        let mut j: usize = 0;
        while j < fields.len()
            invariant
                j <= fields@.len(),
                base + j <= usize::MAX,
                declare_fields_at(self@, strings_v(fields@), j as int, base as int) == total,
                total == declare_fields_at(old(self)@, strings_v(fields@), 0, base as int),
            decreases fields.len() - j,
        {
            if base >= usize::MAX - j {
                return false;
            }
            self.declare_at(fields[j].as_str(), base + j);
            j = j + 1;
        }
        true
    }

    /// Declares a named function's parameters from slot `off` on, each after the
    /// slots of the ones before it; the index of the rest parameter and the
    /// destructured parameters, or `None`.
    fn declare_named_params(&mut self, params: &Vec<Param>, off: usize) -> (r: Option<
        (Option<usize>, Vec<(usize, Vec<String>)>),
    >)
        requires
            off <= 1,
        ensures
            match named_params(old(self)@, params_v(params@), 0, off as int, None, seq![]) {
                Ok((s, rest, destr)) => r matches Some((r2, d2)) && final(self)@ == s && r2 == rest
                    && destructured_v(d2@) == destr,
                Err(_) => r is None,
            },
    {
        let ghost pv = params_v(params@);
        let ghost total = named_params(self@, pv, 0, off as int, None, seq![]);
        let mut rest: Option<usize> = None;
        let mut destr: Vec<(usize, Vec<String>)> = Vec::new();
        assert(destructured_v(destr@) =~= Seq::<(usize, Seq<Seq<char>>)>::empty());
        let mut i: usize = 0;
        let mut at: usize = off;
        while i < params.len()
            invariant
                i <= params@.len(),
                pv == params_v(params@),
                named_params(self@, pv, i as int, at as int, rest, destructured_v(destr@)) == total,
                total == named_params(old(self)@, params_v(params@), 0, off as int, None, seq![]),
            decreases params.len() - i,
        {
            assert(pv[i as int] == param_v(params@[i as int]));
            match &params[i] {
                Param::Name(n) => {
                    if at == usize::MAX {
                        return None;
                    }
                    self.declare_at(n.as_str(), at);
                    at = at + 1;
                },
                Param::Destructure(fs) => {
                    if !self.declare_fields(fs, at) {
                        return None;
                    }
                    let ghost before = destr@;
                    destr.push((i, copy_names(fs)));
                    assert(names_v(fs@) =~= strings_v(fs@));
                    assert(destructured_v(destr@) =~= destructured_v(before).push(
                        (i, strings_v(fs@)),
                    ));
                    at = at + fs.len();
                },
                Param::Rest(n) => {
                    if at == usize::MAX {
                        return None;
                    }
                    self.declare_at(n.as_str(), at);
                    at = at + 1;
                    rest = Some(i);
                },
            }
            i = i + 1;
        }
        Some((rest, destr))
    }

    /// Binds the captured names that are not local yet to the slots from `base` on;
    /// the `(slot in the scopes around, slot here)` of each, or `None`.
    fn bind_named_captures(&mut self, caps: &Vec<String>, base: Option<usize>) -> (r: Option<
        Vec<(usize, usize)>,
    >)
        ensures
            match named_cap_slots(old(self)@, strings_v(caps@), 0, base_int(base), 0, seq![]) {
                Ok((s, slots)) => r matches Some(v) && final(self)@ == s && v@ == slots,
                Err(_) => r is None,
            },
    {
        let ghost cv = strings_v(caps@);
        let ghost b: int = base_int(base);
        let ghost whole = named_cap_slots(self@, cv, 0, b, 0, seq![]);
        let mut slots: Vec<(usize, usize)> = Vec::new();
        let mut k: usize = 0;
        let mut i: usize = 0;
        while i < caps.len()
            invariant
                i <= caps@.len(),
                k <= i,
                cv == strings_v(caps@),
                b == base_int(base),
                named_cap_slots(self@, cv, i as int, b, k as int, slots@) == whole,
                whole == named_cap_slots(old(self)@, strings_v(caps@), 0, base_int(base), 0, seq![]),
            decreases caps.len() - i,
        {
            let j = find_var(&self.vars, caps[i].as_str());
            proof {
                lemma_lookup(vars_v(self.vars@), cv[i as int]);
                if j < self.vars@.len() {
                    lemma_lookup_at(vars_v(self.vars@), cv[i as int], j as int);
                }
            }
            if j >= self.vars.len() {
                let from = match self.resolve(caps[i].as_str()) {
                    Some(v) => v,
                    None => 0,
                };
                let slot = match base {
                    Some(v) => {
                        if v >= usize::MAX - k {
                            return None;
                        }
                        v + k
                    },
                    None => {
                        return None;
                    },
                };
                self.bind(caps[i].as_str(), slot);
                if self.next_slot <= slot {
                    self.next_slot = slot + 1;
                }
                slots.push((from, slot));
                k = k + 1;
            }
            i = i + 1;
        }
        Some(slots)
    }

    /// Declares the names of the function declarations in `body`, or `false`.
    fn declare_decl_names(&mut self, body: &Vec<Stmt>) -> (ok: bool)
        ensures
            match declare_decls(old(self)@, stmts_v(body@), 0) {
                Ok(s) => ok && final(self)@ == s,
                Err(_) => !ok,
            },
    {
        let ghost total = declare_decls(self@, stmts_v(body@), 0);
        let mut i: usize = 0;
        while i < body.len()
            invariant
                i <= body@.len(),
                declare_decls(self@, stmts_v(body@), i as int) == total,
                total == declare_decls(old(self)@, stmts_v(body@), 0),
            decreases body.len() - i,
        {
            assert(stmts_v(body@)[i as int] == stmt_v(body@[i as int]));
            match &body[i] {
                Stmt::FuncDecl(d) => {
                    if self.next_slot == usize::MAX {
                        return false;
                    }
                    self.declare(d.name.as_str());
                },
                _ => {},
            }
            i = i + 1;
        }
        true
    }
}

/// A slot base that may not fit in `usize` (then one past the largest).
pub open spec fn base_int(base: Option<usize>) -> int {
    match base {
        Some(v) => v as int,
        None => usize::MAX + 1,
    }
}

/// A copy of a list of names.
fn copy_names(v: &Vec<String>) -> (r: Vec<String>)
    ensures
        r@ == v@,
{
    let mut out: Vec<String> = Vec::new();
    let mut i: usize = 0;
    while i < v.len()
        invariant
            i <= v@.len(),
            out@ == v@.take(i as int),
        decreases v.len() - i,
    {
        out.push(v[i].clone());
        assert(out@ =~= v@.take(i + 1));
        i = i + 1;
    }
    assert(v@.take(v@.len() as int) =~= v@);
    out
}

/// The index of the last return statement in `body`.
fn last_return_index(body: &Vec<Stmt>) -> (r: Option<usize>)
    ensures
        opt_int(r) == last_return(stmts_v(body@), body@.len() as int),
{
    let ghost total = last_return(stmts_v(body@), body@.len() as int);
    let mut i: usize = body.len();
    while i > 0
        invariant
            i <= body@.len(),
            last_return(stmts_v(body@), i as int) == total,
            total == last_return(stmts_v(body@), body@.len() as int),
        decreases i,
    {
        assert(stmts_v(body@)[i - 1] == stmt_v(body@[i - 1]));
        match &body[i - 1] {
            Stmt::Return(_) => {
                return Some(i - 1);
            },
            _ => {},
        }
        i = i - 1;
    }
    None
}

/// The names of the function declarations in `body`.
fn decl_names_of(body: &Vec<Stmt>) -> (r: Vec<String>)
    ensures
        strings_v(r@) == decl_names(stmts_v(body@), 0),
{
    let mut out: Vec<String> = Vec::new();
    let mut i: usize = 0;
    while i < body.len()
        invariant
            i <= body@.len(),
            strings_v(out@) + decl_names(stmts_v(body@), i as int) == decl_names(stmts_v(body@), 0),
        decreases body.len() - i,
    {
        assert(stmts_v(body@)[i as int] == stmt_v(body@[i as int]));
        let ghost before = out@;
        match &body[i] {
            Stmt::FuncDecl(d) => {
                out.push(d.name.clone());
                assert(strings_v(out@) =~= strings_v(before).push(d.name@));
                assert(strings_v(out@) + decl_names(stmts_v(body@), i + 1) =~= strings_v(before) + (
                seq![d.name@] + decl_names(stmts_v(body@), i + 1)));
            },
            _ => {},
        }
        i = i + 1;
    }
    assert(strings_v(out@) + decl_names(stmts_v(body@), body@.len() as int) =~= strings_v(out@));
    out
}

// ---------------------------------------------------------------------------
// Code generation
// ---------------------------------------------------------------------------

/// Whether the code `b` begins with the code `a`.
pub open spec fn code_prefix(a: Seq<OpCode>, b: Seq<OpCode>) -> bool {
    a.len() <= b.len() && forall|i: int| 0 <= i < a.len() ==> b[i] == a[i]
}

/// An index as a mathematical integer.
pub open spec fn opt_int(o: Option<usize>) -> Option<int> {
    match o {
        Some(j) => Some(j as int),
        None => None,
    }
}

/// Adds `c` to the chunk's constants and pushes it.
fn push_constant(chunk: &mut Chunk, c: Constant)
    ensures
        final(chunk)@ == push_const(old(chunk)@, c@),
{
    let idx = chunk.add_constant(c);
    chunk.emit(OpCode::PushConst(idx));
}

/// The instruction of an arithmetic or comparison operator.
fn op_instruction(op: BinOp) -> (o: OpCode)
    ensures
        o == op_code(op),
{
    match op {
        BinOp::Add => OpCode::Add,
        BinOp::Sub => OpCode::Sub,
        BinOp::Mul => OpCode::Mul,
        BinOp::Div => OpCode::Div,
        BinOp::Mod => OpCode::Mod,
        BinOp::Eq => OpCode::Eq,
        BinOp::Ne => OpCode::Ne,
        BinOp::Lt => OpCode::Lt,
        BinOp::Gt => OpCode::Gt,
        BinOp::Le => OpCode::Le,
        BinOp::Ge => OpCode::Ge,
        BinOp::And => OpCode::Ge,
        BinOp::Or => OpCode::Ge,
    }
}

/// Whether any item is a spread, and how many are not.
fn spread_counts(es: &Vec<Expr>) -> (r: (bool, usize))
    ensures
        r.0 == has_spread(exprs_v(es@)),
        r.1 == non_spread_count(exprs_v(es@)),
{
    let ghost ev = exprs_v(es@);
    let mut any = false;
    let mut n: usize = 0;
    let mut i: usize = 0;
    while i < es.len()
        invariant
            i <= es@.len(),
            ev == exprs_v(es@),
            n <= i,
            n == non_spread_count(ev.take(i as int)),
            any <==> exists|j: int| 0 <= j < i && #[trigger] ev[j] is Spread,
        decreases es.len() - i,
    {
        assert(ev[i as int] == expr_v(es@[i as int]));
        assert(ev.take(i + 1).drop_last() =~= ev.take(i as int));
        match &es[i] {
            Expr::Spread(_) => {
                any = true;
            },
            _ => {
                n = n + 1;
            },
        }
        i = i + 1;
    }
    assert(ev.take(es@.len() as int) =~= ev);
    (any, n)
}

/// `names` without `name`.
fn names_except(names: &Vec<String>, name: &String) -> (r: Vec<String>)
    ensures
        strings_v(r@) == except(strings_v(names@), name@),
{
    let ghost nv = strings_v(names@);
    let ghost f = |n: Seq<char>| n != name@;
    let mut out: Vec<String> = Vec::new();
    let mut i: usize = 0;
    while i < names.len()
        invariant
            i <= names@.len(),
            nv == strings_v(names@),
            f == (|n: Seq<char>| n != name@),
            strings_v(out@) == nv.take(i as int).filter(f),
        decreases names.len() - i,
    {
        let ghost pre = nv.take(i as int);
        let ghost nxt = nv.take(i + 1);
        proof {
            reveal(Seq::filter);
            assert(nxt.drop_last() =~= pre);
        }
        let ghost before = out@;
        if names[i] != *name {
            out.push(names[i].clone());
            assert(strings_v(out@) =~= strings_v(before).push(nv[i as int]));
        }
        i = i + 1;
    }
    assert(nv.take(names@.len() as int) =~= nv);
    out
}

/// Compiles a program's functions into a list, each function after those inside it.
pub struct Compiler {
    pub functions: Vec<CompiledFunction>,
}

impl Compiler {
    /// The compiled functions as values.
    pub open spec fn fns(&self) -> Seq<CompiledFunctionV> {
        functions_v(self.functions@)
    }

    /// A compiler with no functions yet.
    pub fn new() -> (c: Self)
        ensures
            c.fns() == Seq::<CompiledFunctionV>::empty(),
    {
        let c = Compiler { functions: Vec::new() };
        assert(c.fns() =~= Seq::<CompiledFunctionV>::empty());
        c
    }

    /// Appends a compiled function and returns its index.
    fn push_function(&mut self, f: CompiledFunction) -> (idx: usize)
        ensures
            final(self).fns() == old(self).fns().push(f@),
            idx == old(self).fns().len(),
    {
        let idx = self.functions.len();
        let ghost before = self.functions@;
        self.functions.push(f);
        assert(functions_v(self.functions@) =~= functions_v(before).push(f@));
        idx
    }

    /// Compiles `expr` in `scope`, appending to `chunk` (and to the functions, for
    /// those inside it).
    fn compile_expr(&mut self, chunk: &mut Chunk, scope: &Scope, expr: &Expr) -> (r: Result<
        (),
        String,
    >)
        ensures
            r is Ok <==> c_expr(old(self).fns(), old(chunk)@, scope@, expr_v(*expr)) is Ok,
            r is Ok ==> c_expr(old(self).fns(), old(chunk)@, scope@, expr_v(*expr)) == Ok::<
                (Seq<CompiledFunctionV>, ChunkV),
                (),
            >((final(self).fns(), final(chunk)@)),
            r is Ok ==> code_prefix(old(chunk)@.code, final(chunk)@.code),
        decreases expr_v(*expr), 0int,
    {
        proof {
            lemma_expr_parts(*expr);
        }
        match expr {
            Expr::Number(n) => {
                push_constant(chunk, Constant::Number(n.clone()));
                Ok(())
            },
            Expr::Str(v) => {
                push_constant(chunk, Constant::Str(v.clone()));
                Ok(())
            },
            Expr::Ident(name) => {
                match scope.resolve(name.as_str()) {
                    Some(slot) => chunk.emit(OpCode::LoadLocal(slot as u32)),
                    None => {
                        let idx = chunk.add_global(name.as_str());
                        chunk.emit(OpCode::LoadGlobal(idx));
                    },
                }
                Ok(())
            },
            Expr::Binary(left, op, right) => {
                match op {
                    BinOp::And | BinOp::Or => {
                        self.compile_expr(chunk, scope, left)?;
                        chunk.emit(OpCode::Dup);
                        let jump_idx = chunk.code.len();
                        match op {
                            BinOp::And => chunk.emit(OpCode::JumpIfFalsePop(0)),
                            _ => chunk.emit(OpCode::JumpIfTruePop(0)),
                        }
                        chunk.emit(OpCode::Pop);
                        self.compile_expr(chunk, scope, right)?;
                        let target = chunk.code.len();
                        chunk.patch_jump(jump_idx, target);
                        chunk.emit(OpCode::ToBool);
                    },
                    _ => {
                        self.compile_expr(chunk, scope, left)?;
                        self.compile_expr(chunk, scope, right)?;
                        chunk.emit(op_instruction(*op));
                    },
                }
                Ok(())
            },
            Expr::Conditional(cond, then_expr, else_expr) => {
                self.compile_expr(chunk, scope, cond)?;
                let jump_idx = chunk.code.len();
                chunk.emit(OpCode::JumpIfFalsePop(0));
                self.compile_expr(chunk, scope, then_expr)?;
                let end_jump = chunk.code.len();
                chunk.emit(OpCode::Jump(0));
                let else_target = chunk.code.len();
                chunk.patch_jump(jump_idx, else_target);
                self.compile_expr(chunk, scope, else_expr)?;
                let end_target = chunk.code.len();
                chunk.patch_jump(end_jump, end_target);
                Ok(())
            },
            Expr::Call(func, args) => {
                self.compile_expr(chunk, scope, func)?;
                self.compile_items(chunk, scope, args)?;
                let (spread, non_spread) = spread_counts(args);
                if spread {
                    chunk.emit(OpCode::CallSpread(non_spread as u16));
                } else {
                    chunk.emit(OpCode::Call(args.len() as u16));
                }
                Ok(())
            },
            Expr::Function(params, body) => {
                let fn_idx = self.compile_anon(scope, params, body)?;
                chunk.emit(OpCode::MakeClosure(fn_idx as u32));
                Ok(())
            },
            Expr::ArrayLiteral(elems) => {
                chunk.emit(OpCode::PushDepthMarker);
                self.compile_items(chunk, scope, elems)?;
                chunk.emit(OpCode::MakeArray);
                Ok(())
            },
            Expr::ObjectLiteral(entries) => {
                self.compile_entries(chunk, scope, entries)?;
                chunk.emit(OpCode::MakeObject(entries.len() as u16));
                Ok(())
            },
            Expr::Index(base, idx) => {
                self.compile_expr(chunk, scope, base)?;
                self.compile_expr(chunk, scope, idx)?;
                chunk.emit(OpCode::Index);
                Ok(())
            },
            Expr::PropAccess(obj, prop) => {
                self.compile_expr(chunk, scope, obj)?;
                let prop_idx = chunk.add_property(prop.as_str());
                chunk.emit(OpCode::GetProperty(prop_idx));
                Ok(())
            },
            Expr::MethodCall(obj, method, args) => {
                self.compile_expr(chunk, scope, obj)?;
                push_constant(chunk, Constant::Str(method.clone()));
                self.compile_plain(chunk, scope, args)?;
                chunk.emit(OpCode::MethodCall(args.len() as u16));
                Ok(())
            },
            Expr::Spread(_) => Ok(()),
            Expr::New(ctor, args) => {
                let promise = "Promise".to_owned();
                proof {
                    reveal_strlit("Promise");
                    assert(promise@ =~= promise_name());
                }
                let is_promise = match &**ctor {
                    Expr::Ident(name) => *name == promise,
                    _ => false,
                };
                if is_promise && args.len() > 0 {
                    assert(exprs_v(args@)[0] == expr_v(args@[0]));
                    self.compile_expr(chunk, scope, &args[0])?;
                    chunk.emit(OpCode::MakePromise);
                    return Ok(());
                }
                self.compile_expr(chunk, scope, ctor)?;
                self.compile_plain(chunk, scope, args)?;
                chunk.emit(OpCode::Call(args.len() as u16));
                Ok(())
            },
        }
    }

    /// Compiles an anonymous function expression into a new function and returns its
    /// index.
    fn compile_anon(&mut self, scope: &Scope, params: &Vec<Param>, body: &Vec<Stmt>) -> (r: Result<
        usize,
        String,
    >)
        ensures
            r is Ok <==> c_anon(old(self).fns(), scope@, params_v(params@), stmts_v(body@)) is Ok,
            r matches Ok(idx) ==> c_anon(old(self).fns(), scope@, params_v(params@), stmts_v(body@))
                == Ok::<(Seq<CompiledFunctionV>, usize), ()>((final(self).fns(), idx)),
        decreases stmts_v(body@), 2int,
    {
        let caps = anon_captures_of(scope, body);
        let mut fn_scope = Scope::with_parent(Rc::new(scope.duplicate()));
        let (rest, destr) = match fn_scope.declare_anon_params(params) {
            Some(x) => x,
            None => {
                return Err("invalid parameters".to_string());
            },
        };
        let total = match param_slot_count(params) {
            Some(t) => t,
            None => {
                return Err("too many parameter slots".to_string());
            },
        };
        let slots = match fn_scope.bind_anon_captures(scope, &caps, total) {
            Some(v) => v,
            None => {
                return Err("too many slots".to_string());
            },
        };
        let mut fn_chunk = Chunk::new();
        let ghost bv = stmts_v(body@);
        let ghost fs0 = self.fns();
        let ghost whole = c_anon(old(self).fns(), scope@, params_v(params@), stmts_v(body@));
        let ghost steps = c_anon_stmts(self.fns(), fn_chunk@, fn_scope@, bv, 0);
        assert(fn_chunk@ == empty_chunk());
        assert(steps is Err ==> whole is Err);
        let mut i: usize = 0;
        while i < body.len()
            invariant
                i <= body@.len(),
                bv == stmts_v(body@),
                whole == c_anon(old(self).fns(), scope@, params_v(params@), stmts_v(body@)),
                steps is Err ==> whole is Err,
                c_anon_stmts(self.fns(), fn_chunk@, fn_scope@, bv, i as int) == steps,
            decreases body.len() - i,
        {
            assert(bv[i as int] == stmt_v(body@[i as int]));
            self.compile_stmt(&mut fn_chunk, &mut fn_scope, &body[i])?;
            i = i + 1;
        }
        let n = fn_chunk.code.len();
        let ends_in_return = n > 0 && match fn_chunk.code[n - 1] {
            OpCode::Return => true,
            _ => false,
        };
        if !ends_in_return {
            fn_chunk.emit(OpCode::Return);
        }
        let name = "<anonymous>".to_owned();
        proof {
            reveal_strlit("<anonymous>");
            assert(name@ =~= anonymous_name());
        }
        let f = CompiledFunction {
            chunk: fn_chunk,
            param_count: params.len(),
            name,
            captured_slots: slots,
            rest_slot: rest,
            destructured_params: destr,
            param_offset: 0,
            nesting_depth: 1,
        };
        Ok(self.push_function(f))
    }

    /// Compiles a statement of an anonymous function.
    fn compile_stmt(&mut self, chunk: &mut Chunk, scope: &mut Scope, stmt: &Stmt) -> (r: Result<
        (),
        String,
    >)
        ensures
            r is Ok <==> c_stmt(old(self).fns(), old(chunk)@, old(scope)@, stmt_v(*stmt)) is Ok,
            r is Ok ==> c_stmt(old(self).fns(), old(chunk)@, old(scope)@, stmt_v(*stmt)) == Ok::<
                (Seq<CompiledFunctionV>, ChunkV, ScopeV),
                (),
            >((final(self).fns(), final(chunk)@, final(scope)@)),
        decreases stmt_v(*stmt), 0int,
    {
        proof {
            lemma_stmt_parts(*stmt);
        }
        match stmt {
            Stmt::FuncDecl(decl) => {
                let none: Vec<String> = Vec::new();
                assert(strings_v(none@) =~= Seq::<Seq<char>>::empty());
                let filtered = match Scope::without_funcs_checked(scope, &none) {
                    Some(f) => f,
                    None => {
                        return Err("too many slots".to_string());
                    },
                };
                let fn_idx = self.compile_function_with_scope(decl, Rc::new(filtered))?;
                if scope.next_slot == usize::MAX {
                    return Err("too many slots".to_string());
                }
                let slot = scope.declare(decl.name.as_str());
                chunk.emit(OpCode::MakeClosure(fn_idx as u32));
                chunk.emit(OpCode::StoreLocal(slot as u32));
                Ok(())
            },
            Stmt::Return(e) => {
                self.compile_expr(chunk, scope, e)?;
                chunk.emit(OpCode::Return);
                Ok(())
            },
            Stmt::Expr(e) => {
                self.compile_expr(chunk, scope, e)?;
                chunk.emit(OpCode::Pop);
                Ok(())
            },
            _ => Ok(()),
        }
    }

    /// Compiles a named function declaration inside `parent_scope` into a new function
    /// (after the functions inside it) and returns its index. Slot 0 holds the
    /// function itself, the parameters follow, then the captured variables, then the
    /// functions declared in its body.
    pub fn compile_function_with_scope(&mut self, decl: &FuncDecl, parent_scope: Rc<Scope>) -> (r:
        Result<usize, String>)
        ensures
            r is Ok <==> c_fn(old(self).fns(), (*parent_scope)@, func_decl_v(*decl)) is Ok,
            r matches Ok(idx) ==> c_fn(old(self).fns(), (*parent_scope)@, func_decl_v(*decl))
                == Ok::<(Seq<CompiledFunctionV>, usize), ()>((final(self).fns(), idx)),
            r matches Ok(idx) ==> idx + 1 == final(self).fns().len(),
        decreases func_decl_v(*decl), 0int,
    {
        proof {
            lemma_decl_parts(*decl);
        }
        let nesting_depth: usize = if parent_scope.parent.is_some() {
            1
        } else {
            0
        };
        let param_offset: usize = if decl.name.as_str().is_empty() {
            0
        } else {
            1
        };
        let ghost parent_v = (*parent_scope)@;
        let mut sc = Scope::with_parent(parent_scope);
        let (rest_slot, destructured_params) = match sc.declare_named_params(
            &decl.params,
            param_offset,
        ) {
            Some(x) => x,
            None => {
                return Err("invalid parameters".to_string());
            },
        };
        if param_offset > 0 {
            sc.bind(decl.name.as_str(), 0);
        }
        let total = match param_slot_count(&decl.params) {
            Some(t) => t,
            None => {
                return Err("too many parameter slots".to_string());
            },
        };
        let sibling_names = decl_names_of(&decl.body);
        let captured = named_captures_of(&sc, &decl.body, &decl.name, &sibling_names);
        let base = param_offset.checked_add(total);
        let captured_slots = match sc.bind_named_captures(&captured, base) {
            Some(v) => v,
            None => {
                return Err("too many slots".to_string());
            },
        };
        if !sc.declare_decl_names(&decl.body) {
            return Err("too many slots".to_string());
        }
        let last_return_idx = last_return_index(&decl.body);
        let mut chunk = Chunk::new();
        assert(chunk@ == empty_chunk());
        self.compile_fn_body(&mut chunk, &sc, &decl.body, &sibling_names, last_return_idx)?;
        if last_return_idx.is_none() {
            push_constant(&mut chunk, Constant::Bool(true));
            chunk.emit(OpCode::Return);
        }
        let f = CompiledFunction {
            chunk,
            param_count: decl.params.len(),
            name: decl.name.clone(),
            captured_slots,
            rest_slot,
            destructured_params,
            param_offset,
            nesting_depth,
        };
        Ok(self.push_function(f))
    }

    /// The statements of a named function: a nested declaration is compiled inside
    /// this scope without the other declarations beside it and stored in its local;
    /// only the last return returns (earlier ones drop their value).
    fn compile_fn_body(
        &mut self,
        chunk: &mut Chunk,
        sc: &Scope,
        body: &Vec<Stmt>,
        sibling_names: &Vec<String>,
        last_return_idx: Option<usize>,
    ) -> (r: Result<(), String>)
        ensures
            r is Ok <==> c_fn_stmts(
                old(self).fns(),
                old(chunk)@,
                sc@,
                stmts_v(body@),
                0,
                strings_v(sibling_names@),
                opt_int(last_return_idx),
            ) is Ok,
            r is Ok ==> c_fn_stmts(
                old(self).fns(),
                old(chunk)@,
                sc@,
                stmts_v(body@),
                0,
                strings_v(sibling_names@),
                opt_int(last_return_idx),
            ) == Ok::<(Seq<CompiledFunctionV>, ChunkV), ()>((final(self).fns(), final(chunk)@)),
        decreases stmts_v(body@), 1int,
    {
        let ghost bv = stmts_v(body@);
        let ghost sibs = strings_v(sibling_names@);
        let ghost lr = opt_int(last_return_idx);
        let ghost total = c_fn_stmts(self.fns(), chunk@, sc@, bv, 0, sibs, lr);
        let mut i: usize = 0;
        while i < body.len()
            invariant
                i <= body@.len(),
                bv == stmts_v(body@),
                sibs == strings_v(sibling_names@),
                lr == opt_int(last_return_idx),
                total == c_fn_stmts(old(self).fns(), old(chunk)@, sc@, bv, 0, sibs, lr),
                c_fn_stmts(self.fns(), chunk@, sc@, bv, i as int, sibs, lr) == total,
            decreases body.len() - i,
        {
            assert(bv[i as int] == stmt_v(body@[i as int]));
            proof {
                lemma_stmt_parts(body@[i as int]);
            }
            match &body[i] {
                Stmt::FuncDecl(nested) => {
                    let others = names_except(sibling_names, &nested.name);
                    let filtered = match Scope::without_funcs_checked(sc, &others) {
                        Some(f) => f,
                        None => {
                            return Err("too many slots".to_string());
                        },
                    };
                    let fn_idx = self.compile_function_with_scope(nested, Rc::new(filtered))?;
                    let j = find_var(&sc.vars, nested.name.as_str());
                    proof {
                        lemma_lookup(vars_v(sc.vars@), nested.name@);
                        if j < sc.vars@.len() {
                            lemma_lookup_at(vars_v(sc.vars@), nested.name@, j as int);
                        }
                    }
                    if j >= sc.vars.len() {
                        return Err("undeclared function".to_string());
                    }
                    let slot = sc.vars[j].1;
                    chunk.emit(OpCode::MakeClosure(fn_idx as u32));
                    chunk.emit(OpCode::StoreLocal(slot as u32));
                },
                Stmt::Return(e) => {
                    self.compile_expr(chunk, sc, e)?;
                    let is_last = match last_return_idx {
                        Some(j) => j == i,
                        None => false,
                    };
                    if is_last {
                        chunk.emit(OpCode::Return);
                    } else {
                        chunk.emit(OpCode::Pop);
                    }
                },
                Stmt::Expr(e) => {
                    self.compile_expr(chunk, sc, e)?;
                    chunk.emit(OpCode::Pop);
                },
                _ => {},
            }
            i = i + 1;
        }
        Ok(())
    }

    /// Arguments or array elements: a spread compiles its operand, then `Spread`.
    fn compile_items(&mut self, chunk: &mut Chunk, scope: &Scope, es: &Vec<Expr>) -> (r: Result<
        (),
        String,
    >)
        ensures
            r is Ok <==> c_items(old(self).fns(), old(chunk)@, scope@, exprs_v(es@), 0) is Ok,
            r is Ok ==> c_items(old(self).fns(), old(chunk)@, scope@, exprs_v(es@), 0) == Ok::<
                (Seq<CompiledFunctionV>, ChunkV),
                (),
            >((final(self).fns(), final(chunk)@)),
            r is Ok ==> code_prefix(old(chunk)@.code, final(chunk)@.code),
        decreases exprs_v(es@), 1int,
    {
        let ghost ev = exprs_v(es@);
        let ghost total = c_items(self.fns(), chunk@, scope@, ev, 0);
        let mut i: usize = 0;
        while i < es.len()
            invariant
                i <= es@.len(),
                ev == exprs_v(es@),
                total == c_items(old(self).fns(), old(chunk)@, scope@, exprs_v(es@), 0),
                c_items(self.fns(), chunk@, scope@, ev, i as int) == total,
                code_prefix(old(chunk)@.code, chunk@.code),
            decreases es.len() - i,
        {
            assert(ev[i as int] == expr_v(es@[i as int]));
            proof {
                lemma_expr_parts(es@[i as int]);
            }
            match &es[i] {
                Expr::Spread(inner) => {
                    self.compile_expr(chunk, scope, inner)?;
                    chunk.emit(OpCode::Spread);
                },
                _ => {
                    self.compile_expr(chunk, scope, &es[i])?;
                },
            }
            i = i + 1;
        }
        Ok(())
    }

    /// Expressions one after another.
    fn compile_plain(&mut self, chunk: &mut Chunk, scope: &Scope, es: &Vec<Expr>) -> (r: Result<
        (),
        String,
    >)
        ensures
            r is Ok <==> c_plain(old(self).fns(), old(chunk)@, scope@, exprs_v(es@), 0) is Ok,
            r is Ok ==> c_plain(old(self).fns(), old(chunk)@, scope@, exprs_v(es@), 0) == Ok::<
                (Seq<CompiledFunctionV>, ChunkV),
                (),
            >((final(self).fns(), final(chunk)@)),
            r is Ok ==> code_prefix(old(chunk)@.code, final(chunk)@.code),
        decreases exprs_v(es@), 1int,
    {
        let ghost ev = exprs_v(es@);
        let ghost total = c_plain(self.fns(), chunk@, scope@, ev, 0);
        let mut i: usize = 0;
        while i < es.len()
            invariant
                i <= es@.len(),
                ev == exprs_v(es@),
                total == c_plain(old(self).fns(), old(chunk)@, scope@, exprs_v(es@), 0),
                c_plain(self.fns(), chunk@, scope@, ev, i as int) == total,
                code_prefix(old(chunk)@.code, chunk@.code),
            decreases es.len() - i,
        {
            assert(ev[i as int] == expr_v(es@[i as int]));
            self.compile_expr(chunk, scope, &es[i])?;
            i = i + 1;
        }
        Ok(())
    }

    /// Object entries: each key pushed as a string constant, then its value.
    fn compile_entries(
        &mut self,
        chunk: &mut Chunk,
        scope: &Scope,
        es: &Vec<(String, Expr)>,
    ) -> (r: Result<(), String>)
        ensures
            r is Ok <==> c_entries(old(self).fns(), old(chunk)@, scope@, entries_v(es@), 0) is Ok,
            r is Ok ==> c_entries(old(self).fns(), old(chunk)@, scope@, entries_v(es@), 0) == Ok::<
                (Seq<CompiledFunctionV>, ChunkV),
                (),
            >((final(self).fns(), final(chunk)@)),
            r is Ok ==> code_prefix(old(chunk)@.code, final(chunk)@.code),
        decreases entries_v(es@), 1int,
    {
        let ghost ev = entries_v(es@);
        let ghost total = c_entries(self.fns(), chunk@, scope@, ev, 0);
        let mut i: usize = 0;
        while i < es.len()
            invariant
                i <= es@.len(),
                ev == entries_v(es@),
                total == c_entries(old(self).fns(), old(chunk)@, scope@, entries_v(es@), 0),
                c_entries(self.fns(), chunk@, scope@, ev, i as int) == total,
                code_prefix(old(chunk)@.code, chunk@.code),
            decreases es.len() - i,
        {
            assert(ev[i as int] == (es@[i as int].0@, expr_v(es@[i as int].1)));
            push_constant(chunk, Constant::Str(es[i].0.clone()));
            self.compile_expr(chunk, scope, &es[i].1)?;
            i = i + 1;
        }
        Ok(())
    }
}

/// Whether the parser is at the `function` keyword.
fn at_function(parser: &Parser) -> (b: bool)
    ensures
        b == (tok_at(parser.tv(), parser.pos as int) is Function),
{
    match parser.peek() {
        Token::Function => true,
        _ => false,
    }
}

/// The views of a list of declarations.
pub open spec fn decls_v(ds: Seq<FuncDecl>) -> Seq<FuncDeclV> {
    ds.map_values(|d: FuncDecl| func_decl_v(d))
}

impl Compiler {
    /// Compiles a program whose functions become globals: its opening function
    /// declarations, then an optional expression; returns the top-level chunk and the
    /// declarations.
    pub fn compile_program(&mut self, source: &str) -> (r: Result<(Chunk, Vec<FuncDecl>), String>)
        ensures
            r is Ok <==> c_program(source@, false, old(self).fns()) is Ok,
            r matches Ok((ch, ds)) ==> c_program(source@, false, old(self).fns()) == Ok::<
                (Seq<CompiledFunctionV>, ChunkV, Seq<FuncDeclV>),
                Option<(Seq<char>, Seq<CompiledFunctionV>)>,
            >((final(self).fns(), ch@, decls_v(ds@))),
            c_program(source@, false, old(self).fns()) matches Err(Some((pm, pfs))) ==> r matches Err(m)
                && m@ == pm && final(self).fns() == pfs,
    {
        self.compile_program_inner(source, false)
    }

    /// Compiles a program, storing its functions in locals (`as_locals`) or globals.
    pub fn compile_program_with_mode(&mut self, source: &str, as_locals: bool) -> (r: Result<
        (Chunk, Vec<FuncDecl>),
        String,
    >)
        ensures
            r is Ok <==> c_program(source@, as_locals, old(self).fns()) is Ok,
            r matches Ok((ch, ds)) ==> c_program(source@, as_locals, old(self).fns()) == Ok::<
                (Seq<CompiledFunctionV>, ChunkV, Seq<FuncDeclV>),
                Option<(Seq<char>, Seq<CompiledFunctionV>)>,
            >((final(self).fns(), ch@, decls_v(ds@))),
            c_program(source@, as_locals, old(self).fns()) matches Err(Some((pm, pfs))) ==> r matches Err(m)
                && m@ == pm && final(self).fns() == pfs,
    {
        self.compile_program_inner(source, as_locals)
    }

    fn compile_program_inner(&mut self, source: &str, as_locals: bool) -> (r: Result<
        (Chunk, Vec<FuncDecl>),
        String,
    >)
        ensures
            r is Ok <==> c_program(source@, as_locals, old(self).fns()) is Ok,
            r matches Ok((ch, ds)) ==> c_program(source@, as_locals, old(self).fns()) == Ok::<
                (Seq<CompiledFunctionV>, ChunkV, Seq<FuncDeclV>),
                Option<(Seq<char>, Seq<CompiledFunctionV>)>,
            >((final(self).fns(), ch@, decls_v(ds@))),
            c_program(source@, as_locals, old(self).fns()) matches Err(Some((pm, pfs))) ==> r matches Err(m)
                && m@ == pm && final(self).fns() == pfs,
    {
        let mut lexer = Lexer::new(source);
        let tokens = lexer.tokenize();
        let ghost ts = tokens_view(tokens@);
        assert(ts == crate::lexer::tokenize_spec(source@));
        if tokens.len() >= usize::MAX - 1 {
            return Err("input too long".to_string());
        }
        let mut chunk = Chunk::new();
        let mut scope = Scope::new();
        let mut all_decls: Vec<FuncDecl> = Vec::new();
        assert(chunk@ == empty_chunk());
        assert(decls_v(all_decls@) =~= Seq::<FuncDeclV>::empty());
        let ghost whole = c_program(source@, as_locals, old(self).fns());
        let ghost decls_total = c_decls(ts, 0, self.fns(), chunk@, scope@, seq![], as_locals);
        assert(whole == c_finish(ts, decls_total));
        let mut parser = Parser::new(tokens);
        while at_function(&parser)
            invariant
                parser.tv() == ts,
                parser.tokens@.len() < usize::MAX - 1,
                parser.pos <= ts.len(),
                whole == c_program(source@, as_locals, old(self).fns()),
                whole == c_finish(ts, decls_total),
                c_decls(ts, parser.pos as int, self.fns(), chunk@, scope@, decls_v(all_decls@), as_locals)
                    == decls_total,
            ensures
                !(tok_at(ts, parser.pos as int) is Function && tok_at(ts, parser.pos + 1) is Ident),
            decreases ts.len() - parser.pos,
        {
            let saved_pos = parser.pos;
            parser.consume();
            let next_is_name = match parser.peek() {
                Token::Ident(_) => true,
                _ => false,
            };
            parser.pos = saved_pos;
            if !next_is_name {
                break;
            }
            assert(tok_at(ts, parser.pos as int) is Function);
            assert(tok_at(ts, parser.pos + 1) is Ident);
            let ghost p0 = parser.pos as int;
            let decl = match parser.parse_func_decl() {
                Ok(d) => d,
                Err(e) => {
                    return Err(e);
                },
            };
            let root = Scope::new();
            let fn_idx = self.compile_function_with_scope(&decl, Rc::new(root))?;
            if as_locals {
                if scope.next_slot == usize::MAX {
                    return Err("too many slots".to_string());
                }
                let local_slot = scope.declare(decl.name.as_str());
                chunk.emit(OpCode::MakeClosure(fn_idx as u32));
                chunk.emit(OpCode::StoreLocal(local_slot as u32));
            } else {
                let global_idx = chunk.add_global(decl.name.as_str());
                chunk.emit(OpCode::MakeClosure(fn_idx as u32));
                chunk.emit(OpCode::StoreGlobal(global_idx));
            }
            let ghost before = all_decls@;
            all_decls.push(decl);
            assert(decls_v(all_decls@) =~= decls_v(before).push(func_decl_v(decl)));
        }
        let at_end = match parser.peek() {
            Token::EOF => true,
            _ => false,
        };
        if !at_end {
            let expr = parser.parse_expr()?;
            self.compile_expr(&mut chunk, &scope, &expr)?;
        }
        chunk.emit(OpCode::Return);
        Ok((chunk, all_decls))
    }
}

} // verus!
