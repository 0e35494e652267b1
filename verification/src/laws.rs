//! Properties that relate several operations of the library, proved over the
//! functions its contracts are stated in.
use vstd::prelude::*;
use crate::codegen::{ScopeV, lookup, set_var, resolve, declare, declare_at, kept, without_funcs, slots_end};
use crate::opcode::{intern, first_index, lemma_first_index};

verus! {

/// No name occurs twice.
pub open spec fn distinct(s: Seq<Seq<char>>) -> bool {
    forall|i: int, j: int| 0 <= i < j < s.len() ==> s[i] != s[j]
}

proof fn lemma_lookup_set_var(vars: Seq<(Seq<char>, usize)>, k: Seq<char>, v: usize)
    ensures
        lookup(set_var(vars, k, v), k) == Some(v),
    decreases vars.len(),
{
    if vars.len() > 0 && vars[0].0 != k {
        lemma_lookup_set_var(vars.drop_first(), k, v);
        let sv = seq![vars[0]] + set_var(vars.drop_first(), k, v);
        assert(sv.drop_first() =~= set_var(vars.drop_first(), k, v));
    }
}

/// A name declared in a scope resolves there to the slot it was given.
pub proof fn law_declared_name_resolves(s: ScopeV, k: Seq<char>)
    requires
        declare(s, k) is Ok,
    ensures
        declare(s, k) matches Ok((s2, slot)) && resolve(s2, k) == Some(slot),
{
    lemma_lookup_set_var(s.vars, k, s.next_slot);
}

/// A name bound to a slot resolves there to that slot, and the next free slot comes
/// after it.
pub proof fn law_bound_name_resolves(s: ScopeV, k: Seq<char>, slot: int)
    requires
        declare_at(s, k, slot) is Ok,
    ensures
        declare_at(s, k, slot) matches Ok(s2) && resolve(s2, k) == Some(slot as usize)
            && slot < s2.next_slot,
{
    lemma_lookup_set_var(s.vars, k, slot as usize);
}

/// A scope filtered without some names holds none of them as its own variables.
pub proof fn law_excluded_names_are_hidden(s: ScopeV, exclude: Seq<Seq<char>>, k: Seq<char>)
    requires
        without_funcs(s, exclude) is Ok,
        exclude.contains(k),
    ensures
        without_funcs(s, exclude) matches Ok(f) && lookup(f.vars, k) is None && f.parent
            == s.parent,
{
    let vs = kept(s.vars, exclude);
    let pred = |e: (Seq<char>, usize)| !exclude.contains(e.0);
    assert(vs == s.vars.filter(pred));
    assert forall|i: int| 0 <= i < vs.len() implies vs[i].0 != k by {
        s.vars.lemma_filter_pred(pred, i);
    }
    lemma_lookup_absent(vs, k);
}

proof fn lemma_lookup_absent(vars: Seq<(Seq<char>, usize)>, k: Seq<char>)
    requires
        forall|i: int| 0 <= i < vars.len() ==> vars[i].0 != k,
    ensures
        lookup(vars, k) is None,
    decreases vars.len(),
{
    if vars.len() > 0 {
        assert forall|i: int| 0 <= i < vars.drop_first().len() implies vars.drop_first()[i].0 != k by {
            assert(vars.drop_first()[i] == vars[i + 1]);
        }
        lemma_lookup_absent(vars.drop_first(), k);
    }
}

/// Interning a name that was just interned gives the same index and leaves the pool
/// as it is (`add_global` and `add_property` do not add a name twice).
pub proof fn law_intern_twice(s: Seq<Seq<char>>, k: Seq<char>)
    ensures
        intern(intern(s, k).1, k) == intern(s, k),
{
    lemma_first_index(s, k);
    let (i, s2) = intern(s, k);
    lemma_first_index(s2, k);
    match first_index(s, k) {
        Some(j) => {},
        None => {
            assert(s2[s.len() as int] == k);
            if first_index(s2, k) is Some {
                let m = first_index(s2, k).unwrap();
                if m < s.len() {
                    assert(s2[m] == s[m]);
                }
            }
        },
    }
}

/// Interning keeps a pool free of duplicates, and the index it gives holds the name.
pub proof fn law_intern_keeps_pool_distinct(s: Seq<Seq<char>>, k: Seq<char>)
    requires
        distinct(s),
    ensures
        distinct(intern(s, k).1),
        0 <= intern(s, k).0 < intern(s, k).1.len(),
        intern(s, k).1[intern(s, k).0] == k,
        intern(s, k).1.len() <= s.len() + 1,
{
    lemma_first_index(s, k);
    let s2 = intern(s, k).1;
    if first_index(s, k) is None {
        assert forall|i: int, j: int| 0 <= i < j < s2.len() implies s2[i] != s2[j] by {
            if j == s.len() {
                assert(s2[i] == s[i]);
            } else {
                assert(s2[i] == s[i] && s2[j] == s[j]);
            }
        }
    }
}


proof fn lemma_lookup_push(vars: Seq<(Seq<char>, usize)>, e: (Seq<char>, usize), k: Seq<char>)
    ensures
        lookup(vars.push(e), k) == (match lookup(vars, k) {
            Some(v) => Some(v),
            None => if e.0 == k {
                Some(e.1)
            } else {
                None
            },
        }),
    decreases vars.len(),
{
    let t = vars.push(e);
    if vars.len() == 0 {
        assert(t[0] == e);
        assert(t.drop_first() =~= Seq::<(Seq<char>, usize)>::empty());
        assert(lookup(t.drop_first(), k) is None);
        assert(lookup(vars, k) is None);
    } else {
        assert(t[0] == vars[0]);
        assert(t.drop_first() =~= vars.drop_first().push(e));
        lemma_lookup_push(vars.drop_first(), e, k);
    }
}

proof fn lemma_kept_lookup(vars: Seq<(Seq<char>, usize)>, exclude: Seq<Seq<char>>, k: Seq<char>)
    requires
        !exclude.contains(k),
    ensures
        lookup(kept(vars, exclude), k) == lookup(vars, k),
    decreases vars.len(),
{
    if vars.len() > 0 {
        let init = vars.drop_last();
        let e = vars.last();
        assert(vars =~= init.push(e));
        lemma_kept_lookup(init, exclude, k);
        lemma_lookup_push(init, e, k);
        assert(vars.drop_last() == init);
        let f = |x: (Seq<char>, usize)| !exclude.contains(x.0);
        assert(kept(vars, exclude) == vars.filter(f));
        assert(kept(init, exclude) == init.filter(f));
        reveal(Seq::filter);
        assert(vars.filter(f) == (if f(vars.last()) {
            vars.drop_last().filter(f).push(vars.last())
        } else {
            vars.drop_last().filter(f)
        }));
        assert(kept(vars, exclude) == (if !exclude.contains(e.0) {
            kept(init, exclude).push(e)
        } else {
            kept(init, exclude)
        }));
        if !exclude.contains(e.0) {
            lemma_lookup_push(kept(init, exclude), e, k);
        } else {
            assert(e.0 != k);
        }
    }
}

/// A scope filtered without some names keeps every other name of its own at the slot
/// it had, and so resolves every name that is not excluded as before.
pub proof fn law_kept_names_resolve_as_before(s: ScopeV, exclude: Seq<Seq<char>>, k: Seq<char>)
    requires
        without_funcs(s, exclude) is Ok,
        !exclude.contains(k),
    ensures
        without_funcs(s, exclude) matches Ok(f) && lookup(f.vars, k) == lookup(s.vars, k)
            && resolve(f, k) == resolve(s, k),
{
    lemma_kept_lookup(s.vars, exclude, k);
}

proof fn lemma_slots_end(vars: Seq<(Seq<char>, usize)>)
    requires
        slots_end(vars) is Ok,
    ensures
        slots_end(vars) matches Ok(n) && (forall|i: int| 0 <= i < vars.len() ==> vars[i].1 < n)
            && (vars.len() == 0 ==> n == 0) && (vars.len() > 0 ==> exists|i: int|
            0 <= i < vars.len() && vars[i].1 + 1 == n),
    decreases vars.len(),
{
    if vars.len() > 0 {
        let init = vars.drop_last();
        lemma_slots_end(init);
        let n0 = slots_end(init)->Ok_0;
        let n = slots_end(vars)->Ok_0;
        assert forall|i: int| 0 <= i < vars.len() implies vars[i].1 < n by {
            if i < init.len() {
                assert(vars[i] == init[i]);
            }
        }
        if n0 > vars.last().1 + 1 {
            let w = choose|i: int| 0 <= i < init.len() && init[i].1 + 1 == n0;
            assert(vars[w] == init[w]);
        } else {
            assert(vars[vars.len() - 1].1 + 1 == n);
        }
    }
}

/// A scope filtered without some names has its next free slot one past the largest
/// slot it keeps, or 0 where it keeps none.
pub proof fn law_filtered_next_slot(s: ScopeV, exclude: Seq<Seq<char>>)
    requires
        without_funcs(s, exclude) is Ok,
    ensures
        without_funcs(s, exclude) matches Ok(f) && (forall|i: int|
            0 <= i < f.vars.len() ==> f.vars[i].1 < f.next_slot) && (f.vars.len() == 0
            ==> f.next_slot == 0) && (f.vars.len() > 0 ==> exists|i: int|
            0 <= i < f.vars.len() && f.vars[i].1 + 1 == f.next_slot),
{
    lemma_slots_end(kept(s.vars, exclude));
}

} // verus!
