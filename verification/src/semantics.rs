//! What the lexer, the parser, the code generator, the JSON reader and the module
//! bundler are for, stated over their inputs and results: a decimal number is one
//! token, an operator is parsed as the operator it is spelled as, `&&` and `||`
//! jump past their right operand on opposite truth values, a quoted JSON string is
//! read whole, and replacing a pattern replaces every occurrence of it.
use vstd::prelude::*;
use crate::text::{spec_is_digit, spec_is_whitespace, find_from, lemma_find_from};
use crate::module::replace_all;
use crate::opcode::{OpCode, ConstantV, ChunkV, CompiledFunctionV, intern};
use crate::codegen::{
    ScopeV, CR, c_expr, c_items, c_plain, c_entries, c_anon, emit, push_const, patch_here,
    with_globals, with_properties, op_code, resolve, non_spread_count, promise_name,
};
use crate::lexer::{TokenV, tokenize_spec, tokenize_from, next_tok, skip_ws, number_end, punct};
use crate::ast::{BinOp, ExprV};
use crate::grammar::{
    PR, g_cond, g_compare, g_compare_loop, g_add, g_add_loop, g_mul, g_mul_loop, g_chain,
    g_chain_loop, g_primary, add_op, mul_op, relational_op,
};

use crate::builtins::skip_spaces;
use crate::json::{close_quote, json_value_at, trim, trim_end_at};
use crate::json_tree::{JsonNodeV, json_tree, json_items, inner, unclosed_at, skip_separators};

verus! {

// ---------------------------------------------------------------------------
// Numbers are read whole
// ---------------------------------------------------------------------------

/// Whether every character of `s` from `p` on is a digit or a `.`.
pub open spec fn digits_and_dots_from(s: Seq<char>, p: int) -> bool {
    forall|i: int| p <= i < s.len() ==> spec_is_digit(#[trigger] s[i]) || s[i] == '.'
}

proof fn lemma_number_runs_to_end(s: Seq<char>, p: int)
    requires
        0 <= p <= s.len(),
        digits_and_dots_from(s, p),
    ensures
        number_end(s, p) == s.len(),
    decreases s.len() - p,
{
    if p < s.len() {
        lemma_number_runs_to_end(s, p + 1);
    }
}

/// A text that starts with a digit and holds nothing but digits and points, such as
/// `3.14`, is one number token carrying the whole text, followed by `EOF`.
pub proof fn law_decimal_number_is_one_token(s: Seq<char>)
    requires
        s.len() > 0,
        spec_is_digit(s[0]),
        digits_and_dots_from(s, 0),
    ensures
        tokenize_spec(s) == seq![TokenV::Number(s), TokenV::EOF],
{
    lemma_number_runs_to_end(s, 0);
    assert(!spec_is_whitespace(s[0]));
    assert(skip_ws(s, 0) == 0);
    assert(s.subrange(0, s.len() as int) =~= s);
    assert(next_tok(s, 0) == (TokenV::Number(s), s.len() as int));
    assert(skip_ws(s, s.len() as int) == s.len());
    assert(next_tok(s, s.len() as int) == (TokenV::EOF, s.len() as int));
    assert(tokenize_from(s, s.len() as int) == seq![TokenV::EOF]);
    assert(tokenize_spec(s) =~= seq![TokenV::Number(s), TokenV::EOF]);
}

/// Digits, a point and digits (`d1.d2`) are one number token `d1.d2`, then `EOF`.
pub proof fn law_digits_point_digits_is_one_number(d1: Seq<char>, d2: Seq<char>)
    requires
        d1.len() > 0,
        forall|i: int| 0 <= i < d1.len() ==> spec_is_digit(#[trigger] d1[i]),
        forall|i: int| 0 <= i < d2.len() ==> spec_is_digit(#[trigger] d2[i]),
    ensures
        tokenize_spec(d1 + seq!['.'] + d2) == seq![TokenV::Number(d1 + seq!['.'] + d2), TokenV::EOF],
{
    let s = d1 + seq!['.'] + d2;
    assert forall|i: int| 0 <= i < s.len() implies spec_is_digit(#[trigger] s[i]) || s[i] == '.' by {
        if i < d1.len() {
            assert(s[i] == d1[i]);
        } else if i > d1.len() {
            assert(s[i] == d2[i - d1.len() - 1]);
        }
    }
    assert(s[0] == d1[0]);
    law_decimal_number_is_one_token(s);
}

// ---------------------------------------------------------------------------
// Operators are parsed as spelled
// ---------------------------------------------------------------------------

/// The tokens `a op b` followed by `EOF`.
pub open spec fn infix_tokens(a: Seq<char>, t: TokenV, b: Seq<char>) -> Seq<TokenV> {
    seq![TokenV::Number(a), t, TokenV::Number(b), TokenV::EOF]
}

/// Whether `t` is a token that the chain of indexing, calls and property accesses
/// does not take up.
pub open spec fn ends_chain(t: TokenV) -> bool {
    !(t is LBracket) && !(t is LParen) && !(t is Dot) && !(t is Question)
}

proof fn lemma_operands(a: Seq<char>, t: TokenV, b: Seq<char>)
    requires
        ends_chain(t),
    ensures
        g_chain(infix_tokens(a, t, b), 0) == Ok::<(ExprV, int), (Seq<char>, int)>((ExprV::Number(a), 1)),
        g_chain(infix_tokens(a, t, b), 2) == Ok::<(ExprV, int), (Seq<char>, int)>((ExprV::Number(b), 3)),
{
    let ts = infix_tokens(a, t, b);
    assert(g_primary(ts, 0) == Ok::<(ExprV, int), (Seq<char>, int)>((ExprV::Number(a), 1)));
    assert(g_chain_loop(ts, 1, ExprV::Number(a)) == Ok::<(ExprV, int), (Seq<char>, int)>((ExprV::Number(a), 1)));
    assert(g_primary(ts, 2) == Ok::<(ExprV, int), (Seq<char>, int)>((ExprV::Number(b), 3)));
    assert(g_chain_loop(ts, 3, ExprV::Number(b)) == Ok::<(ExprV, int), (Seq<char>, int)>((ExprV::Number(b), 3)));
}

proof fn lemma_parse_infix(a: Seq<char>, t: TokenV, b: Seq<char>, op: BinOp)
    requires
        ends_chain(t),
        (mul_op(t) == Some(op) && add_op(t) is None && relational_op(t) is None)
            || (add_op(t) == Some(op) && mul_op(t) is None && relational_op(t) is None)
            || (relational_op(t) == Some(op) && mul_op(t) is None && add_op(t) is None),
    ensures
        g_cond(infix_tokens(a, t, b), 0) == Ok::<(ExprV, int), (Seq<char>, int)>(
            (ExprV::Binary(Box::new(ExprV::Number(a)), op, Box::new(ExprV::Number(b))), 3),
        ),
{
    let ts = infix_tokens(a, t, b);
    let ea = ExprV::Number(a);
    let eb = ExprV::Number(b);
    let bin = ExprV::Binary(Box::new(ea), op, Box::new(eb));
    lemma_operands(a, t, b);
    assert(g_mul_loop(ts, 3, bin) == Ok::<(ExprV, int), (Seq<char>, int)>((bin, 3)));
    assert(g_mul_loop(ts, 3, eb) == Ok::<(ExprV, int), (Seq<char>, int)>((eb, 3)));
    assert(g_mul(ts, 2) == Ok::<(ExprV, int), (Seq<char>, int)>((eb, 3)));
    assert(g_add_loop(ts, 3, bin) == Ok::<(ExprV, int), (Seq<char>, int)>((bin, 3)));
    assert(g_add_loop(ts, 3, eb) == Ok::<(ExprV, int), (Seq<char>, int)>((eb, 3)));
    assert(g_add(ts, 2) == Ok::<(ExprV, int), (Seq<char>, int)>((eb, 3)));
    assert(g_compare_loop(ts, 3, bin) == Ok::<(ExprV, int), (Seq<char>, int)>((bin, 3)));
    if mul_op(t) == Some(op) {
        assert(g_mul_loop(ts, 1, ea) == Ok::<(ExprV, int), (Seq<char>, int)>((bin, 3)));
        assert(g_mul(ts, 0) == Ok::<(ExprV, int), (Seq<char>, int)>((bin, 3)));
        assert(g_add(ts, 0) == Ok::<(ExprV, int), (Seq<char>, int)>((bin, 3)));
    } else {
        assert(g_mul_loop(ts, 1, ea) == Ok::<(ExprV, int), (Seq<char>, int)>((ea, 1)));
        assert(g_mul(ts, 0) == Ok::<(ExprV, int), (Seq<char>, int)>((ea, 1)));
        if add_op(t) == Some(op) {
            assert(g_add_loop(ts, 1, ea) == Ok::<(ExprV, int), (Seq<char>, int)>((bin, 3)));
            assert(g_add(ts, 0) == Ok::<(ExprV, int), (Seq<char>, int)>((bin, 3)));
        } else {
            assert(g_add_loop(ts, 1, ea) == Ok::<(ExprV, int), (Seq<char>, int)>((ea, 1)));
            assert(g_add(ts, 0) == Ok::<(ExprV, int), (Seq<char>, int)>((ea, 1)));
            assert(g_compare_loop(ts, 1, ea) == Ok::<(ExprV, int), (Seq<char>, int)>((bin, 3)));
        }
    }
    assert(g_compare(ts, 0) == Ok::<(ExprV, int), (Seq<char>, int)>((bin, 3)));
}

/// Each binary operator is parsed as the operator it is written as: put the token
/// that the lexer reads from an operator's spelling between two numbers, and the
/// parser gives that operator applied to the two numbers, `a - b` as subtraction,
/// `a || b` as disjunction and so on.
pub proof fn law_operator_parsed_as_spelled(op: BinOp, t: TokenV, a: Seq<char>, b: Seq<char>)
    requires
        punct(op.spelling(), 0, op.spelling()[0]) == Some((t, op.spelling().len() as int)),
    ensures
        g_cond(infix_tokens(a, t, b), 0) == Ok::<(ExprV, int), (Seq<char>, int)>(
            (ExprV::Binary(Box::new(ExprV::Number(a)), op, Box::new(ExprV::Number(b))), 3),
        ),
{
    reveal_strlit("+");
    reveal_strlit("-");
    reveal_strlit("*");
    reveal_strlit("/");
    reveal_strlit("%");
    reveal_strlit("==");
    reveal_strlit("!=");
    reveal_strlit("<");
    reveal_strlit(">");
    reveal_strlit("<=");
    reveal_strlit(">=");
    reveal_strlit("&&");
    reveal_strlit("||");
    lemma_parse_infix(a, t, b, op);
}

// ---------------------------------------------------------------------------
// JSON strings are read whole
// ---------------------------------------------------------------------------

proof fn lemma_quote_found(s: Seq<char>, p: int, k: int)
    requires
        0 <= p <= k < s.len(),
        s[k] == '"',
        forall|i: int| p <= i < k ==> s[i] != '"',
    ensures
        close_quote(s, p) == k,
    decreases k - p,
{
    if p < k {
        lemma_quote_found(s, p + 1, k);
    }
}

/// A JSON value that starts with a double quote runs to the next double quote and
/// ends just after it, whatever the text between holds (commas, brackets, braces).
pub proof fn law_quoted_value_read_whole(s: Seq<char>, start: int, k: int)
    requires
        0 <= start < k < s.len(),
        s[start] == '"',
        s[k] == '"',
        forall|i: int| start < i < k ==> s[i] != '"',
    ensures
        json_value_at(s, start) == Ok::<(Seq<char>, int), ()>((s.subrange(start, k + 1), k + 1)),
{
    lemma_quote_found(s, start + 1, k);
}

/// Whether `w` holds no double quote.
pub open spec fn quote_free(w: Seq<char>) -> bool {
    forall|i: int| 0 <= i < w.len() ==> #[trigger] w[i] != '"'
}

/// `w` in double quotes.
pub open spec fn quoted(w: Seq<char>) -> Seq<char> {
    seq!['"'] + w + seq!['"']
}

proof fn lemma_quoted_tree(w: Seq<char>)
    requires
        quote_free(w),
    ensures
        json_tree(quoted(w)) == JsonNodeV::Str(w),
{
    let q = quoted(w);
    assert(q[0] == '"');
    assert(q[q.len() - 1] == '"');
    assert(!spec_is_whitespace(q[0]));
    assert(!spec_is_whitespace(q[q.len() - 1]));
    assert(skip_spaces(q, 0) == 0);
    assert(trim_end_at(q, q.len() as int) == q.len());
    assert(q.subrange(0, q.len() as int) =~= q);
    assert(trim(q) == q);
    assert(inner(q) =~= w);
}

/// A one-element JSON array whose element is a quoted string gives that string
/// whole, even where it holds `,`, `]` or `}`: `["a, b"]` reads as the array of
/// the one string `a, b`.
pub proof fn law_array_of_one_string(w: Seq<char>)
    requires
        quote_free(w),
    ensures
        json_tree(seq!['['] + quoted(w) + seq![']']) == JsonNodeV::Array(seq![JsonNodeV::Str(w)]),
{
    let s = seq!['['] + quoted(w) + seq![']'];
    let q = quoted(w);
    assert(s[0] == '[');
    assert(s[s.len() - 1] == ']');
    assert(!spec_is_whitespace(s[0]));
    assert(!spec_is_whitespace(s[s.len() - 1]));
    assert(skip_spaces(s, 0) == 0);
    assert(trim_end_at(s, s.len() as int) == s.len());
    assert(s.subrange(0, s.len() as int) =~= s);
    assert(trim(s) == s);
    assert(inner(s) =~= q);
    assert(q[0] == '"');
    assert(q[q.len() - 1] == '"');
    assert forall|i: int| 0 < i < q.len() - 1 implies q[i] != '"' by {
        assert(q[i] == w[i - 1]);
    }
    law_quoted_value_read_whole(q, 0, q.len() - 1);
    assert(q.subrange(0, q.len() as int) =~= q);
    assert(json_value_at(q, 0) == Ok::<(Seq<char>, int), ()>((q, q.len() as int)));
    assert(skip_spaces(q, 0) == 0);
    lemma_quote_found(q, 1, q.len() - 1);
    assert(!unclosed_at(q, 0));
    assert(skip_separators(q, q.len() as int) == q.len());
    assert(skip_spaces(q, q.len() as int) == q.len());
    assert(json_items(q, q.len() as int) == Seq::<JsonNodeV>::empty());
    lemma_quoted_tree(w);
    assert(json_items(q, 0) =~= seq![JsonNodeV::Str(w)]);
}

// ---------------------------------------------------------------------------
// Replacing a pattern replaces every occurrence
// ---------------------------------------------------------------------------

/// Whether `pat` occurs in `s` at `i`.
pub open spec fn occurs_at(s: Seq<char>, pat: Seq<char>, i: int) -> bool {
    0 <= i && i + pat.len() <= s.len() && s.subrange(i, i + pat.len()) == pat
}

proof fn lemma_find_none(h: Seq<char>, n: Seq<char>, p: int)
    requires
        0 <= p,
        find_from(h, n, p) is None,
    ensures
        forall|a: int| p <= a ==> !occurs_at(h, n, a),
    decreases h.len() + 1 - p,
{
    if p + n.len() <= h.len() {
        lemma_find_none(h, n, p + 1);
    }
}

proof fn lemma_find_first(h: Seq<char>, n: Seq<char>, p: int, i: int)
    requires
        0 <= p,
        find_from(h, n, p) == Some(i),
    ensures
        forall|a: int| p <= a < i ==> !occurs_at(h, n, a),
    decreases h.len() + 1 - p,
{
    if p + n.len() <= h.len() && h.subrange(p, p + n.len()) != n {
        lemma_find_first(h, n, p + 1, i);
    }
}

/// Replacing leaves no occurrence of the pattern behind, wherever the replacement
/// cannot start one and every place in the text where the pattern's first character
/// stands starts an occurrence: each of them is replaced, not only the first. So a
/// module whose `export function`s are the only places an `e` stands is bundled with
/// no `export function` left.
pub proof fn law_replace_all_leaves_no_occurrence(s: Seq<char>, pat: Seq<char>, rep: Seq<char>)
    requires
        pat.len() > 0,
        forall|j: int| 0 <= j < rep.len() ==> #[trigger] rep[j] != pat[0],
        forall|a: int| 0 <= a < s.len() && #[trigger] s[a] == pat[0] ==> occurs_at(s, pat, a),
    ensures
        forall|a: int| !occurs_at(replace_all(s, pat, rep), pat, a),
    decreases s.len(),
{
    let l = pat.len() as int;
    match find_from(s, pat, 0) {
        None => {
            lemma_find_none(s, pat, 0);
        },
        Some(i) => {
            lemma_find_from(s, pat, 0);
            lemma_find_first(s, pat, 0, i);
            let t = s.subrange(i + l, s.len() as int);
            assert forall|a: int| 0 <= a < t.len() && #[trigger] t[a] == pat[0] implies occurs_at(
                t,
                pat,
                a,
            ) by {
                assert(s[i + l + a] == t[a]);
                assert(occurs_at(s, pat, i + l + a));
                assert(t.subrange(a, a + l) =~= s.subrange(i + l + a, i + l + a + l));
            }
            law_replace_all_leaves_no_occurrence(t, pat, rep);
            let rt = replace_all(t, pat, rep);
            let r = s.subrange(0, i) + rep + rt;
            assert(replace_all(s, pat, rep) == r);
            assert forall|a: int| !occurs_at(r, pat, a) by {
                if occurs_at(r, pat, a) {
                    assert(r.subrange(a, a + l)[0] == r[a]);
                    assert(r[a] == pat[0]);
                    if a < i {
                        assert(r[a] == s[a]);
                        assert(occurs_at(s, pat, a));
                    } else if a < i + rep.len() {
                        assert(r[a] == rep[a - i]);
                    } else {
                        let b = a - i - rep.len();
                        assert(r.subrange(a, a + l) =~= rt.subrange(b, b + l));
                        assert(occurs_at(rt, pat, b));
                    }
                }
            }
        },
    }
}

// ---------------------------------------------------------------------------
// `&&` and `||` skip their right operand on opposite truth values
// ---------------------------------------------------------------------------

/// `b` starts with all of `a`.
pub open spec fn code_prefix(a: Seq<OpCode>, b: Seq<OpCode>) -> bool {
    a.len() <= b.len() && forall|i: int| 0 <= i < a.len() ==> #[trigger] b[i] == a[i]
}

/// Compiling into `ch` only appends to its code (a jump it emits may be aimed
/// later, but no instruction before is touched).
pub open spec fn grows(ch: ChunkV, r: CR) -> bool {
    r matches Ok((_, ch2)) ==> code_prefix(ch.code, ch2.code)
}

proof fn lemma_prefix_trans(a: Seq<OpCode>, b: Seq<OpCode>, c: Seq<OpCode>)
    requires
        code_prefix(a, b),
        code_prefix(b, c),
    ensures
        code_prefix(a, c),
{
    assert forall|i: int| 0 <= i < a.len() implies #[trigger] c[i] == a[i] by {
        assert(c[i] == b[i]);
    }
}

proof fn lemma_emit_grows(ch: ChunkV, op: OpCode)
    ensures
        code_prefix(ch.code, emit(ch, op).code),
        emit(ch, op).code.len() == ch.code.len() + 1,
        emit(ch, op).code[ch.code.len() as int] == op,
{
    assert forall|i: int| 0 <= i < ch.code.len() implies #[trigger] emit(ch, op).code[i] == ch.code[i] by {}
}

proof fn lemma_patch_grows(a: Seq<OpCode>, ch: ChunkV, j: int)
    requires
        code_prefix(a, ch.code),
        a.len() <= j < ch.code.len(),
    ensures
        code_prefix(a, patch_here(ch, j).code),
        patch_here(ch, j).code.len() == ch.code.len(),
{
    assert forall|i: int| 0 <= i < a.len() implies #[trigger] patch_here(ch, j).code[i] == a[i] by {
        assert(patch_here(ch, j).code[i] == ch.code[i]);
    }
}

proof fn lemma_grow_expr(fs: Seq<CompiledFunctionV>, ch: ChunkV, sc: ScopeV, e: ExprV)
    ensures
        grows(ch, c_expr(fs, ch, sc, e)),
    decreases e, 0int,
{
    match e {
        ExprV::Number(n) => {
            lemma_emit_grows(ch, OpCode::PushConst(ch.constants.len() as u32));
        },
        ExprV::Str(x) => {
            lemma_emit_grows(ch, OpCode::PushConst(ch.constants.len() as u32));
        },
        ExprV::Ident(n) => {
            let (gi, gs) = intern(ch.globals, n);
            lemma_emit_grows(with_globals(ch, gs), OpCode::LoadGlobal(gi as u32));
            match resolve(sc, n) {
                Some(slot) => lemma_emit_grows(ch, OpCode::LoadLocal(slot as u32)),
                None => {},
            }
        },
        ExprV::Binary(l, op, r) => {
            lemma_grow_expr(fs, ch, sc, *l);
            match c_expr(fs, ch, sc, *l) {
                Ok((fs1, ch1)) => {
                    if op == BinOp::And || op == BinOp::Or {
                        let ch2 = emit(ch1, OpCode::Dup);
                        let j = ch2.code.len() as int;
                        let jump = if op == BinOp::And {
                            OpCode::JumpIfFalsePop(0)
                        } else {
                            OpCode::JumpIfTruePop(0)
                        };
                        let ch3 = emit(emit(ch2, jump), OpCode::Pop);
                        lemma_emit_grows(ch1, OpCode::Dup);
                        lemma_emit_grows(ch2, jump);
                        lemma_emit_grows(emit(ch2, jump), OpCode::Pop);
                        lemma_prefix_trans(ch.code, ch1.code, ch2.code);
                        lemma_prefix_trans(ch.code, ch2.code, emit(ch2, jump).code);
                        lemma_prefix_trans(ch.code, emit(ch2, jump).code, ch3.code);
                        lemma_grow_expr(fs1, ch3, sc, *r);
                        match c_expr(fs1, ch3, sc, *r) {
                            Ok((fs2, ch4)) => {
                                lemma_prefix_trans(ch.code, ch3.code, ch4.code);
                                lemma_patch_grows(ch.code, ch4, j);
                                lemma_emit_grows(patch_here(ch4, j), OpCode::ToBool);
                                lemma_prefix_trans(
                                    ch.code,
                                    patch_here(ch4, j).code,
                                    emit(patch_here(ch4, j), OpCode::ToBool).code,
                                );
                            },
                            Err(_) => {},
                        }
                    } else {
                        lemma_grow_expr(fs1, ch1, sc, *r);
                        match c_expr(fs1, ch1, sc, *r) {
                            Ok((fs2, ch2)) => {
                                lemma_emit_grows(ch2, op_code(op));
                                lemma_prefix_trans(ch.code, ch1.code, ch2.code);
                                lemma_prefix_trans(ch.code, ch2.code, emit(ch2, op_code(op)).code);
                            },
                            Err(_) => {},
                        }
                    }
                },
                Err(_) => {},
            }
        },
        ExprV::Conditional(c, t, f) => {
            lemma_grow_expr(fs, ch, sc, *c);
            match c_expr(fs, ch, sc, *c) {
                Ok((fs1, ch1)) => {
                    let j = ch1.code.len() as int;
                    let che = emit(ch1, OpCode::JumpIfFalsePop(0));
                    lemma_emit_grows(ch1, OpCode::JumpIfFalsePop(0));
                    lemma_prefix_trans(ch.code, ch1.code, che.code);
                    lemma_grow_expr(fs1, che, sc, *t);
                    match c_expr(fs1, che, sc, *t) {
                        Ok((fs2, ch3)) => {
                            let k = ch3.code.len() as int;
                            lemma_prefix_trans(ch.code, che.code, ch3.code);
                            lemma_emit_grows(ch3, OpCode::Jump(0));
                            lemma_prefix_trans(ch.code, ch3.code, emit(ch3, OpCode::Jump(0)).code);
                            lemma_patch_grows(ch.code, emit(ch3, OpCode::Jump(0)), j);
                            let ch4 = patch_here(emit(ch3, OpCode::Jump(0)), j);
                            lemma_grow_expr(fs2, ch4, sc, *f);
                            match c_expr(fs2, ch4, sc, *f) {
                                Ok((fs3, ch5)) => {
                                    lemma_prefix_trans(ch.code, ch4.code, ch5.code);
                                    lemma_patch_grows(ch.code, ch5, k);
                                },
                                Err(_) => {},
                            }
                        },
                        Err(_) => {},
                    }
                },
                Err(_) => {},
            }
        },
        ExprV::Call(f, args) => {
            lemma_grow_expr(fs, ch, sc, *f);
            match c_expr(fs, ch, sc, *f) {
                Ok((fs1, ch1)) => {
                    lemma_grow_items(fs1, ch1, sc, args, 0);
                    match c_items(fs1, ch1, sc, args, 0) {
                        Ok((fs2, ch2)) => {
                            lemma_prefix_trans(ch.code, ch1.code, ch2.code);
                            let op1 = OpCode::CallSpread(non_spread_count(args) as u16);
                            let op2 = OpCode::Call(args.len() as u16);
                            lemma_emit_grows(ch2, op1);
                            lemma_emit_grows(ch2, op2);
                            lemma_prefix_trans(ch.code, ch2.code, emit(ch2, op1).code);
                            lemma_prefix_trans(ch.code, ch2.code, emit(ch2, op2).code);
                        },
                        Err(_) => {},
                    }
                },
                Err(_) => {},
            }
        },
        ExprV::Function(params, body) => {
            match c_anon(fs, sc, params, body) {
                Ok((fs1, idx)) => {
                    lemma_emit_grows(ch, OpCode::MakeClosure(idx as u32));
                },
                Err(_) => {},
            }
        },
        ExprV::ArrayLiteral(es) => {
            let chm = emit(ch, OpCode::PushDepthMarker);
            lemma_emit_grows(ch, OpCode::PushDepthMarker);
            lemma_grow_items(fs, chm, sc, es, 0);
            match c_items(fs, chm, sc, es, 0) {
                Ok((fs1, ch1)) => {
                    lemma_prefix_trans(ch.code, chm.code, ch1.code);
                    lemma_emit_grows(ch1, OpCode::MakeArray);
                    lemma_prefix_trans(ch.code, ch1.code, emit(ch1, OpCode::MakeArray).code);
                },
                Err(_) => {},
            }
        },
        ExprV::ObjectLiteral(es) => {
            lemma_grow_entries(fs, ch, sc, es, 0);
            match c_entries(fs, ch, sc, es, 0) {
                Ok((fs1, ch1)) => {
                    let op = OpCode::MakeObject(es.len() as u16);
                    lemma_emit_grows(ch1, op);
                    lemma_prefix_trans(ch.code, ch1.code, emit(ch1, op).code);
                },
                Err(_) => {},
            }
        },
        ExprV::Index(b, i) => {
            lemma_grow_expr(fs, ch, sc, *b);
            match c_expr(fs, ch, sc, *b) {
                Ok((fs1, ch1)) => {
                    lemma_grow_expr(fs1, ch1, sc, *i);
                    match c_expr(fs1, ch1, sc, *i) {
                        Ok((fs2, ch2)) => {
                            lemma_prefix_trans(ch.code, ch1.code, ch2.code);
                            lemma_emit_grows(ch2, OpCode::Index);
                            lemma_prefix_trans(ch.code, ch2.code, emit(ch2, OpCode::Index).code);
                        },
                        Err(_) => {},
                    }
                },
                Err(_) => {},
            }
        },
        ExprV::PropAccess(o, p) => {
            lemma_grow_expr(fs, ch, sc, *o);
            match c_expr(fs, ch, sc, *o) {
                Ok((fs1, ch1)) => {
                    let (pi, ps) = intern(ch1.properties, p);
                    let op = OpCode::GetProperty(pi as u32);
                    lemma_emit_grows(with_properties(ch1, ps), op);
                    lemma_prefix_trans(ch.code, ch1.code, emit(with_properties(ch1, ps), op).code);
                },
                Err(_) => {},
            }
        },
        ExprV::MethodCall(o, m, args) => {
            lemma_grow_expr(fs, ch, sc, *o);
            match c_expr(fs, ch, sc, *o) {
                Ok((fs1, ch1)) => {
                    let pc = push_const(ch1, ConstantV::Str(m));
                    lemma_prefix_trans(ch.code, ch1.code, pc.code);
                    lemma_grow_plain(fs1, pc, sc, args, 0);
                    match c_plain(fs1, pc, sc, args, 0) {
                        Ok((fs2, ch2)) => {
                            let op = OpCode::MethodCall(args.len() as u16);
                            lemma_prefix_trans(ch.code, pc.code, ch2.code);
                            lemma_emit_grows(ch2, op);
                            lemma_prefix_trans(ch.code, ch2.code, emit(ch2, op).code);
                        },
                        Err(_) => {},
                    }
                },
                Err(_) => {},
            }
        },
        ExprV::Spread(_) => {},
        ExprV::New(c, args) => {
            if *c == ExprV::Ident(promise_name()) && args.len() > 0 {
                lemma_grow_expr(fs, ch, sc, args[0]);
                match c_expr(fs, ch, sc, args[0]) {
                    Ok((fs1, ch1)) => {
                        lemma_emit_grows(ch1, OpCode::MakePromise);
                        lemma_prefix_trans(ch.code, ch1.code, emit(ch1, OpCode::MakePromise).code);
                    },
                    Err(_) => {},
                }
            } else {
                lemma_grow_expr(fs, ch, sc, *c);
                match c_expr(fs, ch, sc, *c) {
                    Ok((fs1, ch1)) => {
                        lemma_grow_plain(fs1, ch1, sc, args, 0);
                        match c_plain(fs1, ch1, sc, args, 0) {
                            Ok((fs2, ch2)) => {
                                let op = OpCode::Call(args.len() as u16);
                                lemma_prefix_trans(ch.code, ch1.code, ch2.code);
                                lemma_emit_grows(ch2, op);
                                lemma_prefix_trans(ch.code, ch2.code, emit(ch2, op).code);
                            },
                            Err(_) => {},
                        }
                    },
                    Err(_) => {},
                }
            }
        },
    }
}

proof fn lemma_grow_items(fs: Seq<CompiledFunctionV>, ch: ChunkV, sc: ScopeV, es: Seq<ExprV>, i: int)
    ensures
        grows(ch, c_items(fs, ch, sc, es, i)),
    decreases es, es.len() - i,
{
    if 0 <= i < es.len() {
        let r = match es[i] {
            ExprV::Spread(x) => match c_expr(fs, ch, sc, *x) {
                Ok((fs1, ch1)) => Ok((fs1, emit(ch1, OpCode::Spread))),
                Err(_) => Err(()),
            },
            _ => c_expr(fs, ch, sc, es[i]),
        };
        match es[i] {
            ExprV::Spread(x) => {
                lemma_grow_expr(fs, ch, sc, *x);
                match c_expr(fs, ch, sc, *x) {
                    Ok((fs1, ch1)) => {
                        lemma_emit_grows(ch1, OpCode::Spread);
                        lemma_prefix_trans(ch.code, ch1.code, emit(ch1, OpCode::Spread).code);
                    },
                    Err(_) => {},
                }
            },
            _ => {
                lemma_grow_expr(fs, ch, sc, es[i]);
            },
        }
        match r {
            Ok((fs1, ch1)) => {
                lemma_grow_items(fs1, ch1, sc, es, i + 1);
                match c_items(fs1, ch1, sc, es, i + 1) {
                    Ok((fs2, ch2)) => {
                        lemma_prefix_trans(ch.code, ch1.code, ch2.code);
                    },
                    Err(_) => {},
                }
            },
            Err(_) => {},
        }
    } else {
        assert(code_prefix(ch.code, ch.code));
    }
}

proof fn lemma_grow_plain(fs: Seq<CompiledFunctionV>, ch: ChunkV, sc: ScopeV, es: Seq<ExprV>, i: int)
    ensures
        grows(ch, c_plain(fs, ch, sc, es, i)),
    decreases es, es.len() - i,
{
    if 0 <= i < es.len() {
        lemma_grow_expr(fs, ch, sc, es[i]);
        match c_expr(fs, ch, sc, es[i]) {
            Ok((fs1, ch1)) => {
                lemma_grow_plain(fs1, ch1, sc, es, i + 1);
                match c_plain(fs1, ch1, sc, es, i + 1) {
                    Ok((fs2, ch2)) => {
                        lemma_prefix_trans(ch.code, ch1.code, ch2.code);
                    },
                    Err(_) => {},
                }
            },
            Err(_) => {},
        }
    } else {
        assert(code_prefix(ch.code, ch.code));
    }
}

proof fn lemma_grow_entries(
    fs: Seq<CompiledFunctionV>,
    ch: ChunkV,
    sc: ScopeV,
    es: Seq<(Seq<char>, ExprV)>,
    i: int,
)
    ensures
        grows(ch, c_entries(fs, ch, sc, es, i)),
    decreases es, es.len() - i,
{
    if 0 <= i < es.len() {
        let pc = push_const(ch, ConstantV::Str(es[i].0));
        assert(code_prefix(ch.code, pc.code));
        lemma_grow_expr(fs, pc, sc, es[i].1);
        match c_expr(fs, pc, sc, es[i].1) {
            Ok((fs1, ch1)) => {
                lemma_prefix_trans(ch.code, pc.code, ch1.code);
                lemma_grow_entries(fs1, ch1, sc, es, i + 1);
                match c_entries(fs1, ch1, sc, es, i + 1) {
                    Ok((fs2, ch2)) => {
                        lemma_prefix_trans(ch.code, ch1.code, ch2.code);
                    },
                    Err(_) => {},
                }
            },
            Err(_) => {},
        }
    } else {
        assert(code_prefix(ch.code, ch.code));
    }
}

/// The code of the right operand `r` of a short-circuit operator stands after the
/// `Pop` and runs up to the final `ToBool`: compiling `r` after `l`'s code, `Dup`,
/// the jump (not yet aimed) and `Pop` gives exactly the instructions of `code` from
/// there to its last one.
pub open spec fn right_follows(
    fs: Seq<CompiledFunctionV>,
    ch: ChunkV,
    sc: ScopeV,
    l: ExprV,
    op: BinOp,
    r: ExprV,
    code: Seq<OpCode>,
) -> bool {
    c_expr(fs, ch, sc, l) matches Ok((fs1, cl)) && {
        let jump = if op == BinOp::And {
            OpCode::JumpIfFalsePop(0)
        } else {
            OpCode::JumpIfTruePop(0)
        };
        let before = emit(emit(emit(cl, OpCode::Dup), jump), OpCode::Pop);
        c_expr(fs1, before, sc, r) matches Ok((_, cr)) && cr.code.len() + 1 == code.len() && forall|
            k: int,
        |
            before.code.len() <= k < cr.code.len() ==> #[trigger] code[k] == cr.code[k]
    }
}

/// The code of a short-circuit operator `l op r`, where `l`'s code ends at `j`:
/// `Dup`, then the conditional jump `jump` aimed at the last instruction, `Pop`,
/// and, last, `ToBool`.
pub open spec fn short_circuit_shape(code: Seq<OpCode>, j: int, jump: OpCode) -> bool {
    &&& j + 3 < code.len()
    &&& code[j] == OpCode::Dup
    &&& code[j + 1] == jump
    &&& code[j + 2] == OpCode::Pop
    &&& code[code.len() - 1] == OpCode::ToBool
}

proof fn lemma_short_circuit(
    fs: Seq<CompiledFunctionV>,
    ch: ChunkV,
    sc: ScopeV,
    l: ExprV,
    op: BinOp,
    r: ExprV,
)
    requires
        op == BinOp::And || op == BinOp::Or,
    ensures
        c_expr(fs, ch, sc, ExprV::Binary(Box::new(l), op, Box::new(r))) matches Ok((_, out)) ==> (
        c_expr(fs, ch, sc, l) matches Ok((_, cl)) && code_prefix(cl.code, out.code) && {
            let j = cl.code.len() as int;
            let end = (out.code.len() - 1) as usize;
            short_circuit_shape(
                out.code,
                j,
                if op == BinOp::And {
                    OpCode::JumpIfFalsePop(end)
                } else {
                    OpCode::JumpIfTruePop(end)
                },
            )
        } && right_follows(fs, ch, sc, l, op, r, out.code)),
{
    let e = ExprV::Binary(Box::new(l), op, Box::new(r));
    assert(c_expr(fs, ch, sc, e) == match c_expr(fs, ch, sc, l) {
        Ok((fs1, ch1)) => {
            let ch2 = emit(ch1, OpCode::Dup);
            let j = ch2.code.len() as int;
            let jump = if op == BinOp::And {
                OpCode::JumpIfFalsePop(0)
            } else {
                OpCode::JumpIfTruePop(0)
            };
            let ch3 = emit(emit(ch2, jump), OpCode::Pop);
            match c_expr(fs1, ch3, sc, r) {
                Ok((fs2, ch4)) => Ok((fs2, emit(patch_here(ch4, j), OpCode::ToBool))),
                Err(_) => Err(()),
            }
        },
        Err(_) => Err(()),
    });
    match c_expr(fs, ch, sc, l) {
        Ok((fs1, ch1)) => {
            let ch2 = emit(ch1, OpCode::Dup);
            let j = ch2.code.len() as int;
            let jump = if op == BinOp::And {
                OpCode::JumpIfFalsePop(0)
            } else {
                OpCode::JumpIfTruePop(0)
            };
            let ch3 = emit(emit(ch2, jump), OpCode::Pop);
            lemma_emit_grows(ch1, OpCode::Dup);
            lemma_emit_grows(ch2, jump);
            lemma_emit_grows(emit(ch2, jump), OpCode::Pop);
            lemma_prefix_trans(ch1.code, ch2.code, emit(ch2, jump).code);
            lemma_prefix_trans(ch1.code, emit(ch2, jump).code, ch3.code);
            lemma_prefix_trans(ch2.code, emit(ch2, jump).code, ch3.code);
            lemma_grow_expr(fs1, ch3, sc, r);
            match c_expr(fs1, ch3, sc, r) {
                Ok((fs2, ch4)) => {
                    let p = patch_here(ch4, j);
                    let out = emit(p, OpCode::ToBool);
                    lemma_prefix_trans(ch1.code, ch3.code, ch4.code);
                    lemma_patch_grows(ch1.code, ch4, j);
                    lemma_emit_grows(p, OpCode::ToBool);
                    lemma_prefix_trans(ch1.code, p.code, out.code);
                    assert(ch4.code[j - 1] == OpCode::Dup);
                    assert(ch4.code[j] == jump);
                    assert(ch4.code[j + 1] == OpCode::Pop);
                    assert(p.code[j - 1] == OpCode::Dup);
                    assert(p.code[j + 1] == OpCode::Pop);
                    assert(out.code[j - 1] == OpCode::Dup);
                    assert(out.code[j] == p.code[j]);
                    assert(out.code[j + 1] == OpCode::Pop);
                    assert forall|k: int| ch3.code.len() <= k < ch4.code.len() implies #[trigger] out.code[k]
                        == ch4.code[k] by {
                        assert(out.code[k] == p.code[k]);
                    }
                },
                Err(_) => {},
            }
        },
        Err(_) => {},
    }
}

/// `l || r` evaluates `l`, keeps a copy, and jumps straight to the final `ToBool`
/// when that value is true, skipping `r`, whose code lies between the `Pop` and the
/// `ToBool`; only a false `l` is dropped for `r`.
pub proof fn law_or_skips_right_when_left_is_true(
    fs: Seq<CompiledFunctionV>,
    ch: ChunkV,
    sc: ScopeV,
    l: ExprV,
    r: ExprV,
)
    ensures
        c_expr(fs, ch, sc, ExprV::Binary(Box::new(l), BinOp::Or, Box::new(r))) matches Ok((_, out))
            ==> (c_expr(fs, ch, sc, l) matches Ok((_, cl)) && code_prefix(cl.code, out.code)
            && cl.code.len() + 3 < out.code.len()
            && out.code[cl.code.len() as int] == OpCode::Dup
            && out.code[cl.code.len() + 1int] == OpCode::JumpIfTruePop((out.code.len() - 1) as usize)
            && out.code[cl.code.len() + 2int] == OpCode::Pop
            && out.code[out.code.len() - 1] == OpCode::ToBool
            && right_follows(fs, ch, sc, l, BinOp::Or, r, out.code)),
{
    lemma_short_circuit(fs, ch, sc, l, BinOp::Or, r);
}

/// `l && r` evaluates `l`, keeps a copy, and jumps straight to the final `ToBool`
/// when that value is false, skipping `r`, whose code lies between the `Pop` and the
/// `ToBool`; only a true `l` is dropped for `r`.
pub proof fn law_and_skips_right_when_left_is_false(
    fs: Seq<CompiledFunctionV>,
    ch: ChunkV,
    sc: ScopeV,
    l: ExprV,
    r: ExprV,
)
    ensures
        c_expr(fs, ch, sc, ExprV::Binary(Box::new(l), BinOp::And, Box::new(r))) matches Ok((_, out))
            ==> (c_expr(fs, ch, sc, l) matches Ok((_, cl)) && code_prefix(cl.code, out.code)
            && cl.code.len() + 3 < out.code.len()
            && out.code[cl.code.len() as int] == OpCode::Dup
            && out.code[cl.code.len() + 1int] == OpCode::JumpIfFalsePop((out.code.len() - 1) as usize)
            && out.code[cl.code.len() + 2int] == OpCode::Pop
            && out.code[out.code.len() - 1] == OpCode::ToBool
            && right_follows(fs, ch, sc, l, BinOp::And, r, out.code)),
{
    lemma_short_circuit(fs, ch, sc, l, BinOp::And, r);
}

} // verus!
