//! The purity check of `lint`: functions must not capture imported names; they take
//! them as parameters.
//!
//! The check walks the tokens of a file that holds `import `. It collects the names
//! its leading imports bring in, then follows each function from `function` to the
//! brace that closes its body: the first identifier after `function` is taken as its
//! name, the identifiers after it and before the first `{` as its parameters, and
//! the identifiers of the body are gathered. When the body closes, every imported
//! name that occurs in that text and is not one of the parameters is reported
//! against the function.
use vstd::prelude::*;
use crate::lexer::{Lexer, Token, TokenV, tokens_view, tokenize_spec};
use crate::parser::Parser;
use crate::grammar::{tok_at, g_import, import_stop, import_names_stop};
use crate::text::{chars_of, chars_of_string, find_chars, find_from};
use crate::ast::strings_v;
use crate::builtins::pairs_v;

verus! {

/// What the walk over the tokens has seen so far.
pub struct LintState {
    pub in_fn: bool,
    pub name: Seq<char>,
    pub params: Seq<Seq<char>>,
    pub body: Seq<char>,
    pub depth: int,
    pub found: Seq<(Seq<char>, Seq<char>)>,
}

/// The state before the first token.
pub open spec fn lint_start() -> LintState {
    LintState { in_fn: false, name: seq![], params: seq![], body: seq![], depth: 0, found: seq![] }
}

/// The reports for a function `name` with the parameters `params` whose body text is
/// `body`: of the first `k` imports, in order, those that occur in the body and are
/// not parameters.
pub open spec fn reports(
    name: Seq<char>,
    params: Seq<Seq<char>>,
    body: Seq<char>,
    imports: Seq<Seq<char>>,
    k: int,
) -> Seq<(Seq<char>, Seq<char>)>
    decreases k,
{
    if k <= 0 || k > imports.len() {
        seq![]
    } else if find_from(body, imports[k - 1], 0) is Some && !params.contains(imports[k - 1]) {
        reports(name, params, body, imports, k - 1).push((name, imports[k - 1]))
    } else {
        reports(name, params, body, imports, k - 1)
    }
}

/// One step of the walk.
pub open spec fn lint_step(st: LintState, t: TokenV, imports: Seq<Seq<char>>) -> LintState {
    if t is Function {
        LintState { in_fn: true, name: seq![], params: seq![], body: seq![], depth: 0, found: st.found }
    } else if st.in_fn && st.name.len() == 0 && t is Ident {
        LintState { name: t->Ident_0, ..st }
    } else if st.in_fn && st.depth == 0 && t is Ident {
        LintState { params: st.params.push(t->Ident_0), ..st }
    } else if st.in_fn && t is LBrace {
        LintState { depth: st.depth + 1, ..st }
    } else if st.in_fn && t is RBrace {
        if st.depth - 1 == 0 {
            LintState {
                in_fn: false,
                depth: 0,
                found: st.found + reports(st.name, st.params, st.body, imports, imports.len() as int),
                ..st
            }
        } else {
            LintState { depth: st.depth - 1, ..st }
        }
    } else if st.in_fn && t is Comma && st.depth == 1 {
        st
    } else if st.in_fn && st.depth >= 1 && t is Ident {
        LintState { body: st.body + t->Ident_0 + seq![' '], ..st }
    } else {
        st
    }
}

/// The walk over the tokens from `i` on.
pub open spec fn lint_walk(ts: Seq<TokenV>, i: int, st: LintState, imports: Seq<Seq<char>>) -> LintState
    decreases ts.len() - i,
{
    if 0 <= i < ts.len() {
        lint_walk(ts, i + 1, lint_step(st, ts[i], imports), imports)
    } else {
        st
    }
}

/// The names that the leading imports from token `p` on bring in: each `import`
/// read as far as it goes; the names of those that are well formed.
pub open spec fn imported_names(ts: Seq<TokenV>, p: int, acc: Seq<Seq<char>>) -> Seq<Seq<char>>
    decreases ts.len() - p,
{
    if 0 <= p < ts.len() && tok_at(ts, p) is Import {
        let q = import_stop(ts, p + 1);
        let acc2 = match g_import(ts, p + 1) {
            Ok(((names, _), _)) => acc + names,
            Err(_) => acc,
        };
        if p < q <= ts.len() {
            imported_names(ts, q, acc2)
        } else {
            acc2
        }
    } else {
        acc
    }
}

/// The `(function, import)` pairs that the check reports for a source text.
pub open spec fn impure_spec(src: Seq<char>) -> Seq<(Seq<char>, Seq<char>)> {
    if find_from(src, "import "@, 0) is None {
        seq![]
    } else {
        let ts = tokenize_spec(src);
        if ts.len() >= usize::MAX - 8 {
            seq![]
        } else {
            lint_walk(ts, 0, lint_start(), imported_names(ts, 0, seq![])).found
        }
    }
}

proof fn lemma_names_stop(ts: Seq<TokenV>, p: int)
    requires
        0 <= p <= ts.len(),
    ensures
        match import_names_stop(ts, p) {
            Ok(q) => p < q <= ts.len(),
            Err(e) => p < e <= ts.len() + 1,
        },
    decreases ts.len() - p,
{
    match tok_at(ts, p) {
        TokenV::Ident(_) => {
            if crate::grammar::at(ts, p + 1, crate::grammar::Delim::Comma) {
                lemma_names_stop(ts, p + 2);
            }
        },
        _ => {},
    }
}

/// Whether the parser is at `import`.
fn at_import(parser: &Parser) -> (b: bool)
    ensures
        b == (tok_at(parser.tv(), parser.pos as int) is Import),
{
    match parser.peek() {
        Token::Import => true,
        _ => false,
    }
}

/// Whether `names` holds `n`.
fn names_hold(names: &Vec<String>, n: &String) -> (r: bool)
    ensures
        r == strings_v(names@).contains(n@),
{
    let mut i: usize = 0;
    while i < names.len()
        invariant
            i <= names@.len(),
            forall|j: int| 0 <= j < i ==> strings_v(names@)[j] != n@,
        decreases names.len() - i,
    {
        if names[i] == *n {
            assert(strings_v(names@)[i as int] == n@);
            return true;
        }
        i = i + 1;
    }
    false
}

/// The reports for one function, appended to `found`.
fn report(
    found: &mut Vec<(String, String)>,
    name: &String,
    params: &Vec<String>,
    body: &Vec<char>,
    imports: &Vec<String>,
)
    ensures
        pairs_v(final(found)@) == pairs_v(old(found)@) + reports(
            name@,
            strings_v(params@),
            body@,
            strings_v(imports@),
            imports@.len() as int,
        ),
{
    let ghost iv = strings_v(imports@);
    let ghost pv = strings_v(params@);
    let ghost start = pairs_v(found@);
    let mut k: usize = 0;
    while k < imports.len()
        invariant
            k <= imports@.len(),
            iv == strings_v(imports@),
            pv == strings_v(params@),
            pairs_v(found@) == start + reports(name@, pv, body@, iv, k as int),
        decreases imports.len() - k,
    {
        let needle = chars_of_string(&imports[k]);
        let ghost before = found@;
        let hit = find_chars(body, &needle, 0).is_some() && !names_hold(params, &imports[k]);
        if hit {
            found.push((name.clone(), imports[k].clone()));
            assert(pairs_v(found@) =~= pairs_v(before).push((name@, iv[k as int])));
        }
        assert(start + reports(name@, pv, body@, iv, k + 1) =~= (if find_from(body@, iv[k as int], 0) is Some
            && !pv.contains(iv[k as int]) {
            (start + reports(name@, pv, body@, iv, k as int)).push((name@, iv[k as int]))
        } else {
            start + reports(name@, pv, body@, iv, k as int)
        }));
        k = k + 1;
    }
}

/// The functions that capture imported names, each with the name it captures, in
/// the order the check finds them.
pub fn impure_captures(source: &str) -> (r: Vec<(String, String)>)
    ensures
        pairs_v(r@) == impure_spec(source@),
{
    let chars = chars_of(source);
    let marker = chars_of("import ");
    if find_chars(&chars, &marker, 0).is_none() {
        let r: Vec<(String, String)> = Vec::new();
        assert(pairs_v(r@) =~= Seq::<(Seq<char>, Seq<char>)>::empty());
        return r;
    }
    let mut lexer = Lexer::new(source);
    let tokens = lexer.tokenize();
    let ghost ts = tokens_view(tokens@);
    if tokens.len() >= usize::MAX - 8 {
        let r: Vec<(String, String)> = Vec::new();
        assert(pairs_v(r@) =~= Seq::<(Seq<char>, Seq<char>)>::empty());
        return r;
    }
    let mut imports: Vec<String> = Vec::new();
    let mut parser = Parser::new(tokens);
    let ghost all_names = imported_names(ts, 0, seq![]);
    assert(strings_v(imports@) =~= Seq::<Seq<char>>::empty());
    while at_import(&parser)
        invariant
            parser.tv() == ts,
            parser.tokens@.len() < usize::MAX - 8,
            parser.pos <= ts.len() + 3,
            imported_names(ts, parser.pos as int, strings_v(imports@)) == all_names,
        decreases ts.len() + 4 - parser.pos,
    {
        let p = parser.pos;
        parser.consume();
        proof {
            if p + 2 <= ts.len() {
                lemma_names_stop(ts, p + 2);
            }
        }
        let ghost before = strings_v(imports@);
        match parser.parse_import() {
            Ok(imp) => {
                let mut j: usize = 0;
                while j < imp.names.len()
                    invariant
                        j <= imp.names@.len(),
                        strings_v(imports@) == before + strings_v(imp.names@).take(j as int),
                    decreases imp.names.len() - j,
                {
                    let ghost prev = imports@;
                    imports.push(imp.names[j].clone());
                    assert(strings_v(imports@) =~= strings_v(prev).push(imp.names@[j as int]@));
                    assert(strings_v(imports@) =~= before + strings_v(imp.names@).take(j + 1));
                    j = j + 1;
                }
                assert(strings_v(imp.names@).take(imp.names@.len() as int) =~= strings_v(imp.names@));
            },
            Err(_) => {},
        }
    }
    let tokens = parser.tokens;
    assert(tokens_view(tokens@) == ts);
    let ghost iv = strings_v(imports@);
    assert(iv == all_names);
    let mut in_fn = false;
    let mut name = String::new();
    let mut params: Vec<String> = Vec::new();
    let mut body: Vec<char> = Vec::new();
    let mut depth: i128 = 0;
    let mut found: Vec<(String, String)> = Vec::new();
    let ghost total = lint_walk(ts, 0, lint_start(), iv);
    assert(pairs_v(found@) =~= Seq::<(Seq<char>, Seq<char>)>::empty());
    assert(body@ =~= Seq::<char>::empty());
    assert(strings_v(params@) =~= Seq::<Seq<char>>::empty());
    let mut i: usize = 0;
    while i < tokens.len()
        invariant
            i <= tokens@.len(),
            ts == tokens_view(tokens@),
            iv == strings_v(imports@),
            -(i as int) <= depth <= i,
            lint_walk(
                ts,
                i as int,
                LintState {
                    in_fn,
                    name: name@,
                    params: strings_v(params@),
                    body: body@,
                    depth: depth as int,
                    found: pairs_v(found@),
                },
                iv,
            ) == total,
        decreases tokens.len() - i,
    {
        assert(ts[i as int] == tokens@[i as int]@);
        match &tokens[i] {
            Token::Function => {
                in_fn = true;
                name = String::new();
                params = Vec::new();
                body = Vec::new();
                depth = 0;
                assert(body@ =~= Seq::<char>::empty());
                assert(strings_v(params@) =~= Seq::<Seq<char>>::empty());
            },
            Token::Ident(n) if in_fn && name.as_str().is_empty() => {
                name = n.clone();
            },
            Token::Ident(n) if in_fn && depth == 0 => {
                let ghost before = params@;
                params.push(n.clone());
                assert(strings_v(params@) =~= strings_v(before).push(n@));
            },
            Token::LBrace if in_fn => {
                depth = depth + 1;
            },
            Token::RBrace if in_fn => {
                depth = depth - 1;
                if depth == 0 {
                    report(&mut found, &name, &params, &body, &imports);
                    in_fn = false;
                }
            },
            Token::Comma if in_fn && depth == 1 => {},
            _ if in_fn && depth >= 1 => {
                if let Token::Ident(n) = &tokens[i] {
                    let nc = chars_of_string(n);
                    let ghost before = body@;
                    let mut j: usize = 0;
                    while j < nc.len()
                        invariant
                            j <= nc@.len(),
                            body@ == before + nc@.take(j as int),
                        decreases nc.len() - j,
                    {
                        body.push(nc[j]);
                        assert(body@ =~= before + nc@.take(j + 1));
                        j = j + 1;
                    }
                    body.push(' ');
                    assert(body@ =~= before + n@ + seq![' ']);
                }
            },
            _ => {},
        }
        i = i + 1;
    }
    found
}


/// The names that the imports of the source `src` bring in, as the purity check
/// collects them.
pub open spec fn lint_imports(src: Seq<char>) -> Seq<Seq<char>> {
    imported_names(tokenize_spec(src), 0, seq![])
}

proof fn lemma_reports_name_imports(
    name: Seq<char>,
    params: Seq<Seq<char>>,
    body: Seq<char>,
    imports: Seq<Seq<char>>,
    k: int,
)
    ensures
        forall|i: int|
            #![trigger reports(name, params, body, imports, k)[i]]
            0 <= i < reports(name, params, body, imports, k).len() ==> imports.contains(
                reports(name, params, body, imports, k)[i].1,
            ) && !params.contains(reports(name, params, body, imports, k)[i].1),
    decreases k,
{
    if k <= 0 || k > imports.len() {
    } else {
        lemma_reports_name_imports(name, params, body, imports, k - 1);
        let prev = reports(name, params, body, imports, k - 1);
        assert(imports.contains(imports[k - 1]));
        if find_from(body, imports[k - 1], 0) is Some && !params.contains(imports[k - 1]) {
            assert forall|i: int|
                0 <= i < reports(name, params, body, imports, k).len() implies imports.contains(
                #[trigger] reports(name, params, body, imports, k)[i].1,
            ) && !params.contains(reports(name, params, body, imports, k)[i].1) by {
                if i < prev.len() {
                    assert(reports(name, params, body, imports, k)[i] == prev[i]);
                }
            }
        } else {
            assert(reports(name, params, body, imports, k) == prev);
        }
    }
}

/// A function is never reported for an imported name that it takes as a parameter:
/// every report for it names an import that is not among its parameters.
pub proof fn law_parameters_are_exempt(
    name: Seq<char>,
    params: Seq<Seq<char>>,
    body: Seq<char>,
    imports: Seq<Seq<char>>,
)
    ensures
        forall|i: int|
            #![trigger reports(name, params, body, imports, imports.len() as int)[i]]
            0 <= i < reports(name, params, body, imports, imports.len() as int).len()
                ==> !params.contains(reports(name, params, body, imports, imports.len() as int)[i].1),
{
    lemma_reports_name_imports(name, params, body, imports, imports.len() as int);
}

proof fn lemma_walk_names_imports(ts: Seq<TokenV>, i: int, st: LintState, imports: Seq<Seq<char>>)
    requires
        forall|j: int| 0 <= j < st.found.len() ==> #[trigger] imports.contains(st.found[j].1),
    ensures
        forall|j: int|
            0 <= j < lint_walk(ts, i, st, imports).found.len() ==> #[trigger] imports.contains(
                lint_walk(ts, i, st, imports).found[j].1,
            ),
    decreases ts.len() - i,
{
    if 0 <= i < ts.len() {
        let next = lint_step(st, ts[i], imports);
        let r = reports(st.name, st.params, st.body, imports, imports.len() as int);
        lemma_reports_name_imports(st.name, st.params, st.body, imports, imports.len() as int);
        assert(next.found == st.found || next.found == st.found + r);
        assert forall|j: int| 0 <= j < next.found.len() implies #[trigger] imports.contains(
            next.found[j].1,
        ) by {
            if j < st.found.len() {
                assert(next.found[j] == st.found[j]);
            } else {
                assert(next.found[j] == r[j - st.found.len()]);
            }
        }
        lemma_walk_names_imports(ts, i + 1, next, imports);
        assert(lint_walk(ts, i, st, imports) == lint_walk(ts, i + 1, next, imports));
    } else {
        assert(lint_walk(ts, i, st, imports) == st);
    }
}

/// The purity check reports a function only against a name that the file's imports
/// bring in.
pub proof fn law_reports_name_imports(src: Seq<char>)
    ensures
        forall|i: int|
            0 <= i < impure_spec(src).len() ==> #[trigger] lint_imports(src).contains(
                impure_spec(src)[i].1,
            ),
{
    let ts = tokenize_spec(src);
    if find_from(src, "import "@, 0) is Some && ts.len() < usize::MAX - 8 {
        lemma_walk_names_imports(ts, 0, lint_start(), imported_names(ts, 0, seq![]));
    }
}

} // verus!
