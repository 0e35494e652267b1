//! The text work of the module system: which modules a source imports, the source
//! with its import statements taken out and its exports made plain functions, and
//! the bundle of a module with the modules it imports.
use vstd::prelude::*;
use crate::lexer::{Lexer, Token, TokenV, tokens_view, tokenize_spec};
use crate::parser::Parser;
use crate::grammar::{tok_at, g_import, g_export, g_func_decl, g_cond};
use crate::text::{chars_of, chars_of_string, string_of, find_chars, find_from, lemma_find_from, concat};
use crate::ast::{strings_v, FuncDecl, FuncDeclV, ImportStmt, func_decl_v};
use crate::json::trim;

verus! {

// ---------------------------------------------------------------------------
// Imported modules
// ---------------------------------------------------------------------------

/// The paths of the modules that a source imports, in order, from token `p` on;
/// the parser's message where an `import` is malformed.
pub open spec fn import_walk(ts: Seq<TokenV>, p: int, acc: Seq<Seq<char>>) -> Result<
    Seq<Seq<char>>,
    Seq<char>,
>
    decreases ts.len() - p,
{
    if 0 <= p < ts.len() && !(tok_at(ts, p) is EOF) {
        if tok_at(ts, p) is Import {
            match g_import(ts, p + 1) {
                Ok(((_, path), q)) => {
                    if p < q <= ts.len() {
                        import_walk(ts, q, acc.push(path))
                    } else {
                        Ok(acc.push(path))
                    }
                },
                Err((m, _)) => Err(m),
            }
        } else {
            import_walk(ts, p + 1, acc)
        }
    } else {
        Ok(acc)
    }
}

/// The paths of the modules that `source` imports.
pub open spec fn imports_of(src: Seq<char>) -> Result<Seq<Seq<char>>, Seq<char>> {
    let ts = tokenize_spec(src);
    if ts.len() >= usize::MAX - 8 {
        Err("source too long"@)
    } else {
        import_walk(ts, 0, seq![])
    }
}

/// Whether the parser is at the end of the tokens.
fn at_end(parser: &Parser) -> (b: bool)
    ensures
        b == (tok_at(parser.tv(), parser.pos as int) is EOF),
{
    match parser.peek() {
        Token::EOF => true,
        _ => false,
    }
}

/// The paths of the modules that `source` imports, in order; the parser's error for
/// a malformed import.
pub fn import_sources(source: &str) -> (r: Result<Vec<String>, String>)
    ensures
        r is Ok <==> imports_of(source@) is Ok,
        r matches Ok(v) ==> imports_of(source@) == Ok::<Seq<Seq<char>>, Seq<char>>(strings_v(v@)),
        r matches Err(m) ==> imports_of(source@) == Err::<Seq<Seq<char>>, Seq<char>>(m@),
{
    let mut lexer = Lexer::new(source);
    let tokens = lexer.tokenize();
    let ghost ts = tokens_view(tokens@);
    if tokens.len() >= usize::MAX - 8 {
        return Err("source too long".to_string());
    }
    let mut parser = Parser::new(tokens);
    let mut out: Vec<String> = Vec::new();
    let ghost total = import_walk(ts, 0, seq![]);
    assert(strings_v(out@) =~= Seq::<Seq<char>>::empty());
    while !at_end(&parser)
        invariant
            parser.tv() == ts,
            parser.tokens@.len() < usize::MAX - 8,
            parser.pos <= ts.len(),
            total == import_walk(ts, 0, seq![]),
            imports_of(source@) == total,
            import_walk(ts, parser.pos as int, strings_v(out@)) == total,
        decreases ts.len() - parser.pos,
    {
        let is_import = match parser.peek() {
            Token::Import => true,
            _ => false,
        };
        parser.consume();
        if is_import {
            let imp = parser.parse_import()?;
            let ghost before = out@;
            out.push(imp.source);
            assert(strings_v(out@) =~= strings_v(before).push(imp.source@));
        }
    }
    Ok(out)
}

// ---------------------------------------------------------------------------
// Reading a module's declarations
// ---------------------------------------------------------------------------

/// What reading a module's source comes to.
pub enum SourceOutcome {
    /// Its imports (names and path), the functions it offers by name (each name
    /// once, in the order first seen), and one stub line per function read.
    Read(Seq<(Seq<Seq<char>>, Seq<char>)>, Seq<(Seq<char>, FuncDeclV)>, Seq<Seq<char>>),
    /// The parser's message for a malformed import, export or declaration.
    Failed(Seq<char>),
    /// The reading never ends: a statement that cannot be parsed, and that the parser
    /// gives up on without moving, is read again and again.
    Stalls,
}

/// Whether `ex` offers a function named `k`.
pub open spec fn offers(ex: Seq<(Seq<char>, FuncDeclV)>, k: Seq<char>) -> bool {
    exists|i: int| 0 <= i < ex.len() && ex[i].0 == k
}

/// `ex` with `d` offered under its name, replacing a function of that name.
pub open spec fn offer_replacing(ex: Seq<(Seq<char>, FuncDeclV)>, d: FuncDeclV) -> Seq<
    (Seq<char>, FuncDeclV),
> {
    if offers(ex, d.name) {
        let i = choose|i: int| 0 <= i < ex.len() && ex[i].0 == d.name;
        ex.update(i, (d.name, d))
    } else {
        ex.push((d.name, d))
    }
}

/// `ex` with `d` offered under its name, unless a function of that name is offered
/// already.
pub open spec fn offer_keeping(ex: Seq<(Seq<char>, FuncDeclV)>, d: FuncDeclV) -> Seq<
    (Seq<char>, FuncDeclV),
> {
    if offers(ex, d.name) {
        ex
    } else {
        ex.push((d.name, d))
    }
}

/// No name is offered twice.
pub open spec fn names_distinct(ex: Seq<(Seq<char>, FuncDeclV)>) -> bool {
    forall|i: int, j: int| 0 <= i < j < ex.len() ==> ex[i].0 != ex[j].0
}

/// The stub line that stands for the function `name`.
pub open spec fn stub_line(name: Seq<char>) -> Seq<char> {
    "function "@ + name + "(/* body */)"@
}

/// Lines joined with `\n` between them.
pub open spec fn join_lines(ls: Seq<Seq<char>>) -> Seq<char>
    decreases ls.len(),
{
    if ls.len() == 0 {
        seq![]
    } else if ls.len() == 1 {
        ls[0]
    } else {
        join_lines(ls.drop_last()) + seq!['\n'] + ls.last()
    }
}

/// `q`, or `n` where `q` is past it.
pub open spec fn clamp(q: int, n: int) -> int {
    if q > n {
        n
    } else {
        q
    }
}

/// Reading a module's statements from token `p` on: an `import`, an `export`, or a
/// function declaration is read and kept; anything else is read as an expression
/// and dropped, whether it parses or not, the reading going on where the parser
/// stopped.
pub open spec fn source_walk(
    ts: Seq<TokenV>,
    p: int,
    imps: Seq<(Seq<Seq<char>>, Seq<char>)>,
    ex: Seq<(Seq<char>, FuncDeclV)>,
    parts: Seq<Seq<char>>,
) -> SourceOutcome
    decreases ts.len() - p,
{
    if p < 0 || p >= ts.len() || tok_at(ts, p) is EOF {
        SourceOutcome::Read(imps, ex, parts)
    } else {
        match tok_at(ts, p) {
            TokenV::Import => match g_import(ts, p + 1) {
                Ok(((names, path), q)) => {
                    if p < q {
                        source_walk(ts, clamp(q, ts.len() as int), imps.push((names, path)), ex, parts)
                    } else {
                        SourceOutcome::Stalls
                    }
                },
                Err((m, _)) => SourceOutcome::Failed(m),
            },
            TokenV::Export => match g_export(ts, p + 1) {
                Ok((d, q)) => {
                    if p < q {
                        source_walk(
                            ts,
                            clamp(q, ts.len() as int),
                            imps,
                            offer_replacing(ex, d),
                            parts.push(stub_line(d.name)),
                        )
                    } else {
                        SourceOutcome::Stalls
                    }
                },
                Err((m, _)) => SourceOutcome::Failed(m),
            },
            TokenV::Function => match g_func_decl(ts, p) {
                Ok((d, q)) => {
                    if p < q {
                        source_walk(
                            ts,
                            clamp(q, ts.len() as int),
                            imps,
                            offer_keeping(ex, d),
                            parts.push(stub_line(d.name)),
                        )
                    } else {
                        SourceOutcome::Stalls
                    }
                },
                Err((m, _)) => SourceOutcome::Failed(m),
            },
            _ => {
                let q = match g_cond(ts, p) {
                    Ok((_, q)) => q,
                    Err((_, q)) => q,
                };
                if p < q {
                    source_walk(ts, clamp(q, ts.len() as int), imps, ex, parts)
                } else {
                    SourceOutcome::Stalls
                }
            },
        }
    }
}

/// What reading the source `src` comes to.
pub open spec fn source_outcome(src: Seq<char>) -> SourceOutcome {
    let ts = tokenize_spec(src);
    if ts.len() >= usize::MAX - 8 {
        SourceOutcome::Failed("source too long"@)
    } else {
        source_walk(ts, 0, seq![], seq![], seq![])
    }
}

pub open spec fn imports_v(is: Seq<ImportStmt>) -> Seq<(Seq<Seq<char>>, Seq<char>)> {
    is.map_values(|i: ImportStmt| (strings_v(i.names@), i.source@))
}

pub open spec fn offered_v(es: Seq<(String, FuncDecl)>) -> Seq<(Seq<char>, FuncDeclV)> {
    es.map_values(|e: (String, FuncDecl)| (e.0@, func_decl_v(e.1)))
}

/// The index of the function named `name` in `es`, or the length.
fn find_offered(es: &Vec<(String, FuncDecl)>, name: &String) -> (j: usize)
    ensures
        j <= es@.len(),
        forall|m: int| 0 <= m < j ==> offered_v(es@)[m].0 != name@,
        j < es@.len() ==> offered_v(es@)[j as int].0 == name@,
{
    let mut j: usize = 0;
    while j < es.len()
        invariant
            j <= es@.len(),
            forall|m: int| 0 <= m < j ==> offered_v(es@)[m].0 != name@,
        decreases es.len() - j,
    {
        if es[j].0 == *name {
            return j;
        }
        j = j + 1;
    }
    j
}

/// Offers `d` under its name in `es`, replacing a function of that name (`replace`)
/// or keeping it.
fn offer(es: &mut Vec<(String, FuncDecl)>, d: FuncDecl, replace: bool)
    requires
        names_distinct(offered_v(old(es)@)),
    ensures
        names_distinct(offered_v(final(es)@)),
        offered_v(final(es)@) == (if replace {
            offer_replacing(offered_v(old(es)@), func_decl_v(d))
        } else {
            offer_keeping(offered_v(old(es)@), func_decl_v(d))
        }),
{
    let ghost ev = offered_v(es@);
    let ghost dv = func_decl_v(d);
    let name = d.name.clone();
    let j = find_offered(es, &name);
    if j < es.len() {
        assert(offers(ev, dv.name));
        if replace {
            es.set(j, (name, d));
            proof {
                let i = choose|i: int| 0 <= i < ev.len() && ev[i].0 == dv.name;
                assert(i == j);
                assert(offered_v(es@) =~= ev.update(j as int, (dv.name, dv)));
            }
        }
    } else {
        assert(!offers(ev, dv.name));
        es.push((name, d));
        assert(offered_v(es@) =~= ev.push((dv.name, dv)));
    }
}

/// `ex` with `d` offered under the name `k`, replacing a function of that name.
pub open spec fn offer_as(ex: Seq<(Seq<char>, FuncDeclV)>, k: Seq<char>, d: FuncDeclV) -> Seq<
    (Seq<char>, FuncDeclV),
> {
    if offers(ex, k) {
        let i = choose|i: int| 0 <= i < ex.len() && ex[i].0 == k;
        ex.update(i, (k, d))
    } else {
        ex.push((k, d))
    }
}

/// The function that `ex` offers under the name `k`.
pub open spec fn offered_under(ex: Seq<(Seq<char>, FuncDeclV)>, k: Seq<char>) -> FuncDeclV {
    let i = choose|i: int| 0 <= i < ex.len() && ex[i].0 == k;
    ex[i].1
}

/// Binding the names `names[i..]` that a module imports from the module `path`, which
/// offers `dep`: each is offered under its name, replacing a function of that name;
/// a name that `dep` does not offer is an error.
pub open spec fn bind_names(
    ex: Seq<(Seq<char>, FuncDeclV)>,
    path: Seq<char>,
    names: Seq<Seq<char>>,
    dep: Seq<(Seq<char>, FuncDeclV)>,
    i: int,
) -> Result<Seq<(Seq<char>, FuncDeclV)>, Seq<char>>
    decreases names.len() - i,
{
    if i < 0 || i >= names.len() {
        Ok(ex)
    } else if offers(dep, names[i]) {
        bind_names(offer_as(ex, names[i], offered_under(dep, names[i])), path, names, dep, i + 1)
    } else {
        Err("Module '"@ + path + "' does not export '"@ + names[i] + "'"@)
    }
}

/// Brings the functions `names` that the module `path` offers (`dep`) into
/// `exports`, each under its name and replacing a function of that name; the first
/// name that the module does not offer is an error, "Module '<path>' does not
/// export '<name>'".
pub fn bind_imports(
    exports: &mut Vec<(String, FuncDecl)>,
    path: &str,
    names: &Vec<String>,
    dep: &Vec<(String, FuncDecl)>,
) -> (r: Result<(), String>)
    requires
        names_distinct(offered_v(old(exports)@)),
        names_distinct(offered_v(dep@)),
    ensures
        match bind_names(offered_v(old(exports)@), path@, strings_v(names@), offered_v(dep@), 0) {
            Ok(ex) => r is Ok && offered_v(final(exports)@) == ex && names_distinct(ex),
            Err(m) => r matches Err(e) && e@ == m,
        },
{
    let ghost dv = offered_v(dep@);
    let ghost nv = strings_v(names@);
    let ghost total = bind_names(offered_v(exports@), path@, nv, dv, 0);
    let mut i: usize = 0;
    while i < names.len()
        invariant
            i <= names@.len(),
            dv == offered_v(dep@),
            nv == strings_v(names@),
            names_distinct(dv),
            names_distinct(offered_v(exports@)),
            bind_names(offered_v(exports@), path@, nv, dv, i as int) == total,
            total == bind_names(offered_v(old(exports)@), path@, nv, dv, 0),
        decreases names.len() - i,
    {
        let ghost ev = offered_v(exports@);
        let name = &names[i];
        let j = find_offered(dep, name);
        if j >= dep.len() {
            proof {
                assert(!offers(dv, nv[i as int]));
            }
            let a = concat(&"Module '".to_string(), path);
            let b = concat(&a, "' does not export '");
            let c = concat(&b, name.as_str());
            return Err(concat(&c, "'"));
        }
        let func = dep[j].1.clone();
        proof {
            assert(offers(dv, nv[i as int]));
            let w = choose|w: int| 0 <= w < dv.len() && dv[w].0 == nv[i as int];
            assert(w == j);
            assert(offered_under(dv, nv[i as int]) == func_decl_v(func));
        }
        let k = find_offered(exports, name);
        if k < exports.len() {
            exports.set(k, (name.clone(), func));
            proof {
                assert(offers(ev, nv[i as int]));
                let w = choose|w: int| 0 <= w < ev.len() && ev[w].0 == nv[i as int];
                assert(w == k);
                assert(offered_v(exports@) =~= ev.update(k as int, (nv[i as int], func_decl_v(func))));
            }
        } else {
            exports.push((name.clone(), func));
            proof {
                assert(!offers(ev, nv[i as int]));
                assert(offered_v(exports@) =~= ev.push((nv[i as int], func_decl_v(func))));
            }
        }
        i = i + 1;
    }
    Ok(())
}

/// Reads a module's source: its imports, the functions it offers (an exported
/// function replaces one of the same name read before; a plain declaration does not),
/// and one stub line per function, joined by line breaks. `Some(Err(..))` with the
/// parser's message where an import, export or declaration is malformed; `None`
/// where the reading never ends (see [`SourceOutcome::Stalls`]).
#[verifier::spinoff_prover]
#[verifier::rlimit(60)]
pub fn parse_source(source: &str) -> (r: Option<
    Result<(Vec<ImportStmt>, Vec<(String, FuncDecl)>, String), String>,
>)
    ensures
        match source_outcome(source@) {
            SourceOutcome::Read(imps, ex, parts) => r matches Some(Ok((is, es, code)))
                && imports_v(is@) == imps && offered_v(es@) == ex && code@ == join_lines(parts)
                && names_distinct(ex),
            SourceOutcome::Failed(m) => r matches Some(Err(e)) && e@ == m,
            SourceOutcome::Stalls => r is None,
        },
{
    let mut lexer = Lexer::new(source);
    let tokens = lexer.tokenize();
    let ghost ts = tokens_view(tokens@);
    if tokens.len() >= usize::MAX - 8 {
        return Some(Err("source too long".to_string()));
    }
    let n = tokens.len();
    let mut parser = Parser::new(tokens);
    let mut imports: Vec<ImportStmt> = Vec::new();
    let mut offered: Vec<(String, FuncDecl)> = Vec::new();
    let mut code = String::new();
    let mut any_part = false;
    let ghost mut parts: Seq<Seq<char>> = seq![];
    let ghost total = source_walk(ts, 0, seq![], seq![], seq![]);
    assert(imports_v(imports@) =~= seq![]);
    assert(offered_v(offered@) =~= seq![]);
    assert(code@ =~= join_lines(parts));
    loop
        invariant
            parser.tv() == ts,
            n == ts.len(),
            n < usize::MAX - 8,
            parser.pos <= n,
            total == source_outcome(source@),
            source_walk(ts, parser.pos as int, imports_v(imports@), offered_v(offered@), parts)
                == total,
            names_distinct(offered_v(offered@)),
            code@ == join_lines(parts),
            any_part == (parts.len() > 0),
        decreases n - parser.pos,
    {
        let p = parser.pos;
        let ghost iv = imports_v(imports@);
        let ghost ov = offered_v(offered@);
        if p >= n {
            return Some(Ok((imports, offered, code)));
        }
        let is_import;
        let is_export;
        let is_function;
        match parser.peek() {
            Token::EOF => {
                return Some(Ok((imports, offered, code)));
            },
            Token::Import => {
                is_import = true;
                is_export = false;
                is_function = false;
            },
            Token::Export => {
                is_import = false;
                is_export = true;
                is_function = false;
            },
            Token::Function => {
                is_import = false;
                is_export = false;
                is_function = true;
            },
            _ => {
                is_import = false;
                is_export = false;
                is_function = false;
            },
        }
        if is_import {
            parser.consume();
            let imp = match parser.parse_import() {
                Ok(i) => i,
                Err(e) => {
                    return Some(Err(e));
                },
            };
            imports.push(imp);
            assert(imports_v(imports@) =~= iv.push((strings_v(imp.names@), imp.source@)));
        } else if is_export || is_function {
            let decl = if is_export {
                parser.consume();
                match parser.parse_export() {
                    Ok(x) => x.func,
                    Err(e) => {
                        return Some(Err(e));
                    },
                }
            } else {
                match parser.parse_func_decl() {
                    Ok(d) => d,
                    Err(e) => {
                        return Some(Err(e));
                    },
                }
            };
            let ghost dv = func_decl_v(decl);
            let line = concat(&concat(&"function ".to_string(), decl.name.as_str()), "(/* body */)");
            if !any_part {
                code = line;
            } else {
                code = concat(&concat(&code, "\n"), line.as_str());
            }
            any_part = true;
            proof {
                reveal_strlit("\n");
                assert("\n"@ =~= seq!['\n']);
                let old_parts = parts;
                parts = parts.push(stub_line(dv.name));
                assert(parts.drop_last() =~= old_parts);
                assert(parts.last() == stub_line(dv.name));
                assert(join_lines(parts) =~= code@);
            }
            offer(&mut offered, decl, is_export);
        } else {
            let _ = parser.parse_expr();
            if parser.pos <= p {
                return None;
            }
        }
        if parser.pos >= n {
            parser.pos = n;
        }
    }
}

// ---------------------------------------------------------------------------
// Stripping imports and exports
// ---------------------------------------------------------------------------

/// A line without the `\r` of a `\r\n` ending.
pub open spec fn drop_cr(line: Seq<char>) -> Seq<char> {
    if line.len() > 0 && line.last() == '\r' {
        line.drop_last()
    } else {
        line
    }
}

/// The lines of `s` from `p` on, as `str::lines` splits them: at `\n` or `\r\n`,
/// with no empty line after a final line break.
pub open spec fn lines_from(s: Seq<char>, p: int) -> Seq<Seq<char>>
    decreases s.len() - p,
{
    if p < 0 || p >= s.len() {
        seq![]
    } else {
        match find_from(s, seq!['\n'], p) {
            Some(i) => {
                if p <= i < s.len() {
                    seq![drop_cr(s.subrange(p, i))] + lines_from(s, i + 1)
                } else {
                    seq![]
                }
            },
            None => seq![s.subrange(p, s.len() as int)],
        }
    }
}

/// Whether `s` begins with `t`.
pub open spec fn begins_with(s: Seq<char>, t: Seq<char>) -> bool {
    t.len() <= s.len() && s.subrange(0, t.len() as int) == t
}

/// The lines kept from `i` on, each followed by `\n`: an import statement, from a
/// line that (trimmed) begins with `import ` to the first line that (trimmed) ends
/// with `;`, is left out.
pub open spec fn kept_lines(lines: Seq<Seq<char>>, i: int, in_import: bool, out: Seq<char>) -> Seq<char>
    decreases lines.len() - i,
{
    if 0 <= i < lines.len() {
        let t = trim(lines[i]);
        let inside = in_import || begins_with(t, "import "@);
        if inside && t.len() > 0 && t.last() == ';' {
            kept_lines(lines, i + 1, false, out)
        } else if !inside {
            kept_lines(lines, i + 1, false, out + lines[i] + seq!['\n'])
        } else {
            kept_lines(lines, i + 1, true, out)
        }
    } else {
        out
    }
}

/// `s` with every occurrence of `pat`, from left to right and without overlaps,
/// replaced by `rep`.
pub open spec fn replace_all(s: Seq<char>, pat: Seq<char>, rep: Seq<char>) -> Seq<char>
    decreases s.len(),
{
    if pat.len() == 0 {
        s
    } else {
        match find_from(s, pat, 0) {
            Some(i) => {
                if 0 <= i && i + pat.len() <= s.len() {
                    s.subrange(0, i) + rep + replace_all(
                        s.subrange(i + pat.len(), s.len() as int),
                        pat,
                        rep,
                    )
                } else {
                    s
                }
            },
            None => s,
        }
    }
}

/// A module's own code for the bundle: its lines without its import statements,
/// each `export function` made a plain `function`.
pub open spec fn module_code(src: Seq<char>) -> Seq<char> {
    replace_all(kept_lines(lines_from(src, 0), 0, false, seq![]), "export function"@, "function"@)
}

/// The characters of `v[from..to]`, appended to `out`.
fn push_range(out: &mut Vec<char>, v: &Vec<char>, from: usize, to: usize)
    requires
        from <= to <= v@.len(),
    ensures
        final(out)@ == old(out)@ + v@.subrange(from as int, to as int),
{
    let ghost start = out@;
    let mut i = from;
    while i < to
        invariant
            from <= i <= to,
            to <= v@.len(),
            out@ == start + v@.subrange(from as int, i as int),
        decreases to - i,
    {
        out.push(v[i]);
        assert(out@ =~= start + v@.subrange(from as int, i + 1));
        i = i + 1;
    }
}

/// `v` trimmed, as `str::trim` trims.
fn trim_chars(v: &Vec<char>, from: usize, to: usize) -> (r: Vec<char>)
    requires
        from <= to <= v@.len(),
    ensures
        r@ == trim(v@.subrange(from as int, to as int)),
{
    let mut part: Vec<char> = Vec::new();
    push_range(&mut part, v, from, to);
    assert(part@ =~= v@.subrange(from as int, to as int));
    crate::json::trim_vec(&part)
}

/// Whether `t` begins with `import `.
fn begins_with_import(t: &Vec<char>) -> (b: bool)
    ensures
        b == begins_with(t@, "import "@),
{
    let pat = chars_of("import ");
    if pat.len() > t.len() {
        return false;
    }
    let mut i: usize = 0;
    while i < pat.len()
        invariant
            i <= pat@.len(),
            pat@ == "import "@,
            pat@.len() <= t@.len(),
            forall|m: int| 0 <= m < i ==> t@[m] == pat@[m],
        decreases pat.len() - i,
    {
        if t[i] != pat[i] {
            assert(t@.subrange(0, pat@.len() as int)[i as int] != pat@[i as int]);
            return false;
        }
        i = i + 1;
    }
    assert(t@.subrange(0, pat@.len() as int) =~= pat@);
    true
}

/// The lines of `src` without its import statements, each followed by `\n`.
fn strip_import_lines(src: &Vec<char>) -> (r: Vec<char>)
    ensures
        r@ == kept_lines(lines_from(src@, 0), 0, false, seq![]),
{
    let nl = vec!['\n'];
    assert(nl@ =~= seq!['\n']);
    let mut out: Vec<char> = Vec::new();
    let mut in_import = false;
    let mut p: usize = 0;
    let ghost total = kept_lines(lines_from(src@, 0), 0, false, seq![]);
    assert(out@ =~= Seq::<char>::empty());
    while p < src.len()
        invariant
            p <= src@.len(),
            nl@ == seq!['\n'],
            kept_lines(lines_from(src@, p as int), 0, in_import, out@) == total,
        decreases src.len() - p,
    {
        proof {
            lemma_find_from(src@, nl@, p as int);
        }
        let (end, next) = match find_chars(src, &nl, p) {
            Some(i) => {
                if i > p && src[i - 1] == '\r' {
                    (i - 1, i + 1)
                } else {
                    (i, i + 1)
                }
            },
            None => (src.len(), src.len()),
        };
        let ghost line = src@.subrange(p as int, end as int);
        proof {
            let ls = lines_from(src@, p as int);
            assert(ls.len() > 0 && ls[0] == line);
            assert(ls.drop_first() =~= lines_from(src@, next as int));
            lemma_kept_lines_first(ls, in_import, out@);
        }
        let t = trim_chars(src, p, end);
        let inside = in_import || begins_with_import(&t);
        if inside && t.len() > 0 && t[t.len() - 1] == ';' {
            in_import = false;
        } else if !inside {
            let ghost before = out@;
            push_range(&mut out, src, p, end);
            out.push('\n');
            assert(out@ =~= before + line + seq!['\n']);
            in_import = false;
        } else {
            in_import = true;
        }
        p = next;
    }
    out
}

/// One step of `kept_lines`, taken on the first line.
proof fn lemma_kept_lines_first(ls: Seq<Seq<char>>, in_import: bool, out: Seq<char>)
    requires
        ls.len() > 0,
    ensures
        kept_lines(ls, 0, in_import, out) == ({
            let t = trim(ls[0]);
            let inside = in_import || begins_with(t, "import "@);
            if inside && t.len() > 0 && t.last() == ';' {
                kept_lines(ls.drop_first(), 0, false, out)
            } else if !inside {
                kept_lines(ls.drop_first(), 0, false, out + ls[0] + seq!['\n'])
            } else {
                kept_lines(ls.drop_first(), 0, true, out)
            }
        }),
{
    let t = trim(ls[0]);
    let inside = in_import || begins_with(t, "import "@);
    if inside && t.len() > 0 && t.last() == ';' {
        lemma_kept_lines_shift(ls, 1, false, out);
    } else if !inside {
        lemma_kept_lines_shift(ls, 1, false, out + ls[0] + seq!['\n']);
    } else {
        lemma_kept_lines_shift(ls, 1, true, out);
    }
}

proof fn lemma_kept_lines_shift(ls: Seq<Seq<char>>, i: int, b: bool, o: Seq<char>)
    requires
        1 <= i <= ls.len(),
    ensures
        kept_lines(ls, i, b, o) == kept_lines(ls.drop_first(), i - 1, b, o),
    decreases ls.len() - i,
{
    if i < ls.len() {
        assert(ls.drop_first()[i - 1] == ls[i]);
        let t = trim(ls[i]);
        let inside = b || begins_with(t, "import "@);
        if inside && t.len() > 0 && t.last() == ';' {
            lemma_kept_lines_shift(ls, i + 1, false, o);
        } else if !inside {
            lemma_kept_lines_shift(ls, i + 1, false, o + ls[i] + seq!['\n']);
        } else {
            lemma_kept_lines_shift(ls, i + 1, true, o);
        }
    }
}

/// `s` with every `pat` replaced by `rep`.
fn replace_chars(s: &Vec<char>, pat: &Vec<char>, rep: &Vec<char>) -> (r: Vec<char>)
    requires
        pat@.len() > 0,
    ensures
        r@ == replace_all(s@, pat@, rep@),
{
    let mut out: Vec<char> = Vec::new();
    let mut p: usize = 0;
    let ghost total = replace_all(s@, pat@, rep@);
    assert(s@.subrange(0, s@.len() as int) =~= s@);
    while p < s.len()
        invariant
            p <= s@.len(),
            pat@.len() > 0,
            out@ + replace_all(s@.subrange(p as int, s@.len() as int), pat@, rep@) == total,
        decreases s.len() - p,
    {
        let ghost rest = s@.subrange(p as int, s@.len() as int);
        proof {
            lemma_find_from(s@, pat@, p as int);
            lemma_find_shift(s@, pat@, p as int, 0);
        }
        match find_chars(s, pat, p) {
            Some(i) => {
                push_range(&mut out, s, p, i);
                let mut j: usize = 0;
                let ghost mid = out@;
                while j < rep.len()
                    invariant
                        j <= rep@.len(),
                        out@ == mid + rep@.take(j as int),
                    decreases rep.len() - j,
                {
                    out.push(rep[j]);
                    assert(out@ =~= mid + rep@.take(j + 1));
                    j = j + 1;
                }
                assert(rep@.take(rep@.len() as int) =~= rep@);
                assert(rest.subrange(0, i - p) =~= s@.subrange(p as int, i as int));
                assert(rest.subrange(i - p + pat@.len(), rest.len() as int) =~= s@.subrange(
                    i + pat@.len(),
                    s@.len() as int,
                ));
                p = i + pat.len();
            },
            None => {
                push_range(&mut out, s, p, s.len());
                p = s.len();
                assert(s@.subrange(p as int, s@.len() as int) =~= Seq::<char>::empty());
            },
        }
    }
    assert(s@.subrange(p as int, s@.len() as int) =~= Seq::<char>::empty());
    out
}

/// Finding in a suffix is finding in the whole, shifted.
proof fn lemma_find_shift(s: Seq<char>, pat: Seq<char>, p: int, k: int)
    requires
        0 <= p <= s.len(),
        0 <= k,
    ensures
        find_from(s.subrange(p, s.len() as int), pat, k) == (match find_from(s, pat, p + k) {
            Some(i) => Some(i - p),
            None => None::<int>,
        }),
    decreases s.len() - p - k + 1,
{
    let r = s.subrange(p, s.len() as int);
    if p + k + pat.len() <= s.len() {
        assert(r.subrange(k, k + pat.len()) =~= s.subrange(p + k, p + k + pat.len()));
        if s.subrange(p + k, p + k + pat.len()) != pat {
            lemma_find_shift(s, pat, p, k + 1);
        }
    }
}

/// A module's own code for the bundle: `source` without its import statements, each
/// `export function` made a plain `function`.
pub fn strip_imports(source: &str) -> (r: String)
    ensures
        r@ == module_code(source@),
{
    let src = chars_of(source);
    let kept = strip_import_lines(&src);
    let pat = chars_of("export function");
    let rep = chars_of("function");
    proof {
        reveal_strlit("export function");
    }
    let out = replace_chars(&kept, &pat, &rep);
    string_of(out.as_slice())
}

/// The bundle of a module: the code of each module it imports that is not empty,
/// each followed by a blank line, then its own code.
pub open spec fn bundle(imported: Seq<Seq<char>>, own: Seq<char>) -> Seq<char>
    decreases imported.len(),
{
    if imported.len() == 0 {
        own
    } else if imported[0].len() == 0 {
        bundle(imported.drop_first(), own)
    } else {
        imported[0] + "\n\n"@ + bundle(imported.drop_first(), own)
    }
}

/// Joins the code of the imported modules and a module's own code into its bundle.
pub fn join_sources(imported: &Vec<String>, own: &str) -> (r: String)
    ensures
        r@ == bundle(strings_v(imported@), own@),
{
    let ghost iv = strings_v(imported@);
    let mut out = String::new();
    let mut i: usize = 0;
    assert(iv.subrange(0, iv.len() as int) =~= iv);
    while i < imported.len()
        invariant
            i <= imported@.len(),
            iv == strings_v(imported@),
            out@ + bundle(iv.subrange(i as int, iv.len() as int), own@) == bundle(iv, own@),
        decreases imported.len() - i,
    {
        let ghost rest = iv.subrange(i as int, iv.len() as int);
        assert(rest.drop_first() =~= iv.subrange(i + 1, iv.len() as int));
        assert(rest[0] == imported@[i as int]@);
        if !imported[i].as_str().is_empty() {
            out = crate::text::concat(&out, imported[i].as_str());
            out = crate::text::concat(&out, "\n\n");
        }
        i = i + 1;
    }
    crate::text::concat(&out, own)
}

/// The file that `build` writes: a header naming the entry and how to run the
/// output, then the bundled code.
pub fn production_bundle(entry: &str, output: &str, code: &str) -> (r: String)
    ensures
        r@ == "// DJS Production Bundle\n// Entry: "@ + entry@
            + "\n// Generated by DJS v0.1.0\n//\n// This file contains all modules bundled into a single script.\n// Run with: djs run "@
            + output@ + "\n\n"@ + code@ + "\n"@,
{
    let mut r = "// DJS Production Bundle\n// Entry: ".to_owned();
    r = crate::text::concat(&r, entry);
    r = crate::text::concat(
        &r,
        "\n// Generated by DJS v0.1.0\n//\n// This file contains all modules bundled into a single script.\n// Run with: djs run ",
    );
    r = crate::text::concat(&r, output);
    r = crate::text::concat(&r, "\n\n");
    r = crate::text::concat(&r, code);
    crate::text::concat(&r, "\n")
}

/// The file that `deploy` writes: a header naming the entry, then the bundled code.
pub fn deploy_bundle(entry: &str, code: &str) -> (r: String)
    ensures
        r@ == "// DJS Production Bundle\n// Entry: "@ + entry@ + "\n// Generated by DJS v0.1.0\n\n"@
            + code@ + "\n"@,
{
    let mut r = "// DJS Production Bundle\n// Entry: ".to_owned();
    r = crate::text::concat(&r, entry);
    r = crate::text::concat(&r, "\n// Generated by DJS v0.1.0\n\n");
    r = crate::text::concat(&r, code);
    crate::text::concat(&r, "\n")
}

} // verus!
