//! The grammar of the language, as functions from a token sequence and a position to
//! a syntax tree (in its view) and the position after it.
//!
//! Each function mirrors one parsing routine of the parser. Where a rule continues
//! after a sub-rule, it does so only when the sub-rule's position moved forward
//! within the tokens (`advanced`); a successful sub-rule always does, so this never
//! changes a result, and it lets each rule be seen to terminate.
use vstd::prelude::*;
use crate::lexer::TokenV;
use crate::ast::{BinOp, ParamV, ExprV, StmtV, FuncDeclV};

verus! {

/// The result of a rule: the parsed value and the position after it, or the error
/// message and the position where the parser stopped.
pub type PR<T> = Result<(T, int), (Seq<char>, int)>;

/// A successful result: `x`, ending at `q`.
pub open spec fn done<T>(x: T, q: int) -> PR<T> {
    Ok((x, q))
}

/// A failed result: the message `m`, the parser stopped at `q`.
pub open spec fn fail<T>(m: Seq<char>, q: int) -> PR<T> {
    Err((m, q))
}

/// Whether `r` failed with the message `m`, the parser stopped at `q`.
pub open spec fn fails_at<T>(r: PR<T>, m: Seq<char>, q: int) -> bool {
    r matches Err((m2, q2)) && m2 == m && q2 == q
}

/// A failed result from a branch that a successful sub-rule never takes (each one
/// moves forward within the tokens).
pub open spec fn stuck<T>(q: int) -> PR<T> {
    Err((seq![], q))
}

/// The message for the token `got` where `what` was expected.
pub open spec fn expected(what: Seq<char>, got: TokenV) -> Seq<char> {
    "Expected "@ + what + ", got "@ + got.text()
}

/// The message for a token that cannot start an expression.
pub open spec fn unexpected(got: TokenV) -> Seq<char> {
    "Unexpected token: "@ + got.text()
}

/// The name by which a delimiter is expected, as in `Expected RParen, got ...`.
pub open spec fn delim_word(d: Delim) -> Seq<char> {
    match d {
        Delim::LParen => "LParen"@,
        Delim::RParen => "RParen"@,
        Delim::LBrace => "LBrace"@,
        Delim::RBrace => "RBrace"@,
        Delim::LBracket => "LBracket"@,
        Delim::RBracket => "RBracket"@,
        Delim::Comma => "Comma"@,
        Delim::Semicolon => "Semicolon"@,
        Delim::Colon => "Colon"@,
        Delim::Dot => "Dot"@,
    }
}

/// The failure of expecting the delimiter `d` at `q`: the token there is consumed.
pub open spec fn missing<T>(ts: Seq<TokenV>, q: int, d: Delim) -> PR<T> {
    fail(expected(delim_word(d), tok_at(ts, q)), q + 1)
}

/// The token at `p`; past the end every token reads as `EOF`.
pub open spec fn tok_at(ts: Seq<TokenV>, p: int) -> TokenV {
    if 0 <= p < ts.len() {
        ts[p]
    } else {
        TokenV::EOF
    }
}

/// A rule that started at `p` and ended at `q` moved forward within the tokens.
pub open spec fn advanced(ts: Seq<TokenV>, p: int, q: int) -> bool {
    p <= q && (q <= ts.len() || q == p)
}

/// A delimiter that `Parser::expect` can require.
#[derive(Clone, Copy, PartialEq, Eq, Debug)]
pub enum Delim {
    LParen,
    RParen,
    LBrace,
    RBrace,
    LBracket,
    RBracket,
    Comma,
    Semicolon,
    Colon,
    Dot,
}

pub open spec fn delim_token(d: Delim) -> TokenV {
    match d {
        Delim::LParen => TokenV::LParen,
        Delim::RParen => TokenV::RParen,
        Delim::LBrace => TokenV::LBrace,
        Delim::RBrace => TokenV::RBrace,
        Delim::LBracket => TokenV::LBracket,
        Delim::RBracket => TokenV::RBracket,
        Delim::Comma => TokenV::Comma,
        Delim::Semicolon => TokenV::Semicolon,
        Delim::Colon => TokenV::Colon,
        Delim::Dot => TokenV::Dot,
    }
}

/// The delimiter that a name such as `"LParen"` stands for.
pub open spec fn delim_named(e: Seq<char>) -> Option<Delim> {
    if e == seq!['L', 'P', 'a', 'r', 'e', 'n'] {
        Some(Delim::LParen)
    } else if e == seq!['R', 'P', 'a', 'r', 'e', 'n'] {
        Some(Delim::RParen)
    } else if e == seq!['L', 'B', 'r', 'a', 'c', 'e'] {
        Some(Delim::LBrace)
    } else if e == seq!['R', 'B', 'r', 'a', 'c', 'e'] {
        Some(Delim::RBrace)
    } else if e == seq!['L', 'B', 'r', 'a', 'c', 'k', 'e', 't'] {
        Some(Delim::LBracket)
    } else if e == seq!['R', 'B', 'r', 'a', 'c', 'k', 'e', 't'] {
        Some(Delim::RBracket)
    } else if e == seq!['C', 'o', 'm', 'm', 'a'] {
        Some(Delim::Comma)
    } else if e == seq!['S', 'e', 'm', 'i', 'c', 'o', 'l', 'o', 'n'] {
        Some(Delim::Semicolon)
    } else if e == seq!['C', 'o', 'l', 'o', 'n'] {
        Some(Delim::Colon)
    } else if e == seq!['D', 'o', 't'] {
        Some(Delim::Dot)
    } else {
        None
    }
}

/// Whether the token at `p` is the delimiter `d`.
pub open spec fn at(ts: Seq<TokenV>, p: int, d: Delim) -> bool {
    tok_at(ts, p) == delim_token(d)
}

/// The comparison or logical operator that a token stands for.
pub open spec fn relational_op(t: TokenV) -> Option<BinOp> {
    match t {
        TokenV::Eq => Some(BinOp::Eq),
        TokenV::Ne => Some(BinOp::Ne),
        TokenV::Lt => Some(BinOp::Lt),
        TokenV::Gt => Some(BinOp::Gt),
        TokenV::Le => Some(BinOp::Le),
        TokenV::Ge => Some(BinOp::Ge),
        TokenV::And => Some(BinOp::And),
        TokenV::Or => Some(BinOp::Or),
        _ => None,
    }
}

/// The additive operator that a token stands for.
pub open spec fn add_op(t: TokenV) -> Option<BinOp> {
    match t {
        TokenV::Add => Some(BinOp::Add),
        TokenV::Sub => Some(BinOp::Sub),
        _ => None,
    }
}

/// The multiplicative operator that a token stands for.
pub open spec fn mul_op(t: TokenV) -> Option<BinOp> {
    match t {
        TokenV::Mul => Some(BinOp::Mul),
        TokenV::Div => Some(BinOp::Div),
        TokenV::Mod => Some(BinOp::Mod),
        _ => None,
    }
}

// ---------------------------------------------------------------------------
// Parameters and imports (no nested expressions)
// ---------------------------------------------------------------------------

/// `f1, f2, ...` inside a destructuring parameter.
pub open spec fn g_fields(ts: Seq<TokenV>, p: int) -> PR<Seq<Seq<char>>>
    decreases ts.len() - p,
{
    match tok_at(ts, p) {
        TokenV::Ident(f) => {
            if at(ts, p + 1, Delim::Comma) {
                match g_fields(ts, p + 2) {
                    Ok((rest, q)) => Ok((seq![f] + rest, q)),
                    Err(e) => Err(e),
                }
            } else {
                Ok((seq![f], p + 1))
            }
        },
        t => fail(expected("field name in destructuring"@, t), p + 1),
    }
}

/// One or more parameters separated by commas; a rest parameter ends the list.
pub open spec fn g_param_list(ts: Seq<TokenV>, p: int) -> PR<Seq<ParamV>>
    decreases ts.len() - p, 1int,
{
    match tok_at(ts, p) {
        TokenV::Spread => match tok_at(ts, p + 1) {
            TokenV::Ident(n) => Ok((seq![ParamV::Rest(n)], p + 2)),
            t => fail(expected("param name after ..."@, t), p + 2),
        },
        TokenV::LBrace => match g_fields(ts, p + 1) {
            Ok((fs, q)) => {
                if !advanced(ts, p + 1, q) {
                    stuck(q)
                } else if !at(ts, q, Delim::RBrace) {
                    missing(ts, q, Delim::RBrace)
                } else {
                    g_param_rest(ts, q + 1, ParamV::Destructure(fs))
                }
            },
            Err(e) => Err(e),
        },
        TokenV::Ident(n) => g_param_rest(ts, p + 1, ParamV::Name(n)),
        t => fail(expected("param name"@, t), p + 1),
    }
}

/// After a parameter `item` that ended at `q`: more parameters after a comma.
pub open spec fn g_param_rest(ts: Seq<TokenV>, q: int, item: ParamV) -> PR<Seq<ParamV>>
    decreases ts.len() - q + 1, 0int,
{
    if at(ts, q, Delim::Comma) {
        match g_param_list(ts, q + 1) {
            Ok((rest, r)) => Ok((seq![item] + rest, r)),
            Err(e) => Err(e),
        }
    } else {
        Ok((seq![item], q))
    }
}

/// The parameters of a function, up to (not including) the closing parenthesis.
pub open spec fn g_params(ts: Seq<TokenV>, p: int) -> PR<Seq<ParamV>> {
    if at(ts, p, Delim::RParen) {
        Ok((seq![], p))
    } else {
        g_param_list(ts, p)
    }
}

/// `n1, n2, ...` in an import.
pub open spec fn g_import_names(ts: Seq<TokenV>, p: int) -> PR<Seq<Seq<char>>>
    decreases ts.len() - p,
{
    match tok_at(ts, p) {
        TokenV::Ident(n) => {
            if at(ts, p + 1, Delim::Comma) {
                match g_import_names(ts, p + 2) {
                    Ok((rest, q)) => Ok((seq![n] + rest, q)),
                    Err(e) => Err(e),
                }
            } else {
                Ok((seq![n], p + 1))
            }
        },
        t => fail(expected("import name"@, t), p + 1),
    }
}

/// `{ n1, n2 } from "path"` (after the `import` keyword): the names and the path.
pub open spec fn g_import(ts: Seq<TokenV>, p: int) -> PR<(Seq<Seq<char>>, Seq<char>)> {
    if !at(ts, p, Delim::LBrace) {
        missing(ts, p, Delim::LBrace)
    } else {
        match g_import_names(ts, p + 1) {
            Ok((names, q)) => {
                if !at(ts, q, Delim::RBrace) {
                    missing(ts, q, Delim::RBrace)
                } else if !(tok_at(ts, q + 1) is From) {
                    fail("Expected 'from' after import destructuring"@, q + 1)
                } else {
                    match tok_at(ts, q + 2) {
                        TokenV::StrLit(path) => Ok(((names, path), q + 3)),
                        t => fail(expected("module path"@, t), q + 3),
                    }
                }
            },
            Err(e) => Err(e),
        }
    }
}

/// Where reading import names from `p` stops: past the last name (`Ok`), or past
/// the token that is not a name (`Err`).
pub open spec fn import_names_stop(ts: Seq<TokenV>, p: int) -> Result<int, int>
    decreases ts.len() - p,
{
    match tok_at(ts, p) {
        TokenV::Ident(_) => {
            if at(ts, p + 1, Delim::Comma) {
                import_names_stop(ts, p + 2)
            } else {
                Ok(p + 1)
            }
        },
        _ => Err(p + 1),
    }
}

/// Where reading an import from `p` (after the `import` keyword) stops, whether it
/// succeeds or not.
pub open spec fn import_stop(ts: Seq<TokenV>, p: int) -> int {
    if !at(ts, p, Delim::LBrace) {
        p + 1
    } else {
        match import_names_stop(ts, p + 1) {
            Ok(q) => {
                if !at(ts, q, Delim::RBrace) || !(tok_at(ts, q + 1) is From) {
                    q + 1
                } else {
                    q + 3
                }
            },
            Err(e) => e,
        }
    }
}

/// The names parse where their reading stops.
pub proof fn lemma_import_names_stop(ts: Seq<TokenV>, p: int)
    ensures
        g_import_names(ts, p) matches Ok((_, q)) ==> import_names_stop(ts, p) == Ok::<int, int>(q),
        g_import_names(ts, p) matches Err((_, e)) ==> import_names_stop(ts, p) == Err::<int, int>(e),
    decreases ts.len() - p,
{
    match tok_at(ts, p) {
        TokenV::Ident(_) => {
            if at(ts, p + 1, Delim::Comma) {
                lemma_import_names_stop(ts, p + 2);
            }
        },
        _ => {},
    }
}

// ---------------------------------------------------------------------------
// Statements and expressions
// ---------------------------------------------------------------------------

/// A function's parameter list and body from its `(` at `p`:
/// `( params ) { stmts }`.
pub open spec fn g_fn_rest(ts: Seq<TokenV>, p: int) -> PR<(Seq<ParamV>, Seq<StmtV>)>
    decreases ts.len() - p, 40int,
{
    if !at(ts, p, Delim::LParen) {
        missing(ts, p, Delim::LParen)
    } else {
        match g_params(ts, p + 1) {
            Ok((ps, q)) => {
                if !advanced(ts, p + 1, q) {
                    stuck(q)
                } else if !at(ts, q, Delim::RParen) {
                    missing(ts, q, Delim::RParen)
                } else if !at(ts, q + 1, Delim::LBrace) {
                    missing(ts, q + 1, Delim::LBrace)
                } else {
                    match g_stmts(ts, q + 2) {
                        Ok((body, r)) => {
                            if !advanced(ts, q + 2, r) {
                                stuck(r)
                            } else if !at(ts, r, Delim::RBrace) {
                                missing(ts, r, Delim::RBrace)
                            } else {
                                Ok(((ps, body), r + 1))
                            }
                        },
                        Err(e) => Err(e),
                    }
                }
            },
            Err(e) => Err(e),
        }
    }
}

/// `function name(params) { body }` from the `function` keyword at `p`.
pub open spec fn g_func_decl(ts: Seq<TokenV>, p: int) -> PR<FuncDeclV>
    decreases ts.len() - p, 41int,
{
    match tok_at(ts, p + 1) {
        TokenV::Ident(name) => {
            if p < ts.len() {
                match g_fn_rest(ts, p + 2) {
                    Ok(((ps, body), q)) => Ok((FuncDeclV { name, params: ps, body }, q)),
                    Err(e) => Err(e),
                }
            } else {
                stuck(p)
            }
        },
        t => fail(expected("function name"@, t), p + 2),
    }
}

/// `function name(...) { ... }` after the `export` keyword.
pub open spec fn g_export(ts: Seq<TokenV>, p: int) -> PR<FuncDeclV>
    decreases ts.len() - p, 42int,
{
    if !(tok_at(ts, p) is Function) {
        fail("Expected 'function' after export"@, p)
    } else {
        match tok_at(ts, p + 1) {
            TokenV::Ident(name) => match g_fn_rest(ts, p + 2) {
                Ok(((ps, body), q)) => Ok((FuncDeclV { name, params: ps, body }, q)),
                Err(e) => Err(e),
            },
            t => fail(expected("function name after export"@, t), p + 2),
        }
    }
}

/// The run of function declarations (named ones become declarations, anonymous ones
/// become returned function expressions) at the start of a statement list.
pub open spec fn g_funcs(ts: Seq<TokenV>, p: int) -> PR<Seq<StmtV>>
    decreases ts.len() - p, 48int,
{
    if !(tok_at(ts, p) is Function) {
        Ok((seq![], p))
    } else {
        let item: PR<StmtV> = match tok_at(ts, p + 1) {
            TokenV::Ident(_) => match g_func_decl(ts, p) {
                Ok((d, q)) => Ok((StmtV::FuncDecl(d), q)),
                Err(e) => Err(e),
            },
            _ => match g_fn_rest(ts, p + 1) {
                Ok(((ps, body), q)) => Ok((StmtV::Return(ExprV::Function(ps, body)), q)),
                Err(e) => Err(e),
            },
        };
        match item {
            Ok((s, q)) => {
                if advanced(ts, p, q) && p < q {
                    match g_funcs(ts, q) {
                        Ok((rest, r)) => Ok((seq![s] + rest, r)),
                        Err(e) => Err(e),
                    }
                } else {
                    stuck(q)
                }
            },
            Err(e) => Err(e),
        }
    }
}

/// The position after an optional semicolon at `q`.
pub open spec fn skip_semicolon(ts: Seq<TokenV>, q: int) -> int {
    if at(ts, q, Delim::Semicolon) {
        q + 1
    } else {
        q
    }
}

/// Whether the token at `q` closes a statement list.
pub open spec fn at_block_end(ts: Seq<TokenV>, q: int) -> bool {
    tok_at(ts, q) is RBrace || tok_at(ts, q) is EOF
}

/// The returns and expression statements that end a statement list. An expression
/// statement that is the last one before `}` or the end becomes a return.
pub open spec fn g_tail(ts: Seq<TokenV>, p: int) -> PR<Seq<StmtV>>
    decreases ts.len() - p, 47int,
{
    if tok_at(ts, p) is Return {
        match g_cond(ts, p + 1) {
            Ok((e, q)) => {
                if advanced(ts, p + 1, q) {
                    let q2 = skip_semicolon(ts, q);
                    match g_tail(ts, q2) {
                        Ok((rest, r)) => Ok((seq![StmtV::Return(e)] + rest, r)),
                        Err(e) => Err(e),
                    }
                } else {
                    stuck(q)
                }
            },
            Err(e) => Err(e),
        }
    } else if !at_block_end(ts, p) {
        match g_cond(ts, p) {
            Ok((e, q)) => {
                if advanced(ts, p, q) && p < q {
                    let q2 = skip_semicolon(ts, q);
                    let s = if at_block_end(ts, q2) {
                        StmtV::Return(e)
                    } else {
                        StmtV::Expr(e)
                    };
                    match g_tail(ts, q2) {
                        Ok((rest, r)) => Ok((seq![s] + rest, r)),
                        Err(e) => Err(e),
                    }
                } else {
                    stuck(q)
                }
            },
            Err(e) => Err(e),
        }
    } else {
        Ok((seq![], p))
    }
}

/// An optional import statement at `p`.
pub open spec fn g_opt_import(ts: Seq<TokenV>, p: int) -> PR<Seq<StmtV>> {
    if tok_at(ts, p) is Import {
        match g_import(ts, p + 1) {
            Ok(((names, src), q)) => Ok((seq![StmtV::Import(names, src)], q)),
            Err(e) => Err(e),
        }
    } else {
        Ok((seq![], p))
    }
}

/// An optional export statement at `p`.
pub open spec fn g_opt_export(ts: Seq<TokenV>, p: int) -> PR<Seq<StmtV>>
    decreases ts.len() - p, 45int,
{
    if tok_at(ts, p) is Export {
        match g_export(ts, p + 1) {
            Ok((d, q)) => Ok((seq![StmtV::Export(d)], q)),
            Err(e) => Err(e),
        }
    } else {
        Ok((seq![], p))
    }
}

/// A statement list: an optional import, function declarations, an optional export,
/// then returns and expression statements.
pub open spec fn g_stmts(ts: Seq<TokenV>, p: int) -> PR<Seq<StmtV>>
    decreases ts.len() - p, 49int,
{
    match g_opt_import(ts, p) {
        Ok((s1, p1)) => {
            if !advanced(ts, p, p1) {
                stuck(p1)
            } else {
                match g_funcs(ts, p1) {
                    Ok((s2, p2)) => {
                        if !advanced(ts, p1, p2) || !advanced(ts, p, p2) {
                            stuck(p2)
                        } else {
                            match g_opt_export(ts, p2) {
                                Ok((s3, p3)) => {
                                    if !advanced(ts, p2, p3) || !advanced(ts, p, p3) {
                                        stuck(p3)
                                    } else {
                                        match g_tail(ts, p3) {
                                            Ok((s4, p4)) => Ok((s1 + s2 + s3 + s4, p4)),
                                            Err(e) => Err(e),
                                        }
                                    }
                                },
                                Err(e) => Err(e),
                            }
                        }
                    },
                    Err(e) => Err(e),
                }
            }
        },
        Err(e) => Err(e),
    }
}

/// `c ? t : f`, right-associative.
pub open spec fn g_cond(ts: Seq<TokenV>, p: int) -> PR<ExprV>
    decreases ts.len() - p, 30int,
{
    match g_compare(ts, p) {
        Ok((c, q)) => {
            if !advanced(ts, p, q) {
                stuck(q)
            } else if tok_at(ts, q) is Question {
                match g_cond(ts, q + 1) {
                    Ok((t, r)) => {
                        if !advanced(ts, q + 1, r) {
                            stuck(r)
                        } else if !at(ts, r, Delim::Colon) {
                            missing(ts, r, Delim::Colon)
                        } else {
                            match g_cond(ts, r + 1) {
                                Ok((f, u)) => Ok(
                                    (ExprV::Conditional(Box::new(c), Box::new(t), Box::new(f)), u),
                                ),
                                Err(e) => Err(e),
                            }
                        }
                    },
                    Err(e) => Err(e),
                }
            } else {
                Ok((c, q))
            }
        },
        Err(e) => Err(e),
    }
}

/// Comparison and logical operators, left-associative, one precedence level.
pub open spec fn g_compare(ts: Seq<TokenV>, p: int) -> PR<ExprV>
    decreases ts.len() - p, 29int,
{
    match g_add(ts, p) {
        Ok((l, q)) => {
            if advanced(ts, p, q) {
                g_compare_loop(ts, q, l)
            } else {
                stuck(q)
            }
        },
        Err(e) => Err(e),
    }
}

pub open spec fn g_compare_loop(ts: Seq<TokenV>, p: int, left: ExprV) -> PR<ExprV>
    decreases ts.len() - p, 28int,
{
    match relational_op(tok_at(ts, p)) {
        Some(op) => match g_add(ts, p + 1) {
            Ok((r, q)) => {
                if advanced(ts, p + 1, q) {
                    g_compare_loop(ts, q, ExprV::Binary(Box::new(left), op, Box::new(r)))
                } else {
                    stuck(q)
                }
            },
            Err(e) => Err(e),
        },
        None => Ok((left, p)),
    }
}

/// `+` and `-`, left-associative.
pub open spec fn g_add(ts: Seq<TokenV>, p: int) -> PR<ExprV>
    decreases ts.len() - p, 27int,
{
    match g_mul(ts, p) {
        Ok((l, q)) => {
            if advanced(ts, p, q) {
                g_add_loop(ts, q, l)
            } else {
                stuck(q)
            }
        },
        Err(e) => Err(e),
    }
}

pub open spec fn g_add_loop(ts: Seq<TokenV>, p: int, left: ExprV) -> PR<ExprV>
    decreases ts.len() - p, 26int,
{
    match add_op(tok_at(ts, p)) {
        Some(op) => match g_mul(ts, p + 1) {
            Ok((r, q)) => {
                if advanced(ts, p + 1, q) {
                    g_add_loop(ts, q, ExprV::Binary(Box::new(left), op, Box::new(r)))
                } else {
                    stuck(q)
                }
            },
            Err(e) => Err(e),
        },
        None => Ok((left, p)),
    }
}

/// `*`, `/` and `%`, left-associative.
pub open spec fn g_mul(ts: Seq<TokenV>, p: int) -> PR<ExprV>
    decreases ts.len() - p, 25int,
{
    match g_chain(ts, p) {
        Ok((l, q)) => {
            if advanced(ts, p, q) {
                g_mul_loop(ts, q, l)
            } else {
                stuck(q)
            }
        },
        Err(e) => Err(e),
    }
}

pub open spec fn g_mul_loop(ts: Seq<TokenV>, p: int, left: ExprV) -> PR<ExprV>
    decreases ts.len() - p, 24int,
{
    match mul_op(tok_at(ts, p)) {
        Some(op) => match g_chain(ts, p + 1) {
            Ok((r, q)) => {
                if advanced(ts, p + 1, q) {
                    g_mul_loop(ts, q, ExprV::Binary(Box::new(left), op, Box::new(r)))
                } else {
                    stuck(q)
                }
            },
            Err(e) => Err(e),
        },
        None => Ok((left, p)),
    }
}

/// A primary expression followed by indexing, calls, property accesses and method
/// calls.
pub open spec fn g_chain(ts: Seq<TokenV>, p: int) -> PR<ExprV>
    decreases ts.len() - p, 23int,
{
    match g_primary(ts, p) {
        Ok((e, q)) => {
            if advanced(ts, p, q) {
                g_chain_loop(ts, q, e)
            } else {
                stuck(q)
            }
        },
        Err(e) => Err(e),
    }
}

pub open spec fn g_chain_loop(ts: Seq<TokenV>, p: int, e: ExprV) -> PR<ExprV>
    decreases ts.len() - p, 22int,
{
    match tok_at(ts, p) {
        TokenV::LBracket => match g_cond(ts, p + 1) {
            Ok((i, q)) => {
                if !advanced(ts, p + 1, q) {
                    stuck(q)
                } else if !at(ts, q, Delim::RBracket) {
                    missing(ts, q, Delim::RBracket)
                } else {
                    g_chain_loop(ts, q + 1, ExprV::Index(Box::new(e), Box::new(i)))
                }
            },
            Err(x) => Err(x),
        },
        TokenV::LParen => match g_args(ts, p + 1) {
            Ok((args, q)) => {
                if !advanced(ts, p + 1, q) {
                    stuck(q)
                } else if !at(ts, q, Delim::RParen) {
                    missing(ts, q, Delim::RParen)
                } else {
                    g_chain_loop(ts, q + 1, ExprV::Call(Box::new(e), args))
                }
            },
            Err(x) => Err(x),
        },
        TokenV::Dot => match tok_at(ts, p + 1) {
            TokenV::Ident(prop) => {
                if at(ts, p + 2, Delim::LParen) {
                    match g_args(ts, p + 3) {
                        Ok((args, q)) => {
                            if !advanced(ts, p + 3, q) {
                                stuck(q)
                            } else if !at(ts, q, Delim::RParen) {
                                missing(ts, q, Delim::RParen)
                            } else {
                                g_chain_loop(
                                    ts,
                                    q + 1,
                                    ExprV::MethodCall(Box::new(e), prop, args),
                                )
                            }
                        },
                        Err(x) => Err(x),
                    }
                } else {
                    g_chain_loop(ts, p + 2, ExprV::PropAccess(Box::new(e), prop))
                }
            },
            t => fail(expected("property name"@, t), p + 2),
        },
        _ => Ok((e, p)),
    }
}

/// One argument or array element: a spread or an expression.
pub open spec fn g_item(ts: Seq<TokenV>, p: int) -> PR<ExprV>
    decreases ts.len() - p, 32int,
{
    if tok_at(ts, p) is Spread {
        match g_cond(ts, p + 1) {
            Ok((x, q)) => Ok((ExprV::Spread(Box::new(x)), q)),
            Err(e) => Err(e),
        }
    } else {
        g_cond(ts, p)
    }
}

/// One or more items separated by commas.
pub open spec fn g_item_list(ts: Seq<TokenV>, p: int) -> PR<Seq<ExprV>>
    decreases ts.len() - p, 33int,
{
    match g_item(ts, p) {
        Ok((x, q)) => {
            if advanced(ts, p, q) && p < q {
                if at(ts, q, Delim::Comma) {
                    match g_item_list(ts, q + 1) {
                        Ok((rest, r)) => Ok((seq![x] + rest, r)),
                        Err(e) => Err(e),
                    }
                } else {
                    Ok((seq![x], q))
                }
            } else {
                stuck(q)
            }
        },
        Err(e) => Err(e),
    }
}

/// Call arguments, up to (not including) the closing parenthesis.
pub open spec fn g_args(ts: Seq<TokenV>, p: int) -> PR<Seq<ExprV>>
    decreases ts.len() - p, 34int,
{
    if at(ts, p, Delim::RParen) {
        Ok((seq![], p))
    } else {
        g_item_list(ts, p)
    }
}

/// The entries of an object literal: `key: value` or a bare `key` (which stands
/// for `key: key`), separated by commas.
pub open spec fn g_entries(ts: Seq<TokenV>, p: int) -> PR<Seq<(Seq<char>, ExprV)>>
    decreases ts.len() - p, 35int,
{
    let key: Option<Seq<char>> = match tok_at(ts, p) {
        TokenV::Ident(k) => Some(k),
        TokenV::StrLit(k) => Some(k),
        _ => None,
    };
    match key {
        Some(k) => {
            let entry: PR<(Seq<char>, ExprV)> = if at(ts, p + 1, Delim::Colon) {
                match g_cond(ts, p + 2) {
                    Ok((v, q)) => Ok(((k, v), q)),
                    Err(e) => Err(e),
                }
            } else {
                Ok(((k, ExprV::Ident(k)), p + 1))
            };
            match entry {
                Ok((en, q)) => {
                    if advanced(ts, p, q) && p < q {
                        if at(ts, q, Delim::Comma) {
                            match g_entries(ts, q + 1) {
                                Ok((rest, r)) => Ok((seq![en] + rest, r)),
                                Err(e) => Err(e),
                            }
                        } else {
                            Ok((seq![en], q))
                        }
                    } else {
                        stuck(q)
                    }
                },
                Err(e) => Err(e),
            }
        },
        None => fail(expected("object key"@, tok_at(ts, p)), p + 1),
    }
}

/// A primary expression.
pub open spec fn g_primary(ts: Seq<TokenV>, p: int) -> PR<ExprV>
    decreases ts.len() - p, 21int,
{
    match tok_at(ts, p) {
        TokenV::Number(n) => Ok((ExprV::Number(n), p + 1)),
        TokenV::StrLit(s) => Ok((ExprV::Str(s), p + 1)),
        TokenV::Ident(n) => Ok((ExprV::Ident(n), p + 1)),
        TokenV::Function => {
            let start = if tok_at(ts, p + 1) is Ident {
                p + 2
            } else {
                p + 1
            };
            match g_fn_rest(ts, start) {
                Ok(((ps, body), q)) => Ok((ExprV::Function(ps, body), q)),
                Err(e) => Err(e),
            }
        },
        TokenV::New => match g_primary(ts, p + 1) {
            Ok((ctor, q)) => {
                if !advanced(ts, p + 1, q) {
                    stuck(q)
                } else if !at(ts, q, Delim::LParen) {
                    missing(ts, q, Delim::LParen)
                } else {
                    match g_args(ts, q + 1) {
                        Ok((args, r)) => {
                            if !advanced(ts, q + 1, r) {
                                stuck(r)
                            } else if !at(ts, r, Delim::RParen) {
                                missing(ts, r, Delim::RParen)
                            } else {
                                Ok((ExprV::New(Box::new(ctor), args), r + 1))
                            }
                        },
                        Err(e) => Err(e),
                    }
                }
            },
            Err(e) => Err(e),
        },
        TokenV::LBracket => {
            let elems: PR<Seq<ExprV>> = if at(ts, p + 1, Delim::RBracket) {
                Ok((seq![], p + 1))
            } else {
                g_item_list(ts, p + 1)
            };
            match elems {
                Ok((es, q)) => {
                    if !advanced(ts, p + 1, q) {
                        stuck(q)
                    } else if !at(ts, q, Delim::RBracket) {
                        missing(ts, q, Delim::RBracket)
                    } else {
                        Ok((ExprV::ArrayLiteral(es), q + 1))
                    }
                },
                Err(e) => Err(e),
            }
        },
        TokenV::LBrace => {
            let entries: PR<Seq<(Seq<char>, ExprV)>> = if at(ts, p + 1, Delim::RBrace) {
                Ok((seq![], p + 1))
            } else {
                g_entries(ts, p + 1)
            };
            match entries {
                Ok((es, q)) => {
                    if !advanced(ts, p + 1, q) {
                        stuck(q)
                    } else if !at(ts, q, Delim::RBrace) {
                        missing(ts, q, Delim::RBrace)
                    } else {
                        Ok((ExprV::ObjectLiteral(es), q + 1))
                    }
                },
                Err(e) => Err(e),
            }
        },
        TokenV::LParen => match g_cond(ts, p + 1) {
            Ok((e, q)) => {
                if !advanced(ts, p + 1, q) {
                    stuck(q)
                } else if !at(ts, q, Delim::RParen) {
                    missing(ts, q, Delim::RParen)
                } else {
                    Ok((e, q + 1))
                }
            },
            Err(e) => Err(e),
        },
        t => fail(unexpected(t), p),
    }
}

} // verus!
