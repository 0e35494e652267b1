//! The recursive-descent parser: tokens to syntax trees, following `grammar`.
use vstd::prelude::*;
use crate::lexer::{Token, TokenV, tokens_view};
use crate::ast::{
    BinOp, Expr, ExportStmt, FuncDecl, ImportStmt, Param, Stmt, ExprV, StmtV, expr_v, exprs_v,
    entries_v, func_decl_v, params_v, param_v, stmt_v, stmts_v, strings_v,
};
use crate::grammar::{
    PR, Delim, done, fails_at, expected, unexpected, delim_word, advanced, at, at_block_end, add_op, relational_op, delim_named, delim_token, g_add,
    g_add_loop, g_args, g_chain, g_chain_loop, g_compare, g_compare_loop, g_cond, g_entries, g_export,
    g_fields, g_fn_rest, g_func_decl, g_funcs, g_import, g_opt_import, g_opt_export, g_import_names, g_item, g_item_list,
    g_mul, g_mul_loop, g_param_list, g_param_rest, g_params, g_primary, g_stmts, g_tail,
    mul_op, skip_semicolon, tok_at, import_stop, import_names_stop, lemma_import_names_stop,
};
use crate::text::{chars_eq_str, chars_of, concat};

verus! {

/// `acc` in front of the items of a successful result.
pub open spec fn prepend<T>(acc: Seq<T>, r: PR<Seq<T>>) -> PR<Seq<T>> {
    match r {
        Ok((xs, q)) => Ok((acc + xs, q)),
        Err(e) => Err(e),
    }
}

pub proof fn lemma_prepend_assoc<T>(a: Seq<T>, b: Seq<T>, r: PR<Seq<T>>)
    ensures
        prepend(a + b, r) == prepend(a, prepend(b, r)),
{
    match r {
        Ok((xs, q)) => {
            assert(a + b + xs =~= a + (b + xs));
        },
        Err(_) => {},
    }
}

/// The message for a token that is not the one expected.
fn expected_message(what: &str, got: &Token) -> (r: String)
    ensures
        r@ == expected(what@, got@),
{
    let a = concat(&"Expected ".to_string(), what);
    let b = concat(&a, ", got ");
    concat(&b, got.describe().as_str())
}

fn delim_name(d: Delim) -> (r: &'static str)
    ensures
        r@ == delim_word(d),
{
    match d {
        Delim::LParen => "LParen",
        Delim::RParen => "RParen",
        Delim::LBrace => "LBrace",
        Delim::RBrace => "RBrace",
        Delim::LBracket => "LBracket",
        Delim::RBracket => "RBracket",
        Delim::Comma => "Comma",
        Delim::Semicolon => "Semicolon",
        Delim::Colon => "Colon",
        Delim::Dot => "Dot",
    }
}

proof fn lemma_delim_names()
    ensures
        "LParen"@ == seq!['L', 'P', 'a', 'r', 'e', 'n'],
        "RParen"@ == seq!['R', 'P', 'a', 'r', 'e', 'n'],
        "LBrace"@ == seq!['L', 'B', 'r', 'a', 'c', 'e'],
        "RBrace"@ == seq!['R', 'B', 'r', 'a', 'c', 'e'],
        "LBracket"@ == seq!['L', 'B', 'r', 'a', 'c', 'k', 'e', 't'],
        "RBracket"@ == seq!['R', 'B', 'r', 'a', 'c', 'k', 'e', 't'],
        "Comma"@ == seq!['C', 'o', 'm', 'm', 'a'],
        "Semicolon"@ == seq!['S', 'e', 'm', 'i', 'c', 'o', 'l', 'o', 'n'],
        "Colon"@ == seq!['C', 'o', 'l', 'o', 'n'],
        "Dot"@ == seq!['D', 'o', 't'],
{
    reveal_strlit("LParen");
    reveal_strlit("RParen");
    reveal_strlit("LBrace");
    reveal_strlit("RBrace");
    reveal_strlit("LBracket");
    reveal_strlit("RBracket");
    reveal_strlit("Comma");
    reveal_strlit("Semicolon");
    reveal_strlit("Colon");
    reveal_strlit("Dot");
    assert("LParen"@ =~= seq!['L', 'P', 'a', 'r', 'e', 'n']);
    assert("RParen"@ =~= seq!['R', 'P', 'a', 'r', 'e', 'n']);
    assert("LBrace"@ =~= seq!['L', 'B', 'r', 'a', 'c', 'e']);
    assert("RBrace"@ =~= seq!['R', 'B', 'r', 'a', 'c', 'e']);
    assert("LBracket"@ =~= seq!['L', 'B', 'r', 'a', 'c', 'k', 'e', 't']);
    assert("RBracket"@ =~= seq!['R', 'B', 'r', 'a', 'c', 'k', 'e', 't']);
    assert("Comma"@ =~= seq!['C', 'o', 'm', 'm', 'a']);
    assert("Semicolon"@ =~= seq!['S', 'e', 'm', 'i', 'c', 'o', 'l', 'o', 'n']);
    assert("Colon"@ =~= seq!['C', 'o', 'l', 'o', 'n']);
    assert("Dot"@ =~= seq!['D', 'o', 't']);
}

/// The delimiter that `name` names.
fn delim_from_name(name: &str) -> (d: Option<Delim>)
    ensures
        d == delim_named(name@),
{
    proof {
        lemma_delim_names();
    }
    let v = chars_of(name);
    if chars_eq_str(&v, "LParen") {
        Some(Delim::LParen)
    } else if chars_eq_str(&v, "RParen") {
        Some(Delim::RParen)
    } else if chars_eq_str(&v, "LBrace") {
        Some(Delim::LBrace)
    } else if chars_eq_str(&v, "RBrace") {
        Some(Delim::RBrace)
    } else if chars_eq_str(&v, "LBracket") {
        Some(Delim::LBracket)
    } else if chars_eq_str(&v, "RBracket") {
        Some(Delim::RBracket)
    } else if chars_eq_str(&v, "Comma") {
        Some(Delim::Comma)
    } else if chars_eq_str(&v, "Semicolon") {
        Some(Delim::Semicolon)
    } else if chars_eq_str(&v, "Colon") {
        Some(Delim::Colon)
    } else if chars_eq_str(&v, "Dot") {
        Some(Delim::Dot)
    } else {
        None
    }
}

/// Whether `t` is the delimiter `d`.
fn is_delim(t: &Token, d: Delim) -> (r: bool)
    ensures
        r == (t@ == delim_token(d)),
{
    match (t, d) {
        (Token::LParen, Delim::LParen) => true,
        (Token::RParen, Delim::RParen) => true,
        (Token::LBrace, Delim::LBrace) => true,
        (Token::RBrace, Delim::RBrace) => true,
        (Token::LBracket, Delim::LBracket) => true,
        (Token::RBracket, Delim::RBracket) => true,
        (Token::Comma, Delim::Comma) => true,
        (Token::Semicolon, Delim::Semicolon) => true,
        (Token::Colon, Delim::Colon) => true,
        (Token::Dot, Delim::Dot) => true,
        _ => false,
    }
}

/// A parser over a token sequence, with its current position.
pub struct Parser {
    pub tokens: Vec<Token>,
    pub pos: usize,
}

impl Parser {
    /// The views of the tokens.
    pub open spec fn tv(&self) -> Seq<TokenV> {
        tokens_view(self.tokens@)
    }

    /// The position and the token count leave room for the parser to move past the
    /// end of the tokens.
    pub open spec fn room(&self) -> bool {
        self.tokens@.len() < usize::MAX - 1 && self.pos < usize::MAX - 1
    }

    /// A parser at the first of `tokens`.
    pub fn new(tokens: Vec<Token>) -> (r: Self)
        ensures
            r.tokens == tokens,
            r.pos == 0,
    {
        Parser { tokens, pos: 0 }
    }

    /// The current token; `EOF` past the end.
    pub fn peek(&self) -> (t: &Token)
        ensures
            t@ == tok_at(self.tv(), self.pos as int),
    {
        if self.pos < self.tokens.len() {
            &self.tokens[self.pos]
        } else {
            &Token::EOF
        }
    }

    /// Returns the current token (`EOF` past the end) and moves past it.
    pub fn consume(&mut self) -> (t: Token)
        requires
            old(self).pos < usize::MAX,
        ensures
            final(self).tokens == old(self).tokens,
            final(self).pos == old(self).pos + 1,
            t@ == tok_at(old(self).tv(), old(self).pos as int),
    {
        let t = self.peek().duplicate();
        self.pos = self.pos + 1;
        t
    }

    /// Moves past a token that is there.
    fn skip(&mut self)
        requires
            old(self).pos < old(self).tokens@.len(),
        ensures
            final(self).tokens == old(self).tokens,
            final(self).pos == old(self).pos + 1,
    {
        let n = self.tokens.len();
        self.pos = self.pos + 1;
    }

    fn at_delim(&self, d: Delim) -> (b: bool)
        ensures
            b == at(self.tv(), self.pos as int, d),
            b ==> self.pos < self.tokens@.len(),
    {
        is_delim(self.peek(), d)
    }

    /// Whether the token after the current one is an identifier.
    fn next_is_ident(&self) -> (b: bool)
        ensures
            b == (tok_at(self.tv(), self.pos + 1) is Ident),
    {
        if self.pos < self.tokens.len() && self.tokens.len() - self.pos > 1 {
            match &self.tokens[self.pos + 1] {
                Token::Ident(_) => true,
                _ => false,
            }
        } else {
            false
        }
    }

    fn expect_delim(&mut self, d: Delim) -> (r: Result<(), String>)
        requires
            old(self).pos < usize::MAX,
        ensures
            final(self).tokens == old(self).tokens,
            final(self).pos == old(self).pos + 1,
            r is Ok <==> at(old(self).tv(), old(self).pos as int, d),
            r matches Err(m) ==> m@ == expected(delim_word(d), tok_at(old(self).tv(), old(self).pos as int)),
    {
        let ok = self.at_delim(d);
        let t = self.consume();
        if ok {
            Ok(())
        } else {
            Err(expected_message(delim_name(d), &t))
        }
    }

    /// Consumes a token and succeeds when it is the delimiter named `expected`
    /// (`"LParen"`, `"RParen"`, `"LBrace"`, `"RBrace"`, `"LBracket"`, `"RBracket"`,
    /// `"Comma"`, `"Semicolon"`, `"Colon"` or `"Dot"`).
    pub fn expect(&mut self, expected: &str) -> (r: Result<(), String>)
        requires
            old(self).pos < usize::MAX,
        ensures
            final(self).tokens == old(self).tokens,
            final(self).pos == old(self).pos + 1,
            r is Ok <==> (delim_named(expected@) matches Some(d) && at(
                old(self).tv(),
                old(self).pos as int,
                d,
            )),
            r matches Err(m) ==> m@ == crate::grammar::expected(expected@, tok_at(old(self).tv(), old(self).pos as int)),
    {
        match delim_from_name(expected) {
            Some(d) => {
                let ok = self.at_delim(d);
                let t = self.consume();
                if ok {
                    Ok(())
                } else {
                    Err(expected_message(expected, &t))
                }
            },
            None => {
                let t = self.consume();
                Err(expected_message(expected, &t))
            },
        }
    }

    /// Consumes a token; an identifier's name, or an error naming `what`.
    fn take_ident(&mut self, what: &str) -> (r: Result<String, String>)
        requires
            old(self).pos < usize::MAX,
        ensures
            final(self).tokens == old(self).tokens,
            final(self).pos == old(self).pos + 1,
            r is Ok <==> tok_at(old(self).tv(), old(self).pos as int) is Ident,
            r matches Ok(n) ==> tok_at(old(self).tv(), old(self).pos as int) == TokenV::Ident(n@),
            r matches Err(m) ==> m@ == expected(what@, tok_at(old(self).tv(), old(self).pos as int)),
    {
        let t = self.consume();
        match t {
            Token::Ident(n) => Ok(n),
            other => Err(expected_message(what, &other)),
        }
    }

    /// Parses the parameters of a function up to its closing parenthesis.
    pub fn parse_params(&mut self) -> (r: Result<Vec<Param>, String>)
        requires
            old(self).room(),
        ensures
            final(self).tokens == old(self).tokens,
            r is Ok <==> g_params(old(self).tv(), old(self).pos as int) is Ok,
            r matches Err(m) ==> fails_at(g_params(old(self).tv(), old(self).pos as int), m@, final(self).pos as int),
            r matches Ok(ps) ==> g_params(old(self).tv(), old(self).pos as int) == done(params_v(ps@), final(self).pos as int),
            r is Ok ==> advanced(old(self).tv(), old(self).pos as int, final(self).pos as int),
    {
        let ghost ts = self.tv();
        let ghost p0 = self.pos as int;
        let mut params: Vec<Param> = Vec::new();
        if self.at_delim(Delim::RParen) {
            assert(params_v(params@) =~= seq![]);
            return Ok(params);
        }
        loop
            invariant
                self.tokens == old(self).tokens,
                ts == self.tv(),
                p0 == old(self).pos,
                advanced(ts, p0, self.pos as int),
                self.room(),
                g_params(ts, p0) == prepend(params_v(params@), g_param_list(ts, self.pos as int)),
            decreases ts.len() - self.pos,
        {
            let ghost pi = self.pos as int;
            let ghost acc = params_v(params@);
            let item: Param;
            if matches!(self.peek(), Token::Spread) {
                self.skip();
                let name = match self.take_ident("param name after ...") {
                    Ok(n) => n,
                    Err(e) => {
                        assert(g_param_list(ts, pi) is Err);
                        return Err(e);
                    },
                };
                params.push(Param::Rest(name));
                proof {
                    assert(params_v(params@) =~= acc + seq![param_v(Param::Rest(name))]);
                }
                return Ok(params);
            } else if self.at_delim(Delim::LBrace) {
                self.skip();
                let ghost pf = self.pos as int;
                let mut fields: Vec<String> = Vec::new();
                loop
                    invariant_except_break
                        self.tokens == old(self).tokens,
                        ts == self.tv(),
                        p0 == old(self).pos,
                        pf == pi + 1,
                        tok_at(ts, pi) is LBrace,
                        g_params(ts, p0) == prepend(acc, g_param_list(ts, pi)),
                        pf <= self.pos <= ts.len(),
                        self.room(),
                        g_fields(ts, pf) == prepend(strings_v(fields@), g_fields(ts, self.pos as int)),
                    ensures
                        self.tokens == old(self).tokens,
                        p0 == old(self).pos,
                        g_params(ts, p0) == prepend(acc, g_param_list(ts, pi)),
                        pf < self.pos <= ts.len(),
                        self.room(),
                        g_fields(ts, pf) == done(strings_v(fields@), self.pos as int),
                    decreases ts.len() - self.pos,
                {
                    let ghost fi = self.pos as int;
                    let ghost facc = strings_v(fields@);
                    let f = self.take_ident("field name in destructuring")?;
                    fields.push(f);
                    proof {
                        assert(strings_v(fields@) =~= facc + seq![f@]);
                    }
                    if self.at_delim(Delim::Comma) {
                        self.skip();
                        proof {
                            lemma_prepend_assoc(facc, seq![f@], g_fields(ts, self.pos as int));
                        }
                    } else {
                        break;
                    }
                }
                self.expect_delim(Delim::RBrace)?;
                item = Param::Destructure(fields);
            } else {
                let name = self.take_ident("param name")?;
                item = Param::Name(name);
            }
            params.push(item);
            proof {
                assert(params_v(params@) =~= acc + seq![param_v(item)]);
                assert(g_param_list(ts, pi) == g_param_rest(ts, self.pos as int, param_v(item)));
            }
            if self.at_delim(Delim::Comma) {
                self.skip();
                proof {
                    lemma_prepend_assoc(acc, seq![param_v(item)], g_param_list(ts, self.pos as int));
                }
            } else {
                return Ok(params);
            }
        }
    }

    /// Parses an expression.
    pub fn parse_expr(&mut self) -> (r: Result<Expr, String>)
        requires
            old(self).room(),
        ensures
            final(self).tokens == old(self).tokens,
            r is Ok <==> g_cond(old(self).tv(), old(self).pos as int) is Ok,
            r matches Err(m) ==> fails_at(g_cond(old(self).tv(), old(self).pos as int), m@, final(self).pos as int),
            r matches Ok(e) ==> g_cond(old(self).tv(), old(self).pos as int) == done(
                expr_v(e),
                final(self).pos as int,
            ),
            r is Ok ==> advanced(old(self).tv(), old(self).pos as int, final(self).pos as int)
                && old(self).pos < final(self).pos,
        decreases old(self).tokens@.len() - old(self).pos, 31int,
    {
        self.parse_conditional()
    }

    /// Parses `c ? t : f` (right-associative) or a comparison.
    pub fn parse_conditional(&mut self) -> (r: Result<Expr, String>)
        requires
            old(self).room(),
        ensures
            final(self).tokens == old(self).tokens,
            r is Ok <==> g_cond(old(self).tv(), old(self).pos as int) is Ok,
            r matches Err(m) ==> fails_at(g_cond(old(self).tv(), old(self).pos as int), m@, final(self).pos as int),
            r matches Ok(e) ==> g_cond(old(self).tv(), old(self).pos as int) == done(
                expr_v(e),
                final(self).pos as int,
            ),
            r is Ok ==> advanced(old(self).tv(), old(self).pos as int, final(self).pos as int)
                && old(self).pos < final(self).pos,
        decreases old(self).tokens@.len() - old(self).pos, 30int,
    {
        let c = self.parse_comparison()?;
        if matches!(self.peek(), Token::Question) {
            self.skip();
            let t = self.parse_conditional()?;
            self.expect_delim(Delim::Colon)?;
            let f = self.parse_conditional()?;
            Ok(Expr::Conditional(Box::new(c), Box::new(t), Box::new(f)))
        } else {
            Ok(c)
        }
    }

    /// Parses comparison and logical operators (left-associative, one level).
    pub fn parse_comparison(&mut self) -> (r: Result<Expr, String>)
        requires
            old(self).room(),
        ensures
            final(self).tokens == old(self).tokens,
            r is Ok <==> g_compare(old(self).tv(), old(self).pos as int) is Ok,
            r matches Err(m) ==> fails_at(g_compare(old(self).tv(), old(self).pos as int), m@, final(self).pos as int),
            r matches Ok(e) ==> g_compare(old(self).tv(), old(self).pos as int) == done(
                expr_v(e),
                final(self).pos as int,
            ),
            r is Ok ==> advanced(old(self).tv(), old(self).pos as int, final(self).pos as int)
                && old(self).pos < final(self).pos,
        decreases old(self).tokens@.len() - old(self).pos, 29int,
    {
        let ghost ts = self.tv();
        let ghost p0 = self.pos as int;
        let mut left = self.parse_additive()?;
        loop
            invariant
                self.tokens == old(self).tokens,
                ts == self.tv(),
                p0 == old(self).pos,
                p0 < self.pos <= ts.len(),
                self.room(),
                g_compare(ts, p0) == g_compare_loop(ts, self.pos as int, expr_v(left)),
            decreases ts.len() - self.pos,
        {
            let op = match self.peek() {
                Token::Eq => BinOp::Eq,
                Token::Ne => BinOp::Ne,
                Token::Lt => BinOp::Lt,
                Token::Gt => BinOp::Gt,
                Token::Le => BinOp::Le,
                Token::Ge => BinOp::Ge,
                Token::And => BinOp::And,
                Token::Or => BinOp::Or,
                _ => {
                    return Ok(left);
                },
            };
            proof {
                assert(relational_op(tok_at(ts, self.pos as int)) == Some(op));
            }
            self.skip();
            let right = self.parse_additive()?;
            left = Expr::Binary(Box::new(left), op, Box::new(right));
        }
    }

    /// Parses `+` and `-` (left-associative).
    pub fn parse_additive(&mut self) -> (r: Result<Expr, String>)
        requires
            old(self).room(),
        ensures
            final(self).tokens == old(self).tokens,
            r is Ok <==> g_add(old(self).tv(), old(self).pos as int) is Ok,
            r matches Err(m) ==> fails_at(g_add(old(self).tv(), old(self).pos as int), m@, final(self).pos as int),
            r matches Ok(e) ==> g_add(old(self).tv(), old(self).pos as int) == done(
                expr_v(e),
                final(self).pos as int,
            ),
            r is Ok ==> advanced(old(self).tv(), old(self).pos as int, final(self).pos as int)
                && old(self).pos < final(self).pos,
        decreases old(self).tokens@.len() - old(self).pos, 27int,
    {
        let ghost ts = self.tv();
        let ghost p0 = self.pos as int;
        let mut left = self.parse_multiplicative()?;
        loop
            invariant
                self.tokens == old(self).tokens,
                ts == self.tv(),
                p0 == old(self).pos,
                p0 < self.pos <= ts.len(),
                self.room(),
                g_add(ts, p0) == g_add_loop(ts, self.pos as int, expr_v(left)),
            decreases ts.len() - self.pos,
        {
            let op = match self.peek() {
                Token::Add => BinOp::Add,
                Token::Sub => BinOp::Sub,
                _ => {
                    return Ok(left);
                },
            };
            proof {
                assert(add_op(tok_at(ts, self.pos as int)) == Some(op));
            }
            self.skip();
            let right = self.parse_multiplicative()?;
            left = Expr::Binary(Box::new(left), op, Box::new(right));
        }
    }

    /// Parses `*`, `/` and `%` (left-associative).
    pub fn parse_multiplicative(&mut self) -> (r: Result<Expr, String>)
        requires
            old(self).room(),
        ensures
            final(self).tokens == old(self).tokens,
            r is Ok <==> g_mul(old(self).tv(), old(self).pos as int) is Ok,
            r matches Err(m) ==> fails_at(g_mul(old(self).tv(), old(self).pos as int), m@, final(self).pos as int),
            r matches Ok(e) ==> g_mul(old(self).tv(), old(self).pos as int) == done(
                expr_v(e),
                final(self).pos as int,
            ),
            r is Ok ==> advanced(old(self).tv(), old(self).pos as int, final(self).pos as int)
                && old(self).pos < final(self).pos,
        decreases old(self).tokens@.len() - old(self).pos, 25int,
    {
        let ghost ts = self.tv();
        let ghost p0 = self.pos as int;
        let mut left = self.parse_chain()?;
        loop
            invariant
                self.tokens == old(self).tokens,
                ts == self.tv(),
                p0 == old(self).pos,
                p0 < self.pos <= ts.len(),
                self.room(),
                g_mul(ts, p0) == g_mul_loop(ts, self.pos as int, expr_v(left)),
            decreases ts.len() - self.pos,
        {
            let op = match self.peek() {
                Token::Mul => BinOp::Mul,
                Token::Div => BinOp::Div,
                Token::Mod => BinOp::Mod,
                _ => {
                    return Ok(left);
                },
            };
            proof {
                assert(mul_op(tok_at(ts, self.pos as int)) == Some(op));
            }
            self.skip();
            let right = self.parse_chain()?;
            left = Expr::Binary(Box::new(left), op, Box::new(right));
        }
    }

    /// Parses a primary expression followed by any indexing, calls, property
    /// accesses and method calls.
    #[verifier::spinoff_prover]
    #[verifier::rlimit(80)]
    pub fn parse_chain(&mut self) -> (r: Result<Expr, String>)
        requires
            old(self).room(),
        ensures
            final(self).tokens == old(self).tokens,
            r is Ok <==> g_chain(old(self).tv(), old(self).pos as int) is Ok,
            r matches Err(m) ==> fails_at(g_chain(old(self).tv(), old(self).pos as int), m@, final(self).pos as int),
            r matches Ok(e) ==> g_chain(old(self).tv(), old(self).pos as int) == done(
                expr_v(e),
                final(self).pos as int,
            ),
            r is Ok ==> advanced(old(self).tv(), old(self).pos as int, final(self).pos as int)
                && old(self).pos < final(self).pos,
        decreases old(self).tokens@.len() - old(self).pos, 23int,
    {
        let ghost ts = self.tv();
        let ghost p0 = self.pos as int;
        let mut expr = self.parse_primary()?;
        loop
            invariant
                self.tokens == old(self).tokens,
                ts == self.tv(),
                p0 == old(self).pos,
                p0 < self.pos <= ts.len(),
                self.room(),
                g_chain(ts, p0) == g_chain_loop(ts, self.pos as int, expr_v(expr)),
            decreases ts.len() - self.pos,
        {
            if self.at_delim(Delim::LBracket) {
                self.skip();
                let index = self.parse_conditional()?;
                self.expect_delim(Delim::RBracket)?;
                expr = Expr::Index(Box::new(expr), Box::new(index));
            } else if self.at_delim(Delim::LParen) {
                self.skip();
                let args = self.parse_call_args()?;
                self.expect_delim(Delim::RParen)?;
                expr = Expr::Call(Box::new(expr), args);
            } else if self.at_delim(Delim::Dot) {
                self.skip();
                let prop = self.take_ident("property name")?;
                if self.at_delim(Delim::LParen) {
                    self.skip();
                    let args = self.parse_call_args()?;
                    self.expect_delim(Delim::RParen)?;
                    expr = Expr::MethodCall(Box::new(expr), prop, args);
                } else {
                    expr = Expr::PropAccess(Box::new(expr), prop);
                }
            } else {
                return Ok(expr);
            }
        }
    }

    /// Parses one argument or array element: `...e` or `e`.
    #[verifier::spinoff_prover]
    #[verifier::rlimit(40)]
    fn parse_item(&mut self) -> (r: Result<Expr, String>)
        requires
            old(self).room(),
        ensures
            final(self).tokens == old(self).tokens,
            r is Ok <==> g_item(old(self).tv(), old(self).pos as int) is Ok,
            r matches Err(m) ==> fails_at(g_item(old(self).tv(), old(self).pos as int), m@, final(self).pos as int),
            r matches Ok(e) ==> g_item(old(self).tv(), old(self).pos as int) == done(
                expr_v(e),
                final(self).pos as int,
            ),
            r is Ok ==> advanced(old(self).tv(), old(self).pos as int, final(self).pos as int)
                && old(self).pos < final(self).pos,
        decreases old(self).tokens@.len() - old(self).pos, 32int,
    {
        if matches!(self.peek(), Token::Spread) {
            self.skip();
            let e = self.parse_conditional()?;
            Ok(Expr::Spread(Box::new(e)))
        } else {
            self.parse_conditional()
        }
    }

    /// Parses one or more items separated by commas.
    fn parse_item_list(&mut self) -> (r: Result<Vec<Expr>, String>)
        requires
            old(self).room(),
        ensures
            final(self).tokens == old(self).tokens,
            r is Ok <==> g_item_list(old(self).tv(), old(self).pos as int) is Ok,
            r matches Err(m) ==> fails_at(g_item_list(old(self).tv(), old(self).pos as int), m@, final(self).pos as int),
            r matches Ok(es) ==> g_item_list(old(self).tv(), old(self).pos as int) == done(
                exprs_v(es@),
                final(self).pos as int,
            ),
            r is Ok ==> advanced(old(self).tv(), old(self).pos as int, final(self).pos as int),
        decreases old(self).tokens@.len() - old(self).pos, 33int,
    {
        let ghost ts = self.tv();
        let ghost p0 = self.pos as int;
        let mut items: Vec<Expr> = Vec::new();
        loop
            invariant
                self.tokens == old(self).tokens,
                ts == self.tv(),
                p0 == old(self).pos,
                advanced(ts, p0, self.pos as int),
                self.room(),
                g_item_list(ts, p0) == prepend(exprs_v(items@), g_item_list(ts, self.pos as int)),
            decreases ts.len() - self.pos,
        {
            let ghost pi = self.pos as int;
            let ghost acc = exprs_v(items@);
            let item = self.parse_item()?;
            let ghost iv = expr_v(item);
            items.push(item);
            proof {
                assert(exprs_v(items@) =~= acc + seq![iv]);
            }
            if self.at_delim(Delim::Comma) {
                self.skip();
                proof {
                    lemma_prepend_assoc(acc, seq![iv], g_item_list(ts, self.pos as int));
                }
            } else {
                return Ok(items);
            }
        }
    }

    /// Parses call arguments up to the closing parenthesis.
    pub fn parse_call_args(&mut self) -> (r: Result<Vec<Expr>, String>)
        requires
            old(self).room(),
        ensures
            final(self).tokens == old(self).tokens,
            r is Ok <==> g_args(old(self).tv(), old(self).pos as int) is Ok,
            r matches Err(m) ==> fails_at(g_args(old(self).tv(), old(self).pos as int), m@, final(self).pos as int),
            r matches Ok(es) ==> g_args(old(self).tv(), old(self).pos as int) == done(
                exprs_v(es@),
                final(self).pos as int,
            ),
            r is Ok ==> advanced(old(self).tv(), old(self).pos as int, final(self).pos as int),
        decreases old(self).tokens@.len() - old(self).pos, 34int,
    {
        if self.at_delim(Delim::RParen) {
            let args: Vec<Expr> = Vec::new();
            assert(exprs_v(args@) =~= seq![]);
            return Ok(args);
        }
        self.parse_item_list()
    }

    /// Parses the entries of an object literal.
    fn parse_entries(&mut self) -> (r: Result<Vec<(String, Expr)>, String>)
        requires
            old(self).room(),
        ensures
            final(self).tokens == old(self).tokens,
            r is Ok <==> g_entries(old(self).tv(), old(self).pos as int) is Ok,
            r matches Err(m) ==> fails_at(g_entries(old(self).tv(), old(self).pos as int), m@, final(self).pos as int),
            r matches Ok(es) ==> g_entries(old(self).tv(), old(self).pos as int) == done(
                entries_v(es@),
                final(self).pos as int,
            ),
            r is Ok ==> advanced(old(self).tv(), old(self).pos as int, final(self).pos as int),
        decreases old(self).tokens@.len() - old(self).pos, 35int,
    {
        let ghost ts = self.tv();
        let ghost p0 = self.pos as int;
        let mut entries: Vec<(String, Expr)> = Vec::new();
        loop
            invariant
                self.tokens == old(self).tokens,
                ts == self.tv(),
                p0 == old(self).pos,
                advanced(ts, p0, self.pos as int),
                self.room(),
                g_entries(ts, p0) == prepend(entries_v(entries@), g_entries(ts, self.pos as int)),
            decreases ts.len() - self.pos,
        {
            let ghost pi = self.pos as int;
            let ghost acc = entries_v(entries@);
            let t = self.consume();
            let key = match t {
                Token::Ident(k) => k,
                Token::StrLit(k) => k,
                other => {
                    return Err(expected_message("object key", &other));
                },
            };
            let value = if self.at_delim(Delim::Colon) {
                self.skip();
                self.parse_conditional()?
            } else {
                Expr::Ident(key.clone())
            };
            let ghost ev = (key@, expr_v(value));
            entries.push((key, value));
            proof {
                assert(entries_v(entries@) =~= acc + seq![ev]);
            }
            if self.at_delim(Delim::Comma) {
                self.skip();
                proof {
                    lemma_prepend_assoc(acc, seq![ev], g_entries(ts, self.pos as int));
                }
            } else {
                return Ok(entries);
            }
        }
    }

    /// Parses a primary expression: a literal, a name, a function expression,
    /// `new`, an array or object literal, or a parenthesized expression.
    #[verifier::spinoff_prover]
    #[verifier::rlimit(40)]
    pub fn parse_primary(&mut self) -> (r: Result<Expr, String>)
        requires
            old(self).room(),
        ensures
            final(self).tokens == old(self).tokens,
            r is Ok <==> g_primary(old(self).tv(), old(self).pos as int) is Ok,
            r matches Err(m) ==> fails_at(g_primary(old(self).tv(), old(self).pos as int), m@, final(self).pos as int),
            r matches Ok(e) ==> g_primary(old(self).tv(), old(self).pos as int) == done(
                expr_v(e),
                final(self).pos as int,
            ),
            r is Ok ==> advanced(old(self).tv(), old(self).pos as int, final(self).pos as int)
                && old(self).pos < final(self).pos,
        decreases old(self).tokens@.len() - old(self).pos, 21int,
    {
        match self.peek() {
            Token::Number(n) => {
                let v = n.clone();
                self.skip();
                Ok(Expr::Number(v))
            },
            Token::StrLit(s) => {
                let v = s.clone();
                self.skip();
                Ok(Expr::Str(v))
            },
            Token::Ident(n) => {
                let v = n.clone();
                self.skip();
                Ok(Expr::Ident(v))
            },
            Token::Function => {
                self.skip();
                if matches!(self.peek(), Token::Ident(_)) {
                    self.skip();
                }
                let (params, body) = self.parse_fn_rest()?;
                Ok(Expr::Function(params, body))
            },
            Token::New => {
                self.skip();
                let ctor = self.parse_primary()?;
                self.expect_delim(Delim::LParen)?;
                let args = self.parse_call_args()?;
                self.expect_delim(Delim::RParen)?;
                Ok(Expr::New(Box::new(ctor), args))
            },
            Token::LBracket => {
                self.skip();
                let elements = if self.at_delim(Delim::RBracket) {
                    let v: Vec<Expr> = Vec::new();
                    assert(exprs_v(v@) =~= seq![]);
                    v
                } else {
                    self.parse_item_list()?
                };
                self.expect_delim(Delim::RBracket)?;
                Ok(Expr::ArrayLiteral(elements))
            },
            Token::LBrace => {
                self.skip();
                let entries = if self.at_delim(Delim::RBrace) {
                    let v: Vec<(String, Expr)> = Vec::new();
                    assert(entries_v(v@) =~= seq![]);
                    v
                } else {
                    self.parse_entries()?
                };
                self.expect_delim(Delim::RBrace)?;
                Ok(Expr::ObjectLiteral(entries))
            },
            Token::LParen => {
                self.skip();
                let e = self.parse_conditional()?;
                self.expect_delim(Delim::RParen)?;
                Ok(e)
            },
            other => {
                let a = concat(&"Unexpected token: ".to_string(), other.describe().as_str());
                Err(a)
            },
        }
    }

    /// Parses `( params ) { body }` from the opening parenthesis.
    fn parse_fn_rest(&mut self) -> (r: Result<(Vec<Param>, Vec<Stmt>), String>)
        requires
            old(self).room(),
        ensures
            final(self).tokens == old(self).tokens,
            r is Ok <==> g_fn_rest(old(self).tv(), old(self).pos as int) is Ok,
            r matches Err(m) ==> fails_at(g_fn_rest(old(self).tv(), old(self).pos as int), m@, final(self).pos as int),
            r matches Ok(pb) ==> g_fn_rest(old(self).tv(), old(self).pos as int) == done(
                (params_v(pb.0@), stmts_v(pb.1@)),
                final(self).pos as int,
            ),
            r is Ok ==> advanced(old(self).tv(), old(self).pos as int, final(self).pos as int)
                && old(self).pos < final(self).pos,
        decreases old(self).tokens@.len() - old(self).pos, 40int,
    {
        self.expect_delim(Delim::LParen)?;
        let params = self.parse_params()?;
        self.expect_delim(Delim::RParen)?;
        self.expect_delim(Delim::LBrace)?;
        let body = self.parse_stmts()?;
        self.expect_delim(Delim::RBrace)?;
        Ok((params, body))
    }

    /// Parses `function name(params) { body }`, taking the current token as the
    /// `function` keyword.
    pub fn parse_func_decl(&mut self) -> (r: Result<FuncDecl, String>)
        requires
            old(self).room(),
        ensures
            final(self).tokens == old(self).tokens,
            r is Ok <==> g_func_decl(old(self).tv(), old(self).pos as int) is Ok,
            r matches Err(m) ==> fails_at(g_func_decl(old(self).tv(), old(self).pos as int), m@, final(self).pos as int),
            r matches Ok(d) ==> g_func_decl(old(self).tv(), old(self).pos as int) == done(
                func_decl_v(d),
                final(self).pos as int,
            ),
            r is Ok ==> advanced(old(self).tv(), old(self).pos as int, final(self).pos as int)
                && old(self).pos < final(self).pos,
        decreases old(self).tokens@.len() - old(self).pos, 41int,
    {
        self.consume();
        let name = self.take_ident("function name")?;
        let (params, body) = self.parse_fn_rest()?;
        Ok(FuncDecl { name, params, body })
    }

    /// Parses `{ n1, n2 } from "path"` (after the `import` keyword).
    pub fn parse_import(&mut self) -> (r: Result<ImportStmt, String>)
        requires
            old(self).room(),
        ensures
            final(self).tokens == old(self).tokens,
            r is Ok <==> g_import(old(self).tv(), old(self).pos as int) is Ok,
            r matches Err(m) ==> fails_at(g_import(old(self).tv(), old(self).pos as int), m@, final(self).pos as int),
            r matches Ok(i) ==> g_import(old(self).tv(), old(self).pos as int) == done(
                (strings_v(i.names@), i.source@),
                final(self).pos as int,
            ),
            r is Ok ==> advanced(old(self).tv(), old(self).pos as int, final(self).pos as int)
                && old(self).pos < final(self).pos,
            final(self).pos == import_stop(old(self).tv(), old(self).pos as int),
    {
        let ghost ts = self.tv();
        let ghost p0 = self.pos as int;
        proof {
            lemma_import_names_stop(ts, p0 + 1);
        }
        self.expect_delim(Delim::LBrace)?;
        let mut names: Vec<String> = Vec::new();
        loop
            invariant_except_break
                self.tokens == old(self).tokens,
                ts == self.tv(),
                p0 == old(self).pos,
                at(ts, p0, Delim::LBrace),
                p0 < self.pos <= ts.len(),
                self.room(),
                g_import_names(ts, p0 + 1) == prepend(
                    strings_v(names@),
                    g_import_names(ts, self.pos as int),
                ),
                import_names_stop(ts, p0 + 1) == import_names_stop(ts, self.pos as int),
            ensures
                self.tokens == old(self).tokens,
                ts == self.tv(),
                p0 == old(self).pos,
                at(ts, p0, Delim::LBrace),
                p0 + 1 < self.pos <= ts.len(),
                self.room(),
                g_import_names(ts, p0 + 1) == done(strings_v(names@), self.pos as int),
                import_names_stop(ts, p0 + 1) == Ok::<int, int>(self.pos as int),
            decreases ts.len() - self.pos,
        {
            let ghost acc = strings_v(names@);
            let n = self.take_ident("import name")?;
            names.push(n);
            proof {
                assert(strings_v(names@) =~= acc + seq![n@]);
            }
            if self.at_delim(Delim::Comma) {
                self.skip();
                proof {
                    lemma_prepend_assoc(acc, seq![n@], g_import_names(ts, self.pos as int));
                }
            } else {
                break;
            }
        }
        self.expect_delim(Delim::RBrace)?;
        if !matches!(self.peek(), Token::From) {
            return Err("Expected 'from' after import destructuring".to_string());
        }
        self.skip();
        let t = self.consume();
        match t {
            Token::StrLit(path) => Ok(ImportStmt { names, source: path }),
            other => Err(expected_message("module path", &other)),
        }
    }

    /// Parses `function name(params) { body }` after the `export` keyword.
    pub fn parse_export(&mut self) -> (r: Result<ExportStmt, String>)
        requires
            old(self).room(),
        ensures
            final(self).tokens == old(self).tokens,
            r is Ok <==> g_export(old(self).tv(), old(self).pos as int) is Ok,
            r matches Err(m) ==> fails_at(g_export(old(self).tv(), old(self).pos as int), m@, final(self).pos as int),
            r matches Ok(x) ==> g_export(old(self).tv(), old(self).pos as int) == done(
                func_decl_v(x.func),
                final(self).pos as int,
            ),
            r is Ok ==> advanced(old(self).tv(), old(self).pos as int, final(self).pos as int)
                && old(self).pos < final(self).pos,
        decreases old(self).tokens@.len() - old(self).pos, 42int,
    {
        if !matches!(self.peek(), Token::Function) {
            return Err("Expected 'function' after export".to_string());
        }
        self.skip();
        let name = self.take_ident("function name after export")?;
        let (params, body) = self.parse_fn_rest()?;
        Ok(ExportStmt { func: FuncDecl { name, params, body } })
    }

    /// Parses a statement list: an optional import, function declarations, an
    /// optional export, then returns and expression statements, up to `}` or the
    /// end. An expression statement that comes last becomes a return.
    pub fn parse_stmts(&mut self) -> (r: Result<Vec<Stmt>, String>)
        requires
            old(self).room(),
        ensures
            final(self).tokens == old(self).tokens,
            r is Ok <==> g_stmts(old(self).tv(), old(self).pos as int) is Ok,
            r matches Err(m) ==> fails_at(g_stmts(old(self).tv(), old(self).pos as int), m@, final(self).pos as int),
            r matches Ok(ss) ==> g_stmts(old(self).tv(), old(self).pos as int) == done(
                stmts_v(ss@),
                final(self).pos as int,
            ),
            r is Ok ==> advanced(old(self).tv(), old(self).pos as int, final(self).pos as int),
        decreases old(self).tokens@.len() - old(self).pos, 49int,
    {
        let ghost ts = self.tv();
        let ghost p0 = self.pos as int;
        let mut stmts: Vec<Stmt> = Vec::new();
        if matches!(self.peek(), Token::Import) {
            self.skip();
            let import = self.parse_import()?;
            stmts.push(Stmt::Import(import));
        }
        let ghost s1 = stmts_v(stmts@);
        let ghost p1 = self.pos as int;
        proof {
            if stmts@.len() == 0 {
                assert(s1 =~= seq![]);
            } else {
                assert(s1 =~= seq![stmt_v(stmts@[0])]);
            }
            assert(g_opt_import(ts, p0) == done(s1, p1));
        }
        // Function declarations.
        let mut funcs: Vec<Stmt> = Vec::new();
        loop
            invariant_except_break
                self.tokens == old(self).tokens,
                ts == self.tv(),
                p0 == old(self).pos,
                g_opt_import(ts, p0) == done(s1, p1),
                advanced(ts, p0, p1),
                advanced(ts, p1, self.pos as int),
                advanced(ts, p0, self.pos as int),
                self.room(),
                g_funcs(ts, p1) == prepend(stmts_v(funcs@), g_funcs(ts, self.pos as int)),
            ensures
                self.tokens == old(self).tokens,
                ts == self.tv(),
                p0 == old(self).pos,
                g_opt_import(ts, p0) == done(s1, p1),
                advanced(ts, p0, p1),
                advanced(ts, p1, self.pos as int),
                advanced(ts, p0, self.pos as int),
                self.room(),
                g_funcs(ts, p1) == done(stmts_v(funcs@), self.pos as int),
            decreases ts.len() - self.pos,
        {
            if !matches!(self.peek(), Token::Function) {
                assert(stmts_v(funcs@) + seq![] =~= stmts_v(funcs@));
                break;
            }
            let ghost pi = self.pos as int;
            let ghost acc = stmts_v(funcs@);
            let item = if self.next_is_ident() {
                let decl = self.parse_func_decl()?;
                Stmt::FuncDecl(decl)
            } else {
                self.skip();
                let (params, body) = self.parse_fn_rest()?;
                Stmt::Return(Expr::Function(params, body))
            };
            let ghost sv = stmt_v(item);
            funcs.push(item);
            proof {
                assert(stmts_v(funcs@) =~= acc + seq![sv]);
                lemma_prepend_assoc(acc, seq![sv], g_funcs(ts, self.pos as int));
            }
        }
        let ghost s2 = stmts_v(funcs@);
        let ghost p2 = self.pos as int;
        // An export.
        let mut exports: Vec<Stmt> = Vec::new();
        if matches!(self.peek(), Token::Export) {
            self.skip();
            let export = self.parse_export()?;
            exports.push(Stmt::Export(export));
        }
        let ghost s3 = stmts_v(exports@);
        let ghost p3 = self.pos as int;
        proof {
            if exports@.len() == 0 {
                assert(s3 =~= seq![]);
            } else {
                assert(s3 =~= seq![stmt_v(exports@[0])]);
            }
            assert(g_opt_export(ts, p2) == done(s3, p3));
        }
        // Returns and expression statements.
        let mut tail: Vec<Stmt> = Vec::new();
        loop
            invariant_except_break
                self.tokens == old(self).tokens,
                ts == self.tv(),
                p0 == old(self).pos,
                g_opt_import(ts, p0) == done(s1, p1),
                g_funcs(ts, p1) == done(s2, p2),
                g_opt_export(ts, p2) == done(s3, p3),
                advanced(ts, p0, p1),
                advanced(ts, p1, p2),
                advanced(ts, p0, p2),
                advanced(ts, p2, p3),
                advanced(ts, p0, p3),
                advanced(ts, p3, self.pos as int),
                advanced(ts, p0, self.pos as int),
                self.room(),
                g_tail(ts, p3) == prepend(stmts_v(tail@), g_tail(ts, self.pos as int)),
            ensures
                self.tokens == old(self).tokens,
                ts == self.tv(),
                p0 == old(self).pos,
                g_opt_import(ts, p0) == done(s1, p1),
                g_funcs(ts, p1) == done(s2, p2),
                g_opt_export(ts, p2) == done(s3, p3),
                advanced(ts, p0, p1),
                advanced(ts, p1, p2),
                advanced(ts, p0, p2),
                advanced(ts, p2, p3),
                advanced(ts, p0, p3),
                advanced(ts, p3, self.pos as int),
                advanced(ts, p0, self.pos as int),
                self.room(),
                g_tail(ts, p3) == done(stmts_v(tail@), self.pos as int),
            decreases ts.len() - self.pos,
        {
            let ghost pi = self.pos as int;
            let ghost acc = stmts_v(tail@);
            let item;
            if matches!(self.peek(), Token::Return) {
                self.skip();
                let e = self.parse_conditional()?;
                if self.at_delim(Delim::Semicolon) {
                    self.skip();
                }
                item = Stmt::Return(e);
            } else if !matches!(self.peek(), Token::RBrace | Token::EOF) {
                let e = self.parse_conditional()?;
                if self.at_delim(Delim::Semicolon) {
                    self.skip();
                }
                if matches!(self.peek(), Token::RBrace | Token::EOF) {
                    item = Stmt::Return(e);
                } else {
                    item = Stmt::Expr(e);
                }
            } else {
                assert(stmts_v(tail@) + seq![] =~= stmts_v(tail@));
                break;
            }
            let ghost sv = stmt_v(item);
            tail.push(item);
            proof {
                assert(stmts_v(tail@) =~= acc + seq![sv]);
                lemma_prepend_assoc(acc, seq![sv], g_tail(ts, self.pos as int));
            }
        }
        let ghost s4 = stmts_v(tail@);
        stmts.append(&mut funcs);
        stmts.append(&mut exports);
        stmts.append(&mut tail);
        proof {
            assert(stmts_v(stmts@) =~= s1 + s2 + s3 + s4);
        }
        Ok(stmts)
    }
}

} // verus!
