//! The syntax tree, and its mathematical view.
use vstd::prelude::*;

verus! {

/// A function parameter.
#[derive(Debug, Clone, PartialEq)]
pub enum Param {
    Name(String),
    /// `{name, age}`
    Destructure(Vec<String>),
    /// `...args`
    Rest(String),
}

/// An expression. A numeric literal keeps the characters that spell it.
#[derive(Debug, PartialEq)]
pub enum Expr {
    Number(String),
    Str(String),
    Ident(String),
    Binary(Box<Expr>, BinOp, Box<Expr>),
    Conditional(Box<Expr>, Box<Expr>, Box<Expr>),
    Call(Box<Expr>, Vec<Expr>),
    Function(Vec<Param>, Vec<Stmt>),
    ArrayLiteral(Vec<Expr>),
    ObjectLiteral(Vec<(String, Expr)>),
    Index(Box<Expr>, Box<Expr>),
    PropAccess(Box<Expr>, String),
    MethodCall(Box<Expr>, String, Vec<Expr>),
    Spread(Box<Expr>),
    /// `new ctor(args)`
    New(Box<Expr>, Vec<Expr>),
}

/// A binary operator.
#[derive(Debug, Clone, Copy, PartialEq, Eq)]
pub enum BinOp {
    Add,
    Sub,
    Mul,
    Div,
    Mod,
    Eq,
    Ne,
    Lt,
    Gt,
    Le,
    Ge,
    And,
    Or,
}

impl BinOp {
    /// The operator as it is written in source.
    pub open spec fn spelling(self) -> Seq<char> {
        match self {
            BinOp::Add => "+"@,
            BinOp::Sub => "-"@,
            BinOp::Mul => "*"@,
            BinOp::Div => "/"@,
            BinOp::Mod => "%"@,
            BinOp::Eq => "=="@,
            BinOp::Ne => "!="@,
            BinOp::Lt => "<"@,
            BinOp::Gt => ">"@,
            BinOp::Le => "<="@,
            BinOp::Ge => ">="@,
            BinOp::And => "&&"@,
            BinOp::Or => "||"@,
        }
    }

    /// The operator as it is written in source.
    pub fn symbol(&self) -> (r: String)
        ensures
            r@ == self.spelling(),
    {
        let s = match self {
            BinOp::Add => "+",
            BinOp::Sub => "-",
            BinOp::Mul => "*",
            BinOp::Div => "/",
            BinOp::Mod => "%",
            BinOp::Eq => "==",
            BinOp::Ne => "!=",
            BinOp::Lt => "<",
            BinOp::Gt => ">",
            BinOp::Le => "<=",
            BinOp::Ge => ">=",
            BinOp::And => "&&",
            BinOp::Or => "||",
        };
        s.to_owned()
    }
}

/// A statement.
#[derive(Debug, PartialEq)]
pub enum Stmt {
    FuncDecl(FuncDecl),
    Return(Expr),
    /// An expression evaluated for its effect.
    Expr(Expr),
    Import(ImportStmt),
    Export(ExportStmt),
}

/// `import { name1, name2 } from "module_path";`
#[derive(Debug, Clone, PartialEq)]
pub struct ImportStmt {
    pub names: Vec<String>,
    pub source: String,
}

/// `export function name(...) { ... }`
#[derive(Debug, PartialEq)]
pub struct ExportStmt {
    pub func: FuncDecl,
}

/// A named function declaration.
#[derive(Debug, PartialEq)]
pub struct FuncDecl {
    pub name: String,
    pub params: Vec<Param>,
    pub body: Vec<Stmt>,
}

// ---------------------------------------------------------------------------
// Views
// ---------------------------------------------------------------------------

pub enum ParamV {
    Name(Seq<char>),
    Destructure(Seq<Seq<char>>),
    Rest(Seq<char>),
}

pub enum ExprV {
    Number(Seq<char>),
    Str(Seq<char>),
    Ident(Seq<char>),
    Binary(Box<ExprV>, BinOp, Box<ExprV>),
    Conditional(Box<ExprV>, Box<ExprV>, Box<ExprV>),
    Call(Box<ExprV>, Seq<ExprV>),
    Function(Seq<ParamV>, Seq<StmtV>),
    ArrayLiteral(Seq<ExprV>),
    ObjectLiteral(Seq<(Seq<char>, ExprV)>),
    Index(Box<ExprV>, Box<ExprV>),
    PropAccess(Box<ExprV>, Seq<char>),
    MethodCall(Box<ExprV>, Seq<char>, Seq<ExprV>),
    Spread(Box<ExprV>),
    New(Box<ExprV>, Seq<ExprV>),
}

pub struct FuncDeclV {
    pub name: Seq<char>,
    pub params: Seq<ParamV>,
    pub body: Seq<StmtV>,
}

pub enum StmtV {
    FuncDecl(FuncDeclV),
    Return(ExprV),
    Expr(ExprV),
    Import(Seq<Seq<char>>, Seq<char>),
    Export(FuncDeclV),
}

/// The views of a sequence of strings.
pub open spec fn strings_v(v: Seq<String>) -> Seq<Seq<char>> {
    v.map_values(|s: String| s@)
}

pub open spec fn param_v(p: Param) -> ParamV {
    match p {
        Param::Name(n) => ParamV::Name(n@),
        Param::Destructure(fs) => ParamV::Destructure(strings_v(fs@)),
        Param::Rest(n) => ParamV::Rest(n@),
    }
}

pub open spec fn params_v(v: Seq<Param>) -> Seq<ParamV> {
    v.map_values(|p: Param| param_v(p))
}

pub open spec fn expr_v(e: Expr) -> ExprV
    decreases e,
{
    match e {
        Expr::Number(s) => ExprV::Number(s@),
        Expr::Str(s) => ExprV::Str(s@),
        Expr::Ident(s) => ExprV::Ident(s@),
        Expr::Binary(l, op, r) => ExprV::Binary(Box::new(expr_v(*l)), op, Box::new(expr_v(*r))),
        Expr::Conditional(c, t, f) => ExprV::Conditional(
            Box::new(expr_v(*c)),
            Box::new(expr_v(*t)),
            Box::new(expr_v(*f)),
        ),
        Expr::Call(f, args) => ExprV::Call(Box::new(expr_v(*f)), exprs_v(args@)),
        Expr::Function(ps, body) => ExprV::Function(params_v(ps@), stmts_v(body@)),
        Expr::ArrayLiteral(es) => ExprV::ArrayLiteral(exprs_v(es@)),
        Expr::ObjectLiteral(es) => ExprV::ObjectLiteral(entries_v(es@)),
        Expr::Index(b, i) => ExprV::Index(Box::new(expr_v(*b)), Box::new(expr_v(*i))),
        Expr::PropAccess(o, p) => ExprV::PropAccess(Box::new(expr_v(*o)), p@),
        Expr::MethodCall(o, m, args) => ExprV::MethodCall(
            Box::new(expr_v(*o)),
            m@,
            exprs_v(args@),
        ),
        Expr::Spread(x) => ExprV::Spread(Box::new(expr_v(*x))),
        Expr::New(c, args) => ExprV::New(Box::new(expr_v(*c)), exprs_v(args@)),
    }
}

pub open spec fn exprs_v(es: Seq<Expr>) -> Seq<ExprV>
    decreases es,
{
    Seq::new(
        es.len(),
        |i: int|
            if 0 <= i < es.len() {
                expr_v(es[i])
            } else {
                ExprV::Number(seq![])
            },
    )
}

pub open spec fn entries_v(es: Seq<(String, Expr)>) -> Seq<(Seq<char>, ExprV)>
    decreases es,
{
    Seq::new(
        es.len(),
        |i: int|
            if 0 <= i < es.len() {
                (es[i].0@, expr_v(es[i].1))
            } else {
                (seq![], ExprV::Number(seq![]))
            },
    )
}

pub open spec fn func_decl_v(d: FuncDecl) -> FuncDeclV
    decreases d,
{
    FuncDeclV { name: d.name@, params: params_v(d.params@), body: stmts_v(d.body@) }
}

pub open spec fn stmt_v(s: Stmt) -> StmtV
    decreases s,
{
    match s {
        Stmt::FuncDecl(d) => StmtV::FuncDecl(func_decl_v(d)),
        Stmt::Return(e) => StmtV::Return(expr_v(e)),
        Stmt::Expr(e) => StmtV::Expr(expr_v(e)),
        Stmt::Import(i) => StmtV::Import(strings_v(i.names@), i.source@),
        Stmt::Export(x) => StmtV::Export(func_decl_v(x.func)),
    }
}

pub open spec fn stmts_v(ss: Seq<Stmt>) -> Seq<StmtV>
    decreases ss,
{
    Seq::new(
        ss.len(),
        |i: int|
            if 0 <= i < ss.len() {
                stmt_v(ss[i])
            } else {
                StmtV::Return(ExprV::Number(seq![]))
            },
    )
}

/// A syntax tree's view decreases to the views of its parts.
pub proof fn lemma_expr_parts(e: Expr)
    ensures
        match e {
            Expr::Binary(l, _, r) => decreases_to!(expr_v(e) => expr_v(*l)) && decreases_to!(expr_v(e) => expr_v(*r)),
            Expr::Conditional(c, t, f) => decreases_to!(expr_v(e) => expr_v(*c)) && decreases_to!(expr_v(e) => expr_v(*t))
                && decreases_to!(expr_v(e) => expr_v(*f)),
            Expr::Call(f, args) => decreases_to!(expr_v(e) => expr_v(*f)) && decreases_to!(expr_v(e) => exprs_v(args@)),
            Expr::Function(_, body) => decreases_to!(expr_v(e) => stmts_v(body@)),
            Expr::ArrayLiteral(es) => decreases_to!(expr_v(e) => exprs_v(es@)),
            Expr::ObjectLiteral(es) => decreases_to!(expr_v(e) => entries_v(es@)),
            Expr::Index(b, i) => decreases_to!(expr_v(e) => expr_v(*b)) && decreases_to!(expr_v(e) => expr_v(*i)),
            Expr::PropAccess(o, _) => decreases_to!(expr_v(e) => expr_v(*o)),
            Expr::MethodCall(o, _, args) => decreases_to!(expr_v(e) => expr_v(*o)) && decreases_to!(expr_v(e) => exprs_v(args@)),
            Expr::Spread(x) => decreases_to!(expr_v(e) => expr_v(*x)),
            Expr::New(c, args) => decreases_to!(expr_v(e) => expr_v(*c)) && decreases_to!(expr_v(e) => exprs_v(args@)),
            _ => true,
        },
{
    let v = expr_v(e);
    match e {
        Expr::Binary(l, _, r) => {
            assert(decreases_to!(v => v->Binary_0));
            assert(decreases_to!(v => v->Binary_2));
        },
        Expr::Conditional(c, t, f) => {
            assert(decreases_to!(v => v->Conditional_0));
            assert(decreases_to!(v => v->Conditional_1));
            assert(decreases_to!(v => v->Conditional_2));
        },
        Expr::Call(f, args) => {
            assert(decreases_to!(v => v->Call_0));
            assert(decreases_to!(v => v->Call_1));
        },
        Expr::Function(_, body) => {
            assert(decreases_to!(v => v->Function_1));
        },
        Expr::ArrayLiteral(es) => {
            assert(decreases_to!(v => v->ArrayLiteral_0));
        },
        Expr::ObjectLiteral(es) => {
            assert(decreases_to!(v => v->ObjectLiteral_0));
        },
        Expr::Index(b, i) => {
            assert(decreases_to!(v => v->Index_0));
            assert(decreases_to!(v => v->Index_1));
        },
        Expr::PropAccess(o, _) => {
            assert(decreases_to!(v => v->PropAccess_0));
        },
        Expr::MethodCall(o, _, args) => {
            assert(decreases_to!(v => v->MethodCall_0));
            assert(decreases_to!(v => v->MethodCall_2));
        },
        Expr::Spread(x) => {
            assert(decreases_to!(v => v->Spread_0));
        },
        Expr::New(c, args) => {
            assert(decreases_to!(v => v->New_0));
            assert(decreases_to!(v => v->New_1));
        },
        _ => {},
    }
}

/// The parts of a statement, and of a declaration, that a walk over the tree recurses into.
pub proof fn lemma_stmt_parts(st: Stmt)
    ensures
        match st {
            Stmt::FuncDecl(d) => decreases_to!(stmt_v(st) => func_decl_v(d)),
            Stmt::Return(e) => decreases_to!(stmt_v(st) => expr_v(e)),
            Stmt::Expr(e) => decreases_to!(stmt_v(st) => expr_v(e)),
            _ => true,
        },
{
    let v = stmt_v(st);
    match st {
        Stmt::FuncDecl(d) => {
            assert(decreases_to!(v => v->FuncDecl_0));
        },
        Stmt::Return(e) => {
            assert(decreases_to!(v => v->Return_0));
        },
        Stmt::Expr(e) => {
            assert(decreases_to!(v => v->Expr_0));
        },
        _ => {},
    }
}

pub proof fn lemma_decl_parts(d: FuncDecl)
    ensures
        decreases_to!(func_decl_v(d) => stmts_v(d.body@)),
{
    let v = func_decl_v(d);
    assert(decreases_to!(v => v.body));
}

// ---------------------------------------------------------------------------
// Copies
// ---------------------------------------------------------------------------

/// A copy of a list of names.
pub fn copy_strings(v: &Vec<String>) -> (r: Vec<String>)
    ensures
        r@ == v@,
{
    let mut out: Vec<String> = Vec::new();
    let mut i: usize = 0;
    while i < v.len()
        invariant
            i <= v@.len(),
            out@ == v@.take(i as int),
        decreases v.len() - i,
    {
        out.push(v[i].clone());
        assert(out@ =~= v@.take(i + 1));
        i = i + 1;
    }
    assert(v@.take(v@.len() as int) =~= v@);
    out
}

/// A copy of a parameter.
pub fn copy_param(p: &Param) -> (r: Param)
    ensures
        param_v(r) == param_v(*p),
{
    match p {
        Param::Name(n) => Param::Name(n.clone()),
        Param::Destructure(fs) => {
            let c = copy_strings(fs);
            assert(strings_v(c@) == strings_v(fs@));
            Param::Destructure(c)
        },
        Param::Rest(n) => Param::Rest(n.clone()),
    }
}

/// A copy of a parameter list.
pub fn copy_params(ps: &Vec<Param>) -> (r: Vec<Param>)
    ensures
        params_v(r@) == params_v(ps@),
{
    let mut out: Vec<Param> = Vec::new();
    let mut i: usize = 0;
    while i < ps.len()
        invariant
            i <= ps@.len(),
            out@.len() == i,
            forall|j: int| 0 <= j < i ==> param_v(#[trigger] out@[j]) == param_v(ps@[j]),
        decreases ps.len() - i,
    {
        out.push(copy_param(&ps[i]));
        i = i + 1;
    }
    assert(params_v(out@) =~= params_v(ps@));
    out
}

/// A copy of an expression.
pub fn copy_expr(e: &Expr) -> (r: Expr)
    ensures
        expr_v(r) == expr_v(*e),
    decreases expr_v(*e), 0int,
{
    proof {
        lemma_expr_parts(*e);
    }
    match e {
        Expr::Number(n) => Expr::Number(n.clone()),
        Expr::Str(v) => Expr::Str(v.clone()),
        Expr::Ident(n) => Expr::Ident(n.clone()),
        Expr::Binary(l, op, r) => Expr::Binary(Box::new(copy_expr(l)), *op, Box::new(copy_expr(r))),
        Expr::Conditional(c, t, f) => Expr::Conditional(
            Box::new(copy_expr(c)),
            Box::new(copy_expr(t)),
            Box::new(copy_expr(f)),
        ),
        Expr::Call(f, args) => Expr::Call(Box::new(copy_expr(f)), copy_exprs(args)),
        Expr::Function(ps, body) => Expr::Function(copy_params(ps), copy_stmts(body)),
        Expr::ArrayLiteral(es) => Expr::ArrayLiteral(copy_exprs(es)),
        Expr::ObjectLiteral(es) => Expr::ObjectLiteral(copy_entries(es)),
        Expr::Index(b, i) => Expr::Index(Box::new(copy_expr(b)), Box::new(copy_expr(i))),
        Expr::PropAccess(o, p) => Expr::PropAccess(Box::new(copy_expr(o)), p.clone()),
        Expr::MethodCall(o, m, args) => Expr::MethodCall(
            Box::new(copy_expr(o)),
            m.clone(),
            copy_exprs(args),
        ),
        Expr::Spread(x) => Expr::Spread(Box::new(copy_expr(x))),
        Expr::New(c, args) => Expr::New(Box::new(copy_expr(c)), copy_exprs(args)),
    }
}

/// A copy of a list of expressions.
pub fn copy_exprs(es: &Vec<Expr>) -> (r: Vec<Expr>)
    ensures
        exprs_v(r@) == exprs_v(es@),
    decreases exprs_v(es@), 1int,
{
    let mut out: Vec<Expr> = Vec::new();
    let mut i: usize = 0;
    while i < es.len()
        invariant
            i <= es@.len(),
            out@.len() == i,
            forall|j: int| 0 <= j < i ==> expr_v(#[trigger] out@[j]) == expr_v(es@[j]),
        decreases es.len() - i,
    {
        assert(exprs_v(es@)[i as int] == expr_v(es@[i as int]));
        out.push(copy_expr(&es[i]));
        i = i + 1;
    }
    assert(exprs_v(out@) =~= exprs_v(es@));
    out
}

/// A copy of the entries of an object literal.
pub fn copy_entries(es: &Vec<(String, Expr)>) -> (r: Vec<(String, Expr)>)
    ensures
        entries_v(r@) == entries_v(es@),
    decreases entries_v(es@), 1int,
{
    let mut out: Vec<(String, Expr)> = Vec::new();
    let mut i: usize = 0;
    while i < es.len()
        invariant
            i <= es@.len(),
            out@.len() == i,
            forall|j: int|
                0 <= j < i ==> (#[trigger] out@[j]).0@ == es@[j].0@ && expr_v(out@[j].1) == expr_v(
                    es@[j].1,
                ),
        decreases es.len() - i,
    {
        assert(entries_v(es@)[i as int] == (es@[i as int].0@, expr_v(es@[i as int].1)));
        proof {
            let ev = entries_v(es@);
            assert(decreases_to!(ev => ev[i as int]));
            assert(decreases_to!(ev[i as int] => ev[i as int].1));
        }
        out.push((es[i].0.clone(), copy_expr(&es[i].1)));
        i = i + 1;
    }
    assert(entries_v(out@) =~= entries_v(es@));
    out
}

/// A copy of a statement.
pub fn copy_stmt(st: &Stmt) -> (r: Stmt)
    ensures
        stmt_v(r) == stmt_v(*st),
    decreases stmt_v(*st), 0int,
{
    proof {
        lemma_stmt_parts(*st);
        match st {
            Stmt::Export(x) => {
                let v = stmt_v(*st);
                assert(decreases_to!(v => v->Export_0));
            },
            _ => {},
        }
    }
    match st {
        Stmt::FuncDecl(d) => Stmt::FuncDecl(copy_decl(d)),
        Stmt::Return(e) => Stmt::Return(copy_expr(e)),
        Stmt::Expr(e) => Stmt::Expr(copy_expr(e)),
        Stmt::Import(i) => Stmt::Import(ImportStmt { names: copy_strings(&i.names), source: i.source.clone() }),
        Stmt::Export(x) => Stmt::Export(ExportStmt { func: copy_decl(&x.func) }),
    }
}

/// A copy of a list of statements.
pub fn copy_stmts(ss: &Vec<Stmt>) -> (r: Vec<Stmt>)
    ensures
        stmts_v(r@) == stmts_v(ss@),
    decreases stmts_v(ss@), 1int,
{
    let mut out: Vec<Stmt> = Vec::new();
    let mut i: usize = 0;
    while i < ss.len()
        invariant
            i <= ss@.len(),
            out@.len() == i,
            forall|j: int| 0 <= j < i ==> stmt_v(#[trigger] out@[j]) == stmt_v(ss@[j]),
        decreases ss.len() - i,
    {
        assert(stmts_v(ss@)[i as int] == stmt_v(ss@[i as int]));
        out.push(copy_stmt(&ss[i]));
        i = i + 1;
    }
    assert(stmts_v(out@) =~= stmts_v(ss@));
    out
}

/// A copy of a function declaration.
pub fn copy_decl(d: &FuncDecl) -> (r: FuncDecl)
    ensures
        func_decl_v(r) == func_decl_v(*d),
    decreases func_decl_v(*d), 0int,
{
    proof {
        lemma_decl_parts(*d);
    }
    FuncDecl { name: d.name.clone(), params: copy_params(&d.params), body: copy_stmts(&d.body) }
}

impl Clone for Expr {
    fn clone(&self) -> (r: Self)
        ensures
            expr_v(r) == expr_v(*self),
    {
        copy_expr(self)
    }
}

impl Clone for Stmt {
    fn clone(&self) -> (r: Self)
        ensures
            stmt_v(r) == stmt_v(*self),
    {
        copy_stmt(self)
    }
}

impl Clone for FuncDecl {
    fn clone(&self) -> (r: Self)
        ensures
            func_decl_v(r) == func_decl_v(*self),
    {
        copy_decl(self)
    }
}

impl Clone for ExportStmt {
    fn clone(&self) -> (r: Self)
        ensures
            func_decl_v(r.func) == func_decl_v(self.func),
    {
        ExportStmt { func: copy_decl(&self.func) }
    }
}

} // verus!
