//! The lexer: source text to tokens.
//!
//! A number token carries the characters it was read from; turning them into a
//! floating-point value is left to the code that evaluates the program.
use vstd::prelude::*;
use crate::text::{
    char_alphabetic, char_alphanumeric, chars_eq_str, concat, chars_of, chars_of_string, is_alphabetic,
    is_alphanumeric, is_digit, is_whitespace, spec_is_digit, spec_is_whitespace, string_of,
    string_of_range, escape_text,
};

verus! {

/// A token of the source language.
#[derive(Debug, Clone)]
pub enum Token {
    Function,
    New,
    Return,
    Import,
    Export,
    From,
    Ident(String),
    /// A numeric literal, as the characters that spell it (`true` and `false`
    /// read as `1` and `0`).
    Number(String),
    StrLit(String),
    LParen,
    RParen,
    LBrace,
    RBrace,
    LBracket,
    RBracket,
    Comma,
    Semicolon,
    Dot,
    Add,
    Sub,
    Mul,
    Div,
    Mod,
    Eq,
    Ne,
    Lt,
    Gt,
    Le,
    Ge,
    And,
    Or,
    Question,
    Colon,
    Spread,
    EOF,
}

/// A token as a mathematical value: its text payloads are character sequences.
pub enum TokenV {
    Function,
    New,
    Return,
    Import,
    Export,
    From,
    Ident(Seq<char>),
    Number(Seq<char>),
    StrLit(Seq<char>),
    LParen,
    RParen,
    LBrace,
    RBrace,
    LBracket,
    RBracket,
    Comma,
    Semicolon,
    Dot,
    Add,
    Sub,
    Mul,
    Div,
    Mod,
    Eq,
    Ne,
    Lt,
    Gt,
    Le,
    Ge,
    And,
    Or,
    Question,
    Colon,
    Spread,
    EOF,
}

impl View for Token {
    type V = TokenV;

    open spec fn view(&self) -> TokenV {
        match self {
            Token::Function => TokenV::Function,
            Token::New => TokenV::New,
            Token::Return => TokenV::Return,
            Token::Import => TokenV::Import,
            Token::Export => TokenV::Export,
            Token::From => TokenV::From,
            Token::Ident(s) => TokenV::Ident(s@),
            Token::Number(s) => TokenV::Number(s@),
            Token::StrLit(s) => TokenV::StrLit(s@),
            Token::LParen => TokenV::LParen,
            Token::RParen => TokenV::RParen,
            Token::LBrace => TokenV::LBrace,
            Token::RBrace => TokenV::RBrace,
            Token::LBracket => TokenV::LBracket,
            Token::RBracket => TokenV::RBracket,
            Token::Comma => TokenV::Comma,
            Token::Semicolon => TokenV::Semicolon,
            Token::Dot => TokenV::Dot,
            Token::Add => TokenV::Add,
            Token::Sub => TokenV::Sub,
            Token::Mul => TokenV::Mul,
            Token::Div => TokenV::Div,
            Token::Mod => TokenV::Mod,
            Token::Eq => TokenV::Eq,
            Token::Ne => TokenV::Ne,
            Token::Lt => TokenV::Lt,
            Token::Gt => TokenV::Gt,
            Token::Le => TokenV::Le,
            Token::Ge => TokenV::Ge,
            Token::And => TokenV::And,
            Token::Or => TokenV::Or,
            Token::Question => TokenV::Question,
            Token::Colon => TokenV::Colon,
            Token::Spread => TokenV::Spread,
            Token::EOF => TokenV::EOF,
        }
    }
}

impl Token {
    /// A copy of this token.
    pub fn duplicate(&self) -> (r: Token)
        ensures
            r@ == self@,
    {
        match self {
            Token::Function => Token::Function,
            Token::New => Token::New,
            Token::Return => Token::Return,
            Token::Import => Token::Import,
            Token::Export => Token::Export,
            Token::From => Token::From,
            Token::Ident(s) => Token::Ident(s.clone()),
            Token::Number(s) => Token::Number(s.clone()),
            Token::StrLit(s) => Token::StrLit(s.clone()),
            Token::LParen => Token::LParen,
            Token::RParen => Token::RParen,
            Token::LBrace => Token::LBrace,
            Token::RBrace => Token::RBrace,
            Token::LBracket => Token::LBracket,
            Token::RBracket => Token::RBracket,
            Token::Comma => Token::Comma,
            Token::Semicolon => Token::Semicolon,
            Token::Dot => Token::Dot,
            Token::Add => Token::Add,
            Token::Sub => Token::Sub,
            Token::Mul => Token::Mul,
            Token::Div => Token::Div,
            Token::Mod => Token::Mod,
            Token::Eq => Token::Eq,
            Token::Ne => Token::Ne,
            Token::Lt => Token::Lt,
            Token::Gt => Token::Gt,
            Token::Le => Token::Le,
            Token::Ge => Token::Ge,
            Token::And => Token::And,
            Token::Or => Token::Or,
            Token::Question => Token::Question,
            Token::Colon => Token::Colon,
            Token::Spread => Token::Spread,
            Token::EOF => Token::EOF,
        }
    }

    /// How this token reads in a diagnostic, such as `Ident("x")` or `RParen`.
    pub fn describe(&self) -> (r: String)
        ensures
            r@ == self@.text(),
    {
        match self {
            Token::Function => "Function".to_owned(),
            Token::New => "New".to_owned(),
            Token::Return => "Return".to_owned(),
            Token::Import => "Import".to_owned(),
            Token::Export => "Export".to_owned(),
            Token::From => "From".to_owned(),
            Token::Ident(s) => {
                let head = concat(&"Ident(\"".to_owned(), escape_text(s.as_str()).as_str());
                concat(&head, "\")")
            },
            Token::Number(s) => {
                let head = concat(&"Number(\"".to_owned(), s.as_str());
                concat(&head, "\")")
            },
            Token::StrLit(s) => {
                let head = concat(&"StrLit(\"".to_owned(), escape_text(s.as_str()).as_str());
                concat(&head, "\")")
            },
            Token::LParen => "LParen".to_owned(),
            Token::RParen => "RParen".to_owned(),
            Token::LBrace => "LBrace".to_owned(),
            Token::RBrace => "RBrace".to_owned(),
            Token::LBracket => "LBracket".to_owned(),
            Token::RBracket => "RBracket".to_owned(),
            Token::Comma => "Comma".to_owned(),
            Token::Semicolon => "Semicolon".to_owned(),
            Token::Dot => "Dot".to_owned(),
            Token::Add => "Add".to_owned(),
            Token::Sub => "Sub".to_owned(),
            Token::Mul => "Mul".to_owned(),
            Token::Div => "Div".to_owned(),
            Token::Mod => "Mod".to_owned(),
            Token::Eq => "Eq".to_owned(),
            Token::Ne => "Ne".to_owned(),
            Token::Lt => "Lt".to_owned(),
            Token::Gt => "Gt".to_owned(),
            Token::Le => "Le".to_owned(),
            Token::Ge => "Ge".to_owned(),
            Token::And => "And".to_owned(),
            Token::Or => "Or".to_owned(),
            Token::Question => "Question".to_owned(),
            Token::Colon => "Colon".to_owned(),
            Token::Spread => "Spread".to_owned(),
            Token::EOF => "EOF".to_owned(),
        }
    }
}

impl TokenV {
    /// How a token reads in a diagnostic: its kind, and the text it carries in
    /// quotes, with quotes, backslashes and control characters escaped.
    pub open spec fn text(self) -> Seq<char> {
        match self {
            TokenV::Function => "Function"@,
            TokenV::New => "New"@,
            TokenV::Return => "Return"@,
            TokenV::Import => "Import"@,
            TokenV::Export => "Export"@,
            TokenV::From => "From"@,
            TokenV::LParen => "LParen"@,
            TokenV::RParen => "RParen"@,
            TokenV::LBrace => "LBrace"@,
            TokenV::RBrace => "RBrace"@,
            TokenV::LBracket => "LBracket"@,
            TokenV::RBracket => "RBracket"@,
            TokenV::Comma => "Comma"@,
            TokenV::Semicolon => "Semicolon"@,
            TokenV::Dot => "Dot"@,
            TokenV::Add => "Add"@,
            TokenV::Sub => "Sub"@,
            TokenV::Mul => "Mul"@,
            TokenV::Div => "Div"@,
            TokenV::Mod => "Mod"@,
            TokenV::Eq => "Eq"@,
            TokenV::Ne => "Ne"@,
            TokenV::Lt => "Lt"@,
            TokenV::Gt => "Gt"@,
            TokenV::Le => "Le"@,
            TokenV::Ge => "Ge"@,
            TokenV::And => "And"@,
            TokenV::Or => "Or"@,
            TokenV::Question => "Question"@,
            TokenV::Colon => "Colon"@,
            TokenV::Spread => "Spread"@,
            TokenV::EOF => "EOF"@,
            TokenV::Ident(s) => "Ident(\""@ + crate::text::escaped(s) + "\")"@,
            TokenV::Number(s) => "Number(\""@ + s + "\")"@,
            TokenV::StrLit(s) => "StrLit(\""@ + crate::text::escaped(s) + "\")"@,
        }
    }
}

/// The views of a sequence of tokens.
pub open spec fn tokens_view(ts: Seq<Token>) -> Seq<TokenV> {
    ts.map_values(|t: Token| t@)
}

// ---------------------------------------------------------------------------
// The lexical grammar, over the characters `s` from position `p`.
// ---------------------------------------------------------------------------

/// The position of the first newline at or after `p`, or the end of `s`.
pub open spec fn line_end(s: Seq<char>, p: int) -> int
    decreases s.len() - p,
{
    if 0 <= p < s.len() && s[p] != '\n' {
        line_end(s, p + 1)
    } else {
        p
    }
}

/// Where a block comment whose body starts at `p` ends: just after the first `*/`,
/// or, when there is none, at the last character (or at `p` when fewer than two
/// characters are left).
pub open spec fn block_end(s: Seq<char>, p: int) -> int
    decreases s.len() - p,
{
    if 0 <= p && p + 1 < s.len() {
        if s[p] == '*' && s[p + 1] == '/' {
            p + 2
        } else {
            block_end(s, p + 1)
        }
    } else {
        p
    }
}

pub proof fn lemma_line_end(s: Seq<char>, p: int)
    requires
        0 <= p <= s.len(),
    ensures
        p <= line_end(s, p) <= s.len(),
    decreases s.len() - p,
{
    if p < s.len() && s[p] != '\n' {
        lemma_line_end(s, p + 1);
    }
}

pub proof fn lemma_block_end(s: Seq<char>, p: int)
    requires
        0 <= p <= s.len(),
    ensures
        p <= block_end(s, p) <= s.len(),
    decreases s.len() - p,
{
    if p + 1 < s.len() && !(s[p] == '*' && s[p + 1] == '/') {
        lemma_block_end(s, p + 1);
    }
}

/// Skips white space, `//` line comments and `/* */` block comments from `p`.
pub open spec fn skip_ws(s: Seq<char>, p: int) -> int
    decreases s.len() - p,
{
    if 0 <= p < s.len() {
        if spec_is_whitespace(s[p]) {
            skip_ws(s, p + 1)
        } else if s[p] == '/' && p + 1 < s.len() && s[p + 1] == '/' {
            proof {
                lemma_line_end(s, p + 1);
            }
            skip_ws(s, line_end(s, p + 1))
        } else if s[p] == '/' && p + 1 < s.len() && s[p + 1] == '*' {
            proof {
                lemma_block_end(s, p + 2);
            }
            skip_ws(s, block_end(s, p + 2))
        } else {
            p
        }
    } else {
        p
    }
}

pub proof fn lemma_skip_ws(s: Seq<char>, p: int)
    requires
        0 <= p <= s.len(),
    ensures
        p <= skip_ws(s, p) <= s.len(),
    decreases s.len() - p,
{
    if p < s.len() {
        if spec_is_whitespace(s[p]) {
            lemma_skip_ws(s, p + 1);
        } else if s[p] == '/' && p + 1 < s.len() && s[p + 1] == '/' {
            lemma_line_end(s, p + 1);
            lemma_skip_ws(s, line_end(s, p + 1));
        } else if s[p] == '/' && p + 1 < s.len() && s[p + 1] == '*' {
            lemma_block_end(s, p + 2);
            lemma_skip_ws(s, block_end(s, p + 2));
        }
    }
}

/// The end of the run of digits and dots that starts at `p`.
pub open spec fn number_end(s: Seq<char>, p: int) -> int
    decreases s.len() - p,
{
    if 0 <= p < s.len() && (spec_is_digit(s[p]) || s[p] == '.') {
        number_end(s, p + 1)
    } else {
        p
    }
}

/// The end of the run of alphanumeric characters and underscores that starts at `p`.
pub open spec fn ident_end(s: Seq<char>, p: int) -> int
    decreases s.len() - p,
{
    if 0 <= p < s.len() && (char_alphanumeric(s[p]) || s[p] == '_') {
        ident_end(s, p + 1)
    } else {
        p
    }
}

pub proof fn lemma_run_ends(s: Seq<char>, p: int)
    requires
        0 <= p <= s.len(),
    ensures
        p <= number_end(s, p) <= s.len(),
        p <= ident_end(s, p) <= s.len(),
    decreases s.len() - p,
{
    if p < s.len() {
        lemma_run_ends(s, p + 1);
    }
}

/// What an escape sequence `\c` stands for inside a string literal.
pub open spec fn escaped(c: char) -> Seq<char> {
    if c == '"' {
        seq!['"']
    } else if c == '\\' {
        seq!['\\']
    } else if c == 'n' {
        seq!['\n']
    } else if c == 't' {
        seq!['\t']
    } else if c == 'r' {
        seq!['\r']
    } else {
        seq!['\\', c]
    }
}

/// The body of a string literal that starts at `p` (just after the opening quote
/// `q`), and the position just after the closing quote (or the end of `s`).
pub open spec fn string_body(s: Seq<char>, p: int, q: char) -> (Seq<char>, int)
    decreases s.len() - p,
{
    if 0 <= p < s.len() {
        if s[p] == '\\' && p + 1 < s.len() {
            let (rest, e) = string_body(s, p + 2, q);
            (escaped(s[p + 1]) + rest, e)
        } else if s[p] == q {
            (seq![], p + 1)
        } else {
            let (rest, e) = string_body(s, p + 1, q);
            (seq![s[p]] + rest, e)
        }
    } else {
        (seq![], p)
    }
}

pub proof fn lemma_string_body(s: Seq<char>, p: int, q: char)
    requires
        0 <= p <= s.len(),
    ensures
        p <= string_body(s, p, q).1 <= s.len(),
    decreases s.len() - p,
{
    if p < s.len() {
        if s[p] == '\\' && p + 1 < s.len() {
            lemma_string_body(s, p + 2, q);
        } else if s[p] != q {
            lemma_string_body(s, p + 1, q);
        }
    }
}

/// The token that a word (a run of identifier characters) stands for.
pub open spec fn keyword_or_ident(w: Seq<char>) -> TokenV {
    if w == seq!['n', 'e', 'w'] {
        TokenV::New
    } else if w == seq!['f', 'u', 'n', 'c', 't', 'i', 'o', 'n'] {
        TokenV::Function
    } else if w == seq!['r', 'e', 't', 'u', 'r', 'n'] {
        TokenV::Return
    } else if w == seq!['i', 'm', 'p', 'o', 'r', 't'] {
        TokenV::Import
    } else if w == seq!['e', 'x', 'p', 'o', 'r', 't'] {
        TokenV::Export
    } else if w == seq!['f', 'r', 'o', 'm'] {
        TokenV::From
    } else if w == seq!['t', 'r', 'u', 'e'] {
        TokenV::Number(seq!['1'])
    } else if w == seq!['f', 'a', 'l', 's', 'e'] {
        TokenV::Number(seq!['0'])
    } else {
        TokenV::Ident(w)
    }
}

proof fn lemma_keyword_literals()
    ensures
        "new"@ == seq!['n', 'e', 'w'],
        "function"@ == seq!['f', 'u', 'n', 'c', 't', 'i', 'o', 'n'],
        "return"@ == seq!['r', 'e', 't', 'u', 'r', 'n'],
        "import"@ == seq!['i', 'm', 'p', 'o', 'r', 't'],
        "export"@ == seq!['e', 'x', 'p', 'o', 'r', 't'],
        "from"@ == seq!['f', 'r', 'o', 'm'],
        "true"@ == seq!['t', 'r', 'u', 'e'],
        "false"@ == seq!['f', 'a', 'l', 's', 'e'],
        "1"@ == seq!['1'],
        "0"@ == seq!['0'],
{
    reveal_strlit("new");
    reveal_strlit("function");
    reveal_strlit("return");
    reveal_strlit("import");
    reveal_strlit("export");
    reveal_strlit("from");
    reveal_strlit("true");
    reveal_strlit("false");
    reveal_strlit("1");
    reveal_strlit("0");
    assert("new"@ =~= seq!['n', 'e', 'w']);
    assert("function"@ =~= seq!['f', 'u', 'n', 'c', 't', 'i', 'o', 'n']);
    assert("return"@ =~= seq!['r', 'e', 't', 'u', 'r', 'n']);
    assert("import"@ =~= seq!['i', 'm', 'p', 'o', 'r', 't']);
    assert("export"@ =~= seq!['e', 'x', 'p', 'o', 'r', 't']);
    assert("from"@ =~= seq!['f', 'r', 'o', 'm']);
    assert("true"@ =~= seq!['t', 'r', 'u', 'e']);
    assert("false"@ =~= seq!['f', 'a', 'l', 's', 'e']);
    assert("1"@ =~= seq!['1']);
    assert("0"@ =~= seq!['0']);
}

/// The operator or punctuation token that starts with `c` at `p` (`c == s[p]`), and
/// where it ends; `None` for a character that starts no token.
pub open spec fn punct(s: Seq<char>, p: int, c: char) -> Option<(TokenV, int)> {
    let has_next = |d: char| p + 1 < s.len() && s[p + 1] == d;
    if c == '(' {
        Some((TokenV::LParen, p + 1))
    } else if c == ')' {
        Some((TokenV::RParen, p + 1))
    } else if c == '{' {
        Some((TokenV::LBrace, p + 1))
    } else if c == '}' {
        Some((TokenV::RBrace, p + 1))
    } else if c == '[' {
        Some((TokenV::LBracket, p + 1))
    } else if c == ']' {
        Some((TokenV::RBracket, p + 1))
    } else if c == ',' {
        Some((TokenV::Comma, p + 1))
    } else if c == ';' {
        Some((TokenV::Semicolon, p + 1))
    } else if c == '.' {
        if has_next('.') {
            if p + 2 < s.len() && s[p + 2] == '.' {
                Some((TokenV::Spread, p + 3))
            } else {
                Some((TokenV::Dot, p + 2))
            }
        } else {
            Some((TokenV::Dot, p + 1))
        }
    } else if c == '+' {
        Some((TokenV::Add, p + 1))
    } else if c == '-' {
        Some((TokenV::Sub, p + 1))
    } else if c == '*' {
        Some((TokenV::Mul, p + 1))
    } else if c == '/' {
        Some((TokenV::Div, p + 1))
    } else if c == '%' {
        Some((TokenV::Mod, p + 1))
    } else if c == '?' {
        Some((TokenV::Question, p + 1))
    } else if c == ':' {
        Some((TokenV::Colon, p + 1))
    } else if c == '=' && has_next('=') {
        Some((TokenV::Eq, p + 2))
    } else if c == '!' && has_next('=') {
        Some((TokenV::Ne, p + 2))
    } else if c == '<' && has_next('=') {
        Some((TokenV::Le, p + 2))
    } else if c == '>' && has_next('=') {
        Some((TokenV::Ge, p + 2))
    } else if c == '&' && has_next('&') {
        Some((TokenV::And, p + 2))
    } else if c == '|' && has_next('|') {
        Some((TokenV::Or, p + 2))
    } else if c == '<' {
        Some((TokenV::Lt, p + 1))
    } else if c == '>' {
        Some((TokenV::Gt, p + 1))
    } else if c == '!' {
        Some((TokenV::Ne, p + 1))
    } else {
        None
    }
}

/// The next token at or after `p`, and the position just after it. A character
/// that starts no token is skipped.
pub open spec fn next_tok(s: Seq<char>, p: int) -> (TokenV, int)
    decreases s.len() - p,
{
    let p = if p < 0 { 0 } else { p };
    let q = skip_ws(s, p);
    if q >= s.len() {
        (TokenV::EOF, q)
    } else {
        let c = s[q];
        if spec_is_digit(c) {
            (TokenV::Number(s.subrange(q, number_end(s, q))), number_end(s, q))
        } else if c == '"' || c == '\'' {
            let (body, e) = string_body(s, q + 1, c);
            (TokenV::StrLit(body), e)
        } else if char_alphabetic(c) || c == '_' {
            let e = ident_end(s, q + 1);
            (keyword_or_ident(s.subrange(q, e)), e)
        } else {
            match punct(s, q, c) {
                Some(r) => r,
                None => {
                    proof {
                        lemma_skip_ws(s, p);
                    }
                    next_tok(s, q + 1)
                },
            }
        }
    }
}

pub proof fn lemma_next_tok(s: Seq<char>, p: int)
    requires
        0 <= p <= s.len(),
    ensures
        p <= next_tok(s, p).1 <= s.len(),
        next_tok(s, p).0 is EOF ==> next_tok(s, p).1 == s.len(),
        !(next_tok(s, p).0 is EOF) ==> p < next_tok(s, p).1,
    decreases s.len() - p,
{
    lemma_skip_ws(s, p);
    let q = skip_ws(s, p);
    if q < s.len() {
        let c = s[q];
        lemma_run_ends(s, q);
        lemma_run_ends(s, q + 1);
        if spec_is_digit(c) {
        } else if c == '"' || c == '\'' {
            lemma_string_body(s, q + 1, c);
        } else if char_alphabetic(c) || c == '_' {
        } else if punct(s, q, c) is None {
            lemma_next_tok(s, q + 1);
        }
    }
}

/// The tokens from `p` to the end, the last of them `EOF`.
pub open spec fn tokenize_from(s: Seq<char>, p: int) -> Seq<TokenV>
    decreases s.len() - p,
{
    if 0 <= p <= s.len() {
        let (t, q) = next_tok(s, p);
        if t is EOF {
            seq![t]
        } else {
            proof {
                lemma_next_tok(s, p);
            }
            seq![t] + tokenize_from(s, q)
        }
    } else {
        seq![TokenV::EOF]
    }
}

/// The tokens of `s`.
pub open spec fn tokenize_spec(s: Seq<char>) -> Seq<TokenV> {
    tokenize_from(s, 0)
}

/// Tokenizing ends in `EOF`, and `EOF` occurs nowhere else.
pub proof fn lemma_tokenize_from_eof(s: Seq<char>, p: int)
    requires
        0 <= p <= s.len(),
    ensures
        tokenize_from(s, p).len() >= 1,
        tokenize_from(s, p).last() is EOF,
        forall|i: int|
            0 <= i < tokenize_from(s, p).len() - 1 ==> !(#[trigger] tokenize_from(s, p)[i] is EOF),
    decreases s.len() - p,
{
    let (t, q) = next_tok(s, p);
    if !(t is EOF) {
        lemma_next_tok(s, p);
        lemma_tokenize_from_eof(s, q);
        let rest = tokenize_from(s, q);
        assert forall|i: int| 0 <= i < tokenize_from(s, p).len() - 1 implies !(
        #[trigger] tokenize_from(s, p)[i] is EOF) by {
            if i > 0 {
                assert(tokenize_from(s, p)[i] == rest[i - 1]);
            }
        }
    }
}

/// Law: the tokens of any text end with a single `EOF`, which is their only `EOF`.
pub proof fn law_tokens_end_with_single_eof(s: Seq<char>)
    ensures
        tokenize_spec(s).len() >= 1,
        tokenize_spec(s).last() is EOF,
        forall|i: int| 0 <= i < tokenize_spec(s).len() - 1 ==> !(#[trigger] tokenize_spec(s)[i] is EOF),
{
    lemma_tokenize_from_eof(s, 0);
}

// ---------------------------------------------------------------------------
// The lexer
// ---------------------------------------------------------------------------

/// A lexer over a text, with its current position.
pub struct Lexer {
    input: Vec<char>,
    pos: usize,
}

impl Lexer {
    #[verifier::type_invariant]
    spec fn inv(self) -> bool {
        self.pos <= self.input.len()
    }

    /// The characters being read.
    pub closed spec fn chars(&self) -> Seq<char> {
        self.input@
    }

    /// The current position.
    pub closed spec fn position(&self) -> int {
        self.pos as int
    }

    /// A lexer at the start of `input`.
    pub fn new(input: &str) -> (r: Self)
        ensures
            r.chars() == input@,
            r.position() == 0,
    {
        Lexer { input: chars_of(input), pos: 0 }
    }

    fn peek(&self) -> (c: char)
        ensures
            c == (if self.position() < self.chars().len() {
                self.chars()[self.position() as int]
            } else {
                '\0'
            }),
    {
        if self.pos < self.input.len() {
            self.input[self.pos]
        } else {
            '\0'
        }
    }

    /// Returns the current character and moves past it.
    fn next(&mut self) -> (c: char)
        requires
            old(self).position() < old(self).chars().len(),
        ensures
            c == old(self).chars()[old(self).position() as int],
            final(self).chars() == old(self).chars(),
            final(self).position() == old(self).position() + 1,
    {
        let ch = self.peek();
        let n = self.input.len();
        self.pos = self.pos + 1;
        ch
    }

    /// Whether the character after the current one is `d`.
    fn next_is(&self, d: char) -> (r: bool)
        ensures
            r == (self.position() + 1 < self.chars().len() && self.chars()[self.position() + 1] == d),
    {
        let n = self.input.len();
        self.pos < n && n - self.pos > 1 && self.input[self.pos + 1] == d
    }

    fn skip_whitespace(&mut self)
        ensures
            final(self).chars() == old(self).chars(),
            final(self).position() == skip_ws(old(self).chars(), old(self).position() as int),
    {
        proof {
            use_type_invariant(&*self);
        }
        let ghost s = self.input@;
        let ghost p0 = self.pos as int;
        while self.pos < self.input.len()
            invariant_except_break
                self.input@ == s,
                self.pos <= s.len(),
                skip_ws(s, self.pos as int) == skip_ws(s, p0),
            ensures
                self.input@ == s,
                self.pos == skip_ws(s, p0),
            decreases s.len() - self.pos,
        {
            if is_whitespace(self.peek()) {
                self.next();
            } else if self.peek() == '/' && self.next_is('/') {
                let ghost start = self.pos;
                while self.pos < self.input.len() && self.peek() != '\n'
                    invariant
                        self.input@ == s,
                        start <= self.pos <= s.len(),
                        line_end(s, self.pos as int) == line_end(s, start as int),
                    decreases s.len() - self.pos,
                {
                    self.next();
                }
                assert(line_end(s, start as int) == line_end(s, start + 1));
            } else if self.peek() == '/' && self.next_is('*') {
                let ghost start = self.pos;
                self.next();
                self.next();
                proof {
                    lemma_block_end(s, self.pos as int);
                }
                while self.pos < self.input.len() && self.input.len() - self.pos > 1
                    invariant_except_break
                        self.input@ == s,
                        start + 2 <= self.pos <= s.len(),
                        block_end(s, self.pos as int) == block_end(s, start + 2),
                    ensures
                        self.input@ == s,
                        start + 2 <= self.pos <= s.len(),
                        self.pos == block_end(s, start + 2),
                    decreases s.len() - self.pos,
                {
                    if self.peek() == '*' && self.next_is('/') {
                        self.next();
                        self.next();
                        break;
                    }
                    self.next();
                }
            } else {
                break;
            }
        }
    }

    fn read_number(&mut self) -> (r: String)
        ensures
            final(self).chars() == old(self).chars(),
            final(self).position() == number_end(old(self).chars(), old(self).position() as int),
            r@ == old(self).chars().subrange(old(self).position() as int, final(self).position() as int),
    {
        proof {
            use_type_invariant(&*self);
        }
        let start = self.pos;
        while self.pos < self.input.len() && (is_digit(self.peek()) || self.peek() == '.')
            invariant
                self.input@ == old(self).input@,
                start == old(self).pos,
                start <= self.pos <= self.input@.len(),
                number_end(self.input@, self.pos as int) == number_end(
                    self.input@,
                    start as int,
                ),
            decreases self.input@.len() - self.pos,
        {
            self.next();
        }
        string_of_range(&self.input, start, self.pos)
    }

    fn read_ident(&mut self) -> (r: String)
        ensures
            final(self).chars() == old(self).chars(),
            final(self).position() == ident_end(old(self).chars(), old(self).position() as int),
            r@ == old(self).chars().subrange(old(self).position() as int, final(self).position() as int),
    {
        proof {
            use_type_invariant(&*self);
        }
        let start = self.pos;
        while self.pos < self.input.len() && (is_alphanumeric(self.peek()) || self.peek() == '_')
            invariant
                self.input@ == old(self).input@,
                start == old(self).pos,
                start <= self.pos <= self.input@.len(),
                ident_end(self.input@, self.pos as int) == ident_end(self.input@, start as int),
            decreases self.input@.len() - self.pos,
        {
            self.next();
        }
        string_of_range(&self.input, start, self.pos)
    }

    /// Reads a string literal whose opening quote is the current character.
    fn read_string(&mut self) -> (r: String)
        requires
            old(self).position() < old(self).chars().len(),
        ensures
            final(self).chars() == old(self).chars(),
            ({
                let (body, e) = string_body(
                    old(self).chars(),
                    old(self).position() + 1,
                    old(self).chars()[old(self).position() as int],
                );
                r@ == body && final(self).position() == e
            }),
    {
        proof {
            use_type_invariant(&*self);
        }
        let ghost s = self.input@;
        let mut out: Vec<char> = Vec::new();
        let quote = self.next();
        let ghost start = self.pos;
        while self.pos < self.input.len()
            invariant_except_break
                self.input@ == s,
                start <= self.pos <= s.len(),
                out@ + string_body(s, self.pos as int, quote).0 == string_body(
                    s,
                    start as int,
                    quote,
                ).0,
                string_body(s, self.pos as int, quote).1 == string_body(s, start as int, quote).1,
            ensures
                self.input@ == s,
                out@ == string_body(s, start as int, quote).0,
                self.pos == string_body(s, start as int, quote).1,
            decreases s.len() - self.pos,
        {
            let ghost before = out@;
            if self.peek() == '\\' && self.pos + 1 < self.input.len() {
                self.next();
                let e = self.next();
                if e == '"' {
                    out.push('"');
                } else if e == '\\' {
                    out.push('\\');
                } else if e == 'n' {
                    out.push('\n');
                } else if e == 't' {
                    out.push('\t');
                } else if e == 'r' {
                    out.push('\r');
                } else {
                    out.push('\\');
                    out.push(e);
                }
                assert(out@ == before + escaped(e));
                assert(out@ + string_body(s, self.pos as int, quote).0 =~= before + string_body(
                    s,
                    self.pos - 2,
                    quote,
                ).0);
            } else if self.peek() == quote {
                self.next();
                assert(out@ == before);
                break;
            } else {
                let c = self.next();
                out.push(c);
                assert(out@ + string_body(s, self.pos as int, quote).0 =~= before + string_body(
                    s,
                    self.pos - 1,
                    quote,
                ).0);
            }
        }
        string_of(out.as_slice())
    }

    /// Reads the next token, skipping white space and comments first. A character
    /// that starts no token is skipped.
    pub fn next_token(&mut self) -> (t: Token)
        ensures
            final(self).chars() == old(self).chars(),
            (t@, final(self).position()) == next_tok(old(self).chars(), old(self).position()),
        decreases old(self).chars().len() - old(self).position(),
    {
        proof {
            use_type_invariant(&*self);
            lemma_skip_ws(self.input@, self.pos as int);
        }
        let ghost s = self.input@;
        let ghost p0 = self.pos as int;
        self.skip_whitespace();
        proof {
            use_type_invariant(&*self);
        }
        if self.pos >= self.input.len() {
            return Token::EOF;
        }
        let ch = self.peek();
        if is_digit(ch) {
            return Token::Number(self.read_number());
        }
        if ch == '"' || ch == '\'' {
            return Token::StrLit(self.read_string());
        }
        if is_alphabetic(ch) || ch == '_' {
            let ghost q = self.pos as int;
            let w = chars_of_string(&self.read_ident());
            proof {
                assert(ident_end(s, q) == ident_end(s, q + 1));
            }
            proof {
                lemma_keyword_literals();
            }
            return if chars_eq_str(&w, "new") {
                Token::New
            } else if chars_eq_str(&w, "function") {
                Token::Function
            } else if chars_eq_str(&w, "return") {
                Token::Return
            } else if chars_eq_str(&w, "import") {
                Token::Import
            } else if chars_eq_str(&w, "export") {
                Token::Export
            } else if chars_eq_str(&w, "from") {
                Token::From
            } else if chars_eq_str(&w, "true") {
                Token::Number("1".to_owned())
            } else if chars_eq_str(&w, "false") {
                Token::Number("0".to_owned())
            } else {
                Token::Ident(string_of(w.as_slice()))
            };
        }
        let has_eq = self.next_is('=');
        let has_amp = self.next_is('&');
        let has_bar = self.next_is('|');
        self.next();
        match ch {
            '(' => Token::LParen,
            ')' => Token::RParen,
            '{' => Token::LBrace,
            '}' => Token::RBrace,
            '[' => Token::LBracket,
            ']' => Token::RBracket,
            ',' => Token::Comma,
            ';' => Token::Semicolon,
            '.' => {
                if self.pos < self.input.len() && self.input[self.pos] == '.' {
                    self.next();
                    if self.pos < self.input.len() && self.input[self.pos] == '.' {
                        self.next();
                        Token::Spread
                    } else {
                        Token::Dot
                    }
                } else {
                    Token::Dot
                }
            },
            '+' => Token::Add,
            '-' => Token::Sub,
            '*' => Token::Mul,
            '/' => Token::Div,
            '%' => Token::Mod,
            '?' => Token::Question,
            ':' => Token::Colon,
            '=' if has_eq => {
                self.next();
                Token::Eq
            },
            '!' if has_eq => {
                self.next();
                Token::Ne
            },
            '<' if has_eq => {
                self.next();
                Token::Le
            },
            '>' if has_eq => {
                self.next();
                Token::Ge
            },
            '&' if has_amp => {
                self.next();
                Token::And
            },
            '|' if has_bar => {
                self.next();
                Token::Or
            },
            '<' => Token::Lt,
            '>' => Token::Gt,
            '!' => Token::Ne,
            _ => {
                proof {
                    assert(punct(s, self.pos - 1, ch) is None);
                }
                self.next_token()
            },
        }
    }

    /// Reads all remaining tokens, up to and including `EOF`.
    pub fn tokenize(&mut self) -> (ts: Vec<Token>)
        ensures
            final(self).chars() == old(self).chars(),
            tokens_view(ts@) == tokenize_from(old(self).chars(), old(self).position()),
            final(self).position() == final(self).chars().len(),
    {
        proof {
            use_type_invariant(&*self);
        }
        let ghost s = self.input@;
        let ghost p0 = self.pos as int;
        let mut tokens: Vec<Token> = Vec::new();
        loop
            invariant_except_break
                self.input@ == s,
                self.pos <= s.len(),
                tokens_view(tokens@) + tokenize_from(s, self.pos as int) == tokenize_from(s, p0),
            ensures
                self.input@ == s,
                tokens_view(tokens@) == tokenize_from(s, p0),
                self.pos == s.len(),
            decreases s.len() - self.pos,
        {
            let ghost before = self.pos as int;
            let ghost tv = tokens_view(tokens@);
            proof {
                lemma_next_tok(s, before);
            }
            let token = self.next_token();
            proof {
                use_type_invariant(&*self);
            }
            let is_eof = match token {
                Token::EOF => true,
                _ => false,
            };
            tokens.push(token);
            proof {
                assert(tokens_view(tokens@) =~= tv.push(token@));
            }
            if is_eof {
                assert(tokenize_from(s, before) == seq![token@]);
                assert(tokens_view(tokens@) =~= tokenize_from(s, p0));
                break;
            }
            assert(tokenize_from(s, before) == seq![token@] + tokenize_from(s, self.pos as int));
            assert(tokens_view(tokens@) + tokenize_from(s, self.pos as int) =~= tv
                + tokenize_from(s, before));
        }
        tokens
    }
}

} // verus!
