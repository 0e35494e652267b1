//! The HTTP builtins: which request `fetch` and the `http` functions send, the
//! response object made of what came back, the head of a request the server
//! receives, and the text of the response it sends. The network itself is not here.
use vstd::prelude::*;
use crate::text::{
    chars_of, string_of, string_of_range, concat, decimal, dec_digits, byte_len, utf8_len,
    is_whitespace, spec_is_whitespace, chars_of_string, chars_eq_str,
};
use crate::ast::strings_v;
use crate::json::trim_vec;
use crate::json_tree::{
    JsonNode, JsonNodeV, node_v, response_json, serde_parse_tree, with_error_context, trim_char_vec,
};

verus! {

// ---------------------------------------------------------------------------
// Header lists
// ---------------------------------------------------------------------------

/// The views of a list of name/value pairs.
pub open spec fn pairs_v(v: Seq<(String, String)>) -> Seq<(Seq<char>, Seq<char>)> {
    v.map_values(|p: (String, String)| (p.0@, p.1@))
}

/// Whether some pair is named `k`.
pub open spec fn has_key(hs: Seq<(Seq<char>, Seq<char>)>, k: Seq<char>) -> bool {
    exists|i: int| 0 <= i < hs.len() && #[trigger] hs[i].0 == k
}

/// `hs` with `k` set to `v`: its first pair named `k` updated, or a pair appended.
pub open spec fn put(hs: Seq<(Seq<char>, Seq<char>)>, k: Seq<char>, v: Seq<char>) -> Seq<
    (Seq<char>, Seq<char>),
>
    decreases hs.len(),
{
    if hs.len() == 0 {
        seq![(k, v)]
    } else if hs[0].0 == k {
        hs.update(0, (k, v))
    } else {
        seq![hs[0]] + put(hs.drop_first(), k, v)
    }
}

proof fn lemma_put(hs: Seq<(Seq<char>, Seq<char>)>, k: Seq<char>, v: Seq<char>, j: int)
    requires
        0 <= j <= hs.len(),
        forall|m: int| 0 <= m < j ==> hs[m].0 != k,
        j < hs.len() ==> hs[j].0 == k,
    ensures
        put(hs, k, v) == (if j < hs.len() {
            hs.update(j, (k, v))
        } else {
            hs.push((k, v))
        }),
    decreases j,
{
    if j == 0 {
        if hs.len() == 0 {
            assert(seq![(k, v)] =~= hs.push((k, v)));
        }
    } else {
        assert forall|m: int| 0 <= m < j - 1 implies hs.drop_first()[m].0 != k by {
            assert(hs.drop_first()[m] == hs[m + 1]);
        }
        lemma_put(hs.drop_first(), k, v, j - 1);
        if j < hs.len() {
            assert(seq![hs[0]] + hs.drop_first().update(j - 1, (k, v)) =~= hs.update(j, (k, v)));
        } else {
            assert(seq![hs[0]] + hs.drop_first().push((k, v)) =~= hs.push((k, v)));
        }
    }
}

/// The index of the first pair named `k`, or the length.
fn find_pair(hs: &Vec<(String, String)>, k: &String) -> (j: usize)
    ensures
        j <= hs@.len(),
        forall|m: int| 0 <= m < j ==> pairs_v(hs@)[m].0 != k@,
        j < hs@.len() ==> pairs_v(hs@)[j as int].0 == k@,
{
    let mut j: usize = 0;
    while j < hs.len()
        invariant
            j <= hs@.len(),
            forall|m: int| 0 <= m < j ==> pairs_v(hs@)[m].0 != k@,
        decreases hs.len() - j,
    {
        if hs[j].0 == *k {
            return j;
        }
        j = j + 1;
    }
    j
}

/// Sets `k` to `v` in `hs`.
fn put_pair(hs: &mut Vec<(String, String)>, k: String, v: String)
    ensures
        pairs_v(final(hs)@) == put(pairs_v(old(hs)@), k@, v@),
{
    let j = find_pair(hs, &k);
    proof {
        lemma_put(pairs_v(hs@), k@, v@, j as int);
    }
    let ghost before = hs@;
    let ghost kv = (k@, v@);
    if j < hs.len() {
        hs.set(j, (k, v));
        assert(pairs_v(hs@) =~= pairs_v(before).update(j as int, kv));
    } else {
        hs.push((k, v));
        assert(pairs_v(hs@) =~= pairs_v(before).push(kv));
    }
}

/// A copy of a list of pairs.
fn copy_pairs(hs: &Vec<(String, String)>) -> (r: Vec<(String, String)>)
    ensures
        pairs_v(r@) == pairs_v(hs@),
{
    let mut out: Vec<(String, String)> = Vec::new();
    let mut i: usize = 0;
    while i < hs.len()
        invariant
            i <= hs@.len(),
            out@ == hs@.take(i as int),
        decreases hs.len() - i,
    {
        out.push((hs[i].0.clone(), hs[i].1.clone()));
        assert(out@ =~= hs@.take(i + 1));
        i = i + 1;
    }
    assert(hs@.take(hs@.len() as int) =~= hs@);
    out
}

// ---------------------------------------------------------------------------
// Requests that fetch sends
// ---------------------------------------------------------------------------

/// An HTTP request to send: method, address, headers in the order they are set, and
/// the body, if any.
#[derive(Debug, Clone)]
pub struct FetchRequest {
    pub url: String,
    pub method: String,
    pub headers: Vec<(String, String)>,
    pub body: Option<String>,
}

/// The headers sent: the given ones, then `Content-Type: application/json` when
/// there is a body and no header is named `Content-Type`.
pub open spec fn sent_headers(hs: Seq<(Seq<char>, Seq<char>)>, has_body: bool) -> Seq<
    (Seq<char>, Seq<char>),
> {
    if has_body && !has_key(hs, "Content-Type"@) {
        hs.push(("Content-Type"@, "application/json"@))
    } else {
        hs
    }
}

/// Whether an optional body is `b`.
pub open spec fn same_body(r: Option<String>, b: Option<&str>) -> bool {
    match b {
        Some(x) => r matches Some(y) && y@ == x@,
        None => r is None,
    }
}

/// The request that `fetch(url, method, headers, body)` sends.
pub fn fetch_request(url: &str, method: &str, headers: &Vec<(String, String)>, body: Option<&str>) -> (r:
    FetchRequest)
    ensures
        r.url@ == url@,
        r.method@ == method@,
        pairs_v(r.headers@) == sent_headers(pairs_v(headers@), body is Some),
        same_body(r.body, body),
{
    let mut hs = copy_pairs(headers);
    let content_type = "Content-Type".to_owned();
    let j = find_pair(&hs, &content_type);
    proof {
        if j < hs@.len() {
            assert(pairs_v(headers@)[j as int].0 == "Content-Type"@);
        }
    }
    if body.is_some() && j == hs.len() {
        let ghost before = hs@;
        hs.push((content_type, "application/json".to_owned()));
        assert(pairs_v(hs@) =~= pairs_v(before).push(("Content-Type"@, "application/json"@)));
    }
    let b = match body {
        Some(x) => Some(x.to_owned()),
        None => None,
    };
    FetchRequest { url: url.to_owned(), method: method.to_owned(), headers: hs, body: b }
}

/// The header that marks a JSON body.
fn json_header() -> (r: Vec<(String, String)>)
    ensures
        pairs_v(r@) == seq![("Content-Type"@, "application/json"@)],
{
    let mut hs: Vec<(String, String)> = Vec::new();
    hs.push(("Content-Type".to_owned(), "application/json".to_owned()));
    assert(pairs_v(hs@) =~= seq![("Content-Type"@, "application/json"@)]);
    hs
}

/// `http.get(url)`: a `GET` without headers or body.
pub fn http_get(url: &str) -> (r: FetchRequest)
    ensures
        r.url@ == url@,
        r.method@ == "GET"@,
        r.headers@.len() == 0,
        r.body is None,
{
    let none: Vec<(String, String)> = Vec::new();
    let r = fetch_request(url, "GET", &none, None);
    assert(pairs_v(r.headers@).len() == r.headers@.len());
    r
}

/// `http.post(url, body)`: a `POST` of a JSON body.
pub fn http_post(url: &str, body: &str) -> (r: FetchRequest)
    ensures
        r.url@ == url@,
        r.method@ == "POST"@,
        pairs_v(r.headers@) == seq![("Content-Type"@, "application/json"@)],
        r.body matches Some(b) && b@ == body@,
{
    let hs = json_header();
    assert(pairs_v(hs@)[0].0 == "Content-Type"@);
    fetch_request(url, "POST", &hs, Some(body))
}

/// `http.put(url, body)`: a `PUT` of a JSON body.
pub fn http_put(url: &str, body: &str) -> (r: FetchRequest)
    ensures
        r.url@ == url@,
        r.method@ == "PUT"@,
        pairs_v(r.headers@) == seq![("Content-Type"@, "application/json"@)],
        r.body matches Some(b) && b@ == body@,
{
    let hs = json_header();
    assert(pairs_v(hs@)[0].0 == "Content-Type"@);
    fetch_request(url, "PUT", &hs, Some(body))
}

/// `http.delete(url)`: a `DELETE` without headers or body.
pub fn http_delete(url: &str) -> (r: FetchRequest)
    ensures
        r.url@ == url@,
        r.method@ == "DELETE"@,
        r.headers@.len() == 0,
        r.body is None,
{
    let none: Vec<(String, String)> = Vec::new();
    let r = fetch_request(url, "DELETE", &none, None);
    assert(pairs_v(r.headers@).len() == r.headers@.len());
    r
}

/// `http.patch(url, body)`: a `PATCH` of a JSON body.
pub fn http_patch(url: &str, body: &str) -> (r: FetchRequest)
    ensures
        r.url@ == url@,
        r.method@ == "PATCH"@,
        pairs_v(r.headers@) == seq![("Content-Type"@, "application/json"@)],
        r.body matches Some(b) && b@ == body@,
{
    let hs = json_header();
    assert(pairs_v(hs@)[0].0 == "Content-Type"@);
    fetch_request(url, "PATCH", &hs, Some(body))
}

/// `http.request(url, method, headers, body)`: any request.
pub fn http_request(url: &str, method: &str, headers: &Vec<(String, String)>, body: Option<&str>) -> (r:
    FetchRequest)
    ensures
        r.url@ == url@,
        r.method@ == method@,
        pairs_v(r.headers@) == sent_headers(pairs_v(headers@), body is Some),
        same_body(r.body, body),
{
    fetch_request(url, method, headers, body)
}

// ---------------------------------------------------------------------------
// Responses that fetch gives back
// ---------------------------------------------------------------------------

/// The response object of `fetch`.
#[derive(Debug, Clone)]
pub struct FetchResponse {
    pub status: u16,
    pub status_text: String,
    pub ok: bool,
    pub body: String,
    pub headers: Vec<(String, String)>,
}

impl FetchResponse {
    /// The body as text.
    pub fn text(&self) -> (r: String)
        ensures
            r@ == self.body@,
    {
        self.body.clone()
    }

    /// The body read as JSON, as [`response_json`] says.
    pub fn json(&self) -> (r: Result<JsonNode, String>)
        ensures
            match r {
                Ok(n) => response_json(self.body@) == Ok::<JsonNodeV, Seq<char>>(node_v(n)),
                Err(e) => response_json(self.body@) == Err::<JsonNodeV, Seq<char>>(e@),
            },
    {
        let sv = chars_of(self.body.as_str());
        let t = trim_vec(&sv);
        proof {
            reveal_strlit("true");
            reveal_strlit("false");
            reveal_strlit("null");
            assert("true"@ =~= seq!['t', 'r', 'u', 'e']);
            assert("false"@ =~= seq!['f', 'a', 'l', 's', 'e']);
            assert("null"@ =~= seq!['n', 'u', 'l', 'l']);
        }
        let n = t.len();
        if n > 0 && (t[0] == '{' || t[0] == '[') {
            let text = string_of(t.as_slice());
            let parsed = serde_parse_tree(text.as_str());
            with_error_context(parsed, "JSON parse error: ")
        } else if n > 0 && t[0] == '"' {
            Ok(JsonNode::Str(trim_char_vec(&t, '"')))
        } else if chars_eq_str(&t, "true") {
            Ok(JsonNode::Bool(true))
        } else if chars_eq_str(&t, "false") {
            Ok(JsonNode::Bool(false))
        } else if chars_eq_str(&t, "null") {
            Ok(JsonNode::Null)
        } else {
            Ok(JsonNode::Scalar(self.body.clone(), string_of(t.as_slice())))
        }
    }
}

/// The response made of what the server answered: `ok` exactly for a status from
/// 200 to 299.
pub fn received_response(
    status: u16,
    status_text: String,
    headers: Vec<(String, String)>,
    body: String,
) -> (r: FetchResponse)
    ensures
        r.status == status,
        r.status_text == status_text,
        r.ok == (200 <= status && status < 300),
        r.headers == headers,
        r.body == body,
{
    FetchResponse { status, status_text, ok: status >= 200 && status < 300, body, headers }
}

/// The response for an error status `code`: status text `HTTP <code>`, not `ok`, no
/// headers.
pub fn status_error_response(code: u16, body: String) -> (r: FetchResponse)
    ensures
        r.status == code,
        r.status_text@ == "HTTP "@ + dec_digits(code as nat),
        !r.ok,
        r.headers@.len() == 0,
        r.body == body,
{
    let digits = decimal(code as u64);
    let prefix = "HTTP ".to_owned();
    let text = concat(&prefix, digits.as_str());
    FetchResponse { status: code, status_text: text, ok: false, body, headers: Vec::new() }
}

// ---------------------------------------------------------------------------
// The server: requests received, responses sent
// ---------------------------------------------------------------------------

/// A request the server received.
#[derive(Debug, Clone)]
pub struct ServerRequest {
    pub method: String,
    pub url: String,
    pub headers: Vec<(String, String)>,
    pub body: String,
}

/// A running server, by its port.
#[derive(Debug, Clone)]
pub struct ServerHandle {
    pub port: u16,
}

/// `s` without the `\r` and `\n` characters at its end.
pub open spec fn trim_crlf(s: Seq<char>) -> Seq<char>
    decreases s.len(),
{
    if s.len() > 0 && (s.last() == '\r' || s.last() == '\n') {
        trim_crlf(s.drop_last())
    } else {
        s
    }
}

/// A line as read, without the line break at its end.
pub fn trim_line_end(line: &str) -> (r: String)
    ensures
        r@ == trim_crlf(line@),
{
    let v = chars_of(line);
    let mut n = v.len();
    assert(v@.take(v@.len() as int) =~= v@);
    while n > 0 && (v[n - 1] == '\r' || v[n - 1] == '\n')
        invariant
            n <= v@.len(),
            trim_crlf(v@) == trim_crlf(v@.take(n as int)),
        decreases n,
    {
        assert(v@.take(n as int).drop_last() =~= v@.take(n - 1));
        n = n - 1;
    }
    assert(v@.take(v@.len() as int) =~= v@);
    string_of_range(&v, 0, n)
}

/// The first position at or after `p` that is not whitespace.
pub open spec fn skip_spaces(s: Seq<char>, p: int) -> int
    decreases s.len() - p,
{
    if 0 <= p < s.len() && spec_is_whitespace(s[p]) {
        skip_spaces(s, p + 1)
    } else {
        p
    }
}

/// The end of the run of non-whitespace characters at `p`.
pub open spec fn word_end(s: Seq<char>, p: int) -> int
    decreases s.len() - p,
{
    if 0 <= p < s.len() && !spec_is_whitespace(s[p]) {
        word_end(s, p + 1)
    } else {
        p
    }
}

/// The next whitespace-separated word at or after `p`, and where it ends.
pub open spec fn word_from(s: Seq<char>, p: int) -> Option<(Seq<char>, int)> {
    let a = skip_spaces(s, p);
    if a >= s.len() {
        None
    } else {
        Some((s.subrange(a, word_end(s, a)), word_end(s, a)))
    }
}

/// The method of a request line: its first word, or `GET`.
pub open spec fn request_method(line: Seq<char>) -> Seq<char> {
    match word_from(line, 0) {
        Some((w, _)) => w,
        None => "GET"@,
    }
}

/// The address of a request line: its second word, or `/`.
pub open spec fn request_url(line: Seq<char>) -> Seq<char> {
    match word_from(line, 0) {
        Some((_, e)) => match word_from(line, e) {
            Some((w, _)) => w,
            None => "/"@,
        },
        None => "/"@,
    }
}

proof fn lemma_spaces(s: Seq<char>, p: int)
    requires
        0 <= p <= s.len(),
    ensures
        p <= skip_spaces(s, p) <= s.len(),
        skip_spaces(s, p) <= word_end(s, skip_spaces(s, p)) <= s.len(),
        forall|i: int| p <= i < skip_spaces(s, p) ==> spec_is_whitespace(s[i]),
    decreases s.len() - p,
{
    if p < s.len() && spec_is_whitespace(s[p]) {
        lemma_spaces(s, p + 1);
    } else {
        lemma_word(s, p);
    }
}

proof fn lemma_word(s: Seq<char>, p: int)
    requires
        0 <= p <= s.len(),
    ensures
        p <= word_end(s, p) <= s.len(),
    decreases s.len() - p,
{
    if p < s.len() && !spec_is_whitespace(s[p]) {
        lemma_word(s, p + 1);
    }
}

/// The next word of `v` at or after `p`, as `word_from` gives it.
fn next_word(v: &Vec<char>, p: usize) -> (r: Option<(String, usize)>)
    requires
        p <= v@.len(),
    ensures
        match word_from(v@, p as int) {
            Some((w, e)) => r matches Some((x, f)) && x@ == w && f == e,
            None => r is None,
        },
{
    proof {
        lemma_spaces(v@, p as int);
    }
    let mut a = p;
    while a < v.len() && is_whitespace(v[a])
        invariant
            p <= a <= v@.len(),
            skip_spaces(v@, p as int) == skip_spaces(v@, a as int),
        decreases v.len() - a,
    {
        a = a + 1;
    }
    if a >= v.len() {
        return None;
    }
    let mut b = a;
    proof {
        lemma_word(v@, a as int);
    }
    while b < v.len() && !is_whitespace(v[b])
        invariant
            a <= b <= v@.len(),
            word_end(v@, a as int) == word_end(v@, b as int),
        decreases v.len() - b,
    {
        b = b + 1;
    }
    Some((string_of_range(v, a, b), b))
}

/// The first position `i` at or after `p` where `": "` stands.
pub open spec fn find_sep(s: Seq<char>, p: int) -> Option<int>
    decreases s.len() - p,
{
    if p < 0 || p + 1 >= s.len() {
        None
    } else if s[p] == ':' && s[p + 1] == ' ' {
        Some(p)
    } else {
        find_sep(s, p + 1)
    }
}

/// Whether `c` lowercases, in ASCII, to `t`.
pub open spec fn lowers_to(c: char, t: char) -> bool {
    c == t || ('A' <= c <= 'Z' && (c as u32) + 32 == (t as u32))
}

/// Whether a header name is `content-length` in any case. (`to_lowercase` gives
/// the same answer: no other character lowercases into one of its letters.)
pub open spec fn is_content_length(k: Seq<char>) -> bool {
    k.len() == "content-length"@.len() && forall|i: int|
        0 <= i < k.len() ==> lowers_to(#[trigger] k[i], "content-length"@[i])
}

/// The value of a run of ASCII digits.
pub open spec fn digits_value(s: Seq<char>) -> nat
    decreases s.len(),
{
    if s.len() == 0 {
        0
    } else {
        digits_value(s.drop_last()) * 10 + ((s.last() as u32) - ('0' as u32)) as nat
    }
}

/// What `usize::from_str` gives: an optional `+`, then one or more ASCII digits whose
/// value fits.
pub open spec fn parse_usize(s: Seq<char>) -> Option<usize> {
    let d = unsigned_digits(s);
    if d.len() > 0 && all_digits(d) && digits_value(d) <= usize::MAX {
        Some(digits_value(d) as usize)
    } else {
        None
    }
}

/// `s` without a leading `+` that something follows.
pub open spec fn unsigned_digits(s: Seq<char>) -> Seq<char> {
    if s.len() > 1 && s[0] == '+' {
        s.drop_first()
    } else {
        s
    }
}

/// Whether every character is an ASCII digit.
pub open spec fn all_digits(d: Seq<char>) -> bool {
    forall|i: int| 0 <= i < d.len() ==> '0' <= #[trigger] d[i] <= '9'
}

proof fn lemma_digits_grow(s: Seq<char>, k: int)
    requires
        0 <= k <= s.len(),
        forall|i: int| 0 <= i < s.len() ==> '0' <= #[trigger] s[i] <= '9',
    ensures
        digits_value(s.take(k)) <= digits_value(s),
    decreases s.len() - k,
{
    if k < s.len() {
        lemma_digits_grow(s, k + 1);
        assert(s.take(k + 1).drop_last() =~= s.take(k));
    } else {
        assert(s.take(k) =~= s);
    }
}

/// Parses a header value as a `usize`.
fn parse_usize_of(v: &Vec<char>, from: usize) -> (r: Option<usize>)
    requires
        from <= v@.len(),
    ensures
        r == parse_usize(v@.subrange(from as int, v@.len() as int)),
{
    let ghost s = v@.subrange(from as int, v@.len() as int);
    let mut start = from;
    if v.len() - from > 1 && v[from] == '+' {
        start = from + 1;
    }
    let ghost d = v@.subrange(start as int, v@.len() as int);
    assert(d == unsigned_digits(s));
    if start == v.len() {
        return None;
    }
    let mut acc: usize = 0;
    let mut i = start;
    while i < v.len()
        invariant
            start <= i <= v@.len(),
            start < v@.len(),
            from <= start,
            s == v@.subrange(from as int, v@.len() as int),
            d == v@.subrange(start as int, v@.len() as int),
            d == unsigned_digits(s),
            forall|j: int| 0 <= j < i - start ==> '0' <= #[trigger] d[j] <= '9',
            acc == digits_value(d.take(i - start)),
        decreases v.len() - i,
    {
        let c = v[i];
        if c < '0' || c > '9' {
            assert(!('0' <= d[i - start] <= '9'));
            assert(!all_digits(d));
            assert(parse_usize(s) is None);
            return None;
        }
        assert(d.take(i - start + 1).drop_last() =~= d.take(i - start));
        let digit = ((c as u32) - ('0' as u32)) as usize;
        if acc > (usize::MAX - digit) / 10 {
            proof {
                assert(acc * 10 + digit > usize::MAX) by (nonlinear_arith)
                    requires
                        acc > (usize::MAX - digit) / 10,
                        digit <= 9,
                ;
                let k = i - start + 1;
                assert(digits_value(d.take(k)) == acc * 10 + digit);
                if all_digits(d) {
                    lemma_digits_grow(d, k);
                }
                assert(parse_usize(s) is None);
            }
            return None;
        }
        acc = acc * 10 + digit;
        i = i + 1;
    }
    assert(d.take(d.len() as int) =~= d);
    Some(acc)
}

/// The position of the first `": "` in `v`, as `find_sep` gives it.
fn find_sep_of(v: &Vec<char>) -> (r: Option<usize>)
    ensures
        opt_int(r) == find_sep(v@, 0),
{
    let mut p: usize = 0;
    while p < v.len() && v.len() - p > 1
        invariant
            find_sep(v@, 0) == find_sep(v@, p as int),
        decreases v.len() - p,
    {
        if v[p] == ':' && v[p + 1] == ' ' {
            return Some(p);
        }
        p = p + 1;
    }
    None
}

/// An index as a mathematical integer.
pub open spec fn opt_int(o: Option<usize>) -> Option<int> {
    match o {
        Some(j) => Some(j as int),
        None => None,
    }
}

/// Whether the first `n` characters of `v` name the `Content-Length` header.
fn names_content_length(v: &Vec<char>, n: usize) -> (b: bool)
    requires
        n <= v@.len(),
    ensures
        b == is_content_length(v@.subrange(0, n as int)),
{
    let target = chars_of("content-length");
    let ghost k = v@.subrange(0, n as int);
    if n != target.len() {
        return false;
    }
    let mut i: usize = 0;
    while i < n
        invariant
            i <= n,
            n == target@.len(),
            n <= v@.len(),
            target@ == "content-length"@,
            k == v@.subrange(0, n as int),
            forall|j: int| 0 <= j < i ==> lowers_to(#[trigger] k[j], "content-length"@[j]),
        decreases n - i,
    {
        let c = v[i];
        let t = target[i];
        let cu = c as u32;
        let tu = t as u32;
        let same = c == t || ('A' <= c && c <= 'Z' && cu + 32 == tu);
        assert(k[i as int] == c);
        assert(t == "content-length"@[i as int]);
        assert(same ==> lowers_to(c, t));
        if !same {
            assert(!lowers_to(k[i as int], "content-length"@[i as int]));
            return false;
        }
        i = i + 1;
    }
    true
}

/// The headers and the content length after the header lines `lines[1..n]`: each
/// line `name: value` sets its header, and a `content-length` line (in any case)
/// sets the length to its value as a `usize`, or 0.
pub open spec fn header_fold(lines: Seq<Seq<char>>, n: int) -> (Seq<(Seq<char>, Seq<char>)>, usize)
    decreases n,
{
    if n <= 1 || n > lines.len() {
        (seq![], 0)
    } else {
        let (hs, len) = header_fold(lines, n - 1);
        let line = lines[n - 1];
        match find_sep(line, 0) {
            Some(i) => {
                let k = line.subrange(0, i);
                let v = line.subrange(i + 2, line.len() as int);
                (
                    put(hs, k, v),
                    if is_content_length(k) {
                        match parse_usize(v) {
                            Some(x) => x,
                            None => 0,
                        }
                    } else {
                        len
                    },
                )
            },
            None => (hs, len),
        }
    }
}

proof fn lemma_find_sep(s: Seq<char>, p: int)
    requires
        0 <= p,
    ensures
        find_sep(s, p) matches Some(i) ==> p <= i && i + 1 < s.len(),
    decreases s.len() - p,
{
    if p + 1 < s.len() && !(s[p] == ':' && s[p + 1] == ' ') {
        lemma_find_sep(s, p + 1);
    }
}

/// Parses the head of a request: its request line (method and address, by default
/// `GET` and `/`) and its header lines, each without its line break, up to the
/// empty line. Gives the request, with an empty body, and the content length the
/// headers announce; `None` for no lines.
pub fn parse_request(lines: &Vec<String>) -> (r: Option<(ServerRequest, usize)>)
    ensures
        r is None <==> lines@.len() == 0,
        r matches Some((req, n)) ==> {
            &&& req.method@ == request_method(lines@[0]@)
            &&& req.url@ == request_url(lines@[0]@)
            &&& (pairs_v(req.headers@), n) == header_fold(strings_v(lines@), lines@.len() as int)
            &&& req.body@ == Seq::<char>::empty()
        },
{
    if lines.len() == 0 {
        return None;
    }
    let first = chars_of_string(&lines[0]);
    let w1 = next_word(&first, 0);
    let method = match &w1 {
        Some((w, _)) => w.clone(),
        None => "GET".to_owned(),
    };
    let url = match &w1 {
        Some((_, e)) => {
            proof {
                lemma_spaces(first@, 0);
            }
            match next_word(&first, *e) {
                Some((w, _)) => w,
                None => "/".to_owned(),
            }
        },
        None => "/".to_owned(),
    };
    let ghost lv = strings_v(lines@);
    let mut headers: Vec<(String, String)> = Vec::new();
    let mut content_length: usize = 0;
    assert(pairs_v(headers@) =~= Seq::<(Seq<char>, Seq<char>)>::empty());
    let mut i: usize = 1;
    while i < lines.len()
        invariant
            1 <= i <= lines@.len(),
            lv == strings_v(lines@),
            (pairs_v(headers@), content_length) == header_fold(lv, i as int),
        decreases lines.len() - i,
    {
        let v = chars_of_string(&lines[i]);
        assert(lv[i as int] == v@);
        match find_sep_of(&v) {
            Some(at) => {
                proof {
                    lemma_find_sep(v@, 0);
                }
                let key = string_of_range(&v, 0, at);
                let val = string_of_range(&v, at + 2, v.len());
                if names_content_length(&v, at) {
                    content_length = match parse_usize_of(&v, at + 2) {
                        Some(x) => x,
                        None => 0,
                    };
                }
                put_pair(&mut headers, key, val);
            },
            None => {},
        }
        i = i + 1;
    }
    let body = String::new();
    Some((ServerRequest { method, url, headers, body }, content_length))
}

/// The reason phrase the server sends with a status.
pub open spec fn status_reason(status: u16) -> Seq<char> {
    if status == 200 {
        "OK"@
    } else if status == 201 {
        "Created"@
    } else if status == 204 {
        "No Content"@
    } else if status == 400 {
        "Bad Request"@
    } else if status == 404 {
        "Not Found"@
    } else if status == 500 {
        "Internal Server Error"@
    } else {
        "Unknown"@
    }
}

/// The reason phrase for `status`.
pub fn status_text(status: u16) -> (r: String)
    ensures
        r@ == status_reason(status),
{
    let t = match status {
        200 => "OK",
        201 => "Created",
        204 => "No Content",
        400 => "Bad Request",
        404 => "Not Found",
        500 => "Internal Server Error",
        _ => "Unknown",
    };
    t.to_owned()
}

/// The full text of a response: status line, `Content-Type`, `Content-Length` (the
/// body's length in UTF-8 bytes), `Connection: close`, an empty line, then the body.
pub fn response_text(status: u16, content_type: &str, body: &str) -> (r: String)
    requires
        utf8_len(body@) <= u64::MAX,
    ensures
        r@ == "HTTP/1.1 "@ + dec_digits(status as nat) + " "@ + status_reason(status)
            + "\r\nContent-Type: "@ + content_type@ + "\r\nContent-Length: "@ + dec_digits(
            utf8_len(body@),
        ) + "\r\nConnection: close\r\n\r\n"@ + body@,
{
    let mut r = "HTTP/1.1 ".to_owned();
    r = concat(&r, decimal(status as u64).as_str());
    r = concat(&r, " ");
    r = concat(&r, status_text(status).as_str());
    r = concat(&r, "\r\nContent-Type: ");
    r = concat(&r, content_type);
    r = concat(&r, "\r\nContent-Length: ");
    r = concat(&r, decimal(byte_len(body)).as_str());
    r = concat(&r, "\r\nConnection: close\r\n\r\n");
    r = concat(&r, body);
    r
}

} // verus!
