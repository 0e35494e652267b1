//! Reading a JSON text into a tree, the way the runtime's `JSON.parse` does: an object
//! or array is split into its members by scanning for their ends, and each member is
//! read in turn.
//!
//! A member that is not an object, array, string, `true`, `false` or `null` is kept
//! as text: whether it is a number is for the runtime's number parser to decide. The
//! tree is read in document order, and reading stops at the first member that fails,
//! so the tree also records where the text has no value after a key (`Missing`) and
//! where it cannot be cut into members at all (`Broken`: a string with no closing
//! quote, or a lone `"`).
use vstd::prelude::*;
use crate::text::{chars_of, chars_eq_str, string_of, string_of_range, concat, is_whitespace, spec_is_whitespace};
use crate::builtins::skip_spaces;
use crate::json::{
    skip_ws_at,
    trim,
    trim_vec,
    trim_end_at,
    close_quote,
    bracket_end,
    scalar_end,
    json_value_at,
    json_extract_value,
};

verus! {

/// One value of a JSON text.
#[derive(Debug)]
pub enum JsonNode {
    /// The members of an object, in the order written (a later key repeats an
    /// earlier one where the text repeats it).
    Object(Vec<(String, JsonNode)>),
    Array(Vec<JsonNode>),
    Str(String),
    Bool(bool),
    Null,
    /// Any other value: the text it was read from, and that text trimmed, which is
    /// a number exactly where the number parser accepts it.
    Scalar(String, String),
    /// A key with nothing after it: the text ends unexpectedly.
    Missing,
    /// Text that cannot be cut into values.
    Broken,
}

/// The mathematical form of a [`JsonNode`].
pub enum JsonNodeV {
    Object(Seq<(Seq<char>, JsonNodeV)>),
    Array(Seq<JsonNodeV>),
    Str(Seq<char>),
    Bool(bool),
    Null,
    Scalar(Seq<char>, Seq<char>),
    Missing,
    Broken,
}

pub open spec fn node_v(n: JsonNode) -> JsonNodeV
    decreases n,
{
    match n {
        JsonNode::Object(ms) => JsonNodeV::Object(members_v(ms@)),
        JsonNode::Array(xs) => JsonNodeV::Array(nodes_v(xs@)),
        JsonNode::Str(s) => JsonNodeV::Str(s@),
        JsonNode::Bool(b) => JsonNodeV::Bool(b),
        JsonNode::Null => JsonNodeV::Null,
        JsonNode::Scalar(s, t) => JsonNodeV::Scalar(s@, t@),
        JsonNode::Missing => JsonNodeV::Missing,
        JsonNode::Broken => JsonNodeV::Broken,
    }
}

pub open spec fn nodes_v(xs: Seq<JsonNode>) -> Seq<JsonNodeV>
    decreases xs,
{
    Seq::new(
        xs.len(),
        |i: int|
            if 0 <= i < xs.len() {
                node_v(xs[i])
            } else {
                JsonNodeV::Null
            },
    )
}

pub open spec fn members_v(ms: Seq<(String, JsonNode)>) -> Seq<(Seq<char>, JsonNodeV)>
    decreases ms,
{
    Seq::new(
        ms.len(),
        |i: int|
            if 0 <= i < ms.len() {
                (ms[i].0@, node_v(ms[i].1))
            } else {
                (seq![], JsonNodeV::Null)
            },
    )
}

/// The first `:` at or after `p`, or `p` where `p` is past the last one.
pub open spec fn colon_from(s: Seq<char>, p: int) -> int
    decreases s.len() - p,
{
    if 0 <= p < s.len() && s[p] != ':' {
        colon_from(s, p + 1)
    } else {
        p
    }
}

/// The first position at or after `p` that is neither a comma nor whitespace.
pub open spec fn skip_separators(s: Seq<char>, p: int) -> int
    decreases s.len() - p,
{
    if 0 <= p < s.len() && (s[p] == ',' || spec_is_whitespace(s[p])) {
        skip_separators(s, p + 1)
    } else {
        p
    }
}

/// The characters of `s` other than its first and last.
pub open spec fn inner(s: Seq<char>) -> Seq<char> {
    s.subrange(1, s.len() - 1)
}

/// Whether `s` is at least one character long, starts with `a` and ends with `b`.
pub open spec fn wrapped(s: Seq<char>, a: char, b: char) -> bool {
    s.len() > 0 && s[0] == a && s[s.len() - 1] == b
}

/// A string value at `p` that runs to the end of the text unclosed.
pub open spec fn unclosed_at(s: Seq<char>, p: int) -> bool {
    0 <= p < s.len() && s[p] == '"' && close_quote(s, p + 1) >= s.len()
}

/// The tree that the text `s` reads as.
pub open spec fn json_tree(s: Seq<char>) -> JsonNodeV
    decreases s.len(), 0int,
{
    let t = trim(s);
    proof {
        lemma_trim_len(s);
    }
    if wrapped(t, '{', '}') {
        JsonNodeV::Object(json_members(inner(t), 0))
    } else if wrapped(t, '[', ']') {
        JsonNodeV::Array(json_items(inner(t), 0))
    } else if wrapped(t, '"', '"') {
        if t.len() == 1 {
            JsonNodeV::Broken
        } else {
            JsonNodeV::Str(inner(t))
        }
    } else if t == seq!['t', 'r', 'u', 'e'] {
        JsonNodeV::Bool(true)
    } else if t == seq!['f', 'a', 'l', 's', 'e'] {
        JsonNodeV::Bool(false)
    } else if t == seq!['n', 'u', 'l', 'l'] {
        JsonNodeV::Null
    } else {
        JsonNodeV::Scalar(s, t)
    }
}

/// The members of an object whose text between the braces is `s`, read from `pos`:
/// a key in double quotes, then after the next `:` and any whitespace the text of
/// one value; text before a key that is not a `"` is passed over.
pub open spec fn json_members(s: Seq<char>, pos: int) -> Seq<(Seq<char>, JsonNodeV)>
    decreases s.len() - pos, 1int,
{
    let p = skip_spaces(s, pos);
    proof {
        lemma_skip_spaces(s, pos);
    }
    if pos < 0 || p >= s.len() {
        seq![]
    } else if s[p] == '"' {
        let ke = close_quote(s, p + 1);
        let key = s.subrange(p + 1, ke);
        proof {
            lemma_close_quote(s, p + 1);
            lemma_colon_from(s, ke + 1);
            lemma_skip_spaces(s, colon_from(s, ke + 1) + 1);
        }
        let vp = skip_spaces(s, colon_from(s, ke + 1) + 1);
        if vp >= s.len() {
            seq![(key, JsonNodeV::Missing)]
        } else if unclosed_at(s, vp) {
            seq![(key, JsonNodeV::Broken)]
        } else {
            proof {
                lemma_value_at(s, vp);
            }
            match json_value_at(s, vp) {
                Ok((vs, e)) => {
                    proof {
                        lemma_skip_separators(s, e);
                    }
                    seq![(key, json_tree(vs))] + json_members(s, skip_separators(s, e))
                },
                Err(_) => seq![],
            }
        }
    } else {
        json_members(s, p + 1)
    }
}

/// The elements of an array whose text between the brackets is `s`, read from
/// `pos`. An empty element (a `,` or closing bracket where a value should be), which
/// no number parser accepts, is the last one read.
pub open spec fn json_items(s: Seq<char>, pos: int) -> Seq<JsonNodeV>
    decreases s.len() - pos, 1int,
{
    let p = skip_spaces(s, pos);
    proof {
        lemma_skip_spaces(s, pos);
    }
    if pos < 0 || p >= s.len() {
        seq![]
    } else if unclosed_at(s, p) {
        seq![JsonNodeV::Broken]
    } else {
        proof {
            lemma_value_at(s, p);
        }
        match json_value_at(s, p) {
            Ok((vs, e)) => {
                if vs.len() == 0 {
                    seq![json_tree(vs)]
                } else {
                    proof {
                        lemma_skip_separators(s, e);
                    }
                    seq![json_tree(vs)] + json_items(s, skip_separators(s, e))
                }
            },
            Err(_) => seq![],
        }
    }
}

pub proof fn lemma_skip_spaces(s: Seq<char>, p: int)
    ensures
        skip_spaces(s, p) >= p,
        p <= s.len() ==> skip_spaces(s, p) <= s.len(),
        0 <= p ==> skip_spaces(s, p) < s.len() ==> !spec_is_whitespace(s[skip_spaces(s, p)]),
    decreases s.len() - p,
{
    if 0 <= p < s.len() && spec_is_whitespace(s[p]) {
        lemma_skip_spaces(s, p + 1);
    }
}

pub proof fn lemma_close_quote(s: Seq<char>, p: int)
    ensures
        close_quote(s, p) >= p,
        p <= s.len() ==> close_quote(s, p) <= s.len(),
        0 <= p ==> close_quote(s, p) < s.len() ==> s[close_quote(s, p)] == '"',
    decreases s.len() - p,
{
    if 0 <= p < s.len() && s[p] != '"' {
        lemma_close_quote(s, p + 1);
    }
}

pub proof fn lemma_colon_from(s: Seq<char>, p: int)
    ensures
        colon_from(s, p) >= p,
        p <= s.len() ==> colon_from(s, p) <= s.len(),
    decreases s.len() - p,
{
    if 0 <= p < s.len() && s[p] != ':' {
        lemma_colon_from(s, p + 1);
    }
}

pub proof fn lemma_skip_separators(s: Seq<char>, p: int)
    ensures
        skip_separators(s, p) >= p,
        p <= s.len() ==> skip_separators(s, p) <= s.len(),
    decreases s.len() - p,
{
    if 0 <= p < s.len() && (s[p] == ',' || spec_is_whitespace(s[p])) {
        lemma_skip_separators(s, p + 1);
    }
}

proof fn lemma_bracket_end(s: Seq<char>, br: char, cl: char, e: int, d: int)
    requires
        e <= s.len(),
    ensures
        e <= bracket_end(s, br, cl, e, d) <= s.len(),
    decreases s.len() - e,
{
    if 0 <= e < s.len() && d > 0 {
        lemma_bracket_end(
            s,
            br,
            cl,
            e + 1,
            d + (if s[e] == br {
                1int
            } else {
                0
            }) - (if s[e] == cl {
                1int
            } else {
                0
            }),
        );
    }
}

proof fn lemma_scalar_end(s: Seq<char>, p: int)
    requires
        p <= s.len(),
    ensures
        p <= scalar_end(s, p) <= s.len(),
    decreases s.len() - p,
{
    if 0 <= p < s.len() && s[p] != ',' && s[p] != '}' && s[p] != ']' {
        lemma_scalar_end(s, p + 1);
    }
}

proof fn lemma_trim_end_at_bound(s: Seq<char>, q: int)
    requires
        0 <= q <= s.len(),
    ensures
        0 <= trim_end_at(s, q) <= q,
    decreases q,
{
    if 0 < q <= s.len() && spec_is_whitespace(s[q - 1]) {
        lemma_trim_end_at_bound(s, q - 1);
    }
}

/// `str::trim` never lengthens a text, and keeps a text empty.
pub proof fn lemma_trim_len(s: Seq<char>)
    ensures
        trim(s).len() <= s.len(),
        s.len() == 0 ==> trim(s).len() == 0,
{
    lemma_skip_spaces(s, 0);
    lemma_trim_end_at_bound(s, s.len() as int);
    if skip_spaces(s, 0) < s.len() {
        lemma_trim_end_at_nonempty(s, s.len() as int, skip_spaces(s, 0));
    }
}

proof fn lemma_trim_end_at_nonempty(s: Seq<char>, q: int, a: int)
    requires
        0 <= a < q <= s.len(),
        !spec_is_whitespace(s[a]),
    ensures
        a < trim_end_at(s, q) <= q,
    decreases q,
{
    if spec_is_whitespace(s[q - 1]) {
        lemma_trim_end_at_nonempty(s, q - 1, a);
    }
}

/// A value text that starts at a character other than whitespace is empty only
/// where it ends where it starts.
proof fn lemma_value_at_empty(s: Seq<char>, p: int)
    requires
        0 <= p < s.len(),
        !unclosed_at(s, p),
        !spec_is_whitespace(s[p]),
    ensures
        json_value_at(s, p) matches Ok((vs, e)) && (vs.len() == 0 <==> e == p),
{
    lemma_value_at(s, p);
    if s[p] != '"' && s[p] != '{' && s[p] != '[' {
        let e = scalar_end(s, p);
        if e > p {
            let x = s.subrange(p, e);
            assert(x[0] == s[p]);
            lemma_trim_end_at_nonempty(x, x.len() as int, 0);
            assert(skip_spaces(x, 0) == 0);
        }
    }
}

/// The value text at a position inside the text is no longer than the rest of
/// the text, ends within it, and is empty only where it ends where it starts.
pub proof fn lemma_value_at(s: Seq<char>, p: int)
    requires
        0 <= p < s.len(),
        !unclosed_at(s, p),
    ensures
        json_value_at(s, p) matches Ok((vs, e)) && p <= e <= s.len() && vs.len() <= s.len() - p
            && (e == p ==> vs.len() == 0),
{
    if s[p] == '"' {
        lemma_close_quote(s, p + 1);
    } else if s[p] == '{' || s[p] == '[' {
        let cl = if s[p] == '{' {
            '}'
        } else {
            ']'
        };
        lemma_bracket_end(s, s[p], cl, p + 1, 1);
    } else {
        lemma_scalar_end(s, p);
        let e = scalar_end(s, p);
        lemma_trim_len(s.subrange(p, e));
    }
}

/// The first `"` at or after `p`, or the length.
fn close_from(c: &Vec<char>, p: usize) -> (q: usize)
    requires
        p <= c@.len(),
    ensures
        q == close_quote(c@, p as int),
        p <= q <= c@.len(),
{
    let mut q = p;
    while q < c.len() && c[q] != '"'
        invariant
            p <= q <= c@.len(),
            close_quote(c@, p as int) == close_quote(c@, q as int),
        decreases c.len() - q,
    {
        q = q + 1;
    }
    q
}

/// The first `:` at or after `p`, or the length.
fn colon_at(c: &Vec<char>, p: usize) -> (q: usize)
    requires
        p <= c@.len(),
    ensures
        q == colon_from(c@, p as int),
        p <= q <= c@.len(),
{
    let mut q = p;
    while q < c.len() && c[q] != ':'
        invariant
            p <= q <= c@.len(),
            colon_from(c@, p as int) == colon_from(c@, q as int),
        decreases c.len() - q,
    {
        q = q + 1;
    }
    q
}

/// The first position at or after `p` that is neither a comma nor whitespace.
fn skip_sep_at(c: &Vec<char>, p: usize) -> (q: usize)
    requires
        p <= c@.len(),
    ensures
        q == skip_separators(c@, p as int),
        p <= q <= c@.len(),
{
    let mut q = p;
    while q < c.len() && (c[q] == ',' || is_whitespace(c[q]))
        invariant
            p <= q <= c@.len(),
            skip_separators(c@, p as int) == skip_separators(c@, q as int),
        decreases c.len() - q,
    {
        q = q + 1;
    }
    q
}

/// Reads the JSON text `s` into a tree: `{..}` as an object, `[..]` as an array,
/// `".."` as a string, `true`, `false` and `null`, and anything else as text for
/// the number parser.
pub fn json_parse_value(s: &str) -> (r: JsonNode)
    ensures
        node_v(r) == json_tree(s@),
    decreases s@.len(), 0int,
{
    let sv = chars_of(s);
    let t = trim_vec(&sv);
    proof {
        lemma_trim_len(s@);
        reveal_strlit("true");
        reveal_strlit("false");
        reveal_strlit("null");
        assert("true"@ =~= seq!['t', 'r', 'u', 'e']);
        assert("false"@ =~= seq!['f', 'a', 'l', 's', 'e']);
        assert("null"@ =~= seq!['n', 'u', 'l', 'l']);
    }
    let n = t.len();
    assert(t@ == trim(s@));
    if n > 0 && t[0] == '{' && t[n - 1] == '}' {
        let body = string_of_range(&t, 1, n - 1);
        let ms = json_parse_pairs(body.as_str());
        assert(body@ == inner(t@));
        assert(wrapped(t@, '{', '}'));
        JsonNode::Object(ms)
    } else if n > 0 && t[0] == '[' && t[n - 1] == ']' {
        let body = string_of_range(&t, 1, n - 1);
        let xs = json_parse_items(body.as_str());
        assert(body@ == inner(t@));
        assert(wrapped(t@, '[', ']'));
        assert(!wrapped(t@, '{', '}'));
        JsonNode::Array(xs)
    } else if n > 0 && t[0] == '"' && t[n - 1] == '"' {
        if n == 1 {
            JsonNode::Broken
        } else {
            JsonNode::Str(string_of_range(&t, 1, n - 1))
        }
    } else if chars_eq_str(&t, "true") {
        JsonNode::Bool(true)
    } else if chars_eq_str(&t, "false") {
        JsonNode::Bool(false)
    } else if chars_eq_str(&t, "null") {
        JsonNode::Null
    } else {
        JsonNode::Scalar(string_of(sv.as_slice()), string_of(t.as_slice()))
    }
}

/// Reads the members of an object whose text between the braces is `s`.
pub fn json_parse_pairs(s: &str) -> (r: Vec<(String, JsonNode)>)
    ensures
        members_v(r@) == json_members(s@, 0),
    decreases s@.len(), 1int,
{
    let c = chars_of(s);
    let n = c.len();
    let mut out: Vec<(String, JsonNode)> = Vec::new();
    let mut pos: usize = 0;
    assert(members_v(out@) =~= seq![]);
    loop
        invariant
            c@ == s@,
            n == c@.len(),
            pos <= n,
            json_members(s@, 0) == members_v(out@) + json_members(s@, pos as int),
        decreases n - pos,
    {
        let ghost old_out = out@;
        let p = skip_ws_at(&c, pos);
        proof {
            lemma_skip_spaces(c@, pos as int);
        }
        if p >= n {
            assert(json_members(s@, pos as int) =~= seq![]);
            assert(members_v(out@) + seq![] =~= members_v(out@));
            return out;
        }
        if c[p] == '"' {
            let ke = close_from(&c, p + 1);
            let key = string_of_range(&c, p + 1, ke);
            proof {
                lemma_close_quote(c@, p + 1);
            }
            let mut vp: usize = n;
            if ke < n {
                let colon = colon_at(&c, ke + 1);
                if colon < n {
                    vp = skip_ws_at(&c, colon + 1);
                }
            }
            proof {
                lemma_colon_from(c@, ke + 1);
                lemma_skip_spaces(c@, colon_from(c@, ke + 1) + 1);
                assert((vp >= n) == (skip_spaces(c@, colon_from(c@, ke + 1) + 1) >= n));
                assert(vp < n ==> vp == skip_spaces(c@, colon_from(c@, ke + 1) + 1));
            }
            if vp >= n {
                out.push((key, JsonNode::Missing));
                proof {
                    assert(members_v(out@) =~= members_v(old_out).push((key@, JsonNodeV::Missing)));
                    assert(json_members(s@, pos as int) =~= seq![(key@, JsonNodeV::Missing)]);
                    assert(members_v(out@) =~= members_v(old_out) + json_members(s@, pos as int));
                    assert(json_members(s@, n as int) =~= seq![]);
                    assert(members_v(out@) + seq![] =~= members_v(out@));
                }
                return out;
            }
            if c[vp] == '"' && close_from(&c, vp + 1) >= n {
                out.push((key, JsonNode::Broken));
                proof {
                    assert(members_v(out@) =~= members_v(old_out).push((key@, JsonNodeV::Broken)));
                    assert(json_members(s@, pos as int) =~= seq![(key@, JsonNodeV::Broken)]);
                    assert(members_v(out@) + seq![] =~= members_v(out@));
                }
                return out;
            }
            proof {
                lemma_value_at(c@, vp as int);
            }
            let (vs, e) = match json_extract_value(c.as_slice(), vp) {
                Ok(x) => x,
                Err(_) => {
                    return out;
                },
            };
            let v = json_parse_value(vs.as_str());
            out.push((key, v));
            let q = skip_sep_at(&c, e);
            proof {
                lemma_skip_separators(c@, e as int);
                assert(members_v(out@) =~= members_v(old_out).push((key@, json_tree(vs@))));
                assert(json_members(s@, pos as int) == seq![(key@, json_tree(vs@))] + json_members(
                    s@,
                    q as int,
                ));
                assert(members_v(out@) + json_members(s@, q as int) =~= members_v(old_out)
                    + json_members(s@, pos as int));
            }
            pos = q;
        } else {
            pos = p + 1;
        }
    }
}

/// Reads the elements of an array whose text between the brackets is `s`.
pub fn json_parse_items(s: &str) -> (r: Vec<JsonNode>)
    ensures
        nodes_v(r@) == json_items(s@, 0),
    decreases s@.len(), 1int,
{
    let c = chars_of(s);
    let n = c.len();
    let mut out: Vec<JsonNode> = Vec::new();
    let mut pos: usize = 0;
    assert(nodes_v(out@) =~= seq![]);
    loop
        invariant
            c@ == s@,
            n == c@.len(),
            pos <= n,
            json_items(s@, 0) == nodes_v(out@) + json_items(s@, pos as int),
        decreases n - pos,
    {
        let ghost old_out = out@;
        let p = skip_ws_at(&c, pos);
        proof {
            lemma_skip_spaces(c@, pos as int);
        }
        if p >= n {
            assert(json_items(s@, pos as int) =~= seq![]);
            assert(nodes_v(out@) + seq![] =~= nodes_v(out@));
            return out;
        }
        if c[p] == '"' && close_from(&c, p + 1) >= n {
            out.push(JsonNode::Broken);
            proof {
                assert(nodes_v(out@) =~= nodes_v(old_out).push(JsonNodeV::Broken));
                assert(json_items(s@, pos as int) =~= seq![JsonNodeV::Broken]);
            }
            return out;
        }
        proof {
            lemma_value_at(c@, p as int);
        }
        let (vs, e) = match json_extract_value(c.as_slice(), p) {
            Ok(x) => x,
            Err(_) => {
                return out;
            },
        };
        proof {
            lemma_value_at_empty(c@, p as int);
        }
        let empty = e == p;
        let v = json_parse_value(vs.as_str());
        out.push(v);
        proof {
            assert(nodes_v(out@) =~= nodes_v(old_out).push(json_tree(vs@)));
        }
        if empty {
            proof {
                assert(json_items(s@, pos as int) =~= seq![json_tree(vs@)]);
            }
            return out;
        }
        let q = skip_sep_at(&c, e);
        proof {
            lemma_skip_separators(c@, e as int);
            assert(json_items(s@, pos as int) == seq![json_tree(vs@)] + json_items(s@, q as int));
            assert(nodes_v(out@) + json_items(s@, q as int) =~= nodes_v(old_out) + json_items(
                s@,
                pos as int,
            ));
        }
        pos = q;
    }
}


// ---------------------------------------------------------------------------
// A response body read with serde_json
// ---------------------------------------------------------------------------

/// `serde_json::Value`, which the conversion below takes apart.
#[verifier::external_type_specification]
#[verifier::external_body]
pub struct ExSerdeJsonValue(serde_json::Value);

/// What `serde_json` makes of the text `s`: the tree it reads (`Ok`), numbers kept as
/// their text and an object's keys in the order its map yields them, or the text of
/// its error (`Err`).
pub uninterp spec fn serde_json_tree(s: Seq<char>) -> Result<JsonNodeV, Seq<char>>;

/// Reads `s` with `serde_json::from_str` into a `serde_json::Value` and turns that
/// value into a [`JsonNode`]; an error becomes its `Display` text. The contract
/// claims only that the outcome is the one [`serde_json_tree`] names for the text:
/// serde_json's grammar and its messages are not restated here.
#[verifier::external_body]
pub(crate) fn serde_parse_tree(s: &str) -> (r: Result<JsonNode, String>)
    ensures
        match r {
            Ok(n) => serde_json_tree(s@) == Ok::<JsonNodeV, Seq<char>>(node_v(n)),
            Err(e) => serde_json_tree(s@) == Err::<JsonNodeV, Seq<char>>(e@),
        },
{
    match serde_json::from_str::<serde_json::Value>(s) {
        Ok(v) => Ok(tree_of(&v)),
        Err(e) => Err(e.to_string()),
    }
}

/// The conversion half of [`serde_parse_tree`], apart from it because it recurses:
/// each variant of `serde_json::Value` to the node of the same kind, a number to its
/// `Display` text (held twice, as [`JsonNode::Scalar`] holds a value and its trimmed
/// text), an object's entries in the order its map yields them.
#[verifier::external_body]
fn tree_of(v: &serde_json::Value) -> JsonNode {
    match v {
        serde_json::Value::Null => JsonNode::Null,
        serde_json::Value::Bool(b) => JsonNode::Bool(*b),
        serde_json::Value::Number(n) => JsonNode::Scalar(n.to_string(), n.to_string()),
        serde_json::Value::String(t) => JsonNode::Str(t.clone()),
        serde_json::Value::Array(xs) => JsonNode::Array(xs.iter().map(tree_of).collect()),
        serde_json::Value::Object(m) => JsonNode::Object(
            m.iter().map(|(k, x)| (k.clone(), tree_of(x))).collect(),
        ),
    }
}

/// A parse outcome with `context` put before its error text; a tree is kept as it is.
pub fn with_error_context(parsed: Result<JsonNode, String>, context: &str) -> (r: Result<
    JsonNode,
    String,
>)
    ensures
        match parsed {
            Ok(n) => r == Ok::<JsonNode, String>(n),
            Err(m) => r matches Err(e) && e@ == context@ + m@,
        },
{
    match parsed {
        Ok(n) => Ok(n),
        Err(m) => {
            let c = context.to_owned();
            Err(concat(&c, m.as_str()))
        },
    }
}

/// What `Response.json()` gives for a body: serde_json's tree of the whole body, or
/// its error after `Response.json(): `.
pub open spec fn response_body_json(body: Seq<char>) -> Result<JsonNodeV, Seq<char>> {
    match serde_json_tree(body) {
        Ok(n) => Ok(n),
        Err(m) => Err("Response.json(): "@ + m),
    }
}

/// Reads a response body for the runtime's `res.json()`.
pub fn parse_response_body(body: &str) -> (r: Result<JsonNode, String>)
    ensures
        match r {
            Ok(n) => response_body_json(body@) == Ok::<JsonNodeV, Seq<char>>(node_v(n)),
            Err(e) => response_body_json(body@) == Err::<JsonNodeV, Seq<char>>(e@),
        },
{
    let parsed = serde_parse_tree(body);
    with_error_context(parsed, "Response.json(): ")
}

/// `s` with every leading `c` removed.
pub open spec fn drop_leading(s: Seq<char>, c: char) -> Seq<char>
    decreases s.len(),
{
    if s.len() > 0 && s[0] == c {
        drop_leading(s.drop_first(), c)
    } else {
        s
    }
}

/// `s` with every trailing `c` removed.
pub open spec fn drop_trailing(s: Seq<char>, c: char) -> Seq<char>
    decreases s.len(),
{
    if s.len() > 0 && s.last() == c {
        drop_trailing(s.drop_last(), c)
    } else {
        s
    }
}

/// `s` with every leading and every trailing `c` removed, as `str::trim_matches`
/// removes them.
pub open spec fn trim_char(s: Seq<char>, c: char) -> Seq<char> {
    drop_trailing(drop_leading(s, c), c)
}

/// What a fetched response's body reads as, taken on the body trimmed: text that
/// starts with `{` or `[` is serde_json's tree of it, or its error after
/// `JSON parse error: `; text that starts with `"` is a string, the quotes at both
/// ends removed; `true`, `false` and `null` are themselves; anything else is kept
/// as text (the body and the body trimmed) for the number parser.
pub open spec fn response_json(body: Seq<char>) -> Result<JsonNodeV, Seq<char>> {
    let t = trim(body);
    if t.len() > 0 && (t[0] == '{' || t[0] == '[') {
        match serde_json_tree(t) {
            Ok(n) => Ok(n),
            Err(m) => Err("JSON parse error: "@ + m),
        }
    } else if t.len() > 0 && t[0] == '"' {
        Ok(JsonNodeV::Str(trim_char(t, '"')))
    } else if t == seq!['t', 'r', 'u', 'e'] {
        Ok(JsonNodeV::Bool(true))
    } else if t == seq!['f', 'a', 'l', 's', 'e'] {
        Ok(JsonNodeV::Bool(false))
    } else if t == seq!['n', 'u', 'l', 'l'] {
        Ok(JsonNodeV::Null)
    } else {
        Ok(JsonNodeV::Scalar(body, t))
    }
}

/// `v` with every leading and every trailing `c` removed.
pub fn trim_char_vec(v: &Vec<char>, c: char) -> (r: String)
    ensures
        r@ == trim_char(v@, c),
{
    let n = v.len();
    let mut i: usize = 0;
    assert(v@.subrange(0, n as int) =~= v@);
    while i < n && v[i] == c
        invariant
            n == v@.len(),
            i <= n,
            drop_leading(v@, c) == drop_leading(v@.subrange(i as int, n as int), c),
        decreases n - i,
    {
        proof {
            assert(v@.subrange(i as int, n as int).drop_first() =~= v@.subrange(
                i + 1,
                n as int,
            ));
        }
        i = i + 1;
    }
    let mut j: usize = n;
    while j > i && v[j - 1] == c
        invariant
            n == v@.len(),
            i <= j <= n,
            drop_trailing(v@.subrange(i as int, n as int), c) == drop_trailing(
                v@.subrange(i as int, j as int),
                c,
            ),
        decreases j - i,
    {
        proof {
            assert(v@.subrange(i as int, j as int).drop_last() =~= v@.subrange(
                i as int,
                j - 1,
            ));
        }
        j = j - 1;
    }
    proof {
        assert(drop_leading(v@.subrange(i as int, n as int), c) == v@.subrange(i as int, n as int));
        assert(drop_trailing(v@.subrange(i as int, j as int), c) == v@.subrange(i as int, j as int));
    }
    string_of_range(v, i, j)
}

} // verus!
