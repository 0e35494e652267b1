//! The two JSON text scanners that work without a JSON parser: reading a string
//! field of a small configuration file, and cutting the text of one value out of a
//! JSON text.
use vstd::prelude::*;
use crate::text::{chars_of, string_of, find_chars, find_from, is_whitespace, spec_is_whitespace};
use crate::builtins::skip_spaces;

verus! {

/// The characters of `v[from..to]`.
fn slice_chars(v: &[char], from: usize, to: usize) -> (r: Vec<char>)
    requires
        from <= to <= v@.len(),
    ensures
        r@ == v@.subrange(from as int, to as int),
{
    let mut out: Vec<char> = Vec::new();
    let mut i = from;
    while i < to
        invariant
            from <= i <= to,
            to <= v@.len(),
            out@ == v@.subrange(from as int, i as int),
        decreases to - i,
    {
        out.push(v[i]);
        assert(out@ =~= v@.subrange(from as int, i + 1));
        i = i + 1;
    }
    out
}

proof fn lemma_skip_spaces_stop(s: Seq<char>, p: int)
    requires
        0 <= p,
    ensures
        skip_spaces(s, p) >= p,
        skip_spaces(s, p) < s.len() ==> !spec_is_whitespace(s[skip_spaces(s, p)]),
    decreases s.len() - p,
{
    if 0 <= p < s.len() && spec_is_whitespace(s[p]) {
        lemma_skip_spaces_stop(s, p + 1);
    }
}

/// The first position at or after `p` that is not whitespace, in a slice.
pub(crate) fn skip_ws_at(v: &Vec<char>, p: usize) -> (q: usize)
    requires
        p <= v@.len(),
    ensures
        q == skip_spaces(v@, p as int),
        p <= q <= v@.len(),
{
    let mut q = p;
    while q < v.len() && is_whitespace(v[q])
        invariant
            p <= q <= v@.len(),
            skip_spaces(v@, p as int) == skip_spaces(v@, q as int),
        decreases v.len() - q,
    {
        q = q + 1;
    }
    q
}

/// The string value of `"key"` in a JSON text, found the simple way: after the first
/// `"key"`, the first `:`, then optional whitespace, a string in double quotes (with
/// no escapes). `None` where the text is not of that shape.
pub open spec fn json_string_field(json: Seq<char>, key: Seq<char>) -> Option<Seq<char>> {
    let search = seq!['"'] + key + seq!['"'];
    match find_from(json, search, 0) {
        Some(pos) => {
            let rest = json.subrange(pos + search.len(), json.len() as int);
            match find_from(rest, seq![':'], 0) {
                Some(c) => {
                    let after = rest.subrange(c + 1, rest.len() as int);
                    let t = after.subrange(skip_spaces(after, 0), after.len() as int);
                    if t.len() > 0 && t[0] == '"' {
                        match find_from(t.subrange(1, t.len() as int), seq!['"'], 0) {
                            Some(end) => Some(t.subrange(1, end + 1)),
                            None => None,
                        }
                    } else {
                        None
                    }
                },
                None => None,
            }
        },
        None => None,
    }
}

/// The string value of `"key"` in a small JSON text such as `djs.json`.
pub fn extract_json_string(json: &str, key: &str) -> (r: Option<String>)
    ensures
        match json_string_field(json@, key@) {
            Some(v) => r matches Some(s) && s@ == v,
            None => r is None,
        },
{
    let j = chars_of(json);
    let k = chars_of(key);
    let mut search: Vec<char> = Vec::new();
    search.push('"');
    let mut i: usize = 0;
    while i < k.len()
        invariant
            i <= k@.len(),
            search@ == seq!['"'] + k@.take(i as int),
        decreases k.len() - i,
    {
        search.push(k[i]);
        assert(search@ =~= seq!['"'] + k@.take(i + 1));
        i = i + 1;
    }
    search.push('"');
    assert(search@ =~= seq!['"'] + key@ + seq!['"']);
    proof {
        crate::text::lemma_find_from(j@, search@, 0);
    }
    let ghost sv = seq!['"'] + key@ + seq!['"'];
    assert(j@ == json@);
    assert(search@ == sv);
    let pos = match find_chars(&j, &search, 0) {
        Some(p) => p,
        None => {
            assert(find_from(json@, sv, 0) is None);
            return None;
        },
    };
    assert(find_from(json@, sv, 0) == Some(pos as int));
    let n = j.len();
    assert(pos + search@.len() <= n);
    let rest = slice_chars(j.as_slice(), pos + search.len(), j.len());
    let colon_v = vec![':'];
    assert(colon_v@ =~= seq![':']);
    proof {
        crate::text::lemma_find_from(rest@, colon_v@, 0);
    }
    let c = match find_chars(&rest, &colon_v, 0) {
        Some(c) => c,
        None => {
            return None;
        },
    };
    let after = slice_chars(rest.as_slice(), c + 1, rest.len());
    let a = skip_ws_at(&after, 0);
    let t = slice_chars(after.as_slice(), a, after.len());
    if t.len() == 0 || t[0] != '"' {
        return None;
    }
    let inner = slice_chars(t.as_slice(), 1, t.len());
    let quote_v = vec!['"'];
    assert(quote_v@ =~= seq!['"']);
    proof {
        crate::text::lemma_find_from(inner@, quote_v@, 0);
    }
    match find_chars(&inner, &quote_v, 0) {
        Some(end) => {
            let v = slice_chars(t.as_slice(), 1, end + 1);
            Some(string_of(v.as_slice()))
        },
        None => None,
    }
}

/// The first `"` at or after `p`, or the length.
pub open spec fn close_quote(s: Seq<char>, p: int) -> int
    decreases s.len() - p,
{
    if 0 <= p < s.len() && s[p] != '"' {
        close_quote(s, p + 1)
    } else {
        p
    }
}

/// Where a bracketed value ends: scanning from `e` with `d` brackets open, `br`
/// opening and `cl` closing one, until none is open or the text ends.
pub open spec fn bracket_end(s: Seq<char>, br: char, cl: char, e: int, d: int) -> int
    decreases s.len() - e,
{
    if 0 <= e < s.len() && d > 0 {
        bracket_end(
            s,
            br,
            cl,
            e + 1,
            d + (if s[e] == br {
                1int
            } else {
                0
            }) - (if s[e] == cl {
                1int
            } else {
                0
            }),
        )
    } else {
        e
    }
}

/// The first `,`, `}` or `]` at or after `p`, or the length.
pub open spec fn scalar_end(s: Seq<char>, p: int) -> int
    decreases s.len() - p,
{
    if 0 <= p < s.len() && s[p] != ',' && s[p] != '}' && s[p] != ']' {
        scalar_end(s, p + 1)
    } else {
        p
    }
}

/// The end of `s[..q]` without its trailing whitespace.
pub open spec fn trim_end_at(s: Seq<char>, q: int) -> int
    decreases q,
{
    if 0 < q <= s.len() && spec_is_whitespace(s[q - 1]) {
        trim_end_at(s, q - 1)
    } else {
        q
    }
}

/// `s` without its leading and trailing whitespace (`str::trim`).
pub open spec fn trim(s: Seq<char>) -> Seq<char> {
    let a = skip_spaces(s, 0);
    if a >= s.len() {
        seq![]
    } else {
        s.subrange(a, trim_end_at(s, s.len() as int))
    }
}

/// The text of the JSON value at `start` and the position after it: a string up to
/// its closing quote, an object or array up to its matching bracket (or the end), or
/// anything else up to the next `,`, `}` or `]`, trimmed.
pub open spec fn json_value_at(s: Seq<char>, start: int) -> Result<(Seq<char>, int), ()> {
    if start >= s.len() {
        Err(())
    } else if s[start] == '"' {
        let e = close_quote(s, start + 1) + 1;
        Ok((s.subrange(start, e), e))
    } else if s[start] == '{' || s[start] == '[' {
        let cl = if s[start] == '{' {
            '}'
        } else {
            ']'
        };
        let e = bracket_end(s, s[start], cl, start + 1, 1);
        Ok((s.subrange(start, e), e))
    } else {
        let e = scalar_end(s, start);
        Ok((trim(s.subrange(start, e)), e))
    }
}

proof fn lemma_trim_end_at(s: Seq<char>, q: int, a: int)
    requires
        0 <= a < q <= s.len(),
        !spec_is_whitespace(s[a]),
    ensures
        a < trim_end_at(s, q) <= q,
    decreases q,
{
    if spec_is_whitespace(s[q - 1]) {
        lemma_trim_end_at(s, q - 1, a);
    }
}

/// `v` trimmed, as `str::trim` trims.
pub fn trim_vec(v: &Vec<char>) -> (r: Vec<char>)
    ensures
        r@ == trim(v@),
{
    let a = skip_ws_at(v, 0);
    proof {
        lemma_skip_spaces_stop(v@, 0);
    }
    if a >= v.len() {
        let r: Vec<char> = Vec::new();
        assert(r@ =~= Seq::<char>::empty());
        return r;
    }
    let mut b = v.len();
    assert(!spec_is_whitespace(v@[a as int]));
    while is_whitespace(v[b - 1])
        invariant
            a < b <= v@.len(),
            !spec_is_whitespace(v@[a as int]),
            trim_end_at(v@, v@.len() as int) == trim_end_at(v@, b as int),
        decreases b,
    {
        b = b - 1;
    }
    slice_chars(v.as_slice(), a, b)
}

/// The text of the JSON value at `start` and the position after it; the error
/// "Unexpected end" at the end of the text. A string value must be closed.
pub fn json_extract_value(chars: &[char], start: usize) -> (r: Result<(String, usize), String>)
    requires
        start < chars@.len() && chars@[start as int] == '"' ==> close_quote(chars@, start + 1)
            < chars@.len(),
    ensures
        match json_value_at(chars@, start as int) {
            Ok((v, e)) => r matches Ok((x, f)) && x@ == v && f == e,
            Err(_) => r matches Err(m) && m@ == "Unexpected end"@,
        },
{
    if start >= chars.len() {
        return Err("Unexpected end".to_string());
    }
    if chars[start] == '"' {
        let mut end = start + 1;
        while end < chars.len() && chars[end] != '"'
            invariant
                start < end <= chars@.len(),
                close_quote(chars@, start + 1) == close_quote(chars@, end as int),
            decreases chars.len() - end,
        {
            end = end + 1;
        }
        end = end + 1;
        let v = slice_chars(chars, start, end);
        Ok((string_of(v.as_slice()), end))
    } else if chars[start] == '{' || chars[start] == '[' {
        let br = chars[start];
        let cl = if br == '{' {
            '}'
        } else {
            ']'
        };
        let mut d: usize = 1;
        let mut end = start + 1;
        while end < chars.len() && d > 0
            invariant
                start < end <= chars@.len(),
                d <= end - start,
                bracket_end(chars@, br, cl, start + 1, 1) == bracket_end(
                    chars@,
                    br,
                    cl,
                    end as int,
                    d as int,
                ),
            decreases chars.len() - end,
        {
            if chars[end] == br {
                d = d + 1;
            }
            if chars[end] == cl {
                d = d - 1;
            }
            end = end + 1;
        }
        let v = slice_chars(chars, start, end);
        Ok((string_of(v.as_slice()), end))
    } else {
        let mut end = start;
        while end < chars.len() && chars[end] != ',' && chars[end] != '}' && chars[end] != ']'
            invariant
                start <= end <= chars@.len(),
                scalar_end(chars@, start as int) == scalar_end(chars@, end as int),
            decreases chars.len() - end,
        {
            end = end + 1;
        }
        let v = slice_chars(chars, start, end);
        let t = trim_vec(&v);
        Ok((string_of(t.as_slice()), end))
    }
}

} // verus!
