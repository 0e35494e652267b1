//! Character classes and conversions between `str`, `String` and `Vec<char>`.
use vstd::prelude::*;

verus! {

/// Unicode `White_Space`, the property that `char::is_whitespace` reports.
pub open spec fn spec_is_whitespace(c: char) -> bool {
    let u = c as u32;
    ||| 0x09 <= u <= 0x0d
    ||| u == 0x20
    ||| u == 0x85
    ||| u == 0xa0
    ||| u == 0x1680
    ||| 0x2000 <= u <= 0x200a
    ||| u == 0x2028
    ||| u == 0x2029
    ||| u == 0x202f
    ||| u == 0x205f
    ||| u == 0x3000
}

/// An ASCII decimal digit (`char::is_digit(10)`).
pub open spec fn spec_is_digit(c: char) -> bool {
    '0' <= c <= '9'
}

/// An ASCII letter.
pub open spec fn spec_is_ascii_letter(c: char) -> bool {
    ('a' <= c <= 'z') || ('A' <= c <= 'Z')
}

/// Whether `c` has the Unicode `Alphabetic` property (`char::is_alphabetic`).
pub uninterp spec fn char_alphabetic(c: char) -> bool;

/// Whether `c` is alphabetic or numeric in Unicode's sense (`char::is_alphanumeric`).
pub uninterp spec fn char_alphanumeric(c: char) -> bool;

/// Decides `White_Space` membership, as `char::is_whitespace` does.
pub fn is_whitespace(c: char) -> (r: bool)
    ensures
        r == spec_is_whitespace(c),
{
    let u = c as u32;
    (0x09 <= u && u <= 0x0d) || u == 0x20 || u == 0x85 || u == 0xa0 || u == 0x1680 || (0x2000
        <= u && u <= 0x200a) || u == 0x2028 || u == 0x2029 || u == 0x202f || u == 0x205f || u
        == 0x3000
}

/// Decides whether `c` is an ASCII decimal digit.
pub fn is_digit(c: char) -> (r: bool)
    ensures
        r == spec_is_digit(c),
{
    '0' <= c && c <= '9'
}

/// Calls `char::is_alphabetic`. The contract names the result; of ASCII characters it
/// states what the documentation states: exactly the letters are alphabetic. Which
/// other characters have the property is left to the Unicode tables.
#[verifier::external_body]
pub(crate) fn is_alphabetic(c: char) -> (r: bool)
    ensures
        r == char_alphabetic(c),
        r ==> char_alphanumeric(c),
        (c as u32) < 128 ==> (r <==> spec_is_ascii_letter(c)),
{
    c.is_alphabetic()
}

/// Calls `char::is_alphanumeric`. The contract names the result; of ASCII characters it
/// states what the documentation states: exactly the letters and the decimal digits
/// qualify. Other characters are left to the Unicode tables.
#[verifier::external_body]
pub(crate) fn is_alphanumeric(c: char) -> (r: bool)
    ensures
        r == char_alphanumeric(c),
        (c as u32) < 128 ==> (r <==> (spec_is_ascii_letter(c) || spec_is_digit(c))),
{
    c.is_alphanumeric()
}

/// The characters of `s`, in order.
pub fn chars_of(s: &str) -> (v: Vec<char>)
    ensures
        v@ == s@,
{
    broadcast use vstd::string::axiom_spec_iter;
    let mut v: Vec<char> = Vec::new();
    for c in it: s.chars()
        invariant
            v@ == it.seq().take(it.index() as int),
    {
        v.push(c);
    }
    v
}

/// Appends a character to a string (`String::push`).
#[verifier::external_body]
fn push_char(s: &mut String, c: char)
    ensures
        final(s)@ == old(s)@.push(c),
{
    s.push(c);
}

/// A `String` of the given characters, in order.
pub fn string_of(v: &[char]) -> (s: String)
    ensures
        s@ == v@,
{
    let mut s = String::new();
    let mut i: usize = 0;
    while i < v.len()
        invariant
            i <= v@.len(),
            s@ == v@.take(i as int),
        decreases v.len() - i,
    {
        push_char(&mut s, v[i]);
        assert(s@ =~= v@.take(i + 1));
        i = i + 1;
    }
    assert(v@.take(v@.len() as int) =~= v@);
    s
}

/// Copies the characters of `s[from..to]` into a new `String`.
pub fn string_of_range(s: &Vec<char>, from: usize, to: usize) -> (r: String)
    requires
        from <= to <= s@.len(),
    ensures
        r@ == s@.subrange(from as int, to as int),
{
    let mut v: Vec<char> = Vec::new();
    let mut i = from;
    while i < to
        invariant
            from <= i <= to <= s@.len(),
            v@ == s@.subrange(from as int, i as int),
        decreases to - i,
    {
        v.push(s[i]);
        i = i + 1;
    }
    string_of(v.as_slice())
}

/// The characters of `s` as a `Vec`.
pub fn chars_of_string(s: &String) -> (v: Vec<char>)
    ensures
        v@ == s@,
{
    chars_of(s.as_str())
}

/// Whether the characters of `v` equal those of `lit`.
pub fn chars_eq_str(v: &Vec<char>, lit: &str) -> (r: bool)
    ensures
        r == (v@ == lit@),
{
    let w = chars_of(lit);
    chars_eq(v, &w)
}

/// Whether two character vectors hold the same characters.
pub fn chars_eq(v: &Vec<char>, w: &Vec<char>) -> (r: bool)
    ensures
        r == (v@ == w@),
{
    if v.len() != w.len() {
        return false;
    }
    let mut i: usize = 0;
    while i < v.len()
        invariant
            v@.len() == w@.len(),
            i <= v@.len(),
            forall|j: int| 0 <= j < i ==> v@[j] == w@[j],
        decreases v.len() - i,
    {
        if v[i] != w[i] {
            return false;
        }
        i = i + 1;
    }
    assert(v@ =~= w@);
    true
}

/// Concatenates two strings.
pub fn concat(a: &String, b: &str) -> (r: String)
    ensures
        r@ == a@ + b@,
{
    let mut v = chars_of_string(a);
    let w = chars_of(b);
    let mut i: usize = 0;
    while i < w.len()
        invariant
            i <= w@.len(),
            v@ == a@ + w@.subrange(0, i as int),
        decreases w.len() - i,
    {
        v.push(w[i]);
        i = i + 1;
    }
    assert(w@.subrange(0, w@.len() as int) =~= w@);
    string_of(v.as_slice())
}

/// The character of a decimal digit.
pub open spec fn digit_char(d: nat) -> char {
    seq!['0', '1', '2', '3', '4', '5', '6', '7', '8', '9'][d as int]
}

/// The decimal digits of `n`, most significant first, without leading zeros.
pub open spec fn dec_digits(n: nat) -> Seq<char>
    decreases n,
{
    if n < 10 {
        seq![digit_char(n)]
    } else {
        dec_digits(n / 10).push(digit_char(n % 10))
    }
}

fn push_decimal(n: u64, out: &mut Vec<char>)
    ensures
        final(out)@ == old(out)@ + dec_digits(n as nat),
    decreases n,
{
    let digits = ['0', '1', '2', '3', '4', '5', '6', '7', '8', '9'];
    if n >= 10 {
        push_decimal(n / 10, out);
    }
    let d = (n % 10) as usize;
    out.push(digits[d]);
    proof {
        assert(digits@ =~= seq!['0', '1', '2', '3', '4', '5', '6', '7', '8', '9']);
        if n >= 10 {
            assert(dec_digits(n as nat) == dec_digits((n / 10) as nat).push(digit_char((n % 10) as nat)));
        }
    }
    assert(final(out)@ =~= old(out)@ + dec_digits(n as nat));
}

/// `n` written in decimal.
pub fn decimal(n: u64) -> (s: String)
    ensures
        s@ == dec_digits(n as nat),
{
    let mut v: Vec<char> = Vec::new();
    push_decimal(n, &mut v);
    assert(v@ =~= dec_digits(n as nat));
    string_of(v.as_slice())
}

/// The number of bytes that `c` takes in UTF-8.
pub open spec fn utf8_width(c: char) -> nat {
    if (c as u32) < 0x80 {
        1
    } else if (c as u32) < 0x800 {
        2
    } else if (c as u32) < 0x10000 {
        3
    } else {
        4
    }
}

/// The number of bytes that `s` takes in UTF-8.
pub open spec fn utf8_len(s: Seq<char>) -> nat
    decreases s.len(),
{
    if s.len() == 0 {
        0
    } else {
        utf8_len(s.drop_last()) + utf8_width(s.last())
    }
}

/// The UTF-8 length of `s`, as `str::len` counts it.
pub fn byte_len(s: &str) -> (n: u64)
    requires
        utf8_len(s@) <= u64::MAX,
    ensures
        n == utf8_len(s@),
{
    let v = chars_of(s);
    let mut n: u64 = 0;
    let mut i: usize = 0;
    while i < v.len()
        invariant
            i <= v@.len(),
            v@ == s@,
            utf8_len(s@) <= u64::MAX,
            n == utf8_len(v@.take(i as int)),
        decreases v.len() - i,
    {
        assert(v@.take(i + 1).drop_last() =~= v@.take(i as int));
        proof {
            lemma_utf8_len_prefix(v@, i + 1);
        }
        let u = v[i] as u32;
        let w: u64 = if u < 0x80 {
            1
        } else if u < 0x800 {
            2
        } else if u < 0x10000 {
            3
        } else {
            4
        };
        n = n + w;
        i = i + 1;
    }
    assert(v@.take(v@.len() as int) =~= v@);
    n
}

/// A prefix takes no more bytes than the whole.
pub proof fn lemma_utf8_len_prefix(s: Seq<char>, k: int)
    requires
        0 <= k <= s.len(),
    ensures
        utf8_len(s.take(k)) <= utf8_len(s),
    decreases s.len() - k,
{
    if k < s.len() {
        lemma_utf8_len_prefix(s, k + 1);
        assert(s.take(k + 1).drop_last() =~= s.take(k));
    } else {
        assert(s.take(k) =~= s);
    }
}

/// The first position at or after `p` where `needle` occurs in `hay`.
pub open spec fn find_from(hay: Seq<char>, needle: Seq<char>, p: int) -> Option<int>
    decreases hay.len() + 1 - p,
{
    if p < 0 || p + needle.len() > hay.len() {
        None
    } else if hay.subrange(p, p + needle.len()) == needle {
        Some(p)
    } else {
        find_from(hay, needle, p + 1)
    }
}

/// Where `find_from` finds the needle, it occurs, and not before.
pub proof fn lemma_find_from(hay: Seq<char>, needle: Seq<char>, p: int)
    requires
        0 <= p,
    ensures
        find_from(hay, needle, p) matches Some(i) ==> p <= i && i + needle.len() <= hay.len()
            && hay.subrange(i, i + needle.len()) == needle,
    decreases hay.len() + 1 - p,
{
    if p + needle.len() <= hay.len() && hay.subrange(p, p + needle.len()) != needle {
        lemma_find_from(hay, needle, p + 1);
    }
}

/// Whether `needle` occurs in `hay` at `i`.
fn occurs_at(hay: &Vec<char>, needle: &Vec<char>, i: usize) -> (b: bool)
    requires
        i + needle@.len() <= hay@.len(),
    ensures
        b == (hay@.subrange(i as int, i + needle@.len()) == needle@),
{
    let n = hay.len();
    let mut j: usize = 0;
    while j < needle.len()
        invariant
            j <= needle@.len(),
            n == hay@.len(),
            i + needle@.len() <= n,
            forall|m: int| 0 <= m < j ==> hay@[i + m] == needle@[m],
        decreases needle.len() - j,
    {
        if hay[i + j] != needle[j] {
            assert(hay@.subrange(i as int, i + needle@.len())[j as int] != needle@[j as int]);
            return false;
        }
        j = j + 1;
    }
    assert(hay@.subrange(i as int, i + needle@.len()) =~= needle@);
    true
}

/// The first position at or after `from` where `needle` occurs in `hay`.
pub fn find_chars(hay: &Vec<char>, needle: &Vec<char>, from: usize) -> (r: Option<usize>)
    ensures
        r matches Some(i) ==> find_from(hay@, needle@, from as int) == Some(i as int),
        r is None ==> find_from(hay@, needle@, from as int) is None,
{
    if needle.len() > hay.len() {
        return None;
    }
    if needle.len() == 0 {
        if from <= hay.len() {
            assert(hay@.subrange(from as int, from as int) =~= needle@);
            return Some(from);
        }
        return None;
    }
    let n = hay.len();
    let last = n - needle.len();
    let mut i = from;
    while i <= last
        invariant
            from <= i,
            needle@.len() > 0,
            n == hay@.len(),
            last == n - needle@.len(),
            find_from(hay@, needle@, from as int) == find_from(hay@, needle@, i as int),
        decreases last + 1 - i,
    {
        if occurs_at(hay, needle, i) {
            return Some(i);
        }
        i = i + 1;
    }
    None
}


/// The lowercase hexadecimal digit for `d` (below 16).
pub open spec fn hex_digit(d: int) -> char {
    seq!['0', '1', '2', '3', '4', '5', '6', '7', '8', '9', 'a', 'b', 'c', 'd', 'e', 'f'][d]
}

/// `n` (below 256) in lowercase hexadecimal, without leading zeros.
pub open spec fn hex_byte(n: int) -> Seq<char> {
    if n < 16 {
        seq![hex_digit(n)]
    } else {
        seq![hex_digit(n / 16), hex_digit(n % 16)]
    }
}

/// What `char::escape_debug` writes for `c`.
pub uninterp spec fn char_escape_debug(c: char) -> Seq<char>;

/// Calls `char::escape_debug`. The contract names the result, which depends on the
/// character alone; which characters are escaped, and how, is left to Unicode's tables
/// and is not stated.
#[verifier::external_body]
fn escape_debug_of(c: char) -> (r: String)
    ensures
        r@ == char_escape_debug(c),
{
    c.escape_debug().to_string()
}

/// How `c` is written inside a quoted string in a diagnostic, as a string's `Debug`
/// writes it: of the ASCII characters, quote, backslash and the control characters
/// are escaped and the rest written as they are; any other character is written as
/// `char::escape_debug` writes it.
pub open spec fn escaped_char(c: char) -> Seq<char> {
    let u = c as u32;
    if u >= 0x80 {
        char_escape_debug(c)
    } else if c == '"' {
        seq!['\\', '"']
    } else if c == '\\' {
        seq!['\\', '\\']
    } else if c == '\n' {
        seq!['\\', 'n']
    } else if c == '\r' {
        seq!['\\', 'r']
    } else if c == '\t' {
        seq!['\\', 't']
    } else if u == 0 {
        seq!['\\', '0']
    } else if u < 0x20 || u == 0x7f {
        seq!['\\', 'u', '{'] + hex_byte(u as int) + seq!['}']
    } else {
        seq![c]
    }
}

/// The characters of `s`, each written as [`escaped_char`] writes it.
pub open spec fn escaped(s: Seq<char>) -> Seq<char>
    decreases s.len(),
{
    if s.len() == 0 {
        seq![]
    } else {
        escaped(s.drop_last()) + escaped_char(s.last())
    }
}

fn hex_digit_of(d: u32) -> (c: char)
    requires
        d < 16,
    ensures
        c == hex_digit(d as int),
{
    match d {
        0 => '0',
        1 => '1',
        2 => '2',
        3 => '3',
        4 => '4',
        5 => '5',
        6 => '6',
        7 => '7',
        8 => '8',
        9 => '9',
        10 => 'a',
        11 => 'b',
        12 => 'c',
        13 => 'd',
        14 => 'e',
        _ => 'f',
    }
}

/// Appends `c` to `out` as [`escaped_char`] writes it.
fn push_escaped(out: &mut String, c: char)
    ensures
        final(out)@ == old(out)@ + escaped_char(c),
{
    let u = c as u32;
    let ghost before = out@;
    if u >= 0x80 {
        let e = escape_debug_of(c);
        let ev = chars_of_string(&e);
        let mut i: usize = 0;
        while i < ev.len()
            invariant
                i <= ev@.len(),
                ev@ == e@,
                out@ == before + ev@.take(i as int),
            decreases ev.len() - i,
        {
            push_char(out, ev[i]);
            assert(out@ =~= before + ev@.take(i + 1));
            i = i + 1;
        }
        assert(ev@.take(ev@.len() as int) =~= ev@);
    } else if c == '"' {
        push_char(out, '\\');
        push_char(out, '"');
    } else if c == '\\' {
        push_char(out, '\\');
        push_char(out, '\\');
    } else if c == '\n' {
        push_char(out, '\\');
        push_char(out, 'n');
    } else if c == '\r' {
        push_char(out, '\\');
        push_char(out, 'r');
    } else if c == '\t' {
        push_char(out, '\\');
        push_char(out, 't');
    } else if u == 0 {
        push_char(out, '\\');
        push_char(out, '0');
    } else if u < 0x20 || u == 0x7f {
        push_char(out, '\\');
        push_char(out, 'u');
        push_char(out, '{');
        if u >= 16 {
            push_char(out, hex_digit_of(u / 16));
        }
        push_char(out, hex_digit_of(u % 16));
        push_char(out, '}');
    } else {
        push_char(out, c);
    }
    assert(out@ =~= before + escaped_char(c));
}

/// The characters of `s`, each written as [`escaped_char`] writes it.
pub fn escape_text(s: &str) -> (r: String)
    ensures
        r@ == escaped(s@),
{
    let v = chars_of(s);
    let mut out = String::new();
    let mut i: usize = 0;
    while i < v.len()
        invariant
            i <= v@.len(),
            v@ == s@,
            out@ == escaped(v@.take(i as int)),
        decreases v.len() - i,
    {
        push_escaped(&mut out, v[i]);
        assert(v@.take(i + 1).drop_last() =~= v@.take(i as int));
        i = i + 1;
    }
    assert(v@.take(v@.len() as int) =~= v@);
    out
}

} // verus!
