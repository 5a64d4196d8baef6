//! The lexical level of model files: white space, identifiers, keywords,
//! symbols, integer and string literals. Each reader takes the text and a
//! position and gives back what it read and the position after it.
use vstd::prelude::*;
use crate::bignum::{BigNat, BigInt, decimal_value, nat_from_decimal};
use crate::text::string_from_chars;

verus! {

/// White space: space, tab, carriage return, line feed.
pub open spec fn is_space(c: char) -> bool {
    c == ' ' || c == '\t' || c == '\r' || c == '\n'
}

/// A decimal digit.
pub open spec fn is_digit(c: char) -> bool {
    '0' <= c && c <= '9'
}

/// An ASCII letter or digit.
pub open spec fn is_alnum(c: char) -> bool {
    ('a' <= c && c <= 'z') || ('A' <= c && c <= 'Z') || is_digit(c)
}

/// The position after the white space that starts at `p`.
pub open spec fn skip_space(s: Seq<char>, p: int) -> int
    decreases s.len() - p,
{
    if 0 <= p < s.len() && is_space(s[p]) {
        skip_space(s, p + 1)
    } else {
        p
    }
}

/// The position after the letters and digits that start at `p`.
pub open spec fn alnum_end(s: Seq<char>, p: int) -> int
    decreases s.len() - p,
{
    if 0 <= p < s.len() && is_alnum(s[p]) {
        alnum_end(s, p + 1)
    } else {
        p
    }
}

/// The position after the digits that start at `p`.
pub open spec fn digits_end(s: Seq<char>, p: int) -> int
    decreases s.len() - p,
{
    if 0 <= p < s.len() && is_digit(s[p]) {
        digits_end(s, p + 1)
    } else {
        p
    }
}

/// The value of a decimal digit.
pub open spec fn digit_value(c: char) -> u8 {
    ((c as u32) - ('0' as u32)) as u8
}

/// The values of decimal digits.
pub open spec fn digit_values(cs: Seq<char>) -> Seq<u8> {
    cs.map_values(|c: char| digit_value(c))
}

/// An identifier after optional white space: one or more letters or digits.
pub open spec fn identifier_spec(s: Seq<char>, p: int) -> Option<(Seq<char>, int)> {
    let a = skip_space(s, p);
    let b = alnum_end(s, a);
    if b > a {
        Some((s.subrange(a, b), b))
    } else {
        None
    }
}

/// The text `w` stands at position `p`.
pub open spec fn text_at(s: Seq<char>, p: int, w: Seq<char>) -> bool {
    0 <= p && p + w.len() <= s.len() && s.subrange(p, p + w.len()) == w
}

/// The word `w` after optional white space (no white space needed after it).
pub open spec fn tag_spec(s: Seq<char>, p: int, w: Seq<char>) -> Option<int> {
    let a = skip_space(s, p);
    if text_at(s, a, w) {
        Some(a + w.len())
    } else {
        None
    }
}

/// The keyword `w` after optional white space, and at least one white space
/// character after it.
pub open spec fn keyword_spec(s: Seq<char>, p: int, w: Seq<char>) -> Option<int> {
    let a = skip_space(s, p);
    if text_at(s, a, w) {
        let b = a + w.len();
        let c = skip_space(s, b);
        if c > b {
            Some(c)
        } else {
            None
        }
    } else {
        None
    }
}

/// The character `c` after optional white space.
pub open spec fn symbol_spec(s: Seq<char>, p: int, c: char) -> Option<int> {
    let a = skip_space(s, p);
    if 0 <= a < s.len() && s[a] == c {
        Some(a + 1)
    } else {
        None
    }
}

/// A natural number after optional white space: a single `0`, or a digit
/// other than `0` and all the digits after it.
pub open spec fn biguint_spec(s: Seq<char>, p: int) -> Option<(nat, int)> {
    let a = skip_space(s, p);
    if 0 <= a < s.len() && is_digit(s[a]) {
        if s[a] == '0' {
            Some((0, a + 1))
        } else {
            let b = digits_end(s, a);
            Some((decimal_value(digit_values(s.subrange(a, b))), b))
        }
    } else {
        None
    }
}

/// An integer after optional white space: an optional `+` or `-`, then a
/// natural number.
pub open spec fn bigint_spec(s: Seq<char>, p: int) -> Option<(int, int)> {
    let a = skip_space(s, p);
    let signed = 0 <= a < s.len() && (s[a] == '+' || s[a] == '-');
    let negative = signed && s[a] == '-';
    let b = if signed { a + 1 } else { a };
    match biguint_spec(s, b) {
        Some((n, q)) => Some((if negative { -(n as int) } else { n as int }, q)),
        None => None,
    }
}

/// What a backslash followed by `c` stands for in a string literal, if it
/// is an escape: `\\`, `\"`, a backslash before a line feed (read as `n`),
/// and one before a carriage return.
pub open spec fn escape_value(c: char) -> Option<char> {
    if c == '\\' {
        Some('\\')
    } else if c == '"' {
        Some('"')
    } else if c == '\n' {
        Some('n')
    } else if c == '\r' {
        Some('\r')
    } else {
        None
    }
}

/// The rest of a string literal from position `q`, after the characters
/// `acc` were read: characters other than a quote, a backslash, a carriage
/// return or a line feed, and escapes, up to the closing quote.
pub open spec fn string_rest_spec(s: Seq<char>, q: int, acc: Seq<char>) -> Option<(Seq<char>, int)>
    decreases s.len() - q,
{
    if q < 0 || q >= s.len() {
        None
    } else if s[q] == '"' {
        Some((acc, q + 1))
    } else if s[q] == '\\' {
        if q + 1 < s.len() && escape_value(s[q + 1]) is Some {
            string_rest_spec(s, q + 2, acc.push(escape_value(s[q + 1]).unwrap()))
        } else {
            None
        }
    } else if s[q] == '\r' || s[q] == '\n' {
        None
    } else {
        string_rest_spec(s, q + 1, acc.push(s[q]))
    }
}

/// A string literal after optional white space.
pub open spec fn string_spec(s: Seq<char>, p: int) -> Option<(Seq<char>, int)> {
    let a = skip_space(s, p);
    if 0 <= a < s.len() && s[a] == '"' {
        string_rest_spec(s, a + 1, Seq::empty())
    } else {
        None
    }
}

/// Skipping white space never goes back or past the end.
pub proof fn lemma_skip_space(s: Seq<char>, p: int)
    requires
        0 <= p <= s.len(),
    ensures
        p <= skip_space(s, p) <= s.len(),
        skip_space(s, p) < s.len() ==> !is_space(s[skip_space(s, p)]),
    decreases s.len() - p,
{
    if p < s.len() && is_space(s[p]) {
        lemma_skip_space(s, p + 1);
    }
}

/// Each lexical reader moves forward and stays within the text.
pub proof fn lemma_lexical_progress(s: Seq<char>, p: int, w: Seq<char>, c: char)
    requires
        0 <= p <= s.len(),
    ensures
        identifier_spec(s, p) matches Some((_, q)) ==> p < q <= s.len(),
        tag_spec(s, p, w) matches Some(q) ==> p <= q <= s.len(),
        keyword_spec(s, p, w) matches Some(q) ==> p < q <= s.len(),
        symbol_spec(s, p, c) matches Some(q) ==> p < q <= s.len(),
        biguint_spec(s, p) matches Some((_, q)) ==> p < q <= s.len(),
        bigint_spec(s, p) matches Some((_, q)) ==> p < q <= s.len(),
        string_spec(s, p) matches Some((_, q)) ==> p < q <= s.len(),
{
    lemma_skip_space(s, p);
    let a = skip_space(s, p);
    lemma_alnum_end(s, a);
    lemma_digits_end(s, a);
    if text_at(s, a, w) {
        lemma_skip_space(s, a + w.len());
    }
    let signed = 0 <= a < s.len() && (s[a] == '+' || s[a] == '-');
    let b = if signed { a + 1 } else { a };
    lemma_skip_space(s, b);
    lemma_digits_end(s, skip_space(s, b));
    if 0 <= a < s.len() && s[a] == '"' {
        lemma_string_rest(s, a + 1, Seq::empty());
    }
}

/// Reading letters and digits stays within the text.
pub proof fn lemma_alnum_end(s: Seq<char>, p: int)
    requires
        0 <= p <= s.len(),
    ensures
        p <= alnum_end(s, p) <= s.len(),
        forall|i: int| p <= i < alnum_end(s, p) ==> is_alnum(s[i]),
    decreases s.len() - p,
{
    if p < s.len() && is_alnum(s[p]) {
        lemma_alnum_end(s, p + 1);
    }
}

/// Reading digits stays within the text.
pub proof fn lemma_digits_end(s: Seq<char>, p: int)
    requires
        0 <= p <= s.len(),
    ensures
        p <= digits_end(s, p) <= s.len(),
        p < s.len() && is_digit(s[p]) ==> p < digits_end(s, p),
        forall|i: int| p <= i < digits_end(s, p) ==> is_digit(s[i]),
    decreases s.len() - p,
{
    if p < s.len() && is_digit(s[p]) {
        lemma_digits_end(s, p + 1);
    }
}

/// The rest of a string literal ends after where it starts.
pub proof fn lemma_string_rest(s: Seq<char>, q: int, acc: Seq<char>)
    requires
        0 <= q,
    ensures
        string_rest_spec(s, q, acc) matches Some((_, e)) ==> q < e <= s.len(),
    decreases s.len() - q,
{
    if 0 <= q < s.len() && s[q] != '"' {
        if s[q] == '\\' {
            if q + 1 < s.len() && escape_value(s[q + 1]) is Some {
                lemma_string_rest(s, q + 2, acc.push(escape_value(s[q + 1]).unwrap()));
            }
        } else if !(s[q] == '\r' || s[q] == '\n') {
            lemma_string_rest(s, q + 1, acc.push(s[q]));
        }
    }
}

/// Skips white space.
pub fn skip_space_exec(s: &Vec<char>, p: usize) -> (r: usize)
    requires
        p <= s@.len(),
    ensures
        r == skip_space(s@, p as int),
        p <= r <= s@.len(),
{
    proof {
        lemma_skip_space(s@, p as int);
    }
    let mut i = p;
    while i < s.len() && (s[i] == ' ' || s[i] == '\t' || s[i] == '\r' || s[i] == '\n')
        invariant
            p <= i <= s@.len(),
            skip_space(s@, p as int) == skip_space(s@, i as int),
        decreases s@.len() - i,
    {
        i = i + 1;
    }
    i
}

/// Whether `c` is an ASCII letter or digit.
fn is_alnum_exec(c: char) -> (r: bool)
    ensures
        r == is_alnum(c),
{
    ('a' <= c && c <= 'z') || ('A' <= c && c <= 'Z') || ('0' <= c && c <= '9')
}

/// Reads an identifier.
pub fn identifier_exec(s: &Vec<char>, p: usize) -> (r: Option<(String, usize)>)
    requires
        p <= s@.len(),
    ensures
        match identifier_spec(s@, p as int) {
            None => r is None,
            Some((w, q)) => r matches Some((rw, rq)) && rw@ == w && rq == q,
        },
        r matches Some((_, q)) ==> p < q <= s@.len(),
{
    let a = skip_space_exec(s, p);
    let mut b = a;
    while b < s.len() && is_alnum_exec(s[b])
        invariant
            a <= b <= s@.len(),
            alnum_end(s@, a as int) == alnum_end(s@, b as int),
        decreases s@.len() - b,
    {
        b = b + 1;
    }
    if b > a {
        Some((string_from_chars(s, a, b), b))
    } else {
        None
    }
}

/// Whether the text `w` stands at position `p`.
pub fn text_at_exec(s: &Vec<char>, p: usize, w: &str) -> (r: bool)
    requires
        p <= s@.len(),
    ensures
        r == text_at(s@, p as int, w@),
{
    let wc = crate::text::chars_of(w);
    let n = s.len();
    if wc.len() > n - p {
        return false;
    }
    let mut i: usize = 0;
    while i < wc.len()
        invariant
            n == s@.len(),
            p + wc@.len() <= s@.len(),
            wc@ == w@,
            i <= wc@.len(),
            forall|j: int| 0 <= j < i ==> s@[p + j] == wc@[j],
        decreases wc@.len() - i,
    {
        if s[p + i] != wc[i] {
            assert(s@.subrange(p as int, p + w@.len())[i as int] != w@[i as int]);
            return false;
        }
        i = i + 1;
    }
    assert(s@.subrange(p as int, p + w@.len()) =~= w@);
    true
}

/// Reads the word `w` after optional white space.
pub fn tag_exec(s: &Vec<char>, p: usize, w: &str) -> (r: Option<usize>)
    requires
        p <= s@.len(),
    ensures
        match tag_spec(s@, p as int, w@) { None => r is None, Some(q) => r matches Some(rq) && rq as int == q },
        r matches Some(q) ==> p <= q <= s@.len(),
{
    let n = s.len();
    let a = skip_space_exec(s, p);
    if text_at_exec(s, a, w) {
        Some(a + w.unicode_len())
    } else {
        None
    }
}

/// Reads the keyword `w`, which must be followed by white space.
pub fn keyword_exec(s: &Vec<char>, p: usize, w: &str) -> (r: Option<usize>)
    requires
        p <= s@.len(),
    ensures
        match keyword_spec(s@, p as int, w@) { None => r is None, Some(q) => r matches Some(rq) && rq as int == q },
        r matches Some(q) ==> p < q <= s@.len(),
{
    let n = s.len();
    let a = skip_space_exec(s, p);
    if text_at_exec(s, a, w) {
        let b = a + w.unicode_len();
        let c = skip_space_exec(s, b);
        if c > b {
            Some(c)
        } else {
            None
        }
    } else {
        None
    }
}

/// Reads the character `c` after optional white space.
pub fn symbol_exec(s: &Vec<char>, p: usize, c: char) -> (r: Option<usize>)
    requires
        p <= s@.len(),
    ensures
        match symbol_spec(s@, p as int, c) { None => r is None, Some(q) => r matches Some(rq) && rq as int == q },
        r matches Some(q) ==> p < q <= s@.len(),
{
    let a = skip_space_exec(s, p);
    if a < s.len() && s[a] == c {
        Some(a + 1)
    } else {
        None
    }
}

/// Reads a natural number.
pub fn biguint_exec(s: &Vec<char>, p: usize) -> (r: Option<(BigNat, usize)>)
    requires
        p <= s@.len(),
    ensures
        match biguint_spec(s@, p as int) {
            None => r is None,
            Some((n, q)) => r matches Some((rn, rq)) && rn@ == n && rq == q,
        },
        r matches Some((_, q)) ==> p < q <= s@.len(),
{
    let a = skip_space_exec(s, p);
    if !(a < s.len() && '0' <= s[a] && s[a] <= '9') {
        return None;
    }
    if s[a] == '0' {
        return Some((BigNat::zero(), a + 1));
    }
    let mut digits: Vec<u8> = Vec::new();
    let mut b = a;
    while b < s.len() && '0' <= s[b] && s[b] <= '9'
        invariant
            a <= b <= s@.len(),
            digits_end(s@, a as int) == digits_end(s@, b as int),
            digits@ == digit_values(s@.subrange(a as int, b as int)),
            forall|i: int| 0 <= i < digits@.len() ==> digits@[i] < 10,
        decreases s@.len() - b,
    {
        let d: u8 = (s[b] as u32 - '0' as u32) as u8;
        digits.push(d);
        assert(s@.subrange(a as int, b + 1) =~= s@.subrange(a as int, b as int).push(s@[b as int]));
        assert(digit_values(s@.subrange(a as int, b + 1)) =~= digit_values(s@.subrange(a as int, b as int)).push(digit_value(s@[b as int])));
        b = b + 1;
    }
    Some((nat_from_decimal(&digits), b))
}

/// Reads an integer with an optional sign.
pub fn bigint_exec(s: &Vec<char>, p: usize) -> (r: Option<(BigInt, usize)>)
    requires
        p <= s@.len(),
    ensures
        match bigint_spec(s@, p as int) {
            None => r is None,
            Some((n, q)) => r matches Some((rn, rq)) && rn@ == n && rq == q,
        },
        r matches Some((_, q)) ==> p < q <= s@.len(),
{
    let a = skip_space_exec(s, p);
    let signed = a < s.len() && (s[a] == '+' || s[a] == '-');
    let negative = signed && s[a] == '-';
    let b = if signed { a + 1 } else { a };
    match biguint_exec(s, b) {
        Some((n, q)) => Some((BigInt::from_sign_magnitude(negative, n), q)),
        None => None,
    }
}

/// Reads a string literal.
pub fn string_exec(s: &Vec<char>, p: usize) -> (r: Option<(String, usize)>)
    requires
        p <= s@.len(),
    ensures
        match string_spec(s@, p as int) {
            None => r is None,
            Some((w, q)) => r matches Some((rw, rq)) && rw@ == w && rq == q,
        },
        r matches Some((_, q)) ==> p < q <= s@.len(),
{
    proof {
        lemma_lexical_progress(s@, p as int, Seq::empty(), ' ');
    }
    let a = skip_space_exec(s, p);
    if !(a < s.len() && s[a] == '"') {
        return None;
    }
    let mut out = String::new();
    let mut q = a + 1;
    while q < s.len()
        invariant
            p <= a < q <= s@.len() + 1,
            string_spec(s@, p as int) == string_rest_spec(s@, q as int, out@),
        decreases s@.len() - q,
    {
        let c = s[q];
        if c == '"' {
            return Some((out, q + 1));
        } else if c == '\\' {
            if q + 1 < s.len() {
                let e = s[q + 1];
                let v = if e == '\\' {
                    '\\'
                } else if e == '"' {
                    '"'
                } else if e == '\n' {
                    'n'
                } else if e == '\r' {
                    '\r'
                } else {
                    return None;
                };
                crate::text::string_push(&mut out, v);
                q = q + 2;
            } else {
                return None;
            }
        } else if c == '\r' || c == '\n' {
            return None;
        } else {
            crate::text::string_push(&mut out, c);
            q = q + 1;
        }
    }
    None
}

} // verus!
