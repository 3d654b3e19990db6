//! Text helpers over `&str`/`String`, stated over the character sequence
//! (`s@`): equality, table lookup, prefixes, appending and decimal/hex
//! formatting.

use vstd::prelude::*;
use vstd::string::*;

verus! {

/// `std::string::String::push`: appends one character to the end of the
/// string; the contract claims exactly that, over the character sequence.
#[verifier::external_body]
pub fn string_push(s: &mut String, c: char)
    ensures
        final(s)@ == old(s)@.push(c),
{
    s.push(c);
}

/// Appends all characters of `t`.
pub fn push_str(s: &mut String, t: &str)
    ensures
        final(s)@ == old(s)@ + t@,
{
    s.append(t);
}

/// A new string holding the characters of `t`.
pub fn owned(t: &str) -> (s: String)
    ensures
        s@ == t@,
{
    String::from_str(t)
}

/// Text equality of two string slices.
pub fn str_eq(a: &str, b: &str) -> (r: bool)
    ensures
        r == (a@ == b@),
{
    crate::bytes::str_eq(a, b)
}

/// Text equality of two strings.
pub fn string_eq(a: &String, b: &String) -> (r: bool)
    ensures
        r == (a@ == b@),
{
    crate::bytes::str_eq(a.as_str(), b.as_str())
}

/// The texts of a list of strings.
pub open spec fn texts(v: Seq<String>) -> Seq<Seq<char>> {
    v.map_values(|s: String| s@)
}

/// Text equality of a string and a string slice.
pub fn string_eq_str(a: &String, b: &str) -> (r: bool)
    ensures
        r == (a@ == b@),
{
    crate::bytes::str_eq(a.as_str(), b)
}

/// Index of the first entry of `table` whose text is `name`, if any.
pub fn find_str(table: &[&'static str], name: &str) -> (r: Option<usize>)
    ensures
        r is None ==> forall|i: int| 0 <= i < table@.len() ==> (#[trigger] table@[i])@ != name@,
        r is Some ==> r->0 < table@.len() && table@[r->0 as int]@ == name@
            && forall|i: int| 0 <= i < r->0 ==> (#[trigger] table@[i])@ != name@,
{
    let mut i: usize = 0;
    while i < table.len()
        invariant
            i <= table@.len(),
            forall|j: int| 0 <= j < i ==> (#[trigger] table@[j])@ != name@,
        decreases table@.len() - i,
    {
        if str_eq(table[i], name) {
            return Some(i);
        }
        i = i + 1;
    }
    None
}

/// Whether `p` is a prefix of `s`.
pub open spec fn is_prefix(p: Seq<char>, s: Seq<char>) -> bool {
    p.len() <= s.len() && s.subrange(0, p.len() as int) == p
}

/// Whether `s` starts with the characters of `p`.
pub fn starts_with(s: &str, p: &str) -> (r: bool)
    ensures
        r == is_prefix(p@, s@),
{
    let n = s.unicode_len();
    let m = p.unicode_len();
    if m > n {
        return false;
    }
    let mut i: usize = 0;
    while i < m
        invariant
            m <= n,
            n == s@.len(),
            m == p@.len(),
            i <= m,
            forall|j: int| 0 <= j < i ==> s@[j] == p@[j],
        decreases m - i,
    {
        if s.get_char(i) != p.get_char(i) {
            assert(s@.subrange(0, m as int)[i as int] != p@[i as int]);
            return false;
        }
        i = i + 1;
    }
    assert(s@.subrange(0, m as int) =~= p@);
    true
}

/// The decimal digits of `v`, most significant first ("0" for zero).
pub open spec fn decimal(v: nat) -> Seq<char>
    decreases v,
{
    if v < 10 {
        seq![digit_char(v)]
    } else {
        decimal(v / 10).push(digit_char(v % 10))
    }
}

/// The ASCII digit for `d < 10`.
pub open spec fn digit_char(d: nat) -> char {
    ((48 + d) as u8) as char
}

/// Appends the decimal representation of `v`.
pub fn push_decimal(s: &mut String, v: u64)
    ensures
        final(s)@ == old(s)@ + decimal(v as nat),
    decreases v,
{
    if v >= 10 {
        push_decimal(s, v / 10);
    }
    let d = (v % 10) as u8;
    string_push(s, (48u8 + d) as char);
}

/// The decimal representation of `v` as a new string.
pub fn decimal_string(v: u64) -> (s: String)
    ensures
        s@ == decimal(v as nat),
{
    let mut s = String::new();
    push_decimal(&mut s, v);
    assert(s@ =~= decimal(v as nat));
    s
}

/// The lowercase hexadecimal digit for `d < 16`.
pub open spec fn hex_char(d: nat) -> char {
    if d < 10 { ((48 + d) as u8) as char } else { ((97 + d - 10) as u8) as char }
}

/// The lowercase hexadecimal digits of `v`, most significant first.
pub open spec fn hex(v: nat) -> Seq<char>
    decreases v,
{
    if v < 16 {
        seq![hex_char(v)]
    } else {
        hex(v / 16).push(hex_char(v % 16))
    }
}

/// Appends the lowercase hexadecimal representation of `v` (no prefix).
pub fn push_hex(s: &mut String, v: u64)
    ensures
        final(s)@ == old(s)@ + hex(v as nat),
    decreases v,
{
    if v >= 16 {
        push_hex(s, v / 16);
    }
    let d = (v % 16) as u8;
    let c = if d < 10 { (48u8 + d) as char } else { (97u8 + (d - 10)) as char };
    string_push(s, c);
}

/// The value of a string of decimal digits.
pub open spec fn digits_value(d: Seq<char>) -> nat
    decreases d.len(),
{
    if d.len() == 0 {
        0
    } else {
        (digits_value(d.drop_last()) * 10 + (d.last() as int - '0' as int)) as nat
    }
}

/// Every character is an ASCII decimal digit.
pub open spec fn all_digits(d: Seq<char>) -> bool {
    forall|i: int| 0 <= i < d.len() ==> '0' <= #[trigger] d[i] <= '9'
}

/// The decimal text `s` as a `u32`, as `str::parse::<u32>` reads it: an
/// optional `+`, then one or more digits whose value fits in 32 bits.
pub open spec fn u32_text(s: Seq<char>) -> Option<u32> {
    let d = if s.len() > 0 && s[0] == '+' { s.drop_first() } else { s };
    if d.len() > 0 && all_digits(d) && digits_value(d) <= u32::MAX {
        Some(digits_value(d) as u32)
    } else {
        None
    }
}

/// A digit string's value is at least that of any of its prefixes.
pub proof fn lemma_digits_prefix(d: Seq<char>, j: int)
    requires
        all_digits(d),
        0 <= j <= d.len(),
    ensures
        digits_value(d.take(j)) <= digits_value(d),
    decreases d.len(),
{
    if j < d.len() {
        assert(d.drop_last().take(j) =~= d.take(j));
        lemma_digits_prefix(d.drop_last(), j);
    } else {
        assert(d.take(j) =~= d);
    }
}

/// Parses decimal text as a `u32` (see [`u32_text`]).
pub fn parse_u32(s: &str) -> (r: Option<u32>)
    ensures
        r == u32_text(s@),
{
    let n = s.unicode_len();
    let start: usize = if n > 0 && s.get_char(0) == '+' { 1 } else { 0 };
    let ghost d = if s@.len() > 0 && s@[0] == '+' { s@.drop_first() } else { s@ };
    assert(d =~= s@.subrange(start as int, n as int));
    if start == n {
        return None;
    }
    let mut acc: u64 = 0;
    let mut i: usize = start;
    while i < n
        invariant
            n == s@.len(),
            start <= i <= n,
            d == s@.subrange(start as int, n as int),
            d == (if s@.len() > 0 && s@[0] == '+' { s@.drop_first() } else { s@ }),
            all_digits(d.take(i - start)),
            acc == digits_value(d.take(i - start)),
            acc <= u32::MAX,
        decreases n - i,
    {
        let c = s.get_char(i);
        if !('0' <= c && c <= '9') {
            assert(d[i - start] == c);
            return None;
        }
        proof {
            assert(d.take(i - start + 1).drop_last() =~= d.take(i - start));
        }
        acc = acc * 10 + (c as u64 - '0' as u64);
        i = i + 1;
        if acc > 0xFFFF_FFFF {
            proof {
                if all_digits(d) {
                    lemma_digits_prefix(d, i - start);
                }
            }
            return None;
        }
    }
    assert(d.take(n - start) =~= d);
    Some(acc as u32)
}

/// The decimal text of a signed value (a leading `-` when negative).
pub open spec fn signed_decimal(v: int) -> Seq<char> {
    if v < 0 { seq!['-'] + decimal((-v) as nat) } else { decimal(v as nat) }
}

/// Appends the decimal text of a signed value.
pub fn push_signed(s: &mut String, v: i64)
    ensures
        final(s)@ == old(s)@ + signed_decimal(v as int),
{
    if v < 0 {
        string_push(s, '-');
        let m = (0i128 - v as i128) as u64;
        push_decimal(s, m);
        assert(final(s)@ =~= old(s)@ + signed_decimal(v as int));
    } else {
        push_decimal(s, v as u64);
    }
}

/// `core::str::from_utf8`: the bytes as text when they are valid UTF-8
/// (the characters they encode), `None` otherwise; the contract claims
/// exactly that, over vstd's UTF-8 definitions.
#[verifier::external_body]
pub fn utf8_text(b: &[u8]) -> (r: Option<String>)
    ensures
        r is Some <==> vstd::utf8::valid_utf8(b@),
        r matches Some(s) ==> s@ == vstd::utf8::decode_utf8(b@),
{
    match core::str::from_utf8(b) {
        Ok(s) => Some(String::from(s)),
        Err(_) => None,
    }
}

/// `n` occurs in `h` starting at `i`.
pub open spec fn occurs_at(h: Seq<char>, n: Seq<char>, i: int) -> bool {
    0 <= i && i + n.len() <= h.len() && h.subrange(i, i + n.len()) == n
}

/// Whether `n` occurs in `h`.
pub fn str_contains(h: &str, n: &str) -> (r: bool)
    ensures
        r == exists|i: int| #[trigger] occurs_at(h@, n@, i),
{
    let hl = h.unicode_len();
    let nl = n.unicode_len();
    if nl > hl {
        assert forall|i: int| !#[trigger] occurs_at(h@, n@, i) by {}
        return false;
    }
    let mut i: usize = 0;
    while i <= hl - nl
        invariant
            hl == h@.len(),
            nl == n@.len(),
            nl <= hl,
            i <= hl - nl,
            forall|k: int| 0 <= k < i ==> !#[trigger] occurs_at(h@, n@, k),
        decreases hl - nl - i,
    {
        let mut j: usize = 0;
        let mut same = true;
        while j < nl && same
            invariant
                j <= nl,
                hl == h@.len(),
                nl == n@.len(),
                i + nl <= hl,
                same ==> forall|q: int| 0 <= q < j ==> h@[i + q] == n@[q],
                !same ==> !occurs_at(h@, n@, i as int),
            decreases nl - j + (if same { 1int } else { 0int }),
        {
            if h.get_char(i + j) != n.get_char(j) {
                same = false;
                assert(h@.subrange(i as int, i + nl)[j as int] != n@[j as int]);
            } else {
                j = j + 1;
            }
        }
        if same {
            assert(h@.subrange(i as int, i + nl) =~= n@);
            assert(occurs_at(h@, n@, i as int));
            return true;
        }
        if i == hl - nl {
            assert forall|k: int| !#[trigger] occurs_at(h@, n@, k) by {
                if 0 <= k && k + n@.len() <= h@.len() && k != i { assert(k < i); }
            }
            return false;
        }
        i = i + 1;
    }
    assert forall|k: int| !#[trigger] occurs_at(h@, n@, k) by {
        if 0 <= k && k + n@.len() <= h@.len() { assert(k < i); }
    }
    false
}

/// `s` followed by spaces up to `width` characters.
pub open spec fn padded(s: Seq<char>, width: nat) -> Seq<char> {
    if s.len() >= width { s } else { s + Seq::new((width - s.len()) as nat, |i: int| ' ') }
}

/// Append `t` padded with spaces to `width` characters.
pub fn push_padded(s: &mut String, t: &str, width: usize)
    ensures
        final(s)@ == old(s)@ + padded(t@, width as nat),
{
    push_str(s, t);
    let n = t.unicode_len();
    let mut k = n;
    while k < width
        invariant
            n == t@.len(),
            n <= k,
            k <= width || k == n,
            s@ == old(s)@ + t@ + Seq::new((k - n) as nat, |i: int| ' '),
        decreases width - k,
    {
        let ghost s0 = s@;
        string_push(s, ' ');
        k = k + 1;
        assert(s@ =~= old(s)@ + t@ + Seq::new((k - n) as nat, |i: int| ' '));
    }
    assert(s@ =~= old(s)@ + padded(t@, width as nat));
}
} // verus!
