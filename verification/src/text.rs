//! Character-level text handling shared by the command parser, the colour
//! codes and the reply texts: conversion between `String` and `Vec<char>`,
//! decimal and binary numerals, integer parsing, search and replacement.
use vstd::prelude::*;
use vstd::std_specs::iter::IteratorSpec;

verus! {

/// `String::push` appends one character.
pub assume_specification[ String::push ](s: &mut String, ch: char)
    ensures
        final(s)@ == old(s)@.push(ch),
;

// ---------------------------------------------------------------------------
// Strings and character vectors
// ---------------------------------------------------------------------------

/// The characters of `s`, in order.
pub fn chars_of(s: &str) -> (v: Vec<char>)
    ensures
        v@ == s@,
{
    let mut v: Vec<char> = Vec::new();
    let mut it = s.chars();
    loop
        invariant
            it.remaining() == s@.subrange(v@.len() as int, s@.len() as int),
            v@ == s@.subrange(0, v@.len() as int),
            v@.len() <= s@.len(),
        ensures
            v@ == s@,
        decreases s@.len() - v@.len(),
    {
        match it.next() {
            Some(c) => {
                v.push(c);
            },
            None => {
                assert(v@ =~= s@);
                break ;
            },
        }
    }
    v
}

/// A string holding the characters of `v`.
pub fn string_of(v: &Vec<char>) -> (s: String)
    ensures
        s@ == v@,
{
    let mut s = String::new();
    for i in 0..v.len()
        invariant
            s@ == v@.subrange(0, i as int),
    {
        s.push(v[i]);
    }
    s
}

/// Appends the characters of `s` to `out`.
pub fn push_str(out: &mut Vec<char>, s: &str)
    ensures
        final(out)@ == old(out)@ + s@,
{
    let v = chars_of(s);
    push_all(out, &v);
}

/// Appends the characters of `v` to `out`.
pub fn push_all(out: &mut Vec<char>, v: &Vec<char>)
    ensures
        final(out)@ == old(out)@ + v@,
{
    let ghost start = out@;
    for i in 0..v.len()
        invariant
            out@ == start + v@.subrange(0, i as int),
    {
        out.push(v[i]);
        assert(start + v@.subrange(0, i + 1) =~= start + v@.subrange(0, i as int) + seq![v@[i as int]]);
    }
    assert(v@.subrange(0, v@.len() as int) =~= v@);
}

/// Whether `v` holds exactly the characters of `lit`.
pub fn eq_str(v: &Vec<char>, lit: &str) -> (b: bool)
    ensures
        b == (v@ == lit@),
{
    let w = chars_of(lit);
    if v.len() != w.len() {
        return false;
    }
    for i in 0..v.len()
        invariant
            v@.len() == w@.len(),
            w@ == lit@,
            forall|j: int| 0 <= j < i ==> v@[j] == w@[j],
    {
        if v[i] != w[i] {
            return false;
        }
    }
    assert(v@ =~= w@);
    true
}

// ---------------------------------------------------------------------------
// Numerals
// ---------------------------------------------------------------------------

/// The character of the digit `d` (`0 <= d < 10`).
pub open spec fn digit_char(d: nat) -> char {
    (48 + d) as char
}

/// Whether `c` is one of `'0'..='9'`.
pub open spec fn is_decimal_digit(c: char) -> bool {
    '0' <= c && c <= '9'
}

/// Whether `c` is `'0'` or `'1'`.
pub open spec fn is_binary_digit(c: char) -> bool {
    c == '0' || c == '1'
}

/// The value of a digit character.
pub open spec fn digit_value(c: char) -> int {
    c as int - 48
}

/// The decimal numeral of `n`, without leading zeros (`"0"` for zero).
pub open spec fn decimal_digits(n: nat) -> Seq<char>
    decreases n,
{
    if n < 10 {
        seq![digit_char(n)]
    } else {
        decimal_digits(n / 10).push(digit_char(n % 10))
    }
}

/// The binary numeral of `n`, without leading zeros (`"0"` for zero).
pub open spec fn binary_digits(n: nat) -> Seq<char>
    decreases n,
{
    if n < 2 {
        seq![digit_char(n)]
    } else {
        binary_digits(n / 2).push(digit_char(n % 2))
    }
}

/// The decimal numeral of an integer, with a leading `'-'` when it is negative,
/// as `to_string` writes it.
pub open spec fn decimal(n: int) -> Seq<char> {
    if n < 0 {
        seq!['-'] + decimal_digits((-n) as nat)
    } else {
        decimal_digits(n as nat)
    }
}

/// The value of a string of decimal digits (0 for the empty string).
pub open spec fn decimal_value(s: Seq<char>) -> int
    decreases s.len(),
{
    if s.len() == 0 {
        0
    } else {
        decimal_value(s.drop_last()) * 10 + digit_value(s.last())
    }
}

/// The value of a string of binary digits (0 for the empty string).
pub open spec fn binary_value(s: Seq<char>) -> int
    decreases s.len(),
{
    if s.len() == 0 {
        0
    } else {
        binary_value(s.drop_last()) * 2 + digit_value(s.last())
    }
}

/// Whether every character of `s` is a decimal digit.
pub open spec fn all_decimal(s: Seq<char>) -> bool {
    forall|i: int| 0 <= i < s.len() ==> is_decimal_digit(#[trigger] s[i])
}

/// Whether every character of `s` is a binary digit.
pub open spec fn all_binary(s: Seq<char>) -> bool {
    forall|i: int| 0 <= i < s.len() ==> is_binary_digit(#[trigger] s[i])
}

/// Whether `s` starts with a `'+'` or `'-'` sign.
pub open spec fn has_sign(s: Seq<char>) -> bool {
    s.len() > 0 && (s[0] == '+' || s[0] == '-')
}

/// The digits of `s` after an optional leading sign.
pub open spec fn unsigned_part(s: Seq<char>) -> Seq<char> {
    if has_sign(s) {
        s.drop_first()
    } else {
        s
    }
}

/// `-1` for a leading `'-'`, else `1`.
pub open spec fn sign_of(s: Seq<char>) -> int {
    if s.len() > 0 && s[0] == '-' {
        -1
    } else {
        1
    }
}

/// What `from_str_radix(s, 10)` reads as a mathematical integer: an optional
/// sign followed by at least one decimal digit, nothing else; `None` otherwise.
pub open spec fn parse_decimal(s: Seq<char>) -> Option<int> {
    let body = unsigned_part(s);
    if body.len() > 0 && all_decimal(body) {
        Some(sign_of(s) * decimal_value(body))
    } else {
        None
    }
}

/// What `from_str_radix(s, 2)` reads as a mathematical integer: an optional
/// sign followed by at least one binary digit, nothing else; `None` otherwise.
pub open spec fn parse_binary(s: Seq<char>) -> Option<int> {
    let body = unsigned_part(s);
    if body.len() > 0 && all_binary(body) {
        Some(sign_of(s) * binary_value(body))
    } else {
        None
    }
}

/// `parse::<i64>()` of `s`: the decimal value when it is in range.
pub open spec fn parse_i64(s: Seq<char>) -> Option<i64> {
    match parse_decimal(s) {
        Some(v) => if i64::MIN <= v <= i64::MAX {
            Some(v as i64)
        } else {
            None
        },
        None => None,
    }
}

/// `parse::<i32>()` of `s`: the decimal value when it is in range.
pub open spec fn parse_i32(s: Seq<char>) -> Option<i32> {
    match parse_decimal(s) {
        Some(v) => if i32::MIN <= v <= i32::MAX {
            Some(v as i32)
        } else {
            None
        },
        None => None,
    }
}

/// `i32::from_str_radix(s, 2)`: the binary value when it is in range.
pub open spec fn parse_binary_i32(s: Seq<char>) -> Option<i32> {
    match parse_binary(s) {
        Some(v) => if i32::MIN <= v <= i32::MAX {
            Some(v as i32)
        } else {
            None
        },
        None => None,
    }
}

/// `i64::from_str_radix(s, 2)`: the binary value when it is in range.
pub open spec fn parse_binary_i64(s: Seq<char>) -> Option<i64> {
    match parse_binary(s) {
        Some(v) => if i64::MIN <= v <= i64::MAX {
            Some(v as i64)
        } else {
            None
        },
        None => None,
    }
}

pub proof fn lemma_decimal_value_nonneg(s: Seq<char>)
    requires
        all_decimal(s),
    ensures
        decimal_value(s) >= 0,
    decreases s.len(),
{
    if s.len() > 0 {
        assert(all_decimal(s.drop_last()));
        lemma_decimal_value_nonneg(s.drop_last());
        assert(is_decimal_digit(s[s.len() - 1]));
    }
}

proof fn lemma_binary_value_nonneg(s: Seq<char>)
    requires
        all_binary(s),
    ensures
        binary_value(s) >= 0,
    decreases s.len(),
{
    if s.len() > 0 {
        assert(all_binary(s.drop_last()));
        lemma_binary_value_nonneg(s.drop_last());
        assert(is_binary_digit(s[s.len() - 1]));
    }
}

/// Reads `s` as an integer in base `radix` (2 or 10) within `lo..=hi`, the way
/// `from_str_radix` does.
fn parse_radix(s: &Vec<char>, radix: u32, lo: i64, hi: i64) -> (r: Option<i64>)
    requires
        radix == 2 || radix == 10,
        lo <= 0 <= hi,
    ensures
        radix == 10 ==> r == (match parse_decimal(s@) {
            Some(v) => if lo <= v <= hi { Some(v as i64) } else { None::<i64> },
            None => None::<i64>,
        }),
        radix == 2 ==> r == (match parse_binary(s@) {
            Some(v) => if lo <= v <= hi { Some(v as i64) } else { None::<i64> },
            None => None::<i64>,
        }),
{
    let n = s.len();
    if n == 0 {
        return None;
    }
    let negative = s[0] == '-';
    let start: usize = if s[0] == '+' || s[0] == '-' { 1 } else { 0 };
    let ghost body = unsigned_part(s@);
    assert(body =~= s@.subrange(start as int, n as int));
    if start == n {
        return None;
    }
    // Magnitudes above this cap are out of range for every i64 bound.
    let cap: u64 = 0x8000_0000_0000_0000;
    let mut acc: u64 = 0;
    let mut over = false;
    let mut i = start;
    while i < n
        invariant
            start <= i <= n,
            n == s@.len(),
            body =~= s@.subrange(start as int, n as int),
            body == unsigned_part(s@),
            cap == 0x8000_0000_0000_0000u64,
            radix == 2 || radix == 10,
            radix == 10 ==> all_decimal(body.subrange(0, i - start)),
            radix == 2 ==> all_binary(body.subrange(0, i - start)),
            !over ==> acc <= cap,
            radix == 10 && !over ==> acc == decimal_value(body.subrange(0, i - start)),
            radix == 2 && !over ==> acc == binary_value(body.subrange(0, i - start)),
            radix == 10 && over ==> decimal_value(body.subrange(0, i - start)) > cap,
            radix == 2 && over ==> binary_value(body.subrange(0, i - start)) > cap,
        decreases n - i,
    {
        let c = s[i];
        let ok = if radix == 10 {
            '0' <= c && c <= '9'
        } else {
            c == '0' || c == '1'
        };
        if !ok {
            proof {
                assert(body[i - start] == c);
                if radix == 10 {
                    assert(!all_decimal(body));
                } else {
                    assert(!all_binary(body));
                }
            }
            return None;
        }
        let d: u64 = (c as u32 - 48) as u64;
        assert(d as int == digit_value(c));
        assert(radix == 10 ==> d <= 9);
        assert(radix == 2 ==> d <= 1);
        let ghost pre = body.subrange(0, i - start);
        let ghost post = body.subrange(0, i + 1 - start);
        assert(post.drop_last() =~= pre);
        assert(post.last() == c);
        assert forall|j: int| 0 <= j < post.len() implies (radix == 10 ==> is_decimal_digit(
            #[trigger] post[j],
        )) && (radix == 2 ==> is_binary_digit(post[j])) by {
            if j < pre.len() {
                assert(post[j] == pre[j]);
            }
        }
        proof {
            if radix == 10 {
                lemma_decimal_value_nonneg(pre);
            } else {
                lemma_binary_value_nonneg(pre);
            }
        }
        if !over {
            if radix == 10 {
                if acc > cap / 10 {
                    over = true;
                } else {
                    acc = acc * 10 + d;
                    if acc > cap {
                        over = true;
                    }
                }
            } else {
                if acc > cap / 2 {
                    over = true;
                } else {
                    acc = acc * 2 + d;
                    if acc > cap {
                        over = true;
                    }
                }
            }
        }
        i = i + 1;
    }
    assert(body.subrange(0, n - start) =~= body);
    if over {
        return None;
    }
    if negative {
        if (acc as i128) > -(lo as i128) {
            None
        } else if acc == cap {
            Some(i64::MIN)
        } else {
            Some(0i64 - (acc as i64))
        }
    } else {
        if (acc as i128) > (hi as i128) {
            None
        } else {
            Some(acc as i64)
        }
    }
}

/// `parse::<i64>()` of the characters `s`.
pub fn parse_i64_chars(s: &Vec<char>) -> (r: Option<i64>)
    ensures
        r == parse_i64(s@),
{
    parse_radix(s, 10, i64::MIN, i64::MAX)
}

/// `parse::<i32>()` of the characters `s`.
pub fn parse_i32_chars(s: &Vec<char>) -> (r: Option<i32>)
    ensures
        r == parse_i32(s@),
{
    match parse_radix(s, 10, i32::MIN as i64, i32::MAX as i64) {
        Some(v) => Some(v as i32),
        None => None,
    }
}

/// `i32::from_str_radix(s, 2)` of the characters `s`.
pub fn parse_binary_i32_chars(s: &Vec<char>) -> (r: Option<i32>)
    ensures
        r == parse_binary_i32(s@),
{
    match parse_radix(s, 2, i32::MIN as i64, i32::MAX as i64) {
        Some(v) => Some(v as i32),
        None => None,
    }
}

/// `i64::from_str_radix(s, 2)` of the characters `s`.
pub fn parse_binary_i64_chars(s: &Vec<char>) -> (r: Option<i64>)
    ensures
        r == parse_binary_i64(s@),
{
    parse_radix(s, 2, i64::MIN, i64::MAX)
}

// ---------------------------------------------------------------------------
// Writing numerals
// ---------------------------------------------------------------------------

/// The character of the digit `d`.
fn digit_to_char(d: u64) -> (c: char)
    requires
        d < 10,
    ensures
        c == digit_char(d as nat),
{
    ((48 + d) as u8) as char
}

/// Appends the decimal numeral of `n`.
pub fn push_decimal_u64(out: &mut Vec<char>, n: u64)
    ensures
        final(out)@ == old(out)@ + decimal_digits(n as nat),
    decreases n,
{
    if n >= 10 {
        push_decimal_u64(out, n / 10);
    }
    out.push(digit_to_char(n % 10));
    assert(n < 10 ==> decimal_digits(n as nat) =~= seq![digit_char(n as nat)]);
}

/// Appends the binary numeral of `n`.
pub fn push_binary_u64(out: &mut Vec<char>, n: u64)
    ensures
        final(out)@ == old(out)@ + binary_digits(n as nat),
    decreases n,
{
    if n >= 2 {
        push_binary_u64(out, n / 2);
    }
    out.push(digit_to_char(n % 2));
    assert(n < 2 ==> binary_digits(n as nat) =~= seq![digit_char(n as nat)]);
}

/// Appends the decimal numeral of `n` as `to_string` writes it.
pub fn push_decimal_i64(out: &mut Vec<char>, n: i64)
    ensures
        final(out)@ == old(out)@ + decimal(n as int),
{
    if n < 0 {
        out.push('-');
        let m: u64 = if n == i64::MIN {
            0x8000_0000_0000_0000u64
        } else {
            (-n) as u64
        };
        push_decimal_u64(out, m);
        assert(old(out)@ + decimal(n as int) =~= old(out)@.push('-') + decimal_digits(m as nat));
    } else {
        push_decimal_u64(out, n as u64);
    }
}

// ---------------------------------------------------------------------------
// Characters
// ---------------------------------------------------------------------------

/// `char::is_whitespace`: the characters with the Unicode `White_Space` property.
pub open spec fn is_white_space(c: char) -> bool {
    let u = c as u32;
    (0x09 <= u && u <= 0x0d) || u == 0x20 || u == 0x85 || u == 0xa0 || u == 0x1680 || (0x2000 <= u
        && u <= 0x200a) || u == 0x2028 || u == 0x2029 || u == 0x202f || u == 0x205f || u == 0x3000
}

/// Whether `c` has the Unicode `White_Space` property.
pub fn char_is_white_space(c: char) -> (b: bool)
    ensures
        b == is_white_space(c),
{
    let u = c as u32;
    (0x09 <= u && u <= 0x0d) || u == 0x20 || u == 0x85 || u == 0xa0 || u == 0x1680 || (0x2000 <= u
        && u <= 0x200a) || u == 0x2028 || u == 0x2029 || u == 0x202f || u == 0x205f || u == 0x3000
}

/// Whether `char::is_numeric` holds of `c` (the Unicode general categories
/// `Nd`, `Nl` and `No`).
pub uninterp spec fn is_numeric_char(c: char) -> bool;

/// `char::is_numeric`. Its contract names the result; of it, it states only
/// that among ASCII characters exactly the digits `0` to `9` are numeric, which
/// is what the general categories give for ASCII. Which other characters
/// are numeric is left to the name.
#[verifier::external_body]
pub(crate) fn char_is_numeric(c: char) -> (b: bool)
    ensures
        b == is_numeric_char(c),
        (c as u32) < 128 ==> (b == is_decimal_digit(c)),
{
    c.is_numeric()
}

/// Whether every character of `s` is numeric.
pub open spec fn all_numeric(s: Seq<char>) -> bool {
    forall|i: int| 0 <= i < s.len() ==> is_numeric_char(#[trigger] s[i])
}

/// `s.chars().all(char::is_numeric)`.
pub fn chars_all_numeric(s: &Vec<char>) -> (b: bool)
    ensures
        b == all_numeric(s@),
{
    for i in 0..s.len()
        invariant
            forall|j: int| 0 <= j < i ==> is_numeric_char(#[trigger] s@[j]),
    {
        if !char_is_numeric(s[i]) {
            return false;
        }
    }
    true
}

/// `char::to_ascii_lowercase`.
pub open spec fn lower_char(c: char) -> char {
    if 'A' <= c && c <= 'Z' {
        ((c as u32) + 32) as char
    } else {
        c
    }
}

/// `str::to_ascii_lowercase`: ASCII capitals become small letters, all else stays.
pub open spec fn lowercase(s: Seq<char>) -> Seq<char> {
    Seq::new(s.len(), |i: int| lower_char(s[i]))
}

/// Lowers the ASCII capitals of `s`.
pub fn to_ascii_lowercase_chars(s: &Vec<char>) -> (r: Vec<char>)
    ensures
        r@ == lowercase(s@),
{
    let mut r: Vec<char> = Vec::new();
    for i in 0..s.len()
        invariant
            r@ =~= lowercase(s@.subrange(0, i as int)),
    {
        let c = s[i];
        let l = if 'A' <= c && c <= 'Z' {
            ((c as u32) + 32) as u8 as char
        } else {
            c
        };
        r.push(l);
    }
    assert(s@.subrange(0, s@.len() as int) =~= s@);
    r
}

/// The number of bytes of the UTF-8 encoding of `c`.
pub open spec fn char_utf8_len(c: char) -> nat {
    let u = c as u32;
    if u < 0x80 {
        1
    } else if u < 0x800 {
        2
    } else if u < 0x10000 {
        3
    } else {
        4
    }
}

/// The number of bytes of the UTF-8 encoding of `s` (what `str::len` returns).
pub open spec fn utf8_len(s: Seq<char>) -> nat
    decreases s.len(),
{
    if s.len() == 0 {
        0
    } else {
        utf8_len(s.drop_last()) + char_utf8_len(s.last())
    }
}

/// `char::len_utf8`.
pub fn char_len_utf8(c: char) -> (n: usize)
    ensures
        n == char_utf8_len(c),
{
    let u = c as u32;
    if u < 0x80 {
        1
    } else if u < 0x800 {
        2
    } else if u < 0x10000 {
        3
    } else {
        4
    }
}

/// Whether the UTF-8 length of `s` fits in a `usize`.
pub fn utf8_len_fits(s: &Vec<char>) -> (b: bool)
    ensures
        b == (utf8_len(s@) <= usize::MAX),
{
    let mut n: usize = 0;
    for i in 0..s.len()
        invariant
            n == utf8_len(s@.subrange(0, i as int)),
    {
        assert(s@.subrange(0, i + 1).drop_last() =~= s@.subrange(0, i as int));
        let k = char_len_utf8(s[i]);
        if n > usize::MAX - k {
            proof {
                lemma_utf8_prefix(s@, i + 1);
            }
            return false;
        }
        n = n + k;
    }
    assert(s@.subrange(0, s@.len() as int) =~= s@);
    true
}

proof fn lemma_utf8_prefix(s: Seq<char>, i: int)
    requires
        0 <= i <= s.len(),
    ensures
        utf8_len(s.subrange(0, i)) <= utf8_len(s),
    decreases s.len() - i,
{
    if i < s.len() {
        assert(s.subrange(0, i + 1).drop_last() =~= s.subrange(0, i));
        lemma_utf8_prefix(s, i + 1);
    } else {
        assert(s.subrange(0, i) =~= s);
    }
}

/// The number of UTF-8 bytes of the characters of `s`, saturated at `usize::MAX`.
pub fn utf8_len_of(s: &Vec<char>) -> (n: usize)
    ensures
        n as nat == if utf8_len(s@) <= usize::MAX { utf8_len(s@) } else { usize::MAX as nat },
{
    let mut n: usize = 0;
    let mut sat = false;
    for i in 0..s.len()
        invariant
            !sat ==> n == utf8_len(s@.subrange(0, i as int)),
            sat ==> n == usize::MAX && utf8_len(s@.subrange(0, i as int)) > usize::MAX,
    {
        assert(s@.subrange(0, i + 1).drop_last() =~= s@.subrange(0, i as int));
        let k = char_len_utf8(s[i]);
        if !sat {
            if n > usize::MAX - k {
                sat = true;
                n = usize::MAX;
            } else {
                n = n + k;
            }
        }
    }
    assert(s@.subrange(0, s@.len() as int) =~= s@);
    n
}

// ---------------------------------------------------------------------------
// Search, removal and replacement
// ---------------------------------------------------------------------------

/// `s` without any occurrence of the characters `a` and `b`
/// (`s.replace([a, b], "")`; with `a == b`, `s.replace(a, "")`).
pub open spec fn remove_chars(s: Seq<char>, a: char, b: char) -> Seq<char>
    decreases s.len(),
{
    if s.len() == 0 {
        s
    } else if s.last() == a || s.last() == b {
        remove_chars(s.drop_last(), a, b)
    } else {
        remove_chars(s.drop_last(), a, b).push(s.last())
    }
}

/// Removes every `a` and every `b` from `s`.
pub fn remove_chars_exec(s: &Vec<char>, a: char, b: char) -> (r: Vec<char>)
    ensures
        r@ == remove_chars(s@, a, b),
{
    let mut r: Vec<char> = Vec::new();
    for i in 0..s.len()
        invariant
            r@ == remove_chars(s@.subrange(0, i as int), a, b),
    {
        assert(s@.subrange(0, i + 1).drop_last() =~= s@.subrange(0, i as int));
        if s[i] != a && s[i] != b {
            r.push(s[i]);
        }
    }
    assert(s@.subrange(0, s@.len() as int) =~= s@);
    r
}

/// Every character `from` of `s` turned into `to` (`s.replace(from, "to")`).
pub open spec fn map_char(s: Seq<char>, from: char, to: char) -> Seq<char> {
    Seq::new(s.len(), |i: int| if s[i] == from { to } else { s[i] })
}

/// Turns every `from` in `s` into `to`.
pub fn map_char_exec(s: &Vec<char>, from: char, to: char) -> (r: Vec<char>)
    ensures
        r@ == map_char(s@, from, to),
{
    let mut r: Vec<char> = Vec::new();
    for i in 0..s.len()
        invariant
            r@ =~= map_char(s@.subrange(0, i as int), from, to),
    {
        if s[i] == from {
            r.push(to);
        } else {
            r.push(s[i]);
        }
    }
    assert(s@.subrange(0, s@.len() as int) =~= s@);
    r
}

/// Whether `c` occurs in `s`.
pub fn contains_char(s: &Vec<char>, c: char) -> (b: bool)
    ensures
        b == s@.contains(c),
{
    for i in 0..s.len()
        invariant
            forall|j: int| 0 <= j < i ==> s@[j] != c,
    {
        if s[i] == c {
            assert(s@[i as int] == c);
            return true;
        }
    }
    false
}

/// `str::replace(s, pat, rep)`: the occurrences of `pat` are found from the left,
/// without overlap, and each is replaced by `rep` (for a non-empty `pat`).
pub open spec fn replace_all(s: Seq<char>, pat: Seq<char>, rep: Seq<char>) -> Seq<char>
    decreases s.len(),
{
    if s.len() == 0 {
        s
    } else if pat.len() > 0 && pat.len() <= s.len() && s.subrange(0, pat.len() as int) == pat {
        rep + replace_all(s.subrange(pat.len() as int, s.len() as int), pat, rep)
    } else {
        seq![s[0]] + replace_all(s.drop_first(), pat, rep)
    }
}

/// Whether `pat` occurs in `s` at index `i`.
fn matches_at(s: &Vec<char>, i: usize, pat: &Vec<char>) -> (b: bool)
    requires
        i <= s@.len(),
    ensures
        b == (pat@.len() <= s@.len() - i && s@.subrange(i as int, i + pat@.len()) == pat@),
{
    if pat.len() > s.len() - i {
        return false;
    }
    let sn = s.len();
    for j in 0..pat.len()
        invariant
            sn == s@.len(),
            i + pat@.len() <= s@.len(),
            forall|k: int| 0 <= k < j ==> s@[i + k] == pat@[k],
    {
        if s[i + j] != pat[j] {
            assert(s@.subrange(i as int, i + pat@.len())[j as int] != pat@[j as int]);
            return false;
        }
    }
    assert(s@.subrange(i as int, i + pat@.len()) =~= pat@);
    true
}

/// Replaces every occurrence of `pat` in `s` by `rep`.
pub fn replace_exec(s: &Vec<char>, pat: &Vec<char>, rep: &Vec<char>) -> (r: Vec<char>)
    ensures
        r@ == replace_all(s@, pat@, rep@),
{
    let n = s.len();
    let mut r: Vec<char> = Vec::new();
    let mut i: usize = 0;
    assert(s@.subrange(0, n as int) =~= s@);
    while i < n
        invariant
            i <= n == s@.len(),
            r@ + replace_all(s@.subrange(i as int, n as int), pat@, rep@) == replace_all(
                s@,
                pat@,
                rep@,
            ),
        decreases n - i,
    {
        let ghost rest = s@.subrange(i as int, n as int);
        let ghost r0 = r@;
        let m = pat.len() > 0 && matches_at(s, i, pat);
        if m {
            assert(rest.subrange(0, pat@.len() as int) =~= s@.subrange(i as int, i + pat@.len()));
            assert(rest.subrange(pat@.len() as int, rest.len() as int) =~= s@.subrange(
                i + pat@.len(),
                n as int,
            ));
            push_all(&mut r, rep);
            i = i + pat.len();
            let ghost tail = replace_all(s@.subrange(i as int, n as int), pat@, rep@);
            assert(r@ + tail =~= r0 + (rep@ + tail));
        } else {
            proof {
                if pat@.len() > 0 && pat@.len() <= rest.len() {
                    assert(rest.subrange(0, pat@.len() as int) =~= s@.subrange(
                        i as int,
                        i + pat@.len(),
                    ));
                }
                assert(rest.drop_first() =~= s@.subrange(i + 1, n as int));
            }
            r.push(s[i]);
            i = i + 1;
            let ghost tail = replace_all(s@.subrange(i as int, n as int), pat@, rep@);
            assert(r@ + tail =~= r0 + (seq![rest[0]] + tail));
        }
    }
    assert(s@.subrange(n as int, n as int) =~= Seq::<char>::empty());
    assert(r@ + Seq::<char>::empty() =~= r@);
    r
}

} // verus!
