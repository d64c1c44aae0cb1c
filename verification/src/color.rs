//! Name colours: the `!color` argument (a colour name, a `#rgb` or `#rrggbb`
//! code, or `r,g,b` with or without parentheses) is stored in a game as one
//! number, the bit field, and read back from it when the gauge is drawn.
use vstd::prelude::*;

use crate::text::{
    lower_char, digit_char, digit_value, all_decimal, decimal_digits, decimal_value, is_decimal_digit, all_binary, has_sign, is_binary_digit, unsigned_part, binary_digits, binary_value, chars_of, contains_char, decimal, eq_str, lowercase, map_char,
    map_char_exec, parse_binary_i32, parse_binary_i32_chars, parse_binary_i64,
    parse_binary_i64_chars, parse_i32, parse_i32_chars, push_all, push_binary_u64,
    push_decimal_i64, push_str, remove_chars, remove_chars_exec, string_of,
    to_ascii_lowercase_chars, utf8_len, utf8_len_of, char_utf8_len,
};

verus! {

/// Red, green, blue and alpha channels.
#[derive(Clone, Copy, Debug, PartialEq, Eq)]
pub struct Rgba<T>(pub [T; 4]);

// ---------------------------------------------------------------------------
// Specification
// ---------------------------------------------------------------------------

/// `to_decimal`: the value of a one-character hex digit (`0-9`, `a-f`); 0 for
/// anything else.
pub open spec fn hex_value(s: Seq<char>) -> u8 {
    if s.len() == 1 && '0' <= s[0] && s[0] <= '9' {
        (s[0] as u32 - 48) as u8
    } else if s.len() == 1 && 'a' <= s[0] && s[0] <= 'f' {
        (s[0] as u32 - 87) as u8
    } else {
        0
    }
}

/// The value of the hex digit `c`.
pub open spec fn hex_digit(c: char) -> u8 {
    hex_value(seq![c])
}

/// `from_color`: the `r,g,b` text of a colour name; pink for unknown names.
pub open spec fn color_name_rgb(name: Seq<char>) -> Seq<char> {
    if name == "red"@ {
        "255,0,0"@
    } else if name == "orange"@ {
        "255,128,0"@
    } else if name == "yellow"@ {
        "255,255,0"@
    } else if name == "green"@ {
        "0,255,0"@
    } else if name == "cyan"@ {
        "0,255,255"@
    } else if name == "blue"@ {
        "0,0,255"@
    } else if name == "purple"@ {
        "128,0,255"@
    } else if name == "pink"@ {
        "255,0,128"@
    } else if name == "black"@ {
        "0,0,0"@
    } else if name == "gray"@ {
        "128,128,128"@
    } else if name == "white"@ {
        "255,255,255"@
    } else if name == "mine"@ {
        "255,153,204"@
    } else {
        "255,0,128"@
    }
}

/// The hex digits of a code: the code without its `'#'`s.
pub open spec fn hex_body(s: Seq<char>) -> Seq<char> {
    remove_chars(s, '#', '#')
}

/// The channel value of the hex pair at `i` of `body`.
pub open spec fn hex_pair(body: Seq<char>, i: int) -> int {
    hex_digit(body[i]) * 16 + hex_digit(body[i + 1])
}

/// `hex_to_rgb`: the `r,g,b` text of the first three hex pairs of the code.
pub open spec fn hex_rgb(s: Seq<char>) -> Seq<char> {
    let b = hex_body(s);
    decimal(hex_pair(b, 0)) + seq![','] + decimal(hex_pair(b, 2)) + seq![','] + decimal(
        hex_pair(b, 4),
    )
}

/// Whether `hex_to_rgb` has the six digits it reads.
pub open spec fn hex_rgb_defined(s: Seq<char>) -> bool {
    hex_body(s).len() >= 6
}

/// Every character of `s` written twice (`#abc` becomes `##aabbcc`).
pub open spec fn doubled(s: Seq<char>) -> Seq<char> {
    Seq::new(2 * s.len(), |i: int| s[i / 2])
}

/// The default text of a `#` code of another length.
pub open spec fn fallback_rgb() -> Seq<char> {
    "255,123,200"@
}

/// Whether the argument is a `#` code.
pub open spec fn is_hex_code(s: Seq<char>) -> bool {
    s.len() > 0 && s[0] == '#'
}

/// The `r,g,b` text that `to_rgba` reads a colour from.
pub open spec fn rgb_text(s: Seq<char>) -> Seq<char> {
    if is_hex_code(s) {
        if utf8_len(s) == 7 {
            hex_rgb(s)
        } else if utf8_len(s) == 4 {
            hex_rgb(doubled(s))
        } else {
            fallback_rgb()
        }
    } else if s.contains(',') {
        remove_chars(s, ')', '(')
    } else {
        color_name_rgb(s)
    }
}

/// Whether making the `r,g,b` text reads no missing hex digit.
pub open spec fn rgb_text_defined(s: Seq<char>) -> bool {
    is_hex_code(s) ==> (utf8_len(s) == 7 ==> hex_rgb_defined(s)) && (utf8_len(s) == 4
        ==> hex_rgb_defined(doubled(s)))
}

/// The index of the first `','` of `s` from `i` on.
pub open spec fn comma_from(s: Seq<char>, i: int) -> Option<int>
    decreases s.len() - i,
{
    if i < 0 || i >= s.len() {
        None
    } else if s[i] == ',' {
        Some(i)
    } else {
        comma_from(s, i + 1)
    }
}

/// The `k`-th piece of `s` split at its commas, when there are that many.
pub open spec fn field(s: Seq<char>, k: nat) -> Option<Seq<char>>
    decreases k,
{
    match comma_from(s, 0) {
        Some(c) => if k == 0 {
            Some(s.subrange(0, c))
        } else {
            field(s.subrange(c + 1, s.len() as int), (k - 1) as nat)
        },
        None => if k == 0 {
            Some(s)
        } else {
            None
        },
    }
}

/// The channel read from piece `k` of an `r,g,b` text, when it is an `i32`.
pub open spec fn channel(t: Seq<char>, k: nat) -> Option<i32> {
    match field(t, k) {
        Some(f) => parse_i32(f),
        None => None,
    }
}

/// Whether `to_rgba` reads a colour from `s` (rather than panicking).
pub open spec fn rgba_defined(s: Seq<char>) -> bool {
    rgb_text_defined(s) && channel(rgb_text(s), 0) is Some && channel(rgb_text(s), 1) is Some
        && channel(rgb_text(s), 2) is Some
}

/// `to_rgba`: the channels of the `r,g,b` text, with alpha 100.
pub open spec fn rgba_of(s: Seq<char>) -> Rgba<i32> {
    let t = rgb_text(s);
    Rgba([channel(t, 0).unwrap(), channel(t, 1).unwrap(), channel(t, 2).unwrap(), 100])
}

/// `s` padded on the left with `pad` to at least `width` characters.
pub open spec fn pad_left(s: Seq<char>, width: nat, pad: char) -> Seq<char> {
    if s.len() >= width {
        s
    } else {
        Seq::new((width - s.len()) as nat, |i: int| pad) + s
    }
}

/// The bits that `{:b}` prints for an `i32`: its two's complement pattern.
pub open spec fn u32_pattern(v: i32) -> nat {
    if v < 0 {
        (v + 0x1_0000_0000) as nat
    } else {
        v as nat
    }
}

/// The bits that `{:b}` prints for an `i64`: its two's complement pattern.
pub open spec fn u64_pattern(v: i64) -> nat {
    if v < 0 {
        (v + 0x1_0000_0000_0000_0000) as nat
    } else {
        v as nat
    }
}

/// `rgba_to_binary`: `format!("{:08b}", v)`.
pub open spec fn binary8(v: i32) -> Seq<char> {
    pad_left(binary_digits(u32_pattern(v)), 8, '0')
}

/// The binary text that `to_bit_field` reads back as a number.
pub open spec fn bit_field_text(c: Rgba<i32>) -> Seq<char> {
    binary8(c.0[0]) + binary8(c.0[1]) + binary8(c.0[2])
}

/// Whether `to_bit_field` returns (rather than panics) for `s`.
pub open spec fn bit_field_defined(s: Seq<char>) -> bool {
    let l = lowercase(s);
    rgba_defined(l) && parse_binary_i64(bit_field_text(rgba_of(l))) is Some
}

/// `to_bit_field`: the number whose binary digits are those of the three
/// channels of the lowercased colour text, each written with at least 8 digits.
pub open spec fn bit_field(s: Seq<char>) -> i64 {
    parse_binary_i64(bit_field_text(rgba_of(lowercase(s)))).unwrap()
}

/// `format!("{:24b}", v)`: the binary digits of `v` padded with spaces to 24.
pub open spec fn bits24(v: i64) -> Seq<char> {
    pad_left(binary_digits(u64_pattern(v)), 24, ' ')
}

/// The channel of the 8-character chunk `k` of a 24-column binary text.
pub open spec fn chunk_value(s: Seq<char>, k: int) -> int {
    binary_value(map_char(s.subrange(8 * k, 8 * k + 8), ' ', '0'))
}

/// `from_bit_field`: the three leading 8-column chunks of `{:24b}`, alpha 100.
pub open spec fn color_of_bit_field(v: i64) -> Rgba<u8> {
    let s = bits24(v);
    Rgba([chunk_value(s, 0) as u8, chunk_value(s, 1) as u8, chunk_value(s, 2) as u8, 100])
}

// ---------------------------------------------------------------------------
// Implementation
// ---------------------------------------------------------------------------

/// The text of a string literal as characters.
fn lit(s: &str) -> (v: Vec<char>)
    ensures
        v@ == s@,
{
    chars_of(s)
}

/// `to_decimal`: the value of a one-character hex digit; 0 for anything else.
pub fn to_decimal(input: String) -> (r: u8)
    ensures
        r == hex_value(input@),
{
    let v = chars_of(input.as_str());
    if v.len() != 1 {
        return 0;
    }
    let c = v[0];
    if '0' <= c && c <= '9' {
        (c as u32 - 48) as u8
    } else if 'a' <= c && c <= 'f' {
        (c as u32 - 87) as u8
    } else {
        0
    }
}

/// `from_color`: the `r,g,b` text of one of the predefined colour names.
pub fn from_color(input: String) -> (r: String)
    ensures
        r@ == color_name_rgb(input@),
{
    let v = chars_of(input.as_str());
    let out = if eq_str(&v, "red") {
        "255,0,0"
    } else if eq_str(&v, "orange") {
        "255,128,0"
    } else if eq_str(&v, "yellow") {
        "255,255,0"
    } else if eq_str(&v, "green") {
        "0,255,0"
    } else if eq_str(&v, "cyan") {
        "0,255,255"
    } else if eq_str(&v, "blue") {
        "0,0,255"
    } else if eq_str(&v, "purple") {
        "128,0,255"
    } else if eq_str(&v, "pink") {
        "255,0,128"
    } else if eq_str(&v, "black") {
        "0,0,0"
    } else if eq_str(&v, "gray") {
        "128,128,128"
    } else if eq_str(&v, "white") {
        "255,255,255"
    } else if eq_str(&v, "mine") {
        "255,153,204"
    } else {
        "255,0,128"
    };
    string_of(&lit(out))
}

/// The value of the hex digit `c`.
fn hex_digit_exec(c: char) -> (r: u8)
    ensures
        r == hex_digit(c),
        r < 16,
{
    let mut s = String::new();
    s.push(c);
    to_decimal(s)
}

/// `hex_to_rgb`: the `r,g,b` text of a hex code.
pub fn hex_to_rgb(input: String) -> (r: String)
    requires
        hex_rgb_defined(input@),
    ensures
        r@ == hex_rgb(input@),
{
    let v = chars_of(input.as_str());
    let b = remove_chars_exec(&v, '#', '#');
    let mut out: Vec<char> = Vec::new();
    let mut i: usize = 0;
    while i < 6
        invariant
            b@ == hex_body(input@),
            b@.len() >= 6,
            i == 0 || i == 2 || i == 4 || i == 6,
            i == 0 ==> out@ == Seq::<char>::empty(),
            i == 2 ==> out@ == decimal(hex_pair(b@, 0)) + seq![','],
            i == 4 ==> out@ == decimal(hex_pair(b@, 0)) + seq![','] + decimal(hex_pair(b@, 2))
                + seq![','],
            i == 6 ==> out@ == hex_rgb(input@) + seq![','],
        decreases 6 - i,
    {
        let character1 = hex_digit_exec(b[i + 1]);
        let character2 = hex_digit_exec(b[i]) * 16;
        let color = character1 + character2;
        push_decimal_i64(&mut out, color as i64);
        out.push(',');
        i = i + 2;
    }
    out.pop();
    assert(out@ =~= hex_rgb(input@));
    string_of(&out)
}

/// Every character of `v` written twice.
fn double_chars(v: &Vec<char>) -> (r: Vec<char>)
    ensures
        r@ == doubled(v@),
{
    let mut r: Vec<char> = Vec::new();
    for i in 0..v.len()
        invariant
            r@ =~= doubled(v@.subrange(0, i as int)),
    {
        r.push(v[i]);
        r.push(v[i]);
    }
    assert(v@.subrange(0, v@.len() as int) =~= v@);
    r
}

/// The index of the first `','` of `v` from `i` on.
fn find_comma(v: &Vec<char>, i: usize) -> (r: Option<usize>)
    requires
        i <= v@.len(),
    ensures
        match r {
            Some(c) => comma_from(v@, i as int) == Some(c as int),
            None => comma_from(v@, i as int) is None,
        },
    decreases v@.len() - i,
{
    if i >= v.len() {
        None
    } else if v[i] == ',' {
        Some(i)
    } else {
        find_comma(v, i + 1)
    }
}

proof fn lemma_comma_shift(s: Seq<char>, c: int, i: int)
    requires
        0 <= c < s.len(),
        0 <= i,
    ensures
        comma_from(s.subrange(c + 1, s.len() as int), i) == match comma_from(s, c + 1 + i) {
            Some(j) => Some(j - (c + 1)),
            None => None::<int>,
        },
    decreases s.len() - (c + 1 + i),
{
    if c + 1 + i < s.len() {
        lemma_comma_shift(s, c, i + 1);
    }
}

/// The first three comma-separated pieces of `v`, as far as they exist.
fn split3(v: &Vec<char>) -> (r: (Option<Vec<char>>, Option<Vec<char>>, Option<Vec<char>>))
    ensures
        match r.0 {
            Some(f) => field(v@, 0) == Some(f@),
            None => field(v@, 0) is None,
        },
        match r.1 {
            Some(f) => field(v@, 1) == Some(f@),
            None => field(v@, 1) is None,
        },
        match r.2 {
            Some(f) => field(v@, 2) == Some(f@),
            None => field(v@, 2) is None,
        },
{
    let n = v.len();
    let mut pieces: Vec<Vec<char>> = Vec::new();
    let mut start: usize = 0;
    let mut done = false;
    let ghost mut rest = v@;
    while pieces.len() < 3 && !done
        invariant
            start <= n == v@.len(),
            pieces@.len() <= 3,
            !done ==> rest == v@.subrange(start as int, n as int),
            forall|k: int|
                0 <= k < pieces@.len() ==> field(v@, k as nat) == Some(#[trigger] pieces@[k]@),
            !done ==> forall|k: nat| #[trigger] field(rest, k) == field(v@, k + pieces@.len()),
            done ==> forall|k: nat| k >= pieces@.len() ==> field(v@, k) is None,
        decreases 3 - pieces@.len() + (if done { 0int } else { 1int }),
    {
        let c = find_comma(v, start);
        proof {
            lemma_comma_shift_from(v@, start as int);
        }
        match c {
            Some(ci) => {
                let mut piece: Vec<char> = Vec::new();
                let mut j = start;
                proof {
                    lemma_comma_from_found(v@, start as int);
                }
                assert(piece@ =~= v@.subrange(start as int, j as int));
                while j < ci
                    invariant
                        start <= j <= ci < n == v@.len(),
                        piece@ == v@.subrange(start as int, j as int),
                    decreases ci - j,
                {
                    piece.push(v[j]);
                    j = j + 1;
                    assert(piece@ =~= v@.subrange(start as int, j as int));
                }
                proof {
                    assert(comma_from(rest, 0) == Some(ci - start));
                    assert(rest.subrange(0, ci - start) =~= piece@);
                    assert(rest.subrange(ci - start + 1, rest.len() as int) =~= v@.subrange(
                        ci + 1,
                        n as int,
                    ));
                    let old_len = pieces@.len();
                    assert forall|k: nat| #[trigger] field(v@.subrange(ci + 1, n as int), k) == field(
                        v@,
                        k + (old_len + 1),
                    ) by {
                        assert(field(v@, (k + 1) + old_len) == field(rest, k + 1));
                        assert(k + 1 + old_len == k + (old_len + 1));
                    }
                    assert(field(v@, 0 + old_len) == field(rest, 0));
                    assert(0 + old_len == old_len);
                    rest = v@.subrange(ci + 1, n as int);
                }
                pieces.push(piece);
                start = ci + 1;
            },
            None => {
                let mut piece: Vec<char> = Vec::new();
                let mut j = start;
                assert(piece@ =~= v@.subrange(start as int, j as int));
                while j < n
                    invariant
                        start <= j <= n == v@.len(),
                        piece@ == v@.subrange(start as int, j as int),
                    decreases n - j,
                {
                    piece.push(v[j]);
                    j = j + 1;
                    assert(piece@ =~= v@.subrange(start as int, j as int));
                }
                proof {
                    assert(comma_from(rest, 0) is None);
                    assert(rest =~= piece@);
                    let old_len = pieces@.len();
                    assert(field(v@, 0 + old_len) == field(rest, 0));
                    assert(0 + old_len == old_len);
                    assert forall|k: nat| k >= old_len + 1 implies field(v@, k) is None by {
                        assert(field(v@, (k - old_len) as nat + old_len) == field(rest, (k - old_len) as nat));
                        assert((k - old_len) as nat + old_len == k);
                    }
                }
                pieces.push(piece);
                done = true;
            },
        }
    }
    let p0 = if pieces.len() > 0 { Some(pieces[0].clone()) } else { None };
    let p1 = if pieces.len() > 1 { Some(pieces[1].clone()) } else { None };
    let p2 = if pieces.len() > 2 { Some(pieces[2].clone()) } else { None };
    proof {
        if pieces@.len() <= 0 {
            assert(field(v@, 0) is None);
        }
        if pieces@.len() <= 1 {
            assert(field(v@, 1) is None);
        }
        if pieces@.len() <= 2 {
            assert(field(v@, 2) is None);
        }
    }
    (p0, p1, p2)
}

proof fn lemma_comma_from_found(s: Seq<char>, i: int)
    ensures
        comma_from(s, i) matches Some(c) ==> i <= c < s.len() && s[c] == ',',
    decreases s.len() - i,
{
    if 0 <= i < s.len() && s[i] != ',' {
        lemma_comma_from_found(s, i + 1);
    }
}

proof fn lemma_comma_shift_from(s: Seq<char>, start: int)
    requires
        0 <= start <= s.len(),
    ensures
        comma_from(s.subrange(start, s.len() as int), 0) == match comma_from(s, start) {
            Some(j) => Some(j - start),
            None => None::<int>,
        },
{
    if start == 0 {
        assert(s.subrange(0, s.len() as int) =~= s);
    } else {
        lemma_comma_shift(s, start - 1, 0);
    }
}

/// `to_rgba`: the colour that a (lowercased) colour argument names.
pub fn to_rgba(input: String) -> (r: Rgba<i32>)
    requires
        rgba_defined(input@),
    ensures
        r == rgba_of(input@),
{
    let v = chars_of(input.as_str());
    let rgb: Vec<char> = if v.len() > 0 && v[0] == '#' {
        let n = utf8_len_of(&v);
        if n == 7 {
            chars_of(hex_to_rgb(input).as_str())
        } else if n == 4 {
            chars_of(hex_to_rgb(string_of(&double_chars(&v))).as_str())
        } else {
            lit("255,123,200")
        }
    } else if contains_char(&v, ',') {
        remove_chars_exec(&v, ')', '(')
    } else {
        chars_of(from_color(input).as_str())
    };
    assert(rgb@ == rgb_text(input@));
    let (f0, f1, f2) = split3(&rgb);
    let f0 = f0.unwrap();
    let f1 = f1.unwrap();
    let f2 = f2.unwrap();
    let red = parse_i32_chars(&f0).unwrap();
    let green = parse_i32_chars(&f1).unwrap();
    let blue = parse_i32_chars(&f2).unwrap();
    Rgba([red, green, blue, 100])
}

/// `rgba_to_binary`: channel `i` written in binary with at least 8 digits
/// (negative values as their 32-bit two's complement).
pub fn rgba_to_binary(input: Rgba<i32>, i: usize) -> (r: String)
    requires
        i < 4,
    ensures
        r@ == binary8(input.0[i as int]),
{
    let v = input.0[i];
    let u: u64 = if v < 0 {
        (v as i64 + 0x1_0000_0000i64) as u64
    } else {
        v as u64
    };
    let mut digits: Vec<char> = Vec::new();
    push_binary_u64(&mut digits, u);
    assert(digits@ =~= binary_digits(u32_pattern(v)));
    let mut out: Vec<char> = Vec::new();
    let len = digits.len();
    if len < 8 {
        let mut k: usize = 0;
        while k < 8 - len
            invariant
                len == digits@.len() < 8,
                k <= 8 - len,
                out@ =~= Seq::new(k as nat, |j: int| '0'),
            decreases 8 - len - k,
        {
            out.push('0');
            k = k + 1;
        }
    }
    push_all(&mut out, &digits);
    assert(out@ =~= binary8(v));
    string_of(&out)
}

/// Whether `to_bit_field` returns (rather than panics) for `input`.
pub fn bit_field_accepts(input: &String) -> (b: bool)
    ensures
        b == bit_field_defined(input@),
{
    let v = chars_of(input.as_str());
    let l = to_ascii_lowercase_chars(&v);
    if !rgba_accepts(&l) {
        return false;
    }
    let c = to_rgba(string_of(&l));
    let text = bit_field_chars(c);
    parse_binary_i64_chars(&text).is_some()
}

/// The binary text that `to_bit_field` reads.
fn bit_field_chars(c: Rgba<i32>) -> (r: Vec<char>)
    ensures
        r@ == bit_field_text(c),
{
    let red = rgba_to_binary(c, 0);
    let green = rgba_to_binary(c, 1);
    let blue = rgba_to_binary(c, 2);
    let mut out: Vec<char> = Vec::new();
    push_str(&mut out, red.as_str());
    push_str(&mut out, green.as_str());
    push_str(&mut out, blue.as_str());
    out
}

/// Whether `to_rgba` reads a colour from `v` (rather than panicking).
fn rgba_accepts(v: &Vec<char>) -> (b: bool)
    ensures
        b == rgba_defined(v@),
{
    let rgb: Vec<char> = if v.len() > 0 && v[0] == '#' {
        let n = utf8_len_of(v);
        if n == 7 {
            if remove_chars_exec(v, '#', '#').len() < 6 {
                return false;
            }
            chars_of(hex_to_rgb(string_of(v)).as_str())
        } else if n == 4 {
            let d = double_chars(v);
            if remove_chars_exec(&d, '#', '#').len() < 6 {
                return false;
            }
            chars_of(hex_to_rgb(string_of(&d)).as_str())
        } else {
            lit("255,123,200")
        }
    } else if contains_char(v, ',') {
        remove_chars_exec(v, ')', '(')
    } else {
        chars_of(from_color(string_of(v)).as_str())
    };
    assert(rgb@ == rgb_text(v@));
    let (f0, f1, f2) = split3(&rgb);
    match (f0, f1, f2) {
        (Some(a), Some(b), Some(c)) => parse_i32_chars(&a).is_some() && parse_i32_chars(
            &b,
        ).is_some() && parse_i32_chars(&c).is_some(),
        _ => false,
    }
}

/// `to_bit_field`: the colour argument of `!color` as the number stored in a
/// game: the binary digits of its red, green and blue channels, each written
/// with at least 8 digits, read as one binary number.
pub fn to_bit_field(input: String) -> (r: i64)
    requires
        bit_field_defined(input@),
    ensures
        r == bit_field(input@),
{
    let v = chars_of(input.as_str());
    let l = to_ascii_lowercase_chars(&v);
    let c = to_rgba(string_of(&l));
    let text = bit_field_chars(c);
    parse_binary_i64_chars(&text).unwrap()
}

/// `to_bit_field` for every argument: `None` where it would panic.
pub fn to_bit_field_checked(input: String) -> (r: Option<i64>)
    ensures
        r == if bit_field_defined(input@) {
            Some(bit_field(input@))
        } else {
            None::<i64>
        },
{
    if bit_field_accepts(&input) {
        Some(to_bit_field(input))
    } else {
        None
    }
}

/// `extract_color`: chunk `i`, with spaces read as `0`, as a binary number.
pub fn extract_color(chunks: Vec<String>, i: usize) -> (r: i32)
    requires
        i < chunks@.len(),
        parse_binary_i32(map_char(chunks@[i as int]@, ' ', '0')) is Some,
    ensures
        r == parse_binary_i32(map_char(chunks@[i as int]@, ' ', '0')).unwrap(),
{
    let v = chars_of(chunks[i].as_str());
    let test = map_char_exec(&v, ' ', '0');
    parse_binary_i32_chars(&test).unwrap()
}

/// `2^n`.
pub open spec fn pow2(n: nat) -> nat
    decreases n,
{
    if n == 0 {
        1
    } else {
        2 * pow2((n - 1) as nat)
    }
}

pub proof fn lemma_binary_value_bound(s: Seq<char>)
    requires
        all_binary(s),
    ensures
        0 <= binary_value(s) < pow2(s.len()),
    decreases s.len(),
{
    if s.len() > 0 {
        assert(all_binary(s.drop_last()));
        lemma_binary_value_bound(s.drop_last());
        assert(is_binary_digit(s[s.len() - 1]));
    }
}

pub proof fn lemma_binary_digits_binary(n: nat)
    ensures
        all_binary(binary_digits(n)),
        binary_digits(n).len() > 0,
    decreases n,
{
    if n >= 2 {
        lemma_binary_digits_binary(n / 2);
        let d = binary_digits(n / 2);
        assert forall|i: int| 0 <= i < binary_digits(n).len() implies is_binary_digit(
            #[trigger] binary_digits(n)[i],
        ) by {
            if i < d.len() {
                assert(binary_digits(n)[i] == d[i]);
            }
        }
    }
}

/// Splits `s` into pieces of 8 characters (the last may be shorter), as
/// `chunks(8)` does, each collected into a string.
fn chunks8(s: &Vec<char>) -> (r: Vec<String>)
    ensures
        r@.len() == (s@.len() + 7) / 8,
        forall|k: int|
            0 <= k < r@.len() ==> (#[trigger] r@[k])@ == s@.subrange(
                8 * k,
                if 8 * k + 8 <= s@.len() { 8 * k + 8 } else { s@.len() as int },
            ),
{
    let n = s.len();
    let count = n / 8 + if n % 8 != 0 { 1 } else { 0 };
    let mut r: Vec<String> = Vec::new();
    for k in 0..count
        invariant
            n == s@.len(),
            count == (n + 7) / 8,
            r@.len() == k,
            forall|j: int|
                0 <= j < r@.len() ==> (#[trigger] r@[j])@ == s@.subrange(
                    8 * j,
                    if 8 * j + 8 <= s@.len() { 8 * j + 8 } else { s@.len() as int },
                ),
    {
        let start = 8 * k;
        let end = if n - start >= 8 { start + 8 } else { n };
        let mut piece: Vec<char> = Vec::new();
        let mut j = start;
        assert(piece@ =~= s@.subrange(start as int, j as int));
        while j < end
            invariant
                start <= j <= end <= n == s@.len(),
                piece@ == s@.subrange(start as int, j as int),
            decreases end - j,
        {
            piece.push(s[j]);
            j = j + 1;
            assert(piece@ =~= s@.subrange(start as int, j as int));
        }
        r.push(string_of(&piece));
    }
    r
}

/// `from_bit_field`: the colour stored in a game as a bit field: the binary
/// digits of the number padded with spaces to 24 columns, whose first three
/// 8-column chunks are the red, green and blue channels; alpha is 100.
pub fn from_bit_field(input: i64) -> (r: Rgba<u8>)
    ensures
        r == color_of_bit_field(input),
{
    let u: u64 = if input < 0 {
        (input as i128 + 0x1_0000_0000_0000_0000i128) as u64
    } else {
        input as u64
    };
    let mut digits: Vec<char> = Vec::new();
    push_binary_u64(&mut digits, u);
    assert(digits@ =~= binary_digits(u64_pattern(input)));
    let mut s: Vec<char> = Vec::new();
    let len = digits.len();
    if len < 24 {
        let mut k: usize = 0;
        while k < 24 - len
            invariant
                len == digits@.len() < 24,
                k <= 24 - len,
                s@ =~= Seq::new(k as nat, |j: int| ' '),
            decreases 24 - len - k,
        {
            s.push(' ');
            k = k + 1;
        }
    }
    push_all(&mut s, &digits);
    let ghost text = bits24(input);
    assert(s@ =~= text);
    proof {
        lemma_binary_digits_binary(u64_pattern(input));
        assert forall|k: int| 0 <= k < 3 implies chunk_ok(text, k) by {
            lemma_chunk_ok(input, k);
        }
    }
    let chunks = chunks8(&s);
    assert(chunks@.len() >= 3);
    proof {
        assert forall|k: int| 0 <= k < 3 implies (#[trigger] chunks@[k])@ == text.subrange(
            8 * k,
            8 * k + 8,
        ) by {}
    }
    assert(chunk_ok(text, 0) && chunk_ok(text, 1) && chunk_ok(text, 2));
    assert(chunks@[0]@ == text.subrange(0, 8));
    assert(chunks@[1]@ == text.subrange(8, 16));
    assert(chunks@[2]@ == text.subrange(16, 24));
    let c0 = chunks.clone();
    let c1 = chunks.clone();
    assert(c0@[0] == chunks@[0]);
    assert(c1@[1] == chunks@[1]);
    let red = extract_color(c0, 0);
    let blue = extract_color(c1, 1);
    let green = extract_color(chunks, 2);
    Rgba([red as u8, blue as u8, green as u8, 100])
}

/// Chunk `k` of a 24-column binary text reads as a channel value.
pub open spec fn chunk_ok(text: Seq<char>, k: int) -> bool {
    let m = map_char(text.subrange(8 * k, 8 * k + 8), ' ', '0');
    &&& parse_binary_i32(m) == Some(chunk_value(text, k) as i32)
    &&& 0 <= chunk_value(text, k) < 256
}

proof fn lemma_chunk_ok(input: i64, k: int)
    requires
        0 <= k < 3,
    ensures
        chunk_ok(bits24(input), k),
{
    let text = bits24(input);
    let d = binary_digits(u64_pattern(input));
    lemma_binary_digits_binary(u64_pattern(input));
    assert(text.len() >= 24);
    assert forall|i: int| 0 <= i < text.len() implies is_binary_digit(#[trigger] text[i]) || text[i] == ' ' by {
        if d.len() < 24 {
            if i >= 24 - d.len() {
                assert(text[i] == d[i - (24 - d.len())]);
            }
        } else {
            assert(text[i] == d[i]);
        }
    }
    let m = map_char(text.subrange(8 * k, 8 * k + 8), ' ', '0');
    assert forall|i: int| 0 <= i < m.len() implies is_binary_digit(#[trigger] m[i]) by {
        assert(text.subrange(8 * k, 8 * k + 8)[i] == text[8 * k + i]);
    }
    lemma_binary_value_bound(m);
    reveal_with_fuel(pow2, 9);
    assert(pow2(8) == 256);
    assert(!has_sign(m));
    assert(unsigned_part(m) == m);
}

// ---------------------------------------------------------------------------
// Laws
// ---------------------------------------------------------------------------

proof fn lemma_binary_value_concat(a: Seq<char>, b: Seq<char>)
    ensures
        binary_value(a + b) == binary_value(a) * pow2(b.len()) + binary_value(b),
    decreases b.len(),
{
    if b.len() > 0 {
        assert((a + b).drop_last() =~= a + b.drop_last());
        assert((a + b).last() == b.last());
        lemma_binary_value_concat(a, b.drop_last());
        let va = binary_value(a);
        let vb = binary_value(b.drop_last());
        let p = pow2((b.len() - 1) as nat);
        assert(pow2(b.len()) == 2 * p);
        assert(binary_value(a + b) == (va * p + vb) * 2 + digit_value(b.last()));
        assert(binary_value(b) == vb * 2 + digit_value(b.last()));
        assert((va * p + vb) * 2 == va * (2 * p) + vb * 2) by (nonlinear_arith);
    } else {
        assert(a + b =~= a);
        assert(pow2(0) == 1);
        assert(binary_value(b) == 0);
    }
}

proof fn lemma_digit_char_value(d: nat)
    requires
        d < 10,
    ensures
        digit_value(digit_char(d)) == d,
        is_decimal_digit(digit_char(d)),
        d < 2 ==> is_binary_digit(digit_char(d)),
        digit_char(d) != ',' && digit_char(d) != '+' && digit_char(d) != '-',
{
}

proof fn lemma_binary_value_zeros(n: nat)
    ensures
        binary_value(Seq::new(n, |i: int| '0')) == 0,
    decreases n,
{
    if n > 0 {
        assert(Seq::new(n, |i: int| '0').drop_last() =~= Seq::new((n - 1) as nat, |i: int| '0'));
        lemma_binary_value_zeros((n - 1) as nat);
    }
}

proof fn lemma_binary_digits_value(n: nat)
    ensures
        binary_value(binary_digits(n)) == n,
    decreases n,
{
    lemma_digit_char_value((n % 2) as nat);
    if n >= 2 {
        lemma_binary_digits_value(n / 2);
        let d = binary_digits(n);
        assert(d.drop_last() =~= binary_digits(n / 2));
        assert(d.last() == digit_char((n % 2) as nat));
        assert(d.len() > 0);
        assert(binary_value(d) == binary_value(d.drop_last()) * 2 + digit_value(d.last()));
        assert(binary_value(d) == (n / 2) * 2 + (n % 2));
    } else {
        assert(binary_digits(n).drop_last() =~= Seq::<char>::empty());
        assert(binary_value(Seq::<char>::empty()) == 0);
    }
}

proof fn lemma_binary_digits_len(n: nat, k: nat)
    requires
        k >= 1,
        n < pow2(k),
    ensures
        binary_digits(n).len() <= k,
    decreases n,
{
    if n >= 2 {
        assert(pow2(k) == 2 * pow2((k - 1) as nat));
        if k == 1 {
            assert(false);
        }
        lemma_binary_digits_len(n / 2, (k - 1) as nat);
    }
}

proof fn lemma_decimal_digits_value(n: nat)
    ensures
        decimal_value(decimal_digits(n)) == n,
        all_decimal(decimal_digits(n)),
        decimal_digits(n).len() > 0,
        !decimal_digits(n).contains(','),
        decimal_digits(n)[0] != '+' && decimal_digits(n)[0] != '-',
    decreases n,
{
    lemma_digit_char_value((n % 10) as nat);
    if n >= 10 {
        lemma_decimal_digits_value(n / 10);
        let d = decimal_digits(n / 10);
        assert(decimal_digits(n).drop_last() =~= d);
        assert forall|i: int| 0 <= i < decimal_digits(n).len() implies is_decimal_digit(
            #[trigger] decimal_digits(n)[i],
        ) by {
            if i < d.len() {
                assert(decimal_digits(n)[i] == d[i]);
            }
        }
        assert(decimal_digits(n)[0] == d[0]);
    } else {
        assert(decimal_digits(n).drop_last() =~= Seq::<char>::empty());
        assert(decimal_value(Seq::<char>::empty()) == 0);
    }
    if decimal_digits(n).contains(',') {
        let i = choose|i: int| 0 <= i < decimal_digits(n).len() && decimal_digits(n)[i] == ',';
        assert(is_decimal_digit(decimal_digits(n)[i]));
    }
}

proof fn lemma_parse_decimal_digits(n: nat)
    requires
        n <= i32::MAX,
    ensures
        parse_i32(decimal_digits(n)) == Some(n as i32),
{
    lemma_decimal_digits_value(n);
    let d = decimal_digits(n);
    assert(!has_sign(d));
    assert(unsigned_part(d) == d);
}

proof fn lemma_comma_from_no_comma(s: Seq<char>, i: int)
    requires
        0 <= i,
        !s.contains(','),
    ensures
        comma_from(s, i) is None,
    decreases s.len() - i,
{
    if i < s.len() {
        assert(s[i] != ',');
        lemma_comma_from_no_comma(s, i + 1);
    }
}

proof fn lemma_comma_from_prefix(a: Seq<char>, rest: Seq<char>, i: int)
    requires
        0 <= i <= a.len(),
        !a.contains(','),
    ensures
        comma_from(a + seq![','] + rest, i) == Some(a.len() as int),
    decreases a.len() - i,
{
    let s = a + seq![','] + rest;
    if i < a.len() {
        assert(s[i] == a[i]);
        lemma_comma_from_prefix(a, rest, i + 1);
    } else {
        assert(s[i] == ',');
    }
}

proof fn lemma_field_split(a: Seq<char>, rest: Seq<char>, k: nat)
    requires
        !a.contains(','),
    ensures
        field(a + seq![','] + rest, 0) == Some(a),
        field(a + seq![','] + rest, k + 1) == field(rest, k),
{
    let s = a + seq![','] + rest;
    lemma_comma_from_prefix(a, rest, 0);
    assert(s.subrange(0, a.len() as int) =~= a);
    assert(s.subrange(a.len() + 1int, s.len() as int) =~= rest);
}

proof fn lemma_field_last(a: Seq<char>)
    requires
        !a.contains(','),
    ensures
        field(a, 0) == Some(a),
{
    lemma_comma_from_no_comma(a, 0);
}

/// The `r,g,b` text of three channels.
pub open spec fn rgb_decimal(r: nat, g: nat, b: nat) -> Seq<char> {
    decimal_digits(r) + seq![','] + decimal_digits(g) + seq![','] + decimal_digits(b)
}

proof fn lemma_binary8_small(v: i32)
    requires
        0 <= v < 256,
    ensures
        binary8(v).len() == 8,
        all_binary(binary8(v)),
        binary_value(binary8(v)) == v,
{
    let d = binary_digits(v as nat);
    reveal_with_fuel(pow2, 9);
    lemma_binary_digits_len(v as nat, 8);
    lemma_binary_digits_value(v as nat);
    lemma_binary_digits_binary(v as nat);
    if d.len() < 8 {
        let z = Seq::new((8 - d.len()) as nat, |i: int| '0');
        assert(binary8(v) == z + d);
        lemma_binary_value_concat(z, d);
        lemma_binary_value_zeros((8 - d.len()) as nat);
        assert forall|i: int| 0 <= i < (z + d).len() implies is_binary_digit(#[trigger] (z + d)[i]) by {
            if i >= z.len() {
                assert((z + d)[i] == d[i - z.len()]);
            }
        }
    }
}

/// An `r,g,b` text is already in small letters and is read as it is.
proof fn lemma_rgb_decimal_plain(r: nat, g: nat, b: nat)
    ensures
        lowercase(rgb_decimal(r, g, b)) == rgb_decimal(r, g, b),
        rgb_text(rgb_decimal(r, g, b)) == rgb_decimal(r, g, b),
{
    let s = rgb_decimal(r, g, b);
    lemma_decimal_digits_value(r);
    lemma_decimal_digits_value(g);
    lemma_decimal_digits_value(b);
    let dr = decimal_digits(r);
    let dg = decimal_digits(g);
    let db = decimal_digits(b);
    assert forall|i: int| 0 <= i < s.len() implies is_decimal_digit(#[trigger] s[i]) || s[i] == ',' by {
        if i < dr.len() {
            assert(s[i] == dr[i]);
        } else if i == dr.len() {
        } else if i < dr.len() + 1 + dg.len() {
            assert(s[i] == dg[i - dr.len() - 1]);
        } else if i == dr.len() + 1 + dg.len() {
        } else {
            assert(s[i] == db[i - dr.len() - dg.len() - 2]);
        }
    }
    assert(lowercase(s) =~= s);
    assert(s[dr.len() as int] == ',');
    assert(s.contains(','));
    assert(s[0] == dr[0]);
    lemma_remove_nothing(s, ')', '(');
    assert(rgb_text(s) == s);
}

/// Law: a colour given as `r,g,b` with channels from 0 to 255 is stored as the
/// number `r * 65536 + g * 256 + b` and read back unchanged: the name drawn on
/// the gauge has the colour that `!color` set.
#[verifier::spinoff_prover]
pub proof fn law_color_round_trip(r: nat, g: nat, b: nat)
    requires
        r < 256,
        g < 256,
        b < 256,
    ensures
        bit_field_defined(rgb_decimal(r, g, b)),
        bit_field(rgb_decimal(r, g, b)) == r * 65536 + g * 256 + b,
        color_of_bit_field(bit_field(rgb_decimal(r, g, b))) == Rgba([r as u8, g as u8, b as u8, 100u8]),
{
    let s = rgb_decimal(r, g, b);
    lemma_rgb_decimal_plain(r, g, b);
    lemma_decimal_digits_value(r);
    lemma_decimal_digits_value(g);
    lemma_decimal_digits_value(b);
    let dr = decimal_digits(r);
    let dg = decimal_digits(g);
    let db = decimal_digits(b);
    // The three pieces.
    assert(s == dr + seq![','] + (dg + seq![','] + db));
    lemma_field_split(dr, dg + seq![','] + db, 0);
    lemma_field_split(dr, dg + seq![','] + db, 1);
    lemma_field_split(dg, db, 0);
    lemma_field_last(db);
    assert(field(dg + seq![','] + db, 1) == field(db, 0));
    lemma_parse_decimal_digits(r);
    lemma_parse_decimal_digits(g);
    lemma_parse_decimal_digits(b);
    assert(channel(s, 0) == Some(r as i32));
    assert(channel(s, 1) == Some(g as i32));
    assert(channel(s, 2) == Some(b as i32));
    assert(rgba_defined(s));
    let c = rgba_of(s);
    assert(c == Rgba([r as i32, g as i32, b as i32, 100i32]));
    // The binary text.
    let br = binary8(r as i32);
    let bg = binary8(g as i32);
    let bb = binary8(b as i32);
    lemma_binary8_small(r as i32);
    lemma_binary8_small(g as i32);
    lemma_binary8_small(b as i32);
    let t = bit_field_text(c);
    assert(t == br + bg + bb);
    reveal_with_fuel(pow2, 17);
    assert(pow2(8) == 256);
    assert((br + bg).len() == 16);
    lemma_binary_value_concat(br + bg, bb);
    lemma_binary_value_concat(br, bg);
    let x: int = (r * 65536 + g * 256 + b) as int;
    assert(binary_value(t) == x);
    assert forall|i: int| 0 <= i < t.len() implies is_binary_digit(#[trigger] t[i]) by {
        if i < 8 {
            assert(t[i] == br[i]);
        } else if i < 16 {
            assert(t[i] == bg[i - 8]);
        } else {
            assert(t[i] == bb[i - 16]);
        }
    }
    assert(t[0] == br[0]);
    assert(!has_sign(t));
    assert(unsigned_part(t) == t);
    assert(parse_binary_i64(t) == Some(x as i64));
    assert(bit_field(s) == x as i64);
    // Reading the bit field back.
    let text = bits24(x as i64);
    let d = binary_digits(x as nat);
    assert(u64_pattern(x as i64) == x);
    lemma_binary_digits_len(x as nat, 24);
    lemma_binary_digits_value(x as nat);
    lemma_binary_digits_binary(x as nat);
    let z = map_char(text, ' ', '0');
    let zeros = Seq::new((24 - d.len()) as nat, |i: int| '0');
    assert(z =~= zeros + d) by {
        if d.len() < 24 {
            assert(text == Seq::new((24 - d.len()) as nat, |i: int| ' ') + d);
            assert forall|i: int| 0 <= i < 24 implies z[i] == (zeros + d)[i] by {
                if i >= 24 - d.len() {
                    assert(text[i] == d[i - (24 - d.len())]);
                    assert(is_binary_digit(d[i - (24 - d.len())]));
                }
            }
        } else {
            assert(text == d);
            assert forall|i: int| 0 <= i < 24 implies z[i] == (zeros + d)[i] by {
                assert(is_binary_digit(d[i]));
            }
        }
    }
    lemma_binary_value_concat(zeros, d);
    lemma_binary_value_zeros((24 - d.len()) as nat);
    assert(binary_value(zeros) == 0);
    assert(binary_value(zeros + d) == binary_value(d)) by {
        assert(binary_value(zeros) * pow2(d.len()) == 0);
    }
    assert(binary_value(z) == x);
    let z0 = z.subrange(0, 8);
    let z1 = z.subrange(8, 16);
    let z2 = z.subrange(16, 24);
    assert(z =~= z0 + z1 + z2);
    assert(map_char(text.subrange(0, 8), ' ', '0') =~= z0);
    assert(map_char(text.subrange(8, 16), ' ', '0') =~= z1);
    assert(map_char(text.subrange(16, 24), ' ', '0') =~= z2);
    lemma_binary_value_concat(z0 + z1, z2);
    lemma_binary_value_concat(z0, z1);
    assert(z0.len() == 8 && z1.len() == 8 && z2.len() == 8);
    assert(binary_value(z) == binary_value(z0 + z1) * 256 + binary_value(z2));
    assert(binary_value(z0 + z1) == binary_value(z0) * 256 + binary_value(z1));
    assert forall|i: int| 0 <= i < 24 implies is_binary_digit(#[trigger] z[i]) by {
        if i >= 24 - d.len() {
            assert(z[i] == d[i - (24 - d.len())]);
        }
    }
    assert(all_binary(z0)) by {
        assert forall|i: int| 0 <= i < 8 implies is_binary_digit(#[trigger] z0[i]) by {
            assert(z0[i] == z[i]);
        }
    }
    assert(all_binary(z1)) by {
        assert forall|i: int| 0 <= i < 8 implies is_binary_digit(#[trigger] z1[i]) by {
            assert(z1[i] == z[i + 8]);
        }
    }
    assert(all_binary(z2)) by {
        assert forall|i: int| 0 <= i < 8 implies is_binary_digit(#[trigger] z2[i]) by {
            assert(z2[i] == z[i + 16]);
        }
    }
    lemma_binary_value_bound(z0);
    lemma_binary_value_bound(z1);
    lemma_binary_value_bound(z2);
    let v0 = binary_value(z0);
    let v1 = binary_value(z1);
    let v2 = binary_value(z2);
    assert(v0 * 65536 + v1 * 256 + v2 == r * 65536 + g * 256 + b);
    assert(v0 == r && v1 == g && v2 == b) by (nonlinear_arith)
        requires
            v0 * 65536 + v1 * 256 + v2 == r * 65536 + g * 256 + b,
            0 <= v0 < 256,
            0 <= v1 < 256,
            0 <= v2 < 256,
            r < 256,
            g < 256,
            b < 256,
    ;
    assert(chunk_value(text, 0) == v0);
    assert(chunk_value(text, 1) == v1);
    assert(chunk_value(text, 2) == v2);
}

proof fn lemma_remove_nothing(s: Seq<char>, a: char, b: char)
    requires
        !s.contains(a),
        !s.contains(b),
    ensures
        remove_chars(s, a, b) == s,
    decreases s.len(),
{
    if s.len() > 0 {
        assert(!s.drop_last().contains(a));
        assert(!s.drop_last().contains(b));
        lemma_remove_nothing(s.drop_last(), a, b);
        assert(s.drop_last().push(s.last()) =~= s);
        assert(s.last() == s[s.len() - 1]);
    }
}

proof fn lemma_lower_char(c: char)
    ensures
        lower_char(lower_char(c)) == lower_char(c),
        (c as u32) < 128 ==> (lower_char(c) as u32) < 128,
        lower_char(c) == '#' <==> c == '#',
        lower_char(c) == ',' <==> c == ',',
        lower_char(c) == '(' <==> c == '(',
        lower_char(c) == ')' <==> c == ')',
{
}

proof fn lemma_lowercase_idempotent(s: Seq<char>)
    ensures
        lowercase(lowercase(s)) == lowercase(s),
{
    assert forall|i: int| 0 <= i < s.len() implies lowercase(lowercase(s))[i] == lowercase(s)[i] by {
        lemma_lower_char(s[i]);
    }
    assert(lowercase(lowercase(s)) =~= lowercase(s));
}

/// Law: letter case does not matter in a colour argument.
pub proof fn law_color_case_insensitive(s: Seq<char>)
    ensures
        bit_field_defined(s) == bit_field_defined(lowercase(s)),
        bit_field_defined(s) ==> bit_field(s) == bit_field(lowercase(s)),
{
    lemma_lowercase_idempotent(s);
}

/// Law: the short code `#abc` gives the colour of the long code `#aabbcc`.
pub proof fn law_short_hex_code(a: char, b: char, c: char)
    requires
        (a as u32) < 128,
        (b as u32) < 128,
        (c as u32) < 128,
        a != '#',
        b != '#',
        c != '#',
    ensures
        bit_field_defined(seq!['#', a, b, c]) == bit_field_defined(seq!['#', a, a, b, b, c, c]),
        bit_field_defined(seq!['#', a, b, c]) ==> bit_field(seq!['#', a, b, c]) == bit_field(
            seq!['#', a, a, b, b, c, c],
        ),
{
    let s1 = seq!['#', a, b, c];
    let s2 = seq!['#', a, a, b, b, c, c];
    lemma_lower_char(a);
    lemma_lower_char(b);
    lemma_lower_char(c);
    lemma_lower_char('#');
    let (la, lb, lc) = (lower_char(a), lower_char(b), lower_char(c));
    let l1 = lowercase(s1);
    let l2 = lowercase(s2);
    assert(l1 =~= seq!['#', la, lb, lc]);
    assert(l2 =~= seq!['#', la, la, lb, lb, lc, lc]);
    reveal_with_fuel(utf8_len, 8);
    assert(l1.drop_last() =~= seq!['#', la, lb]);
    assert(l1.drop_last().drop_last() =~= seq!['#', la]);
    assert(l1.drop_last().drop_last().drop_last() =~= seq!['#']);
    assert(utf8_len(l1) == 4);
    assert(utf8_len(l2) == 7) by {
        assert(l2.drop_last() =~= seq!['#', la, la, lb, lb, lc]);
        assert(l2.drop_last().drop_last() =~= seq!['#', la, la, lb, lb]);
        assert(l2.drop_last().drop_last().drop_last() =~= seq!['#', la, la, lb]);
        assert(l2.drop_last().drop_last().drop_last().drop_last() =~= seq!['#', la, la]);
        assert(l2.drop_last().drop_last().drop_last().drop_last().drop_last() =~= seq!['#', la]);
        assert(l2.drop_last().drop_last().drop_last().drop_last().drop_last().drop_last() =~= seq![
            '#',
        ]);
    }
    let d1 = doubled(l1);
    assert(d1 =~= seq!['#', '#', la, la, lb, lb, lc, lc]);
    let body = seq![la, la, lb, lb, lc, lc];
    lemma_remove_hash_prefix(seq!['#', '#'], body);
    lemma_remove_hash_prefix(seq!['#'], body);
    assert(d1 =~= seq!['#', '#'] + body);
    assert(l2 =~= seq!['#'] + body);
    assert(hex_body(d1) == hex_body(l2));
    assert(rgb_text(l1) == rgb_text(l2));
    assert(rgb_text_defined(l1) == rgb_text_defined(l2));
}

proof fn lemma_channel_digits()
    ensures
        decimal_digits(0) == seq!['0'],
        decimal_digits(128) == seq!['1', '2', '8'],
        decimal_digits(153) == seq!['1', '5', '3'],
        decimal_digits(204) == seq!['2', '0', '4'],
        decimal_digits(255) == seq!['2', '5', '5'],
{
    reveal_with_fuel(decimal_digits, 3);
    assert(decimal_digits(12) == seq!['1', '2']);
    assert(decimal_digits(15) == seq!['1', '5']);
    assert(decimal_digits(20) == seq!['2', '0']);
    assert(decimal_digits(25) == seq!['2', '5']);
}

/// A colour name of small letters is stored as the channels of its `r,g,b` text.
proof fn lemma_named_color(name: Seq<char>, r: nat, g: nat, b: nat)
    requires
        forall|i: int| 0 <= i < name.len() ==> 'a' <= #[trigger] name[i] <= 'z',
        color_name_rgb(name) == rgb_decimal(r, g, b),
        r < 256,
        g < 256,
        b < 256,
    ensures
        bit_field_defined(name),
        bit_field(name) == r * 65536 + g * 256 + b,
{
    law_color_round_trip(r, g, b);
    lemma_rgb_decimal_plain(r, g, b);
    assert(lowercase(name) =~= name);
    assert(!name.contains(','));
    assert(name.len() > 0 ==> name[0] != '#');
    assert(rgb_text(name) == rgb_decimal(r, g, b));
    assert(rgba_of(lowercase(name)) == rgba_of(lowercase(rgb_decimal(r, g, b))));
}

/// Law: each colour name is stored as `r * 65536 + g * 256 + b` of its colour:
/// red (255,0,0), orange (255,128,0), yellow (255,255,0), green (0,255,0), cyan
/// (0,255,255), blue (0,0,255), purple (128,0,255), pink (255,0,128), black
/// (0,0,0), gray (128,128,128), white (255,255,255) and mine (255,153,204).
proof fn lemma_name_red()
    ensures
        bit_field("red"@) == 0xff0000,
{
    lemma_channel_digits();
    reveal_strlit("red");
    reveal_strlit("255,0,0");
    assert("red"@ =~= seq!['r', 'e', 'd']);
    assert("255,0,0"@ =~= rgb_decimal(255, 0, 0));
    lemma_named_color("red"@, 255, 0, 0);
}

proof fn lemma_name_orange()
    ensures
        bit_field("orange"@) == 0xff8000,
{
    lemma_channel_digits();
    reveal_strlit("red");
    reveal_strlit("orange");
    reveal_strlit("255,128,0");
    assert("orange"@ =~= seq!['o', 'r', 'a', 'n', 'g', 'e']);
    assert("orange"@ != "red"@);
    assert("255,128,0"@ =~= rgb_decimal(255, 128, 0));
    lemma_named_color("orange"@, 255, 128, 0);
}

proof fn lemma_name_yellow()
    ensures
        bit_field("yellow"@) == 0xffff00,
{
    lemma_channel_digits();
    reveal_strlit("red");
    reveal_strlit("orange");
    reveal_strlit("yellow");
    reveal_strlit("255,255,0");
    assert("yellow"@ =~= seq!['y', 'e', 'l', 'l', 'o', 'w']);
    assert("yellow"@ != "red"@);
    assert("yellow"@ != "orange"@);
    assert("255,255,0"@ =~= rgb_decimal(255, 255, 0));
    lemma_named_color("yellow"@, 255, 255, 0);
}

proof fn lemma_name_green()
    ensures
        bit_field("green"@) == 0x00ff00,
{
    lemma_channel_digits();
    reveal_strlit("red");
    reveal_strlit("orange");
    reveal_strlit("yellow");
    reveal_strlit("green");
    reveal_strlit("0,255,0");
    assert("green"@ =~= seq!['g', 'r', 'e', 'e', 'n']);
    assert("green"@ != "red"@);
    assert("green"@ != "orange"@);
    assert("green"@ != "yellow"@);
    assert("0,255,0"@ =~= rgb_decimal(0, 255, 0));
    lemma_named_color("green"@, 0, 255, 0);
}

proof fn lemma_name_cyan()
    ensures
        bit_field("cyan"@) == 0x00ffff,
{
    lemma_channel_digits();
    reveal_strlit("red");
    reveal_strlit("orange");
    reveal_strlit("yellow");
    reveal_strlit("green");
    reveal_strlit("cyan");
    reveal_strlit("0,255,255");
    assert("cyan"@ =~= seq!['c', 'y', 'a', 'n']);
    assert("cyan"@ != "red"@);
    assert("cyan"@ != "orange"@);
    assert("cyan"@ != "yellow"@);
    assert("cyan"@ != "green"@);
    assert("0,255,255"@ =~= rgb_decimal(0, 255, 255));
    lemma_named_color("cyan"@, 0, 255, 255);
}

proof fn lemma_name_blue()
    ensures
        bit_field("blue"@) == 0x0000ff,
{
    lemma_channel_digits();
    reveal_strlit("red");
    reveal_strlit("orange");
    reveal_strlit("yellow");
    reveal_strlit("green");
    reveal_strlit("cyan");
    reveal_strlit("blue");
    reveal_strlit("0,0,255");
    assert("blue"@ =~= seq!['b', 'l', 'u', 'e']);
    assert("blue"@ != "red"@);
    assert("blue"@ != "orange"@);
    assert("blue"@ != "yellow"@);
    assert("blue"@ != "green"@);
    assert("blue"@ != "cyan"@);
    assert("0,0,255"@ =~= rgb_decimal(0, 0, 255));
    lemma_named_color("blue"@, 0, 0, 255);
}

proof fn lemma_name_purple()
    ensures
        bit_field("purple"@) == 0x8000ff,
{
    lemma_channel_digits();
    reveal_strlit("red");
    reveal_strlit("orange");
    reveal_strlit("yellow");
    reveal_strlit("green");
    reveal_strlit("cyan");
    reveal_strlit("blue");
    reveal_strlit("purple");
    reveal_strlit("128,0,255");
    assert("purple"@ =~= seq!['p', 'u', 'r', 'p', 'l', 'e']);
    assert("purple"@ != "red"@);
    assert("purple"@ != "orange"@);
    assert("purple"@ != "yellow"@);
    assert("purple"@ != "green"@);
    assert("purple"@ != "cyan"@);
    assert("purple"@ != "blue"@);
    assert("128,0,255"@ =~= rgb_decimal(128, 0, 255));
    lemma_named_color("purple"@, 128, 0, 255);
}

proof fn lemma_name_pink()
    ensures
        bit_field("pink"@) == 0xff0080,
{
    lemma_channel_digits();
    reveal_strlit("red");
    reveal_strlit("orange");
    reveal_strlit("yellow");
    reveal_strlit("green");
    reveal_strlit("cyan");
    reveal_strlit("blue");
    reveal_strlit("purple");
    reveal_strlit("pink");
    reveal_strlit("255,0,128");
    assert("pink"@ =~= seq!['p', 'i', 'n', 'k']);
    assert("pink"@ != "red"@);
    assert("pink"@ != "orange"@);
    assert("pink"@ != "yellow"@);
    assert("pink"@ != "green"@);
    assert("pink"@ != "cyan"@);
    assert("pink"@ != "blue"@);
    assert("pink"@ != "purple"@);
    assert("255,0,128"@ =~= rgb_decimal(255, 0, 128));
    lemma_named_color("pink"@, 255, 0, 128);
}

proof fn lemma_name_black()
    ensures
        bit_field("black"@) == 0,
{
    lemma_channel_digits();
    reveal_strlit("red");
    reveal_strlit("orange");
    reveal_strlit("yellow");
    reveal_strlit("green");
    reveal_strlit("cyan");
    reveal_strlit("blue");
    reveal_strlit("purple");
    reveal_strlit("pink");
    reveal_strlit("black");
    reveal_strlit("0,0,0");
    assert("black"@ =~= seq!['b', 'l', 'a', 'c', 'k']);
    assert("black"@ != "red"@);
    assert("black"@ != "orange"@);
    assert("black"@ != "yellow"@);
    assert("black"@ != "green"@);
    assert("black"@ != "cyan"@);
    assert("black"@ != "blue"@);
    assert("black"@ != "purple"@);
    assert("black"@ != "pink"@);
    assert("0,0,0"@ =~= rgb_decimal(0, 0, 0));
    lemma_named_color("black"@, 0, 0, 0);
}

proof fn lemma_name_gray()
    ensures
        bit_field("gray"@) == 0x808080,
{
    lemma_channel_digits();
    reveal_strlit("red");
    reveal_strlit("orange");
    reveal_strlit("yellow");
    reveal_strlit("green");
    reveal_strlit("cyan");
    reveal_strlit("blue");
    reveal_strlit("purple");
    reveal_strlit("pink");
    reveal_strlit("black");
    reveal_strlit("gray");
    reveal_strlit("128,128,128");
    assert("gray"@ =~= seq!['g', 'r', 'a', 'y']);
    assert("gray"@ != "red"@);
    assert("gray"@ != "orange"@);
    assert("gray"@ != "yellow"@);
    assert("gray"@ != "green"@);
    assert("gray"@ != "cyan"@);
    assert("gray"@ != "blue"@);
    assert("gray"@ != "purple"@);
    assert("gray"@ != "pink"@);
    assert("gray"@ != "black"@);
    assert("128,128,128"@ =~= rgb_decimal(128, 128, 128));
    lemma_named_color("gray"@, 128, 128, 128);
}

proof fn lemma_name_white()
    ensures
        bit_field("white"@) == 0xffffff,
{
    lemma_channel_digits();
    reveal_strlit("red");
    reveal_strlit("orange");
    reveal_strlit("yellow");
    reveal_strlit("green");
    reveal_strlit("cyan");
    reveal_strlit("blue");
    reveal_strlit("purple");
    reveal_strlit("pink");
    reveal_strlit("black");
    reveal_strlit("gray");
    reveal_strlit("white");
    reveal_strlit("255,255,255");
    assert("white"@ =~= seq!['w', 'h', 'i', 't', 'e']);
    assert("white"@ != "red"@);
    assert("white"@ != "orange"@);
    assert("white"@ != "yellow"@);
    assert("white"@ != "green"@);
    assert("white"@ != "cyan"@);
    assert("white"@ != "blue"@);
    assert("white"@ != "purple"@);
    assert("white"@ != "pink"@);
    assert("white"@ != "black"@);
    assert("white"@ != "gray"@);
    assert("255,255,255"@ =~= rgb_decimal(255, 255, 255));
    lemma_named_color("white"@, 255, 255, 255);
}

proof fn lemma_name_mine()
    ensures
        bit_field("mine"@) == 0xff99cc,
{
    lemma_channel_digits();
    reveal_strlit("red");
    reveal_strlit("orange");
    reveal_strlit("yellow");
    reveal_strlit("green");
    reveal_strlit("cyan");
    reveal_strlit("blue");
    reveal_strlit("purple");
    reveal_strlit("pink");
    reveal_strlit("black");
    reveal_strlit("gray");
    reveal_strlit("white");
    reveal_strlit("mine");
    reveal_strlit("255,153,204");
    assert("mine"@ =~= seq!['m', 'i', 'n', 'e']);
    assert("mine"@ != "red"@);
    assert("mine"@ != "orange"@);
    assert("mine"@ != "yellow"@);
    assert("mine"@ != "green"@);
    assert("mine"@ != "cyan"@);
    assert("mine"@ != "blue"@);
    assert("mine"@ != "purple"@);
    assert("mine"@ != "pink"@);
    assert("mine"@ != "black"@);
    assert("mine"@ != "gray"@);
    assert("mine"@ != "white"@);
    assert("255,153,204"@ =~= rgb_decimal(255, 153, 204));
    lemma_named_color("mine"@, 255, 153, 204);
}

/// Law: each colour name is stored as `r * 65536 + g * 256 + b` of its colour:
/// red (255,0,0), orange (255,128,0), yellow (255,255,0), green (0,255,0), cyan
/// (0,255,255), blue (0,0,255), purple (128,0,255), pink (255,0,128), black
/// (0,0,0), gray (128,128,128), white (255,255,255) and mine (255,153,204).
pub proof fn law_color_names()
    ensures
        bit_field("red"@) == 0xff0000,
        bit_field("orange"@) == 0xff8000,
        bit_field("yellow"@) == 0xffff00,
        bit_field("green"@) == 0x00ff00,
        bit_field("cyan"@) == 0x00ffff,
        bit_field("blue"@) == 0x0000ff,
        bit_field("purple"@) == 0x8000ff,
        bit_field("pink"@) == 0xff0080,
        bit_field("black"@) == 0,
        bit_field("gray"@) == 0x808080,
        bit_field("white"@) == 0xffffff,
        bit_field("mine"@) == 0xff99cc,
{
    lemma_name_red();
    lemma_name_orange();
    lemma_name_yellow();
    lemma_name_green();
    lemma_name_cyan();
    lemma_name_blue();
    lemma_name_purple();
    lemma_name_pink();
    lemma_name_black();
    lemma_name_gray();
    lemma_name_white();
    lemma_name_mine();
}

/// Whether `name` is one of the colour names that `!color` knows.
pub open spec fn is_color_name(name: Seq<char>) -> bool {
    ||| name == "red"@
    ||| name == "orange"@
    ||| name == "yellow"@
    ||| name == "green"@
    ||| name == "cyan"@
    ||| name == "blue"@
    ||| name == "purple"@
    ||| name == "pink"@
    ||| name == "black"@
    ||| name == "gray"@
    ||| name == "white"@
    ||| name == "mine"@
}

/// Law: a word that is no colour name, no `#` code and no `r,g,b` text is
/// stored as pink (255,0,128), in any letter case.
pub proof fn law_unknown_color_name(s: Seq<char>)
    requires
        !is_color_name(lowercase(s)),
        !s.contains(','),
        s.len() == 0 || s[0] != '#',
    ensures
        bit_field_defined(s),
        bit_field(s) == 0xff0080,
{
    lemma_channel_digits();
    law_color_round_trip(255, 0, 128);
    lemma_rgb_decimal_plain(255, 0, 128);
    let l = lowercase(s);
    assert forall|i: int| 0 <= i < l.len() implies l[i] != ',' by {
        lemma_lower_char(s[i]);
    }
    if s.len() > 0 {
        lemma_lower_char(s[0]);
    }
    reveal_strlit("255,0,128");
    assert("255,0,128"@ =~= rgb_decimal(255, 0, 128));
    assert(rgb_text(l) == rgb_decimal(255, 0, 128));
    lemma_lowercase_idempotent(s);
    assert(rgba_of(lowercase(s)) == rgba_of(lowercase(rgb_decimal(255, 0, 128))));
}

/// The small hex digit of `d` (0 to 15).
pub open spec fn hex_char(d: nat) -> char {
    if d < 10 {
        (48 + d) as char
    } else {
        (87 + d) as char
    }
}

/// The code `#rrggbb` of three channels, in small letters.
pub open spec fn hex_code(r: nat, g: nat, b: nat) -> Seq<char> {
    seq![
        '#',
        hex_char(r / 16),
        hex_char(r % 16),
        hex_char(g / 16),
        hex_char(g % 16),
        hex_char(b / 16),
        hex_char(b % 16),
    ]
}

proof fn lemma_hex_char(d: nat)
    requires
        0 <= d < 16,
    ensures
        hex_digit(hex_char(d)) == d,
        lower_char(hex_char(d)) == hex_char(d),
        char_utf8_len(hex_char(d)) == 1,
        hex_char(d) != '#',
{
    let c = hex_char(d);
    if d < 10 {
        assert(c as u32 == 48 + d);
    } else {
        assert(c as u32 == 87 + d);
    }
}

/// Law: the code `#rrggbb` names the colour `r,g,b`: both are stored as the
/// number `r * 65536 + g * 256 + b` (in capitals too, as letter case does not
/// matter).
pub proof fn law_hex_code(r: nat, g: nat, b: nat)
    requires
        r < 256,
        g < 256,
        b < 256,
    ensures
        bit_field_defined(hex_code(r, g, b)),
        bit_field(hex_code(r, g, b)) == bit_field(rgb_decimal(r, g, b)),
        bit_field(hex_code(r, g, b)) == r * 65536 + g * 256 + b,
{
    law_color_round_trip(r, g, b);
    lemma_rgb_decimal_plain(r, g, b);
    let h = hex_code(r, g, b);
    lemma_hex_char(r / 16);
    lemma_hex_char(r % 16);
    lemma_hex_char(g / 16);
    lemma_hex_char(g % 16);
    lemma_hex_char(b / 16);
    lemma_hex_char(b % 16);
    lemma_lower_char('#');
    assert(lowercase(h) =~= h);
    reveal_with_fuel(utf8_len, 8);
    assert(h.drop_last() =~= h.subrange(0, 6));
    assert(h.subrange(0, 6).drop_last() =~= h.subrange(0, 5));
    assert(h.subrange(0, 5).drop_last() =~= h.subrange(0, 4));
    assert(h.subrange(0, 4).drop_last() =~= h.subrange(0, 3));
    assert(h.subrange(0, 3).drop_last() =~= h.subrange(0, 2));
    assert(h.subrange(0, 2).drop_last() =~= h.subrange(0, 1));
    assert(h.subrange(0, 1).drop_last() =~= Seq::<char>::empty());
    assert(utf8_len(h) == 7);
    let body = h.subrange(1, 7);
    assert(!body.contains('#'));
    assert(h =~= seq!['#'] + body);
    lemma_remove_hash_prefix(seq!['#'], body);
    assert(hex_body(h) == body);
    assert(hex_pair(body, 0) == r);
    assert(hex_pair(body, 2) == g);
    assert(hex_pair(body, 4) == b);
    assert(rgb_text(h) == rgb_decimal(r, g, b));
    assert(rgba_of(lowercase(h)) == rgba_of(lowercase(rgb_decimal(r, g, b))));
}

proof fn lemma_remove_concat(x: Seq<char>, y: Seq<char>, p: char, q: char)
    ensures
        remove_chars(x + y, p, q) == remove_chars(x, p, q) + remove_chars(y, p, q),
    decreases y.len(),
{
    if y.len() > 0 {
        assert((x + y).drop_last() =~= x + y.drop_last());
        assert((x + y).last() == y.last());
        lemma_remove_concat(x, y.drop_last(), p, q);
        assert(remove_chars(x, p, q) + remove_chars(y.drop_last(), p, q).push(y.last()) =~= (
        remove_chars(x, p, q) + remove_chars(y.drop_last(), p, q)).push(y.last()));
    } else {
        assert(x + y =~= x);
        assert(remove_chars(x, p, q) + remove_chars(y, p, q) =~= remove_chars(x, p, q));
    }
}

proof fn lemma_remove_hash_prefix(hashes: Seq<char>, body: Seq<char>)
    requires
        forall|i: int| 0 <= i < hashes.len() ==> hashes[i] == '#',
        !body.contains('#'),
    ensures
        remove_chars(hashes + body, '#', '#') == body,
    decreases hashes.len(),
{
    lemma_remove_concat(hashes, body, '#', '#');
    lemma_remove_nothing(body, '#', '#');
    lemma_remove_all_hashes(hashes);
    assert(Seq::<char>::empty() + body =~= body);
}

proof fn lemma_remove_all_hashes(hashes: Seq<char>)
    requires
        forall|i: int| 0 <= i < hashes.len() ==> hashes[i] == '#',
    ensures
        remove_chars(hashes, '#', '#') == Seq::<char>::empty(),
    decreases hashes.len(),
{
    if hashes.len() > 0 {
        lemma_remove_all_hashes(hashes.drop_last());
    }
}

/// Law: an `r,g,b` argument names the same colour with or without parentheses.
pub proof fn law_parenthesized_rgb(s: Seq<char>)
    requires
        s.contains(','),
        !s.contains('('),
        !s.contains(')'),
        s[0] != '#',
    ensures
        bit_field_defined(seq!['('] + s + seq![')']) == bit_field_defined(s),
        bit_field_defined(s) ==> bit_field(seq!['('] + s + seq![')']) == bit_field(s),
{
    let p = seq!['('] + s + seq![')'];
    let l = lowercase(s);
    lemma_lower_char('(');
    lemma_lower_char(')');
    assert(lowercase(p) =~= seq!['('] + l + seq![')']);
    let i = choose|i: int| 0 <= i < s.len() && s[i] == ',';
    lemma_lower_char(s[i]);
    lemma_lower_char(s[0]);
    assert(l[i] == ',');
    assert(l.contains(','));
    assert(!l.contains('(')) by {
        if l.contains('(') {
            let j = choose|j: int| 0 <= j < l.len() && l[j] == '(';
            lemma_lower_char(s[j]);
            assert(s.contains('('));
        }
    }
    assert(!l.contains(')')) by {
        if l.contains(')') {
            let j = choose|j: int| 0 <= j < l.len() && l[j] == ')';
            lemma_lower_char(s[j]);
            assert(s.contains(')'));
        }
    }
    let lp = lowercase(p);
    assert(lp[1 + i] == ',');
    assert(lp.contains(','));
    lemma_remove_concat(seq!['('] + l, seq![')'], ')', '(');
    lemma_remove_concat(seq!['('], l, ')', '(');
    lemma_remove_nothing(l, ')', '(');
    reveal_with_fuel(remove_chars, 2);
    assert(remove_chars(seq!['('], ')', '(') =~= Seq::<char>::empty()) by {
        assert(seq!['('].drop_last() =~= Seq::<char>::empty());
    }
    assert(remove_chars(seq![')'], ')', '(') =~= Seq::<char>::empty()) by {
        assert(seq![')'].drop_last() =~= Seq::<char>::empty());
    }
    assert(remove_chars(lp, ')', '(') =~= l);
    assert(rgb_text(lp) == l);
    assert(rgb_text(l) == l);
}

} // verus!
