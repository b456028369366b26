//! Text helpers: character sequences of strings, whitespace, ASCII case, decimal
//! numerals and UTF-16 decoding.
use vstd::prelude::*;

verus! {

/// Whether `c` has the Unicode `White_Space` property (what `char::is_whitespace` answers).
pub open spec fn spec_is_whitespace(c: char) -> bool {
    let x = c as u32;
    (0x09 <= x && x <= 0x0D) || x == 0x20 || x == 0x85 || x == 0xA0 || x == 0x1680 || (0x2000
        <= x && x <= 0x200A) || x == 0x2028 || x == 0x2029 || x == 0x202F || x == 0x205F || x
        == 0x3000
}

pub fn is_whitespace(c: char) -> (r: bool)
    ensures
        r == spec_is_whitespace(c),
{
    let x = c as u32;
    (0x09 <= x && x <= 0x0D) || x == 0x20 || x == 0x85 || x == 0xA0 || x == 0x1680 || (0x2000
        <= x && x <= 0x200A) || x == 0x2028 || x == 0x2029 || x == 0x202F || x == 0x205F || x
        == 0x3000
}

/// The ASCII upper-case form of `c` (other characters unchanged).
pub open spec fn spec_ascii_upper(c: char) -> char {
    if 'a' <= c && c <= 'z' {
        ((c as u32) - 32) as char
    } else {
        c
    }
}

pub open spec fn spec_is_ascii_alpha(c: char) -> bool {
    ('a' <= c && c <= 'z') || ('A' <= c && c <= 'Z')
}

pub fn ascii_upper(c: char) -> (r: char)
    ensures
        r == spec_ascii_upper(c),
{
    if 'a' <= c && c <= 'z' {
        let x: u8 = (c as u32 - 32) as u8;
        let r = x as char;
        assert(r == ((c as u32) - 32) as char);
        r
    } else {
        c
    }
}

/// The characters of `s`, in order.
pub fn chars_of(s: &str) -> (v: Vec<char>)
    ensures
        v@ == s@,
{
    let mut v: Vec<char> = Vec::new();
    for c in it: s.chars()
        invariant
            v@ == it.seq().take(it.index() as int),
    {
        v.push(c);
    }
    v
}

/// Appends `c` to `s` (`String::push`).
#[verifier::external_body]
fn push_char(s: &mut String, c: char)
    ensures
        final(s)@ == old(s)@.push(c),
{
    s.push(c);
}

/// The string made of the characters of `v`.
pub fn string_of(v: &[char]) -> (s: String)
    ensures
        s@ == v@,
{
    let mut s = String::new();
    let mut k: usize = 0;
    while k < v.len()
        invariant
            k <= v@.len(),
            s@ == v@.subrange(0, k as int),
        decreases v@.len() - k,
    {
        push_char(&mut s, v[k]);
        k = k + 1;
        assert(s@ =~= v@.subrange(0, k as int));
    }
    assert(v@.subrange(0, v@.len() as int) =~= v@);
    s
}

/// Appends the characters of `s` to `v`.
pub fn push_str_chars(v: &mut Vec<char>, s: &str)
    ensures
        final(v)@ == old(v)@ + s@,
{
    let w = chars_of(s);
    let ghost v0 = v@;
    let mut k: usize = 0;
    while k < w.len()
        invariant
            k <= w@.len(),
            v@ == v0 + w@.subrange(0, k as int),
        decreases w@.len() - k,
    {
        v.push(w[k]);
        k = k + 1;
        assert(v@ =~= v0 + w@.subrange(0, k as int));
    }
    assert(w@.subrange(0, w@.len() as int) =~= w@);
}

/// What `str::to_lowercase` gives for a string with the characters `s`.
pub uninterp spec fn spec_to_lowercase(s: Seq<char>) -> Seq<char>;

/// `str::to_lowercase`: the full Unicode lower-case mapping of the text. The
/// contract names the result and ties it to the input's characters; the mapping
/// tables themselves are not stated.
#[verifier::external_body]
pub(crate) fn to_lowercase(s: &str) -> (r: String)
    ensures
        r@ == spec_to_lowercase(s@),
{
    s.to_lowercase()
}

/// Whether `x` is a Unicode scalar value, i.e. the code of some `char`.
pub open spec fn is_scalar(x: u32) -> bool {
    x <= 0xD7FF || (0xE000 <= x && x <= 0x10FFFF)
}

/// `char::from_u32`: the `char` with code `x`, or `None` when `x` is a surrogate
/// or above `0x10FFFF` (as its documentation says).
#[verifier::external_body]
fn char_from_u32(x: u32) -> (r: Option<char>)
    ensures
        is_scalar(x) ==> r == Some(x as char),
        !is_scalar(x) ==> r is None,
{
    char::from_u32(x)
}

pub open spec fn is_high_surrogate(u: u16) -> bool {
    0xD800 <= u && u <= 0xDBFF
}

pub open spec fn is_low_surrogate(u: u16) -> bool {
    0xDC00 <= u && u <= 0xDFFF
}

pub open spec fn is_surrogate(u: u16) -> bool {
    0xD800 <= u && u <= 0xDFFF
}

/// The code point that a surrogate pair stands for.
pub open spec fn pair_code(hi: u16, lo: u16) -> u32 {
    (0x10000 + (hi - 0xD800) * 0x400 + (lo - 0xDC00)) as u32
}

/// The replacement character U+FFFD, given for each unit that is not part of a valid pair.
pub open spec fn replacement() -> char {
    0xFFFDu32 as char
}

/// Lossy UTF-16 decoding (what `String::from_utf16_lossy` gives): a unit that is
/// not a surrogate is its own character, a high surrogate followed by a low one
/// is the pair's code point, and any other surrogate becomes U+FFFD.
pub open spec fn decode_utf16_lossy(u: Seq<u16>) -> Seq<char>
    decreases u.len(),
{
    if u.len() == 0 {
        Seq::empty()
    } else if !is_surrogate(u[0]) {
        seq![(u[0] as u32) as char] + decode_utf16_lossy(u.drop_first())
    } else if is_high_surrogate(u[0]) && u.len() >= 2 && is_low_surrogate(u[1]) {
        seq![pair_code(u[0], u[1]) as char] + decode_utf16_lossy(u.skip(2))
    } else {
        seq![replacement()] + decode_utf16_lossy(u.drop_first())
    }
}

proof fn lemma_decode_step(u: Seq<u16>, k: int)
    requires
        0 <= k < u.len(),
    ensures
        !is_surrogate(u[k]) ==> decode_utf16_lossy(u.skip(k)) == seq![(u[k] as u32) as char]
            + decode_utf16_lossy(u.skip(k + 1)),
        is_high_surrogate(u[k]) && k + 1 < u.len() && is_low_surrogate(u[k + 1])
            ==> decode_utf16_lossy(u.skip(k)) == seq![pair_code(u[k], u[k + 1]) as char]
            + decode_utf16_lossy(u.skip(k + 2)),
        is_surrogate(u[k]) && !(is_high_surrogate(u[k]) && k + 1 < u.len() && is_low_surrogate(
            u[k + 1],
        )) ==> decode_utf16_lossy(u.skip(k)) == seq![replacement()] + decode_utf16_lossy(
            u.skip(k + 1),
        ),
{
    assert(u.skip(k).drop_first() =~= u.skip(k + 1));
    if k + 2 <= u.len() {
        assert(u.skip(k).skip(2) =~= u.skip(k + 2));
    }
}

/// Decodes UTF-16 code units, replacing each unpaired surrogate by U+FFFD.
pub fn utf16_lossy(u: &[u16]) -> (v: Vec<char>)
    ensures
        v@ == decode_utf16_lossy(u@),
{
    let mut v: Vec<char> = Vec::new();
    let mut k: usize = 0;
    assert(u@.skip(0) =~= u@);
    while k < u.len()
        invariant
            k <= u@.len(),
            v@ + decode_utf16_lossy(u@.skip(k as int)) == decode_utf16_lossy(u@),
        decreases u@.len() - k,
    {
        let x = u[k];
        proof {
            lemma_decode_step(u@, k as int);
        }
        let ghost v0 = v@;
        if x < 0xD800 || x > 0xDFFF {
            match char_from_u32(x as u32) {
                Some(c) => v.push(c),
                None => {},
            }
            k = k + 1;
            assert(v@ =~= v0 + seq![(x as u32) as char]);
        } else if x <= 0xDBFF && k + 1 < u.len() && 0xDC00 <= u[k + 1] && u[k + 1] <= 0xDFFF {
            let lo = u[k + 1];
            let code: u32 = 0x10000 + ((x - 0xD800) as u32) * 0x400 + ((lo - 0xDC00) as u32);
            match char_from_u32(code) {
                Some(c) => v.push(c),
                None => {},
            }
            k = k + 2;
            assert(v@ =~= v0 + seq![pair_code(x, lo) as char]);
        } else {
            match char_from_u32(0xFFFD) {
                Some(c) => v.push(c),
                None => {},
            }
            k = k + 1;
            assert(v@ =~= v0 + seq![replacement()]);
        }
    }
    assert(u@.skip(u@.len() as int) =~= Seq::<u16>::empty());
    v
}

/// Whether `a` and `b` hold the same characters.
pub fn chars_eq(a: &[char], b: &[char]) -> (r: bool)
    ensures
        r == (a@ == b@),
{
    if a.len() != b.len() {
        return false;
    }
    let mut k: usize = 0;
    while k < a.len()
        invariant
            a@.len() == b@.len(),
            k <= a@.len(),
            a@.subrange(0, k as int) == b@.subrange(0, k as int),
        decreases a@.len() - k,
    {
        if a[k] != b[k] {
            assert(a@[k as int] != b@[k as int]);
            return false;
        }
        assert(a@.subrange(0, k + 1) =~= a@.subrange(0, k as int).push(a@[k as int]));
        assert(b@.subrange(0, k + 1) =~= b@.subrange(0, k as int).push(b@[k as int]));
        k = k + 1;
    }
    assert(a@ =~= a@.subrange(0, a@.len() as int));
    assert(b@ =~= b@.subrange(0, b@.len() as int));
    true
}

/// Whether `s` begins with `p`.
pub open spec fn has_prefix(s: Seq<char>, p: Seq<char>) -> bool {
    p.len() <= s.len() && s.subrange(0, p.len() as int) == p
}

/// Whether `s` begins with `p`.
pub fn starts_with_chars(s: &[char], p: &[char]) -> (r: bool)
    ensures
        r == has_prefix(s@, p@),
{
    if p.len() > s.len() {
        return false;
    }
    chars_eq(&s[0..p.len()], p)
}

/// The decimal digits of `n` (at least one).
pub open spec fn decimal(n: nat) -> Seq<char>
    decreases n,
{
    if n < 10 {
        seq![digit_char(n)]
    } else {
        decimal(n / 10) + seq![digit_char(n % 10)]
    }
}

pub open spec fn digit_char(d: nat) -> char {
    (48 + d) as char
}

/// `n` in decimal, left-padded with zeros to at least `width` characters
/// (the `{:0width}` format).
pub open spec fn decimal_padded(n: nat, width: nat) -> Seq<char> {
    let d = decimal(n);
    if d.len() >= width {
        d
    } else {
        Seq::new((width - d.len()) as nat, |i: int| '0') + d
    }
}

pub proof fn lemma_decimal_len(n: nat)
    ensures
        decimal(n).len() >= 1,
        n < 10 ==> decimal(n).len() == 1,
        10 <= n < 100 ==> decimal(n).len() == 2,
    decreases n,
{
    if n >= 10 {
        lemma_decimal_len(n / 10);
    }
}

fn digit(d: u64) -> (c: char)
    requires
        d < 10,
    ensures
        c == digit_char(d as nat),
{
    let b: u8 = (48 + d) as u8;
    b as char
}

/// Appends the decimal numeral of `n`, zero-padded to `width` characters, to `v`.
pub fn push_decimal(v: &mut Vec<char>, n: u64, width: usize)
    ensures
        final(v)@ == old(v)@ + decimal_padded(n as nat, width as nat),
{
    let mut digits: Vec<char> = Vec::new();
    let mut m = n;
    // digits holds the numeral of n % 10^k in reverse; m == n / 10^k.
    let ghost mut tail: Seq<char> = Seq::empty();
    while m >= 10
        invariant
            decimal(n as nat) == decimal(m as nat) + tail,
            digits@ == tail.reverse(),
        decreases m,
    {
        let c = digit(m % 10);
        proof {
            assert(decimal(m as nat) == decimal((m / 10) as nat) + seq![c]);
            tail = seq![c] + tail;
            assert(decimal(n as nat) =~= decimal((m / 10) as nat) + tail);
        }
        digits.push(c);
        assert(digits@ =~= tail.reverse());
        m = m / 10;
    }
    let c0 = digit(m);
    proof {
        tail = seq![c0] + tail;
        assert(decimal(n as nat) =~= tail);
    }
    digits.push(c0);
    assert(digits@ =~= tail.reverse());
    let ghost v0 = v@;
    let len = digits.len();
    if len < width {
        let mut p: usize = 0;
        while p < width - len
            invariant
                len < width,
                p <= width - len,
                v@ == v0 + Seq::new(p as nat, |i: int| '0'),
            decreases width - len - p,
        {
            v.push('0');
            p = p + 1;
            assert(v@ =~= v0 + Seq::new(p as nat, |i: int| '0'));
        }
    }
    let ghost v1 = v@;
    let mut k: usize = len;
    while k > 0
        invariant
            k <= len == digits@.len(),
            digits@ == tail.reverse(),
            v@ == v1 + tail.subrange(0, (len - k) as int),
        decreases k,
    {
        k = k - 1;
        v.push(digits[k]);
        assert(tail[(len - k - 1) as int] == digits@[k as int]);
        assert(v@ =~= v1 + tail.subrange(0, (len - k) as int));
    }
    assert(tail.subrange(0, len as int) =~= tail);
    assert(v@ =~= v0 + decimal_padded(n as nat, width as nat));
}

} // verus!
