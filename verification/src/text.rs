//! Text helpers: UTF-8 conversions, Unicode trimming, unsigned numbers as
//! `from_str_radix` reads them, and decimal text of integers.

use vstd::prelude::*;
use vstd::utf8::{decode_utf8, encode_utf8, valid_utf8, is_ascii_chars};

verus! {

broadcast use vstd::utf8::group_utf8_lib;

// ---------------------------------------------------------------------------
// ASCII views
// ---------------------------------------------------------------------------

/// The characters named by a sequence of ASCII bytes.
pub open spec fn ascii(bytes: Seq<u8>) -> Seq<char> {
    bytes.map_values(|b: u8| b as char)
}

pub open spec fn all_ascii(bytes: Seq<u8>) -> bool {
    forall|i: int| 0 <= i < bytes.len() ==> #[trigger] bytes[i] < 0x80
}

// ---------------------------------------------------------------------------
// Unicode whitespace, as `char::is_whitespace` and `str::trim` define it
// ---------------------------------------------------------------------------

/// The characters of the Unicode `White_Space` property.
pub open spec fn is_whitespace(c: char) -> bool {
    let u = c as u32;
    ||| 0x09 <= u <= 0x0D
    ||| u == 0x20
    ||| u == 0x85
    ||| u == 0xA0
    ||| u == 0x1680
    ||| 0x2000 <= u <= 0x200A
    ||| u == 0x2028
    ||| u == 0x2029
    ||| u == 0x202F
    ||| u == 0x205F
    ||| u == 0x3000
}

pub open spec fn trim_start(s: Seq<char>) -> Seq<char>
    decreases s.len(),
{
    if s.len() > 0 && is_whitespace(s[0]) {
        trim_start(s.drop_first())
    } else {
        s
    }
}

pub open spec fn trim_end(s: Seq<char>) -> Seq<char>
    decreases s.len(),
{
    if s.len() > 0 && is_whitespace(s.last()) {
        trim_end(s.drop_last())
    } else {
        s
    }
}

/// `s` with leading and trailing whitespace removed.
pub open spec fn trim(s: Seq<char>) -> Seq<char> {
    trim_end(trim_start(s))
}

// ---------------------------------------------------------------------------
// Trusted conversions of std
// ---------------------------------------------------------------------------

/// `std::str::from_utf8`: succeeds exactly on well-formed UTF-8 and then
/// yields the characters that the bytes encode.
#[verifier::external_body]
pub(crate) fn utf8_str(bytes: &[u8]) -> (res: Option<&str>)
    ensures
        res is Some <==> valid_utf8(bytes@),
        res matches Some(s) ==> s@ == decode_utf8(bytes@),
{
    std::str::from_utf8(bytes).ok()
}

/// `String::from_utf8`: succeeds exactly on well-formed UTF-8 and then holds
/// the characters that the bytes encode.
#[verifier::external_body]
pub(crate) fn utf8_string(bytes: Vec<u8>) -> (res: Option<String>)
    ensures
        res is Some <==> valid_utf8(bytes@),
        res matches Some(s) ==> s@ == decode_utf8(bytes@),
{
    String::from_utf8(bytes).ok()
}

/// What `String::from_utf8_lossy` makes of a byte sequence: the decoded text,
/// with each ill-formed part replaced by U+FFFD.
pub uninterp spec fn utf8_lossy(bytes: Seq<u8>) -> Seq<char>;

/// `String::from_utf8_lossy`. Its result is named by `utf8_lossy`; the
/// documentation promises that well-formed input is decoded unchanged. Which
/// replacement characters stand for ill-formed input is left unsaid.
#[verifier::external_body]
pub(crate) fn lossy_string(bytes: &[u8]) -> (res: String)
    ensures
        res@ == utf8_lossy(bytes@),
        valid_utf8(bytes@) ==> res@ == decode_utf8(bytes@),
{
    String::from_utf8_lossy(bytes).into_owned()
}

/// `str::trim`: removes leading and trailing Unicode whitespace.
#[verifier::external_body]
pub(crate) fn trim_str(s: &str) -> (res: &str)
    ensures
        res@ == trim(s@),
{
    s.trim()
}

// ---------------------------------------------------------------------------
// Verified conversions
// ---------------------------------------------------------------------------

pub proof fn lemma_ascii_utf8(bytes: Seq<u8>)
    requires
        all_ascii(bytes),
    ensures
        valid_utf8(bytes),
        decode_utf8(bytes) == ascii(bytes),
        encode_utf8(ascii(bytes)) == bytes,
        is_ascii_chars(ascii(bytes)),
{
    let chars = ascii(bytes);
    assert forall|i: int| 0 <= i < chars.len() implies '\0' <= #[trigger] chars[i] <= '\u{7f}' by {
        assert(bytes[i] < 0x80);
    }
    assert(is_ascii_chars(chars));
    assert forall|i: int| 0 <= i < chars.len() implies chars[i] as u8 == bytes[i] by {
        assert(bytes[i] < 0x80);
    }
    assert(encode_utf8(chars) =~= bytes);
}

/// Encoding a concatenation encodes each part.
pub proof fn lemma_encode_concat(a: Seq<char>, b: Seq<char>)
    ensures
        encode_utf8(a + b) == encode_utf8(a) + encode_utf8(b),
    decreases a.len(),
{
    if a.len() == 0 {
        assert(a + b =~= b);
        assert(encode_utf8(a) =~= Seq::<u8>::empty());
        assert(encode_utf8(a) + encode_utf8(b) =~= encode_utf8(b));
    } else {
        lemma_encode_concat(a.drop_first(), b);
        assert((a + b).drop_first() =~= a.drop_first() + b);
        assert((a + b)[0] == a[0]);
        assert(encode_utf8(a + b) =~= encode_utf8(a) + encode_utf8(b));
    }
}

/// The encoding of a text that begins with ASCII characters begins with
/// their bytes.
pub proof fn lemma_encode_ascii_prefix(a: Seq<char>, b: Seq<char>)
    requires
        is_ascii_chars(a),
    ensures
        encode_utf8(a + b).len() >= a.len(),
        forall|i: int| 0 <= i < a.len() ==> #[trigger] encode_utf8(a + b)[i] == a[i] as u8,
{
    lemma_encode_concat(a, b);
    vstd::utf8::is_ascii_chars_encode_utf8(a);
}

/// Cutting well-formed UTF-8 around an ASCII byte leaves well-formed UTF-8 on
/// both sides.
pub proof fn lemma_split_at_ascii(b: Seq<u8>, i: int)
    requires
        valid_utf8(b),
        0 <= i < b.len(),
        b[i] < 0x80,
    ensures
        valid_utf8(b.subrange(0, i)),
        valid_utf8(b.subrange(i + 1, b.len() as int)),
{
    vstd::utf8::is_char_boundary_iff_not_is_continuation_byte(b, i);
    assert(!vstd::utf8::is_continuation_byte(b[i]));
    vstd::utf8::valid_utf8_split(b, i);
    let s = b.subrange(i, b.len() as int);
    assert(s[0] == b[i]);
    assert(vstd::utf8::pop_first_scalar(s) =~= b.subrange(i + 1, b.len() as int));
}

/// Turns ASCII bytes into the string of the same characters.
pub fn ascii_string(bytes: Vec<u8>) -> (res: String)
    requires
        all_ascii(bytes@),
    ensures
        res@ == ascii(bytes@),
{
    proof {
        lemma_ascii_utf8(bytes@);
    }
    match utf8_string(bytes) {
        Some(s) => s,
        None => {
            assert(false);
            String::new()
        },
    }
}

// ---------------------------------------------------------------------------
// Unsigned integers in text, as `from_str_radix` reads them
// ---------------------------------------------------------------------------

/// The value of one digit in base 10 or 16, as `char::to_digit` gives it.
pub open spec fn digit_value(c: u8, radix: nat) -> Option<nat> {
    if 0x30 <= c <= 0x39 {
        Some((c - 0x30) as nat)
    } else if radix == 16 && 0x61 <= c <= 0x66 {
        Some((c - 0x61 + 10) as nat)
    } else if radix == 16 && 0x41 <= c <= 0x46 {
        Some((c - 0x41 + 10) as nat)
    } else {
        None
    }
}

pub open spec fn all_digits(d: Seq<u8>, radix: nat) -> bool {
    forall|i: int| 0 <= i < d.len() ==> (#[trigger] digit_value(d[i], radix)) is Some
}

/// The number that a sequence of digits writes, most significant first.
pub open spec fn digits_value(d: Seq<u8>, radix: nat) -> nat
    decreases d.len(),
{
    if d.len() == 0 {
        0
    } else {
        digits_value(d.drop_last(), radix) * radix + digit_value(d.last(), radix).unwrap_or(0)
    }
}

/// The digits of `s` once an optional leading `+` is removed.
pub open spec fn unsigned_digits(s: Seq<u8>) -> Seq<u8> {
    if s.len() > 0 && s[0] == 0x2B {
        s.drop_first()
    } else {
        s
    }
}

/// What `from_str_radix` returns for an unsigned type whose largest value is
/// `max`: an optional `+` followed by at least one digit, with a value that fits.
pub open spec fn parse_unsigned(s: Seq<u8>, radix: nat, max: nat) -> Option<nat> {
    let d = unsigned_digits(s);
    if d.len() > 0 && all_digits(d, radix) && digits_value(d, radix) <= max {
        Some(digits_value(d, radix))
    } else {
        None
    }
}

proof fn lemma_digits_value_prefix(d: Seq<u8>, k: int, radix: nat)
    requires
        0 <= k <= d.len(),
        radix >= 1,
    ensures
        digits_value(d.subrange(0, k), radix) <= digits_value(d, radix),
    decreases d.len() - k,
{
    if k < d.len() {
        lemma_digits_value_prefix(d, k + 1, radix);
        let p = d.subrange(0, k + 1);
        assert(p.drop_last() =~= d.subrange(0, k));
        let a = digits_value(d.subrange(0, k), radix);
        assert(a * radix >= a) by (nonlinear_arith)
            requires
                radix >= 1,
        ;
    } else {
        assert(d.subrange(0, k) =~= d);
    }
}

/// Reads an unsigned number in base 10 or 16 from `s`, as `from_str_radix`
/// does for a type whose largest value is `max`.
pub fn parse_unsigned_bytes(s: &[u8], radix: u64, max: u64) -> (res: Option<u64>)
    requires
        radix == 10 || radix == 16,
    ensures
        match res {
            Some(v) => parse_unsigned(s@, radix as nat, max as nat) == Some(v as nat),
            None => parse_unsigned(s@, radix as nat, max as nat) is None,
        },
{
    let ghost d = unsigned_digits(s@);
    let start: usize = if s.len() > 0 && s[0] == 0x2B { 1 } else { 0 };
    assert(d =~= s@.subrange(start as int, s@.len() as int));
    if start == s.len() {
        return None;
    }
    let mut acc: u64 = 0;
    let mut i: usize = start;
    while i < s.len()
        invariant
            start <= i <= s.len(),
            d =~= s@.subrange(start as int, s@.len() as int),
            d == unsigned_digits(s@),
            radix == 10 || radix == 16,
            acc <= max,
            all_digits(s@.subrange(start as int, i as int), radix as nat),
            acc as nat == digits_value(s@.subrange(start as int, i as int), radix as nat),
        decreases s.len() - i,
    {
        let c = s[i];
        let v: u64;
        if 0x30 <= c && c <= 0x39 {
            v = (c - 0x30) as u64;
        } else if radix == 16 && 0x61 <= c && c <= 0x66 {
            v = (c - 0x61 + 10) as u64;
        } else if radix == 16 && 0x41 <= c && c <= 0x46 {
            v = (c - 0x41 + 10) as u64;
        } else {
            proof {
                assert(d[i - start] == c);
                assert(digit_value(d[i - start], radix as nat) is None);
                assert(!all_digits(d, radix as nat));
                assert(parse_unsigned(s@, radix as nat, max as nat) is None);
            }
            return None;
        }
        let ghost p = s@.subrange(start as int, i + 1);
        assert(p.drop_last() =~= s@.subrange(start as int, i as int));
        assert(p.last() == c);
        assert((acc as u128) * (radix as u128) <= 16 * 0xffff_ffff_ffff_ffffu128) by (nonlinear_arith)
            requires
                acc <= 0xffff_ffff_ffff_ffffu64,
                radix <= 16,
        ;
        let wide: u128 = (acc as u128) * (radix as u128) + (v as u128);
        assert(wide == digits_value(p, radix as nat));
        if wide > max as u128 {
            proof {
                assert(p =~= d.subrange(0, i + 1 - start));
                lemma_digits_value_prefix(d, i + 1 - start, radix as nat);
                assert(digits_value(d, radix as nat) > max);
            }
            return None;
        }
        acc = wide as u64;
        i = i + 1;
    }
    assert(s@.subrange(start as int, i as int) =~= d);
    Some(acc)
}

// ---------------------------------------------------------------------------
// Decimal text of integers
// ---------------------------------------------------------------------------

/// The decimal digits of `n`, without leading zeros.
pub open spec fn decimal(n: nat) -> Seq<u8>
    decreases n,
{
    if n < 10 {
        seq![(0x30 + n) as u8]
    } else {
        decimal(n / 10) + seq![(0x30 + n % 10) as u8]
    }
}

/// The decimal text of a signed number, with `-` before a negative one.
pub open spec fn signed_decimal(n: int) -> Seq<u8> {
    if n < 0 {
        seq![0x2Du8] + decimal((-n) as nat)
    } else {
        decimal(n as nat)
    }
}

pub proof fn lemma_decimal_ascii(n: nat)
    ensures
        all_ascii(decimal(n)),
        decimal(n).len() >= 1,
        forall|i: int| 0 <= i < decimal(n).len() ==> 0x30 <= #[trigger] decimal(n)[i] <= 0x39,
    decreases n,
{
    if n >= 10 {
        lemma_decimal_ascii(n / 10);
    }
}

/// Decimal digits read back give the number they were written from.
pub proof fn lemma_decimal_value(n: nat)
    ensures
        all_digits(decimal(n), 10),
        digits_value(decimal(n), 10) == n,
        decimal(n).len() >= 1,
        decimal(n)[0] != 0x2B,
    decreases n,
{
    lemma_decimal_ascii(n);
    let d = decimal(n);
    assert forall|i: int| 0 <= i < d.len() implies (#[trigger] digit_value(d[i], 10)) is Some by {
        assert(0x30 <= d[i] <= 0x39);
    }
    if n >= 10 {
        lemma_decimal_value(n / 10);
        assert(d.drop_last() =~= decimal(n / 10));
        assert(digit_value(d.last(), 10) == Some(n % 10));
        assert(n == (n / 10) * 10 + n % 10);
        assert(digits_value(d, 10) == digits_value(decimal(n / 10), 10) * 10 + n % 10);
    } else {
        assert(d.drop_last() =~= Seq::<u8>::empty());
        assert(digits_value(d.drop_last(), 10) == 0);
        assert(digits_value(d, 10) == digits_value(d.drop_last(), 10) * 10 + n);
    }
}

fn decimal_bytes(n: u64) -> (res: Vec<u8>)
    ensures
        res@ == decimal(n as nat),
    decreases n,
{
    if n < 10 {
        vec![(0x30 + n) as u8]
    } else {
        let mut v = decimal_bytes(n / 10);
        v.push((0x30 + n % 10) as u8);
        v
    }
}

/// The decimal text of `n`, as `Display` writes it.
pub fn decimal_string(n: u64) -> (res: String)
    ensures
        res@ == ascii(decimal(n as nat)),
{
    proof {
        lemma_decimal_ascii(n as nat);
    }
    ascii_string(decimal_bytes(n))
}

/// The decimal text of a signed `n`, as `Display` writes it.
pub fn signed_decimal_string(n: i32) -> (res: String)
    ensures
        res@ == ascii(signed_decimal(n as int)),
{
    let magnitude: u64 = if n < 0 { (-(n as i64)) as u64 } else { n as u64 };
    let mut digits = decimal_bytes(magnitude);
    proof {
        lemma_decimal_ascii(magnitude as nat);
    }
    if n < 0 {
        let mut v: Vec<u8> = Vec::new();
        v.push(0x2D);
        v.append(&mut digits);
        assert(v@ =~= signed_decimal(n as int));
        assert(all_ascii(v@));
        ascii_string(v)
    } else {
        ascii_string(digits)
    }
}

} // verus!
