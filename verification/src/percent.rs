//! Percent-encoding of query values.

use vstd::prelude::*;
use crate::text::{ascii, all_ascii, ascii_string, digit_value};
use vstd::utf8::encode_utf8;

verus! {

/// Bytes that stand for themselves in a percent-encoded text: ASCII letters,
/// digits, `-`, `_`, `.` and `~`.
pub open spec fn unreserved(b: u8) -> bool {
    ||| 0x30 <= b <= 0x39
    ||| 0x41 <= b <= 0x5A
    ||| 0x61 <= b <= 0x7A
    ||| b == 0x2D
    ||| b == 0x5F
    ||| b == 0x2E
    ||| b == 0x7E
}

/// The upper-case hexadecimal digit of `n < 16`.
pub open spec fn hex_upper(n: nat) -> u8 {
    if n < 10 {
        (0x30 + n) as u8
    } else {
        (0x37 + n) as u8
    }
}

/// How one byte is written: itself if unreserved, else `%` and two
/// upper-case hexadecimal digits.
pub open spec fn percent_byte(b: u8) -> Seq<u8> {
    if unreserved(b) {
        seq![b]
    } else {
        seq![0x25u8, hex_upper((b / 16) as nat), hex_upper((b % 16) as nat)]
    }
}

/// The percent-encoding of a byte sequence, byte by byte.
pub open spec fn percent_encoding(bs: Seq<u8>) -> Seq<u8>
    decreases bs.len(),
{
    if bs.len() == 0 {
        Seq::empty()
    } else {
        percent_encoding(bs.drop_last()) + percent_byte(bs.last())
    }
}

/// Reading a percent-encoded text back: `%` and two hexadecimal digits stand
/// for one byte, every other byte for itself.
pub open spec fn percent_decoding(s: Seq<u8>) -> Seq<u8>
    decreases s.len(),
{
    if s.len() == 0 {
        Seq::empty()
    } else if s[0] == 0x25 && s.len() >= 3 && digit_value(s[1], 16) is Some && digit_value(
        s[2],
        16,
    ) is Some {
        seq![(digit_value(s[1], 16).unwrap() * 16 + digit_value(s[2], 16).unwrap()) as u8]
            + percent_decoding(s.skip(3))
    } else {
        seq![s[0]] + percent_decoding(s.skip(1))
    }
}

/// A byte that may appear in a percent-encoded text.
pub open spec fn query_safe(b: u8) -> bool {
    unreserved(b) || b == 0x25
}

proof fn lemma_percent_byte_safe(b: u8)
    ensures
        forall|i: int| 0 <= i < percent_byte(b).len() ==> query_safe(#[trigger] percent_byte(b)[i]),
        percent_byte(b).len() >= 1,
{
}

proof fn lemma_percent_encoding_safe(bs: Seq<u8>)
    ensures
        forall|i: int|
            0 <= i < percent_encoding(bs).len() ==> query_safe(#[trigger] percent_encoding(bs)[i]),
    decreases bs.len(),
{
    if bs.len() > 0 {
        lemma_percent_encoding_safe(bs.drop_last());
        lemma_percent_byte_safe(bs.last());
        let a = percent_encoding(bs.drop_last());
        let b = percent_byte(bs.last());
        assert forall|i: int| 0 <= i < (a + b).len() implies query_safe(#[trigger] (a + b)[i]) by {
            if i < a.len() {
                assert(query_safe(a[i]));
            } else {
                assert(query_safe(b[i - a.len()]));
            }
        }
    }
}

proof fn lemma_percent_encoding_front(x: u8, rest: Seq<u8>)
    ensures
        percent_encoding(seq![x] + rest) == percent_byte(x) + percent_encoding(rest),
    decreases rest.len(),
{
    if rest.len() == 0 {
        assert(seq![x] + rest =~= seq![x]);
        assert(seq![x].drop_last() =~= Seq::<u8>::empty());
        assert(percent_byte(x) + percent_encoding(rest) =~= percent_byte(x));
        assert(percent_encoding(seq![x].drop_last()) =~= Seq::<u8>::empty());
        assert(percent_encoding(seq![x]) =~= percent_byte(x));
    } else {
        let whole = seq![x] + rest;
        assert(whole.drop_last() =~= seq![x] + rest.drop_last());
        assert(whole.last() == rest.last());
        lemma_percent_encoding_front(x, rest.drop_last());
        assert(percent_encoding(whole) =~= percent_byte(x) + percent_encoding(rest));
    }
}

/// Percent-encoding loses nothing: decoding the encoding of any byte sequence
/// gives the sequence back.
pub proof fn percent_roundtrip(bs: Seq<u8>)
    ensures
        percent_decoding(percent_encoding(bs)) == bs,
    decreases bs.len(),
{
    if bs.len() > 0 {
        let x = bs[0];
        let rest = bs.drop_first();
        assert(bs =~= seq![x] + rest);
        lemma_percent_encoding_front(x, rest);
        percent_roundtrip(rest);
        let e = percent_encoding(rest);
        let p = percent_byte(x);
        let whole = p + e;
        if unreserved(x) {
            assert(whole.skip(1) =~= e);
            assert(whole[0] == x);
            assert(percent_decoding(whole) =~= seq![x] + rest);
        } else {
            assert(whole.skip(3) =~= e);
            assert(whole[0] == 0x25);
            let hi = (x / 16) as nat;
            let lo = (x % 16) as nat;
            assert(digit_value(whole[1], 16) == Some(hi));
            assert(digit_value(whole[2], 16) == Some(lo));
            assert((hi * 16 + lo) as u8 == x);
            assert(percent_decoding(whole) =~= seq![x] + rest);
        }
    }
}

fn hex_digit_upper(n: u8) -> (res: u8)
    requires
        n < 16,
    ensures
        res == hex_upper(n as nat),
{
    if n < 10 {
        0x30 + n
    } else {
        0x37 + n
    }
}

/// Percent-encodes the UTF-8 bytes of `input` for use in a URL query.
pub fn percent_encode(input: &str) -> (res: String)
    ensures
        res@ == ascii(percent_encoding(encode_utf8(input@))),
        forall|i: int|
            0 <= i < percent_encoding(encode_utf8(input@)).len() ==> query_safe(
                #[trigger] percent_encoding(encode_utf8(input@))[i],
            ),
{
    let bytes = input.as_bytes();
    let mut out: Vec<u8> = Vec::new();
    let mut i: usize = 0;
    while i < bytes.len()
        invariant
            i <= bytes@.len(),
            out@ == percent_encoding(bytes@.subrange(0, i as int)),
        decreases bytes@.len() - i,
    {
        let b = bytes[i];
        if (0x30 <= b && b <= 0x39) || (0x41 <= b && b <= 0x5A) || (0x61 <= b && b <= 0x7A) || b
            == 0x2D || b == 0x5F || b == 0x2E || b == 0x7E {
            out.push(b);
        } else {
            out.push(0x25);
            out.push(hex_digit_upper(b / 16));
            out.push(hex_digit_upper(b % 16));
        }
        let ghost next = bytes@.subrange(0, i + 1);
        assert(next.drop_last() =~= bytes@.subrange(0, i as int));
        i = i + 1;
        assert(out@ =~= percent_encoding(next));
    }
    proof {
        assert(bytes@.subrange(0, i as int) =~= bytes@);
        lemma_percent_encoding_safe(bytes@);
        let e = percent_encoding(bytes@);
        assert forall|k: int| 0 <= k < e.len() implies #[trigger] e[k] < 0x80 by {
            assert(query_safe(e[k]));
        }
    }
    ascii_string(out)
}

} // verus!
