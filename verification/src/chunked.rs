//! Decoding of HTTP bodies in chunked transfer coding.

use vstd::prelude::*;
use vstd::utf8::{decode_utf8, encode_utf8, valid_utf8};
use crate::bytes::{find_bytes, first_occurrence, lemma_first_occurrence};
use crate::bytes::{lemma_first_occurrence_at, occurs_at};
use crate::percent::hex_upper;
use crate::text::{
    all_ascii, all_digits, ascii, digit_value, digits_value, lemma_ascii_utf8, parse_unsigned,
    parse_unsigned_bytes, trim, trim_end, trim_start, trim_str, utf8_str,
};

verus! {

pub open spec fn crlf() -> Seq<u8> {
    seq![0x0Du8, 0x0Au8]
}

/// Why a chunked body could not be decoded.
#[derive(Clone, Copy, Debug, PartialEq, Eq, Structural)]
pub enum ChunkError {
    /// A chunk-size line has no terminating CRLF.
    Unterminated,
    /// A chunk-size line does not hold a hexadecimal size.
    BadSize,
    /// A chunk is shorter than its size, or is not followed by CRLF.
    Truncated,
}

/// The message by which each decoding error is reported.
pub open spec fn chunk_error_message(e: ChunkError) -> Seq<char> {
    match e {
        ChunkError::Unterminated => "invalid chunked response"@,
        ChunkError::BadSize => "invalid chunk size"@,
        ChunkError::Truncated => "truncated chunked response"@,
    }
}

/// Builds the message of a decoding error.
pub fn chunk_error_text(e: ChunkError) -> (res: String)
    ensures
        res@ == chunk_error_message(e),
{
    match e {
        ChunkError::Unterminated => "invalid chunked response".to_owned(),
        ChunkError::BadSize => "invalid chunk size".to_owned(),
        ChunkError::Truncated => "truncated chunked response".to_owned(),
    }
}

/// The part of a chunk-size line before its first `;` (chunk extensions follow it).
pub open spec fn before_semicolon(line: Seq<u8>) -> Seq<u8> {
    match first_occurrence(line, seq![0x3Bu8]) {
        Some(k) => line.subrange(0, k),
        None => line,
    }
}

#[verifier::opaque]
/// The size that a chunk-size line announces: the line must be UTF-8, and the
/// text before any `;`, trimmed of whitespace, must be a hexadecimal number
/// that fits in `usize`.
pub open spec fn chunk_size(line: Seq<u8>) -> Option<nat> {
    if valid_utf8(line) {
        parse_unsigned(encode_utf8(trim(decode_utf8(before_semicolon(line)))), 16, usize::MAX as nat)
    } else {
        None
    }
}

#[verifier::opaque]
/// Decoding of a body in chunked transfer coding: each chunk is a size line
/// (ended by CRLF), that many bytes of data, then CRLF; a chunk of size zero
/// ends the body, and whatever follows it is ignored. The outer `None` marks a
/// size so large that `size + 2` does not fit in `usize`.
pub open spec fn dechunk(input: Seq<u8>) -> Option<Result<Seq<u8>, ChunkError>>
    decreases input.len(),
{
    match first_occurrence(input, crlf()) {
        None => Some(Err(ChunkError::Unterminated)),
        Some(line_end) => match chunk_size(input.subrange(0, line_end)) {
            None => Some(Err(ChunkError::BadSize)),
            Some(size) => {
                let rest = input.subrange(line_end + 2, input.len() as int);
                if size == 0 {
                    Some(Ok(Seq::empty()))
                } else if size + 2 > usize::MAX {
                    None
                } else if rest.len() < size + 2 || rest.subrange(size as int, size + 2int) != crlf() {
                    Some(Err(ChunkError::Truncated))
                } else {
                    proof {
                        lemma_first_occurrence(input, crlf());
                    }
                    prepend(
                        rest.subrange(0, size as int),
                        dechunk(rest.subrange(size + 2int, rest.len() as int)),
                    )
                }
            },
        },
    }
}

/// `r` with `p` put before the decoded data, if it is data.
pub open spec fn prepend(p: Seq<u8>, r: Option<Result<Seq<u8>, ChunkError>>) -> Option<
    Result<Seq<u8>, ChunkError>,
> {
    match r {
        Some(Ok(d)) => Some(Ok(p + d)),
        other => other,
    }
}

proof fn lemma_prepend_twice(a: Seq<u8>, b: Seq<u8>, r: Option<Result<Seq<u8>, ChunkError>>)
    ensures
        prepend(a, prepend(b, r)) == prepend(a + b, r),
{
    if let Some(Ok(d)) = r {
        assert(a + (b + d) =~= (a + b) + d);
    }
}

proof fn lemma_semicolon_boundary(line: Seq<u8>, k: int)
    requires
        valid_utf8(line),
        0 <= k < line.len(),
        line[k] == 0x3B,
    ensures
        valid_utf8(line.subrange(0, k)),
        vstd::utf8::is_char_boundary(line, k),
{
    vstd::utf8::is_char_boundary_iff_not_is_continuation_byte(line, k);
    assert(!vstd::utf8::is_continuation_byte(line[k]));
    vstd::utf8::valid_utf8_split(line, k);
}

/// The chunk size announced by one size line.
fn chunk_size_of(line: &[u8]) -> (res: Option<u64>)
    ensures
        match res {
            Some(v) => chunk_size(line@) == Some(v as nat),
            None => chunk_size(line@) is None,
        },
{
    reveal(chunk_size);
    let text = match utf8_str(line) {
        Some(t) => t,
        None => return None,
    };
    let semi: [u8; 1] = [0x3B];
    let head: &str = match find_bytes(line, &semi) {
        Some(k) => {
            proof {
                assert(line@.subrange(k as int, k + 1) =~= semi@);
                assert(line@[k as int] == 0x3B);
                lemma_semicolon_boundary(line@, k as int);
                assert(semi@ =~= seq![0x3Bu8]);
            }
            proof {
                vstd::utf8::decode_utf8_encode_utf8(line@);
            }
            let (h, _) = text.split_at(k);
            proof {
                vstd::utf8::encode_utf8_decode_utf8(h@);
                assert(h@ == decode_utf8(line@.subrange(0, k as int)));
            }
            h
        },
        None => {
            assert(semi@ =~= seq![0x3Bu8]);
            text
        },
    };
    assert(head@ == decode_utf8(before_semicolon(line@)));
    let trimmed = trim_str(head);
    let digits = trimmed.as_bytes();
    parse_unsigned_bytes(digits, 16, usize::MAX as u64)
}

/// Checks for `\r\n` at position `at` of `input`.
fn crlf_at(input: &[u8], at: usize) -> (res: bool)
    requires
        at + 2 <= input@.len(),
    ensures
        res == (input@.subrange(at as int, at + 2) == crlf()),
{
    let r = input[at] == 0x0D && input[at + 1] == 0x0A;
    assert(r ==> input@.subrange(at as int, at + 2) =~= crlf());
    assert(input@.subrange(at as int, at + 2)[0] == input@[at as int]);
    assert(input@.subrange(at as int, at + 2)[1] == input@[at + 1]);
    r
}

/// How `dechunk` proceeds on the part of `input` that starts at `pos`, once
/// its first size line (ending at `pos + line_end`) announces `size`.
proof fn lemma_dechunk_at(input: Seq<u8>, pos: int, line_end: int, size: nat)
    requires
        0 <= pos <= input.len(),
        first_occurrence(input.subrange(pos, input.len() as int), crlf()) == Some(line_end),
        chunk_size(input.subrange(pos, pos + line_end)) == Some(size),
    ensures
        ({
            let start = pos + line_end + 2;
            let s = input.subrange(pos, input.len() as int);
            &&& start <= input.len()
            &&& size == 0 ==> dechunk(s) == Some(Ok::<Seq<u8>, ChunkError>(Seq::empty()))
            &&& (size > 0 && size + 2 > usize::MAX) ==> dechunk(s) is None
            &&& (size > 0 && size + 2 <= usize::MAX && (input.len() - start < size + 2
                || input.subrange(start + size, start + size + 2) != crlf())) ==> dechunk(s)
                == Some(Err::<Seq<u8>, ChunkError>(ChunkError::Truncated))
            &&& (size > 0 && size + 2 <= usize::MAX && input.len() - start >= size + 2
                && input.subrange(start + size, start + size + 2) == crlf()) ==> dechunk(s)
                == prepend(
                input.subrange(start, start + size),
                dechunk(input.subrange(start + size + 2, input.len() as int)),
            )
        }),
{
    reveal(dechunk);
    let s = input.subrange(pos, input.len() as int);
    lemma_first_occurrence(s, crlf());
    let start = pos + line_end + 2;
    assert(s.subrange(0, line_end) =~= input.subrange(pos, pos + line_end));
    let rest = s.subrange(line_end + 2, s.len() as int);
    assert(rest =~= input.subrange(start, input.len() as int));
    if size > 0 && size + 2 <= usize::MAX && input.len() - start >= size + 2 {
        assert(rest.subrange(size as int, size + 2int) =~= input.subrange(start + size, start + size + 2));
        assert(rest.subrange(0, size as int) =~= input.subrange(start, start + size));
        assert(rest.subrange(size + 2int, rest.len() as int) =~= input.subrange(
            start + size + 2,
            input.len() as int,
        ));
    }
}

/// Decodes a chunked body; `None` where a chunk size is too large for
/// `size + 2` to fit in `usize`.
pub fn try_decode_chunked(input: &[u8]) -> (res: Option<Result<Vec<u8>, ChunkError>>)
    ensures
        match dechunk(input@) {
            None => res is None,
            Some(Ok(d)) => res matches Some(Ok(v)) && v@ == d,
            Some(Err(e)) => res == Some(Err::<Vec<u8>, ChunkError>(e)),
        },
{
    let mut output: Vec<u8> = Vec::new();
    let mut pos: usize = 0;
    let terminator: [u8; 2] = [0x0D, 0x0A];
    assert(terminator@ =~= crlf());
    assert(input@.subrange(0, input@.len() as int) =~= input@);
    loop
        invariant
            pos <= input@.len(),
            terminator@ == crlf(),
            dechunk(input@) == prepend(output@, dechunk(input@.subrange(pos as int, input@.len() as int))),
        decreases input@.len() - pos,
    {
        let ghost s = input@.subrange(pos as int, input@.len() as int);
        let window = &input[pos..input.len()];
        let line_end = match find_bytes(window, &terminator) {
            Some(e) => e,
            None => {
                assert(dechunk(s) == Some(Err::<Seq<u8>, ChunkError>(ChunkError::Unterminated))) by {
                    reveal(dechunk);
                }
                return Some(Err(ChunkError::Unterminated));
            },
        };
        let line = &window[0..line_end];
        assert(line@ =~= input@.subrange(pos as int, pos + line_end));
        let size = match chunk_size_of(line) {
            Some(v) => v,
            None => {
                assert(dechunk(s) == Some(Err::<Seq<u8>, ChunkError>(ChunkError::BadSize))) by {
                    reveal(dechunk);
                    lemma_first_occurrence(s, crlf());
                    assert(s.subrange(0, line_end as int) =~= line@);
                }
                return Some(Err(ChunkError::BadSize));
            },
        };
        proof {
            lemma_dechunk_at(input@, pos as int, line_end as int, size as nat);
        }
        let start = pos + line_end + 2;
        if size == 0 {
            assert(output@ + Seq::<u8>::empty() =~= output@);
            return Some(Ok(output));
        }
        if size > usize::MAX as u64 - 2 {
            return None;
        }
        let size = size as usize;
        let remaining = input.len() - start;
        if remaining < size + 2 || !crlf_at(input, start + size) {
            return Some(Err(ChunkError::Truncated));
        }
        let ghost old_out = output@;
        output.extend_from_slice(&input[start..start + size]);
        proof {
            assert(output@ =~= old_out + input@.subrange(start as int, start + size));
            lemma_prepend_twice(
                old_out,
                input@.subrange(start as int, start + size),
                dechunk(input@.subrange(start + size + 2, input@.len() as int)),
            );
        }
        pos = start + size + 2;
    }
}

/// Decodes a body in chunked transfer coding (see `dechunk`). The chunk sizes
/// must leave room for the two bytes of CRLF after them.
pub fn decode_chunked(input: &[u8]) -> (res: Result<Vec<u8>, String>)
    requires
        dechunk(input@) is Some,
    ensures
        match dechunk(input@) {
            Some(Ok(d)) => res matches Ok(v) && v@ == d,
            Some(Err(e)) => res matches Err(m) && m@ == chunk_error_message(e),
            None => false,
        },
{
    match try_decode_chunked(input) {
        Some(Ok(v)) => Ok(v),
        Some(Err(e)) => Err(chunk_error_text(e)),
        None => {
            assert(false);
            Err(String::new())
        },
    }
}


// ---------------------------------------------------------------------------
// Chunked encoding, and why decoding inverts it
// ---------------------------------------------------------------------------

/// The lower-case hexadecimal digit of `n < 16`.
pub open spec fn hex_lower(n: nat) -> u8 {
    if n < 10 {
        (0x30 + n) as u8
    } else {
        (0x57 + n) as u8
    }
}

/// The hexadecimal digits of `n` in the given case, without leading zeros.
pub open spec fn hex_digits(n: nat, upper: bool) -> Seq<u8>
    decreases n,
{
    let last = if upper {
        hex_upper(n % 16)
    } else {
        hex_lower(n % 16)
    };
    if n < 16 {
        seq![last]
    } else {
        hex_digits(n / 16, upper) + seq![last]
    }
}

/// One chunk as it is sent: its size in hexadecimal, CRLF, its data, CRLF.
pub open spec fn chunk_frame(data: Seq<u8>, upper: bool) -> Seq<u8> {
    hex_digits(data.len(), upper) + crlf() + data + crlf()
}

/// A body sent in chunked coding: each chunk framed, then the last chunk
/// `0` and an empty trailer.
pub open spec fn chunked_body(chunks: Seq<Seq<u8>>, upper: bool) -> Seq<u8>
    decreases chunks.len(),
{
    if chunks.len() == 0 {
        seq![0x30u8] + crlf() + crlf()
    } else {
        chunk_frame(chunks[0], upper) + chunked_body(chunks.drop_first(), upper)
    }
}

/// The data of all chunks, one after another.
pub open spec fn joined(chunks: Seq<Seq<u8>>) -> Seq<u8>
    decreases chunks.len(),
{
    if chunks.len() == 0 {
        Seq::empty()
    } else {
        chunks[0] + joined(chunks.drop_first())
    }
}

/// A hexadecimal digit in either case.
pub open spec fn is_hex_digit(b: u8) -> bool {
    (0x30 <= b <= 0x39) || (0x41 <= b <= 0x46) || (0x61 <= b <= 0x66)
}

/// A size text: one or more hexadecimal digits, in either case.
pub open spec fn is_hex_text(t: Seq<u8>) -> bool {
    t.len() > 0 && forall|i: int| 0 <= i < t.len() ==> is_hex_digit(#[trigger] t[i])
}

proof fn lemma_hex_digits(n: nat, upper: bool)
    ensures
        is_hex_text(hex_digits(n, upper)),
        digits_value(hex_digits(n, upper), 16) == n,
    decreases n,
{
    let d = hex_digits(n, upper);
    assert(digit_value(d.last(), 16) == Some(n % 16));
    if n >= 16 {
        lemma_hex_digits(n / 16, upper);
        let p = hex_digits(n / 16, upper);
        assert(d.drop_last() =~= p);
        assert forall|i: int| 0 <= i < d.len() implies is_hex_digit(#[trigger] d[i]) by {
            if i < p.len() {
                assert(d[i] == p[i]);
            }
        }
        assert(n == (n / 16) * 16 + n % 16);
        assert(digits_value(d, 16) == digits_value(p, 16) * 16 + n % 16);
        assert(digits_value(p, 16) == n / 16);
    } else {
        assert(d.drop_last() =~= Seq::<u8>::empty());
        assert(digits_value(d.drop_last(), 16) == 0);
        assert(digits_value(d, 16) == digits_value(d.drop_last(), 16) * 16 + n);
    }
}

/// A size line of hexadecimal digits, in either case, announces the number
/// they write.
proof fn lemma_chunk_size_of_hex(t: Seq<u8>)
    requires
        is_hex_text(t),
        digits_value(t, 16) <= usize::MAX,
    ensures
        chunk_size(t) == Some(digits_value(t, 16)),
{
    reveal(chunk_size);
    assert(all_ascii(t)) by {
        assert forall|i: int| 0 <= i < t.len() implies #[trigger] t[i] < 0x80 by {
            assert(is_hex_digit(t[i]));
        }
    }
    assert(all_digits(t, 16)) by {
        assert forall|i: int| 0 <= i < t.len() implies (#[trigger] digit_value(t[i], 16)) is Some by {
            assert(is_hex_digit(t[i]));
        }
    }
    lemma_ascii_utf8(t);
    lemma_first_occurrence(t, seq![0x3Bu8]);
    if let Some(k) = first_occurrence(t, seq![0x3Bu8]) {
        assert(t.subrange(k, k + 1)[0] == t[k]);
        assert(is_hex_digit(t[k]));
    }
    assert(before_semicolon(t) == t);
    let c = ascii(t);
    assert(c[0] as u32 == t[0] as u32);
    assert(is_hex_digit(t[0]));
    assert(trim_start(c) == c);
    assert(c.last() as u32 == t.last() as u32);
    assert(is_hex_digit(t.last()));
    assert(trim_end(c) == c);
    assert(t[0] != 0x2B);
}

/// The first CRLF after a run of hexadecimal digits ends it.
proof fn lemma_line_end(d: Seq<u8>, rest: Seq<u8>)
    requires
        forall|i: int| 0 <= i < d.len() ==> is_hex_digit(#[trigger] d[i]),
    ensures
        first_occurrence(d + crlf() + rest, crlf()) == Some(d.len() as int),
{
    let input = d + crlf() + rest;
    assert(input.subrange(d.len() as int, d.len() + 2int) =~= crlf());
    assert forall|j: int| 0 <= j < d.len() implies !occurs_at(input, crlf(), j) by {
        assert(input[j] == d[j]);
        assert(is_hex_digit(d[j]));
        if occurs_at(input, crlf(), j) {
            assert(input.subrange(j, j + 2)[0] == input[j]);
        }
    }
    lemma_first_occurrence_at(input, crlf(), d.len() as int);
}

/// A leading chunk, its size written in hexadecimal of either case, puts its
/// data before whatever the rest decodes to; an error of the rest, or a size
/// too large in it, comes out unchanged.
pub proof fn dechunk_leading_chunk(size: Seq<u8>, data: Seq<u8>, rest: Seq<u8>)
    requires
        is_hex_text(size),
        digits_value(size, 16) == data.len(),
        data.len() > 0,
        data.len() + 2 <= usize::MAX,
    ensures
        dechunk(size + crlf() + data + crlf() + rest) == prepend(data, dechunk(rest)),
{
    let n = data.len();
    let input = size + crlf() + data + crlf() + rest;
    let tail = data + crlf() + rest;
    assert(input =~= size + crlf() + tail);
    lemma_line_end(size, tail);
    lemma_chunk_size_of_hex(size);
    assert(input.subrange(0, size.len() as int) =~= size);
    let after = input.subrange(size.len() + 2int, input.len() as int);
    assert(after =~= tail);
    assert(after.subrange(n as int, n + 2int) =~= crlf());
    assert(after.subrange(0, n as int) =~= data);
    assert(after.subrange(n + 2int, after.len() as int) =~= rest);
    reveal(dechunk);
}

/// The last chunk, a size line of value zero, ends the body: nothing after
/// its line is read.
pub proof fn dechunk_last_chunk(size: Seq<u8>, rest: Seq<u8>)
    requires
        is_hex_text(size),
        digits_value(size, 16) == 0,
    ensures
        dechunk(size + crlf() + rest) == Some(Ok::<Seq<u8>, ChunkError>(Seq::empty())),
{
    let input = size + crlf() + rest;
    lemma_line_end(size, rest);
    lemma_chunk_size_of_hex(size);
    assert(input.subrange(0, size.len() as int) =~= size);
    reveal(dechunk);
}

/// Decoding undoes chunked coding, with sizes in either case, whatever bytes
/// follow the body: non-empty chunks whose sizes leave room for the CRLF after
/// them decode to their data.
pub proof fn dechunk_inverts_chunked_coding_with_rest(
    chunks: Seq<Seq<u8>>,
    upper: bool,
    rest: Seq<u8>,
)
    requires
        forall|i: int| 0 <= i < chunks.len() ==> (#[trigger] chunks[i]).len() > 0 && chunks[i].len() + 2
            <= usize::MAX,
    ensures
        dechunk(chunked_body(chunks, upper) + rest) == Some(Ok::<Seq<u8>, ChunkError>(joined(chunks))),
    decreases chunks.len(),
{
    if chunks.len() == 0 {
        let zero = seq![0x30u8];
        assert(digit_value(zero.last(), 16) == Some(0nat));
        assert(zero.drop_last() =~= Seq::<u8>::empty());
        assert(digits_value(zero.drop_last(), 16) == 0);
        assert(digits_value(zero, 16) == 0);
        assert(chunked_body(chunks, upper) + rest =~= zero + crlf() + (crlf() + rest));
        dechunk_last_chunk(zero, crlf() + rest);
    } else {
        let data = chunks[0];
        let others = chunks.drop_first();
        assert forall|i: int| 0 <= i < others.len() implies (#[trigger] others[i]).len() > 0
            && others[i].len() + 2 <= usize::MAX by {
            assert(others[i] == chunks[i + 1]);
        }
        dechunk_inverts_chunked_coding_with_rest(others, upper, rest);
        let size = hex_digits(data.len(), upper);
        lemma_hex_digits(data.len(), upper);
        let after = chunked_body(others, upper) + rest;
        assert(chunked_body(chunks, upper) + rest =~= size + crlf() + data + crlf() + after);
        dechunk_leading_chunk(size, data, after);
    }
}

/// Decoding undoes chunked coding, with sizes in either case: a body made of
/// non-empty chunks whose sizes leave room for the CRLF after them decodes to
/// their data.
pub proof fn dechunk_inverts_chunked_coding(chunks: Seq<Seq<u8>>, upper: bool)
    requires
        forall|i: int| 0 <= i < chunks.len() ==> (#[trigger] chunks[i]).len() > 0 && chunks[i].len() + 2
            <= usize::MAX,
    ensures
        dechunk(chunked_body(chunks, upper)) == Some(Ok::<Seq<u8>, ChunkError>(joined(chunks))),
{
    dechunk_inverts_chunked_coding_with_rest(chunks, upper, Seq::empty());
    assert(chunked_body(chunks, upper) + Seq::<u8>::empty() =~= chunked_body(chunks, upper));
}

} // verus!
