//! The chunked transfer coding, as the `chunked_transfer` crate writes it.

use vstd::prelude::*;

verus! {

/// The bytes of a body that one chunk holds at most.
pub open spec fn chunk_size() -> nat {
    8192
}

/// A carriage return and a line feed.
pub open spec fn crlf() -> Seq<u8> {
    seq![0x0D, 0x0A]
}

/// The digit of a number under sixteen, a letter in lower case.
pub open spec fn hex_digit(d: nat) -> u8 {
    if d < 10 {
        (0x30 + d) as u8
    } else {
        (0x57 + d) as u8
    }
}

/// The hexadecimal digits of `n`, without leading zeros.
pub open spec fn hex(n: nat) -> Seq<u8>
    decreases n,
{
    if n < 16 {
        seq![hex_digit(n)]
    } else {
        hex(n / 16).push(hex_digit(n % 16))
    }
}

/// One chunk: the length of the data on a line of its own, and the data with a line end.
pub open spec fn chunk(data: Seq<u8>) -> Seq<u8> {
    hex(data.len()) + crlf() + data + crlf()
}

/// A body in chunks, each of them full but perhaps the last one that holds data. A chunk without
/// data ends the body.
pub open spec fn chunked(data: Seq<u8>) -> Seq<u8>
    decreases data.len(),
{
    if data.len() == 0 {
        chunk(data)
    } else if data.len() <= chunk_size() {
        chunk(data) + chunk(Seq::empty())
    } else {
        chunk(data.take(chunk_size() as int)) + chunked(data.skip(chunk_size() as int))
    }
}

/// Writes a body through `chunked_transfer::Encoder::new`, copying it with `std::io::copy` as any
/// source is copied, and drops the encoder. The encoder sends a chunk for each 8192 bytes, a chunk
/// for what is left, and, when dropped, the chunk that ends the body. A `Vec` takes all that is
/// written.
#[verifier::external_body]
pub(crate) fn write_chunks(out: &mut Vec<u8>, data: &[u8])
    ensures
        final(out)@ == old(out)@ + chunked(data@),
{
    let mut source: Box<dyn std::io::Read + '_> = Box::new(data);
    let mut encoder = chunked_transfer::Encoder::new(out);
    let _ = std::io::copy(&mut source, &mut encoder);
}

pub open spec fn is_hex_digit(b: u8) -> bool {
    0x30 <= b <= 0x39 || 0x61 <= b <= 0x66
}

pub open spec fn hex_digit_value(b: u8) -> nat {
    if b <= 0x39 {
        (b - 0x30) as nat
    } else {
        (b - 0x57) as nat
    }
}

/// The number that a row of hexadecimal digits stands for.
pub open spec fn hex_value(s: Seq<u8>) -> nat
    decreases s.len(),
{
    if s.len() == 0 {
        0
    } else {
        16 * hex_value(s.drop_last()) + hex_digit_value(s.last())
    }
}

/// How many hexadecimal digits a text starts with.
pub open spec fn leading_hex_digits(s: Seq<u8>) -> nat
    decreases s.len(),
{
    if s.len() > 0 && is_hex_digit(s[0]) {
        1 + leading_hex_digits(s.skip(1))
    } else {
        0
    }
}

/// The body that a row of chunks carries: each chunk gives its length, then so many bytes, and the
/// first chunk of length zero is the end of it all.
pub open spec fn dechunked(s: Seq<u8>) -> Option<Seq<u8>>
    decreases s.len(),
{
    let digits = leading_hex_digits(s) as int;
    let size = hex_value(s.take(digits)) as int;
    let end = digits + 2 + size;
    if digits == 0 || s.len() < end + 2 || s.subrange(digits, digits + 2) != crlf() || s.subrange(
        end,
        end + 2,
    ) != crlf() {
        None
    } else if size == 0 {
        if s.len() == end + 2 {
            Some(Seq::empty())
        } else {
            None
        }
    } else {
        match dechunked(s.skip(end + 2)) {
            Some(rest) => Some(s.subrange(digits + 2, end) + rest),
            None => None,
        }
    }
}

proof fn lemma_hex_reads_back(n: nat)
    ensures
        hex(n).len() > 0,
        forall|i: int| 0 <= i < hex(n).len() ==> is_hex_digit(#[trigger] hex(n)[i]),
        hex_value(hex(n)) == n,
    decreases n,
{
    if n >= 16 {
        lemma_hex_reads_back(n / 16);
        assert(hex(n).drop_last() =~= hex(n / 16));
    } else {
        reveal_with_fuel(hex_value, 2);
        assert(hex(n).drop_last() =~= Seq::<u8>::empty());
    }
}

proof fn lemma_leading_hex_digits(digits: Seq<u8>, rest: Seq<u8>)
    requires
        forall|i: int| 0 <= i < digits.len() ==> is_hex_digit(#[trigger] digits[i]),
        rest.len() > 0,
        !is_hex_digit(rest[0]),
    ensures
        leading_hex_digits(digits + rest) == digits.len(),
    decreases digits.len(),
{
    if digits.len() == 0 {
        assert(digits + rest =~= rest);
    } else {
        lemma_leading_hex_digits(digits.skip(1), rest);
        assert((digits + rest).skip(1) =~= digits.skip(1) + rest);
    }
}

/// A chunk in front of a row of chunks adds its data in front of what the row carries.
#[verifier::spinoff_prover]
proof fn lemma_dechunk_step(data: Seq<u8>, rest: Seq<u8>)
    ensures
        data.len() == 0 && rest.len() == 0 ==> dechunked(chunk(data) + rest) == Some(data),
        data.len() > 0 ==> dechunked(chunk(data) + rest) == (match dechunked(rest) {
            Some(tail) => Some(data + tail),
            None => None,
        }),
{
    let s = chunk(data) + rest;
    let size_line = hex(data.len());
    let behind = crlf() + data + crlf() + rest;
    lemma_hex_reads_back(data.len());
    assert(s =~= size_line + behind);
    lemma_leading_hex_digits(size_line, behind);
    let digits = size_line.len() as int;
    let end = digits + 2 + data.len();
    assert(s.take(digits) =~= size_line);
    assert(s.subrange(digits, digits + 2) =~= crlf());
    assert(s.subrange(end, end + 2) =~= crlf());
    assert(s.subrange(digits + 2, end) =~= data);
    assert(s.skip(end + 2) =~= rest);
    if data.len() == 0 {
        assert(data =~= Seq::<u8>::empty());
    }
}

/// The chunks that are written of a body carry that body.
#[verifier::spinoff_prover]
pub proof fn chunks_carry_the_body(data: Seq<u8>)
    ensures
        dechunked(chunked(data)) == Some(data),
    decreases data.len(),
{
    let none = Seq::<u8>::empty();
    if data.len() == 0 {
        lemma_dechunk_step(data, none);
        assert(chunk(data) + none =~= chunked(data));
    } else if data.len() <= chunk_size() {
        lemma_dechunk_step(none, none);
        assert(chunk(none) + none =~= chunk(none));
        lemma_dechunk_step(data, chunk(none));
        assert(data + none =~= data);
    } else {
        let first = data.take(chunk_size() as int);
        let rest = data.skip(chunk_size() as int);
        chunks_carry_the_body(rest);
        lemma_dechunk_step(first, chunked(rest));
        assert(first + rest =~= data);
    }
}

} // verus!
