//! Bytes of text: comparing them, and writing and reading numbers.

use crate::laws::words;
use crate::text::{self, eq_ignore_ascii_case, parse_usize, push_bytes, push_decimal};
use vstd::prelude::*;

verus! {

/// Texts compare as equal when each byte of the one is that of the other, but for the case of
/// letters.
pub proof fn comparing_ignores_case_only(a: &[u8], b: &[u8], equal: bool)
    requires
        call_ensures(eq_ignore_ascii_case, (a, b), equal),
    ensures
        equal <==> words::same_name(a@, b@),
{
    words::lemma_same_names();
}

/// What is appended to a buffer stands behind what was in it, and nothing else changes.
pub proof fn bytes_are_appended(out: &mut Vec<u8>, bytes: &[u8])
    requires
        call_ensures(push_bytes, (out, bytes), ()),
    ensures
        final(out)@.len() == old(out)@.len() + bytes@.len(),
        final(out)@.take(old(out)@.len() as int) == old(out)@,
        final(out)@.skip(old(out)@.len() as int) == bytes@,
{
    assert(final(out)@.take(old(out)@.len() as int) =~= old(out)@);
    assert(final(out)@.skip(old(out)@.len() as int) =~= bytes@);
}

/// A number is appended as its numeral.
pub proof fn numbers_are_appended(out: &mut Vec<u8>, n: usize)
    requires
        call_ensures(push_decimal, (out, n), ()),
    ensures
        final(out)@.len() > old(out)@.len(),
        final(out)@.take(old(out)@.len() as int) == old(out)@,
        words::is_numeral(final(out)@.skip(old(out)@.len() as int), n as nat),
{
    words::lemma_decimal(n as nat);
    assert(final(out)@.take(old(out)@.len() as int) =~= old(out)@);
    assert(final(out)@.skip(old(out)@.len() as int) =~= text::decimal(n as nat));
}

/// A text is read as a number when it consists of digits, perhaps behind one plus sign, and when a
/// `usize` can hold what they come to. Nothing else is a number.
pub proof fn numbers_are_read(s: &[u8], read: Option<usize>)
    requires
        call_ensures(parse_usize, (s,), read),
    ensures
        ({
            let digits = if s@.len() > 0 && s@[0] == 43 {
                s@.skip(1)
            } else {
                s@
            };
            match read {
                Some(n) => digits.len() > 0 && words::is_digits(digits) && words::number(digits, 0)
                    == n,
                None => digits.len() == 0 || !words::is_digits(digits) || words::number(digits, 0)
                    > usize::MAX,
            }
        }),
{
    words::lemma_read_number(s@);
}

/// What is written of a number is read as that number.
pub proof fn written_numbers_are_read(
    out: &mut Vec<u8>,
    n: usize,
    written: &[u8],
    read: Option<usize>,
)
    requires
        old(out)@.len() == 0,
        call_ensures(push_decimal, (out, n), ()),
        written@ == final(out)@,
        call_ensures(parse_usize, (written,), read),
    ensures
        read == Some(n),
{
    assert(final(out)@ =~= text::decimal(n as nat));
    text::written_usize_reads_back(n);
}

} // verus!
