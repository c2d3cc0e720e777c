//! The words that the laws are stated in.

use crate::common::{self, Header, HeaderView};
use crate::text;
use vstd::prelude::*;
use vstd::string::*;

verus! {

/// The same byte, or the same letter of the alphabet in capital and small.
pub open spec fn same_letter(x: u8, y: u8) -> bool {
    ||| x == y
    ||| 65 <= x <= 90 && y == x + 32
    ||| 65 <= y <= 90 && x == y + 32
}

/// The same name: names of headers and codings do not tell capital letters from small ones.
pub open spec fn same_name(a: Seq<u8>, b: Seq<u8>) -> bool {
    &&& a.len() == b.len()
    &&& forall|i: int| 0 <= i < a.len() ==> same_letter(#[trigger] a[i], b[i])
}

/// Some headers, each as its name and its value.
pub open spec fn shown(headers: Seq<Header>) -> Seq<HeaderView> {
    Seq::new(headers.len(), |i: int| headers[i]@)
}

/// One of the headers has the name.
pub open spec fn has_name(headers: Seq<HeaderView>, name: Seq<u8>) -> bool {
    exists|i: int| 0 <= i < headers.len() && same_name((#[trigger] headers[i]).field, name)
}

/// Every byte is a decimal digit.
pub open spec fn is_digits(s: Seq<u8>) -> bool {
    forall|i: int| 0 <= i < s.len() ==> 48 <= #[trigger] s[i] <= 57
}

/// What digits come to when they are read from the left, behind digits that came to `before`.
pub open spec fn number(s: Seq<u8>, before: nat) -> nat
    decreases s.len(),
{
    if s.len() == 0 {
        before
    } else {
        number(s.skip(1), 10 * before + (s[0] - 48) as nat)
    }
}

/// The number as it is usually written: in decimal digits, the first of which is no zero unless it
/// is the only one.
pub open spec fn is_numeral(s: Seq<u8>, n: nat) -> bool {
    &&& s.len() > 0
    &&& is_digits(s)
    &&& s[0] == 48 ==> s.len() == 1
    &&& number(s, 0) == n
}

/// The number that a text is read as: what its digits come to, perhaps behind one plus sign, if a
/// `usize` can hold it.
pub open spec fn read_number(s: Seq<u8>) -> Option<usize> {
    let digits = if s.len() > 0 && s[0] == 43 {
        s.skip(1)
    } else {
        s
    };
    if digits.len() > 0 && is_digits(digits) && number(digits, 0) <= usize::MAX {
        Some(number(digits, 0) as usize)
    } else {
        None
    }
}

/// The names of the headers that are not for the user of the library to set.
pub open spec fn is_withheld(name: Seq<u8>) -> bool {
    ||| same_name(name, "Accept-Ranges".spec_bytes())
    ||| same_name(name, "Connection".spec_bytes())
    ||| same_name(name, "Content-Range".spec_bytes())
    ||| same_name(name, "Trailer".spec_bytes())
    ||| same_name(name, "Transfer-Encoding".spec_bytes())
    ||| same_name(name, "Upgrade".spec_bytes())
}

/// The name of the header that says how long the data is.
pub open spec fn is_length_name(name: Seq<u8>) -> bool {
    same_name(name, "Content-Length".spec_bytes())
}

/// A header that a response has as it was given to it.
pub open spec fn stays(header: HeaderView) -> bool {
    !is_withheld(header.field) && !is_length_name(header.field)
}

/// A header that says how long the data is, with a number.
pub open spec fn sets_length(header: HeaderView) -> bool {
    is_length_name(header.field) && read_number(header.value) is Some
}

/// Texts with a separator between each and the next.
pub open spec fn joined(parts: Seq<Seq<u8>>, separator: u8) -> Seq<u8>
    decreases parts.len(),
{
    if parts.len() == 0 {
        Seq::empty()
    } else if parts.len() == 1 {
        parts[0]
    } else {
        parts[0] + seq![separator] + joined(parts.skip(1), separator)
    }
}

/// The texts between the separators in a text.
pub open spec fn are_parts(parts: Seq<Seq<u8>>, s: Seq<u8>, separator: u8) -> bool {
    &&& parts.len() > 0
    &&& joined(parts, separator) == s
    &&& forall|i: int, j: int|
        0 <= i < parts.len() && 0 <= j < parts[i].len() ==> #[trigger] parts[i][j] != separator
}

/// White space, as far as it is ASCII.
pub open spec fn is_blank(b: u8) -> bool {
    b == 32 || 9 <= b <= 13
}

/// What is left of a text without the white space at its ends.
pub open spec fn is_stripped(s: Seq<u8>, stripped: Seq<u8>) -> bool {
    exists|start: int, end: int|
        {
            &&& 0 <= start <= end <= s.len()
            &&& stripped == #[trigger] s.subrange(start, end)
            &&& forall|i: int| 0 <= i < start || end <= i < s.len() ==> is_blank(#[trigger] s[i])
            &&& start < end ==> !is_blank(s[start]) && !is_blank(s[end - 1])
        }
}

/// One more, or zero behind the greatest number.
pub open spec fn one_more(count: usize) -> int {
    if count == usize::MAX {
        0
    } else {
        count + 1
    }
}

/// One less, or the greatest number before zero.
pub open spec fn one_less(count: usize) -> int {
    if count == 0 {
        usize::MAX as int
    } else {
        count - 1
    }
}

/// A carriage return and a line feed.
pub open spec fn line_end() -> Seq<u8> {
    seq![13u8, 10u8]
}

pub(crate) proof fn lemma_shown()
    ensures
        forall|headers: Seq<Header>|
            #![trigger common::views(headers)]
            #![trigger shown(headers)]
            common::views(headers) == shown(headers),
{
    assert forall|headers: Seq<Header>|
        #![trigger common::views(headers)]
        #![trigger shown(headers)]
        common::views(headers) == shown(headers) by {
        assert(common::views(headers) =~= shown(headers));
    }
}

pub(crate) proof fn lemma_same_letter(x: u8, y: u8)
    ensures
        same_letter(x, y) <==> text::lower(x) == text::lower(y),
{
}

/// Names are the same exactly when they differ at most in case.
pub(crate) proof fn lemma_same_names()
    ensures
        forall|a: Seq<u8>, b: Seq<u8>|
            #![trigger text::same_ignoring_case(a, b)]
            #![trigger same_name(a, b)]
            same_name(a, b) == text::same_ignoring_case(a, b),
{
    assert forall|a: Seq<u8>, b: Seq<u8>|
        #![trigger text::same_ignoring_case(a, b)]
        #![trigger same_name(a, b)]
        same_name(a, b) == text::same_ignoring_case(a, b) by {
        if same_name(a, b) {
            assert forall|i: int| 0 <= i < a.len() implies text::lower(#[trigger] a[i])
                == text::lower(b[i]) by {
                lemma_same_letter(a[i], b[i]);
            }
        }
        if text::same_ignoring_case(a, b) {
            assert forall|i: int| 0 <= i < a.len() implies same_letter(#[trigger] a[i], b[i]) by {
                lemma_same_letter(a[i], b[i]);
            }
        }
    }
}

/// A text is read as a number in one way.
pub(crate) proof fn lemma_read_number(s: Seq<u8>)
    ensures
        read_number(s) == text::usize_value(s),
{
    let digits = text::unsigned_part(s);
    lemma_number(digits);
    if is_digits(digits) {
        assert forall|i: int| 0 <= i < digits.len() implies text::is_digit(
            #[trigger] digits[i],
        ) by {}
    }
    if text::all_digits(digits) {
        assert forall|i: int| 0 <= i < digits.len() implies 48 <= #[trigger] digits[i] <= 57 by {
            assert(text::is_digit(digits[i]));
        }
    }
}

/// One more text at the end.
pub(crate) proof fn lemma_joined_push(parts: Seq<Seq<u8>>, last: Seq<u8>, separator: u8)
    requires
        parts.len() > 0,
    ensures
        joined(parts.push(last), separator) == joined(parts, separator) + seq![separator] + last,
    decreases parts.len(),
{
    let all = parts.push(last);
    if parts.len() == 1 {
        assert(all.skip(1) =~= seq![last]);
        assert(joined(all.skip(1), separator) == last);
    } else {
        assert(all.skip(1) =~= parts.skip(1).push(last));
        lemma_joined_push(parts.skip(1), last, separator);
    }
    assert(all[0] == parts[0]);
    assert(joined(all, separator) == parts[0] + seq![separator] + joined(all.skip(1), separator));
    assert(joined(all, separator) =~= joined(parts, separator) + seq![separator] + last);
}

/// A digit at the right.
pub(crate) proof fn lemma_number_of_push(s: Seq<u8>, digit: u8, before: nat)
    ensures
        number(s.push(digit), before) == 10 * number(s, before) + (digit - 48) as nat,
    decreases s.len(),
{
    let all = s.push(digit);
    if s.len() == 0 {
        assert(all.skip(1) =~= Seq::<u8>::empty());
        reveal_with_fuel(number, 2);
    } else {
        assert(all.skip(1) =~= s.skip(1).push(digit));
        lemma_number_of_push(s.skip(1), digit, 10 * before + (s[0] - 48) as nat);
    }
}

/// Digits come to the same from the left and from the right.
pub(crate) proof fn lemma_number(s: Seq<u8>)
    ensures
        number(s, 0) == text::digits_value(s),
    decreases s.len(),
{
    if s.len() > 0 {
        lemma_number(s.drop_last());
        lemma_number_of_push(s.drop_last(), s.last(), 0);
        assert(s.drop_last().push(s.last()) =~= s);
    }
}

/// The decimal digits of a number are its numeral.
pub(crate) proof fn lemma_decimal(n: nat)
    ensures
        is_numeral(text::decimal(n), n),
    decreases n,
{
    text::decimal_reads_back(n);
    lemma_number(text::decimal(n));
    assert forall|i: int| 0 <= i < text::decimal(n).len() implies 48 <= #[trigger] text::decimal(
        n,
    )[i] <= 57 by {
        assert(text::is_digit(text::decimal(n)[i]));
    }
    if n >= 10 {
        lemma_decimal(n / 10);
        assert(text::decimal(n)[0] == text::decimal(n / 10)[0]);
        if n / 10 < 10 {
            assert(text::decimal(n / 10) =~= seq![(0x30 + n / 10) as u8]);
        } else {
            assert(text::decimal(n / 10).len() > 1) by {
                text::decimal_reads_back(n / 10 / 10);
            }
        }
    }
}

/// A number has one numeral only.
pub proof fn numerals_are_unique(s: Seq<u8>, t: Seq<u8>, n: nat)
    requires
        is_numeral(s, n),
        is_numeral(t, n),
    ensures
        s == t,
    decreases s.len(),
{
    let (a, x) = (s.drop_last(), s.last());
    let (b, y) = (t.drop_last(), t.last());
    assert(a.push(x) =~= s && b.push(y) =~= t);
    lemma_number_of_push(a, x, 0);
    lemma_number_of_push(b, y, 0);
    assert(number(a, 0) == number(b, 0) && x == y);
    if a.len() > 0 && b.len() > 0 {
        numerals_are_unique(a, b, number(a, 0));
    } else {
        lemma_numerals_are_positive(s);
        lemma_numerals_are_positive(t);
        if a.len() > 0 {
            lemma_numerals_are_positive(a);
        }
        if b.len() > 0 {
            lemma_numerals_are_positive(b);
        }
    }
}

/// Digits that do not start with a zero are more than zero.
proof fn lemma_numerals_are_positive(s: Seq<u8>)
    requires
        is_digits(s),
        s.len() > 0,
    ensures
        s[0] != 48 ==> number(s, 0) > 0,
    decreases s.len(),
{
    let (a, x) = (s.drop_last(), s.last());
    assert(a.push(x) =~= s);
    lemma_number_of_push(a, x, 0);
    if a.len() > 0 {
        lemma_numerals_are_positive(a);
    }
}

} // verus!
