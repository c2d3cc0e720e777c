//! Text that is known to be ASCII, held by the `ascii` crate.

use crate::text;
use ascii::AsciiString;
use vstd::prelude::*;

verus! {

/// `ascii::AsciiString`: an owned text of ASCII characters.
#[verifier::external_type_specification]
#[verifier::external_body]
pub struct ExAsciiString(ascii::AsciiString);

/// The bytes that an `AsciiString` holds, one for each character.
pub uninterp spec fn ascii_contents(s: ascii::AsciiString) -> Seq<u8>;

/// Calls `ascii::AsciiString::from_ascii`: it takes over the bytes when every one of them is
/// ASCII, and refuses them otherwise.
#[verifier::external_body]
pub(crate) fn ascii_from_bytes(bytes: Vec<u8>) -> (r: Option<AsciiString>)
    ensures
        r is Some <==> text::all_ascii(bytes@),
        r matches Some(s) ==> ascii_contents(s) == bytes@,
{
    AsciiString::from_ascii(bytes).ok()
}

/// Calls `ascii::AsciiStr::as_bytes`: the bytes of the text, all of them ASCII.
#[verifier::external_body]
pub(crate) fn ascii_as_bytes(s: &AsciiString) -> (r: &[u8])
    ensures
        r@ == ascii_contents(*s),
        text::all_ascii(r@),
{
    s.as_bytes()
}

/// `ascii::AsciiString::clone`: a text with the same bytes.
pub assume_specification[ <ascii::AsciiString as Clone>::clone ](s: &ascii::AsciiString) -> (r:
    ascii::AsciiString)
    ensures
        ascii_contents(r) == ascii_contents(*s),
;

} // verus!
