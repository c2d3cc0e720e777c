//! Names, headers, versions, status codes and dates.

use crate::ascii_text;
use crate::clock;
use crate::common::{HTTPDate, HTTPVersion, Header, HeaderField, StatusCode};
use crate::laws::words;
use crate::message::{header_of_date, header_of_date_text};
use crate::text;
use vstd::prelude::*;
use vstd::string::*;
use vstd::utf8::*;

verus! {

/// A name is made of bytes exactly when all of them are ASCII. It holds these bytes, and is
/// equivalent to the texts that are the same name.
pub proof fn names_hold_their_bytes(
    bytes: Vec<u8>,
    made: Result<HeaderField, ()>,
    held: &[u8],
    other: &str,
    equivalent: bool,
)
    requires
        call_ensures(HeaderField::from_bytes, (bytes,), made),
        made matches Ok(name) ==> call_ensures(HeaderField::as_bytes, (&name,), held),
        made matches Ok(name) ==> call_ensures(HeaderField::equiv, (&name, other), equivalent),
    ensures
        made is Ok <==> forall|i: int| 0 <= i < bytes@.len() ==> #[trigger] bytes@[i] < 128,
        made is Ok ==> held@ == bytes@,
        made is Ok ==> (equivalent <==> words::same_name(bytes@, other.spec_bytes())),
{
    words::lemma_same_names();
}

/// A header is made of bytes exactly when all of them are ASCII. It has the name and the value that
/// it was made of, and so has a copy of it.
pub proof fn headers_hold_their_bytes(
    field: &[u8],
    value: &[u8],
    made: Result<Header, ()>,
    copy: Header,
    name: &[u8],
    copied_name: &[u8],
)
    requires
        call_ensures(Header::from_bytes, (field, value), made),
        made matches Ok(header) ==> call_ensures(Header::clone, (&header,), copy),
        made matches Ok(header) ==> call_ensures(HeaderField::as_bytes, (&header.field,), name),
        call_ensures(HeaderField::as_bytes, (&copy.field,), copied_name),
    ensures
        made is Ok <==> (forall|i: int| 0 <= i < field@.len() ==> #[trigger] field@[i] < 128) && (
        forall|i: int| 0 <= i < value@.len() ==> #[trigger] value@[i] < 128),
        made matches Ok(header) ==> {
            &&& name@ == field@
            &&& header@.field == field@
            &&& header@.value == value@
            &&& ascii_text::ascii_contents(header.value) == value@
            &&& copied_name@ == field@
            &&& ascii_text::ascii_contents(copy.value) == value@
        },
{
}

/// A version is at most another one when it does not come behind it, first by the major and then
/// by the minor number.
pub proof fn versions_are_ordered(version: HTTPVersion, major: u8, minor: u8, at_most: bool)
    requires
        call_ensures(HTTPVersion::is_at_most, (&version, major, minor), at_most),
    ensures
        at_most <==> 256 * version.0 + version.1 <= 256 * major + minor,
{
}

/// A status code is made of its number.
pub proof fn status_codes_are_numbers(number: u16, made: StatusCode, converted: StatusCode)
    requires
        call_ensures(<StatusCode as From<u16>>::from, (number,), made),
        call_ensures(<u16 as Into<StatusCode>>::into, (number,), converted),
    ensures
        made.0 == number,
        converted.0 == number,
{
}

/// The phrases that are registered for status codes. Any other code is unknown.
pub proof fn phrases_are_those_registered(code: StatusCode, phrase: &str)
    requires
        call_ensures(StatusCode::default_reason_phrase, (&code,), phrase),
    ensures
        code.0 == 100 ==> phrase.spec_bytes() == "Continue".spec_bytes(),
        code.0 == 101 ==> phrase.spec_bytes() == "Switching Protocols".spec_bytes(),
        code.0 == 102 ==> phrase.spec_bytes() == "Processing".spec_bytes(),
        code.0 == 118 ==> phrase.spec_bytes() == "Connection timed out".spec_bytes(),
        code.0 == 200 ==> phrase.spec_bytes() == "OK".spec_bytes(),
        code.0 == 201 ==> phrase.spec_bytes() == "Created".spec_bytes(),
        code.0 == 202 ==> phrase.spec_bytes() == "Accepted".spec_bytes(),
        code.0 == 203 ==> phrase.spec_bytes() == "Non-Authoritative Information".spec_bytes(),
        code.0 == 204 ==> phrase.spec_bytes() == "No Content".spec_bytes(),
        code.0 == 205 ==> phrase.spec_bytes() == "Reset Content".spec_bytes(),
        code.0 == 206 ==> phrase.spec_bytes() == "Partial Content".spec_bytes(),
        code.0 == 207 ==> phrase.spec_bytes() == "Multi-Status".spec_bytes(),
        code.0 == 210 ==> phrase.spec_bytes() == "Content Different".spec_bytes(),
        code.0 == 300 ==> phrase.spec_bytes() == "Multiple Choices".spec_bytes(),
        code.0 == 301 ==> phrase.spec_bytes() == "Moved Permanently".spec_bytes(),
        code.0 == 302 ==> phrase.spec_bytes() == "Found".spec_bytes(),
        code.0 == 303 ==> phrase.spec_bytes() == "See Other".spec_bytes(),
        code.0 == 304 ==> phrase.spec_bytes() == "Not Modified".spec_bytes(),
        code.0 == 305 ==> phrase.spec_bytes() == "Use Proxy".spec_bytes(),
        code.0 == 307 ==> phrase.spec_bytes() == "Temporary Redirect".spec_bytes(),
        code.0 == 400 ==> phrase.spec_bytes() == "Bad Request".spec_bytes(),
        code.0 == 401 ==> phrase.spec_bytes() == "Unauthorized".spec_bytes(),
        code.0 == 402 ==> phrase.spec_bytes() == "Payment Required".spec_bytes(),
        code.0 == 403 ==> phrase.spec_bytes() == "Forbidden".spec_bytes(),
        code.0 == 404 ==> phrase.spec_bytes() == "Not Found".spec_bytes(),
        code.0 == 405 ==> phrase.spec_bytes() == "Method Not Allowed".spec_bytes(),
        code.0 == 406 ==> phrase.spec_bytes() == "Not Acceptable".spec_bytes(),
        code.0 == 407 ==> phrase.spec_bytes() == "Proxy Authentication Required".spec_bytes(),
        code.0 == 408 ==> phrase.spec_bytes() == "Request Time-out".spec_bytes(),
        code.0 == 409 ==> phrase.spec_bytes() == "Conflict".spec_bytes(),
        code.0 == 410 ==> phrase.spec_bytes() == "Gone".spec_bytes(),
        code.0 == 411 ==> phrase.spec_bytes() == "Length Required".spec_bytes(),
        code.0 == 412 ==> phrase.spec_bytes() == "Precondition Failed".spec_bytes(),
        code.0 == 413 ==> phrase.spec_bytes() == "Request Entity Too Large".spec_bytes(),
        code.0 == 414 ==> phrase.spec_bytes() == "Request-URI Too Large".spec_bytes(),
        code.0 == 415 ==> phrase.spec_bytes() == "Unsupported Media Type".spec_bytes(),
        code.0 == 416 ==> phrase.spec_bytes() == "Request range not satisfiable".spec_bytes(),
        code.0 == 417 ==> phrase.spec_bytes() == "Expectation Failed".spec_bytes(),
        code.0 == 500 ==> phrase.spec_bytes() == "Internal Server Error".spec_bytes(),
        code.0 == 501 ==> phrase.spec_bytes() == "Not Implemented".spec_bytes(),
        code.0 == 502 ==> phrase.spec_bytes() == "Bad Gateway".spec_bytes(),
        code.0 == 503 ==> phrase.spec_bytes() == "Service Unavailable".spec_bytes(),
        code.0 == 504 ==> phrase.spec_bytes() == "Gateway Time-out".spec_bytes(),
        code.0 == 505 ==> phrase.spec_bytes() == "HTTP Version not supported".spec_bytes(),
        !(100 <= code.0 <= 102 || code.0 == 118 || 200 <= code.0 <= 207 || code.0 == 210 || 300 <= code.0 <= 305 || code.0 == 307 || 400 <= code.0 <= 417 || 500 <= code.0 <= 505) ==> phrase.spec_bytes()
            == "Unknown".spec_bytes(),
{
}

/// A text of printable ASCII characters has printable bytes.
proof fn lemma_printable(s: &str)
    requires
        s@.len() > 0,
        forall|i: int| 0 <= i < s@.len() ==> ' ' <= #[trigger] s@[i] <= '~',
    ensures
        s.spec_bytes().len() > 0,
        forall|i: int| 0 <= i < s.spec_bytes().len() ==> 32 <= #[trigger] s.spec_bytes()[i] <= 126,
{
    assert(is_ascii_chars(s@));
    is_ascii_spec_bytes(s);
    text::lemma_ascii_bytes(s);
}

/// A phrase is on one line: it has at least one character, and its characters are printable ASCII.
pub proof fn phrases_are_printable(code: StatusCode, phrase: &str)
    requires
        call_ensures(StatusCode::default_reason_phrase, (&code,), phrase),
    ensures
        phrase.spec_bytes().len() > 0,
        forall|i: int|
            0 <= i < phrase.spec_bytes().len() ==> 32 <= #[trigger] phrase.spec_bytes()[i] <= 126,
{
    phrases_are_those_registered(code, phrase);
    if code.0 == 100 {
        reveal_strlit("Continue");
        lemma_printable("Continue");
    }
    if code.0 == 101 {
        reveal_strlit("Switching Protocols");
        lemma_printable("Switching Protocols");
    }
    if code.0 == 102 {
        reveal_strlit("Processing");
        lemma_printable("Processing");
    }
    if code.0 == 118 {
        reveal_strlit("Connection timed out");
        lemma_printable("Connection timed out");
    }
    if code.0 == 200 {
        reveal_strlit("OK");
        lemma_printable("OK");
    }
    if code.0 == 201 {
        reveal_strlit("Created");
        lemma_printable("Created");
    }
    if code.0 == 202 {
        reveal_strlit("Accepted");
        lemma_printable("Accepted");
    }
    if code.0 == 203 {
        reveal_strlit("Non-Authoritative Information");
        lemma_printable("Non-Authoritative Information");
    }
    if code.0 == 204 {
        reveal_strlit("No Content");
        lemma_printable("No Content");
    }
    if code.0 == 205 {
        reveal_strlit("Reset Content");
        lemma_printable("Reset Content");
    }
    if code.0 == 206 {
        reveal_strlit("Partial Content");
        lemma_printable("Partial Content");
    }
    if code.0 == 207 {
        reveal_strlit("Multi-Status");
        lemma_printable("Multi-Status");
    }
    if code.0 == 210 {
        reveal_strlit("Content Different");
        lemma_printable("Content Different");
    }
    if code.0 == 300 {
        reveal_strlit("Multiple Choices");
        lemma_printable("Multiple Choices");
    }
    if code.0 == 301 {
        reveal_strlit("Moved Permanently");
        lemma_printable("Moved Permanently");
    }
    if code.0 == 302 {
        reveal_strlit("Found");
        lemma_printable("Found");
    }
    if code.0 == 303 {
        reveal_strlit("See Other");
        lemma_printable("See Other");
    }
    if code.0 == 304 {
        reveal_strlit("Not Modified");
        lemma_printable("Not Modified");
    }
    if code.0 == 305 {
        reveal_strlit("Use Proxy");
        lemma_printable("Use Proxy");
    }
    if code.0 == 307 {
        reveal_strlit("Temporary Redirect");
        lemma_printable("Temporary Redirect");
    }
    if code.0 == 400 {
        reveal_strlit("Bad Request");
        lemma_printable("Bad Request");
    }
    if code.0 == 401 {
        reveal_strlit("Unauthorized");
        lemma_printable("Unauthorized");
    }
    if code.0 == 402 {
        reveal_strlit("Payment Required");
        lemma_printable("Payment Required");
    }
    if code.0 == 403 {
        reveal_strlit("Forbidden");
        lemma_printable("Forbidden");
    }
    if code.0 == 404 {
        reveal_strlit("Not Found");
        lemma_printable("Not Found");
    }
    if code.0 == 405 {
        reveal_strlit("Method Not Allowed");
        lemma_printable("Method Not Allowed");
    }
    if code.0 == 406 {
        reveal_strlit("Not Acceptable");
        lemma_printable("Not Acceptable");
    }
    if code.0 == 407 {
        reveal_strlit("Proxy Authentication Required");
        lemma_printable("Proxy Authentication Required");
    }
    if code.0 == 408 {
        reveal_strlit("Request Time-out");
        lemma_printable("Request Time-out");
    }
    if code.0 == 409 {
        reveal_strlit("Conflict");
        lemma_printable("Conflict");
    }
    if code.0 == 410 {
        reveal_strlit("Gone");
        lemma_printable("Gone");
    }
    if code.0 == 411 {
        reveal_strlit("Length Required");
        lemma_printable("Length Required");
    }
    if code.0 == 412 {
        reveal_strlit("Precondition Failed");
        lemma_printable("Precondition Failed");
    }
    if code.0 == 413 {
        reveal_strlit("Request Entity Too Large");
        lemma_printable("Request Entity Too Large");
    }
    if code.0 == 414 {
        reveal_strlit("Request-URI Too Large");
        lemma_printable("Request-URI Too Large");
    }
    if code.0 == 415 {
        reveal_strlit("Unsupported Media Type");
        lemma_printable("Unsupported Media Type");
    }
    if code.0 == 416 {
        reveal_strlit("Request range not satisfiable");
        lemma_printable("Request range not satisfiable");
    }
    if code.0 == 417 {
        reveal_strlit("Expectation Failed");
        lemma_printable("Expectation Failed");
    }
    if code.0 == 500 {
        reveal_strlit("Internal Server Error");
        lemma_printable("Internal Server Error");
    }
    if code.0 == 501 {
        reveal_strlit("Not Implemented");
        lemma_printable("Not Implemented");
    }
    if code.0 == 502 {
        reveal_strlit("Bad Gateway");
        lemma_printable("Bad Gateway");
    }
    if code.0 == 503 {
        reveal_strlit("Service Unavailable");
        lemma_printable("Service Unavailable");
    }
    if code.0 == 504 {
        reveal_strlit("Gateway Time-out");
        lemma_printable("Gateway Time-out");
    }
    if code.0 == 505 {
        reveal_strlit("HTTP Version not supported");
        lemma_printable("HTTP Version not supported");
    }
    reveal_strlit("Unknown");
    lemma_printable("Unknown");
}

/// A point in time is made of its seconds since the start of 1970, up to the last second of the
/// calendar, and its text is what the calendar makes of these seconds.
pub proof fn dates_are_points_in_time(seconds: i64, made: Option<HTTPDate>, written: String)
    requires
        call_ensures(HTTPDate::at, (seconds,), made),
        made matches Some(date) ==> call_ensures(HTTPDate::to_string, (&date,), written),
    ensures
        made is Some <==> 0 <= seconds <= 8_210_266_876_799,
        made is Some ==> clock::strftime(seconds, "%a, %e %b %Y %H:%M:%S GMT"@) == Some(written@),
{
}

/// The header of a date is named `Date`, and its value is the text of the date.
pub proof fn date_headers_give_the_date(
    seconds: i64,
    date: HTTPDate,
    header: Header,
    written: &str,
    header_of_text: Header,
)
    requires
        call_ensures(HTTPDate::at, (seconds,), Some(date)),
        call_ensures(header_of_date, (&date,), header),
        call_ensures(header_of_date_text, (written,), header_of_text),
    ensures
        header@.field == "Date".spec_bytes(),
        header@.value == encode_utf8(
            clock::strftime(seconds, "%a, %e %b %Y %H:%M:%S GMT"@)->0,
        ),
        header_of_text@.field == "Date".spec_bytes(),
        header_of_text@.value == written.spec_bytes(),
{
}

} // verus!
