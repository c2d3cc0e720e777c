//! Headers, versions, status codes and dates of HTTP.

use crate::ascii_text::{self, ascii_as_bytes, ascii_from_bytes};
use crate::clock::{self, format_seconds, seconds_now, LAST_SECOND};
use crate::text::{self, eq_ignore_ascii_case};
use ascii::AsciiString;
use vstd::prelude::*;
use vstd::slice::slice_to_vec;
use vstd::string::*;
use vstd::utf8::*;

verus! {

/// A header as bytes: what stands before the colon and what stands behind it.
#[verifier::ext_equal]
pub struct HeaderView {
    pub field: Seq<u8>,
    pub value: Seq<u8>,
}

/// Some headers as bytes.
pub open spec fn views(headers: Seq<Header>) -> Seq<HeaderView> {
    headers.map_values(|header: Header| header@)
}

/// One of the headers has the given name.
pub open spec fn has_field(headers: Seq<HeaderView>, name: Seq<u8>) -> bool {
    exists|i: int|
        0 <= i < headers.len() && text::same_ignoring_case((#[trigger] headers[i]).field, name)
}

/// The value of the first header with the given name.
pub open spec fn first_value(headers: Seq<HeaderView>, name: Seq<u8>) -> Option<Seq<u8>>
    decreases headers.len(),
{
    if headers.len() == 0 {
        None
    } else if text::same_ignoring_case(headers[0].field, name) {
        Some(headers[0].value)
    } else {
        first_value(headers.skip(1), name)
    }
}

/// The name of a header.
pub struct HeaderField(AsciiString);

impl View for HeaderField {
    type V = Seq<u8>;

    closed spec fn view(&self) -> Seq<u8> {
        ascii_text::ascii_contents(self.0)
    }
}

impl HeaderField {
    /// Builds a field name, if the bytes are ASCII.
    pub fn from_bytes(bytes: Vec<u8>) -> (r: Result<HeaderField, ()>)
        ensures
            r is Ok <==> text::all_ascii(bytes@),
            r matches Ok(field) ==> field@ == bytes@,
    {
        match ascii_from_bytes(bytes) {
            Some(s) => Ok(HeaderField(s)),
            None => Err(()),
        }
    }

    /// The bytes of the name.
    pub fn as_bytes(&self) -> (r: &[u8])
        ensures
            r@ == self@,
            text::all_ascii(r@),
    {
        ascii_as_bytes(&self.0)
    }

    /// Whether this is the given name. The case of letters does not matter.
    pub fn equiv(&self, other: &str) -> (r: bool)
        ensures
            r == text::same_ignoring_case(self@, other.spec_bytes()),
    {
        eq_ignore_ascii_case(self.as_bytes(), other.as_bytes())
    }
}

impl Clone for HeaderField {
    fn clone(&self) -> (r: Self)
        ensures
            r@ == self@,
    {
        HeaderField(self.0.clone())
    }
}

/// A header: a field name and its value.
pub struct Header {
    pub field: HeaderField,
    pub value: AsciiString,
}

impl View for Header {
    type V = HeaderView;

    open spec fn view(&self) -> HeaderView {
        HeaderView { field: self.field@, value: ascii_text::ascii_contents(self.value) }
    }
}

impl Header {
    /// Builds a header, if both parts are ASCII.
    pub fn from_bytes(field: &[u8], value: &[u8]) -> (r: Result<Header, ()>)
        ensures
            r is Ok <==> text::all_ascii(field@) && text::all_ascii(value@),
            r matches Ok(header) ==> header@ == (HeaderView { field: field@, value: value@ }),
    {
        match HeaderField::from_bytes(slice_to_vec(field)) {
            Ok(field) => match ascii_from_bytes(slice_to_vec(value)) {
                Some(value) => Ok(Header { field, value }),
                None => Err(()),
            },
            Err(()) => Err(()),
        }
    }
}

impl Clone for Header {
    fn clone(&self) -> (r: Self)
        ensures
            r@ == self@,
    {
        Header { field: self.field.clone(), value: self.value.clone() }
    }
}

/// Whether one of the headers has the given name.
pub(crate) fn contains_field(headers: &Vec<Header>, name: &str) -> (r: bool)
    ensures
        r == has_field(views(headers@), name.spec_bytes()),
{
    let ghost all = views(headers@);
    let mut i: usize = 0;
    while i < headers.len()
        invariant
            i <= headers.len(),
            all == views(headers@),
            forall|j: int|
                0 <= j < i ==> !text::same_ignoring_case(
                    (#[trigger] all[j]).field,
                    name.spec_bytes(),
                ),
        decreases headers.len() - i,
    {
        assert(all[i as int] == headers@[i as int]@);
        if headers[i].field.equiv(name) {
            return true;
        }
        i += 1;
    }
    false
}

/// The value of the first header with the given name.
pub(crate) fn find_value<'a>(headers: &'a Vec<Header>, name: &str) -> (r: Option<&'a [u8]>)
    ensures
        r is Some <==> first_value(views(headers@), name.spec_bytes()) is Some,
        r matches Some(value) ==> first_value(views(headers@), name.spec_bytes()) == Some(value@),
{
    let ghost all = views(headers@);
    let mut i: usize = 0;
    assert(all.skip(0) =~= all);
    while i < headers.len()
        invariant
            i <= headers.len(),
            all == views(headers@),
            first_value(all, name.spec_bytes()) == first_value(
                all.skip(i as int),
                name.spec_bytes(),
            ),
        decreases headers.len() - i,
    {
        assert(all.skip(i as int)[0] == headers@[i as int]@);
        assert(all.skip(i as int).skip(1) =~= all.skip(i + 1));
        if headers[i].field.equiv(name) {
            return Some(ascii_as_bytes(&headers[i].value));
        }
        i += 1;
    }
    None
}

/// Builds a header from a field name and the bytes of a value, both known to be ASCII.
pub(crate) fn header_of(field: &str, value: &[u8]) -> (r: Header)
    requires
        is_ascii_chars(field@),
        text::all_ascii(value@),
    ensures
        r@ == (HeaderView { field: field.spec_bytes(), value: value@ }),
{
    proof {
        text::lemma_ascii_bytes(field);
    }
    Header::from_bytes(field.as_bytes(), value).unwrap()
}

/// A version of HTTP: the major and the minor number.
#[derive(Debug, Clone, Copy, PartialEq, Eq, Structural)]
pub struct HTTPVersion(pub u8, pub u8);

impl HTTPVersion {
    /// This version is the given one or one before it.
    pub open spec fn at_most(self, major: u8, minor: u8) -> bool {
        self.0 < major || self.0 == major && self.1 <= minor
    }

    /// Whether this version is the given one or one before it.
    pub fn is_at_most(&self, major: u8, minor: u8) -> (r: bool)
        ensures
            r == self.at_most(major, minor),
    {
        self.0 < major || self.0 == major && self.1 <= minor
    }
}

/// The status code of a response.
#[derive(Debug, Clone, Copy, PartialEq, Eq, Structural)]
pub struct StatusCode(pub u16);

impl StatusCode {
    /// The phrase that explains a status code.
    pub open spec fn reason_phrase(self) -> Seq<u8> {
        (match self.0 {
            100 => "Continue",
            101 => "Switching Protocols",
            102 => "Processing",
            118 => "Connection timed out",
            200 => "OK",
            201 => "Created",
            202 => "Accepted",
            203 => "Non-Authoritative Information",
            204 => "No Content",
            205 => "Reset Content",
            206 => "Partial Content",
            207 => "Multi-Status",
            210 => "Content Different",
            300 => "Multiple Choices",
            301 => "Moved Permanently",
            302 => "Found",
            303 => "See Other",
            304 => "Not Modified",
            305 => "Use Proxy",
            307 => "Temporary Redirect",
            400 => "Bad Request",
            401 => "Unauthorized",
            402 => "Payment Required",
            403 => "Forbidden",
            404 => "Not Found",
            405 => "Method Not Allowed",
            406 => "Not Acceptable",
            407 => "Proxy Authentication Required",
            408 => "Request Time-out",
            409 => "Conflict",
            410 => "Gone",
            411 => "Length Required",
            412 => "Precondition Failed",
            413 => "Request Entity Too Large",
            414 => "Request-URI Too Large",
            415 => "Unsupported Media Type",
            416 => "Request range not satisfiable",
            417 => "Expectation Failed",
            500 => "Internal Server Error",
            501 => "Not Implemented",
            502 => "Bad Gateway",
            503 => "Service Unavailable",
            504 => "Gateway Time-out",
            505 => "HTTP Version not supported",
            _ => "Unknown",
        }).spec_bytes()
    }

    /// The codes whose responses have no body: every 1xx, 204 and 304.
    pub open spec fn bodiless(self) -> bool {
        100 <= self.0 <= 199 || self.0 == 204 || self.0 == 304
    }

    /// The phrase that explains this status code.
    pub fn default_reason_phrase(&self) -> (r: &'static str)
        ensures
            r.spec_bytes() == self.reason_phrase(),
    {
        match self.0 {
            100 => "Continue",
            101 => "Switching Protocols",
            102 => "Processing",
            118 => "Connection timed out",
            200 => "OK",
            201 => "Created",
            202 => "Accepted",
            203 => "Non-Authoritative Information",
            204 => "No Content",
            205 => "Reset Content",
            206 => "Partial Content",
            207 => "Multi-Status",
            210 => "Content Different",
            300 => "Multiple Choices",
            301 => "Moved Permanently",
            302 => "Found",
            303 => "See Other",
            304 => "Not Modified",
            305 => "Use Proxy",
            307 => "Temporary Redirect",
            400 => "Bad Request",
            401 => "Unauthorized",
            402 => "Payment Required",
            403 => "Forbidden",
            404 => "Not Found",
            405 => "Method Not Allowed",
            406 => "Not Acceptable",
            407 => "Proxy Authentication Required",
            408 => "Request Time-out",
            409 => "Conflict",
            410 => "Gone",
            411 => "Length Required",
            412 => "Precondition Failed",
            413 => "Request Entity Too Large",
            414 => "Request-URI Too Large",
            415 => "Unsupported Media Type",
            416 => "Request range not satisfiable",
            417 => "Expectation Failed",
            500 => "Internal Server Error",
            501 => "Not Implemented",
            502 => "Bad Gateway",
            503 => "Service Unavailable",
            504 => "Gateway Time-out",
            505 => "HTTP Version not supported",
            _ => "Unknown",
        }
    }
}

impl From<u16> for StatusCode {
    fn from(code: u16) -> (r: StatusCode) {
        StatusCode(code)
    }
}

impl vstd::std_specs::convert::FromSpecImpl<u16> for StatusCode {
    open spec fn obeys_from_spec() -> bool {
        true
    }

    open spec fn from_spec(code: u16) -> StatusCode {
        StatusCode(code)
    }
}

/// The pattern of a date in an HTTP header.
pub open spec fn http_date_pattern() -> Seq<char> {
    "%a, %e %b %Y %H:%M:%S GMT"@
}

/// The text of a second, counted from the start of 1970, as an HTTP header has it.
pub open spec fn http_date_text(seconds: i64) -> Seq<u8> {
    encode_utf8(clock::strftime(seconds, http_date_pattern())->0)
}

/// A point in time, to the second.
#[derive(Debug, Clone, Copy, PartialEq, Eq, Structural)]
pub struct HTTPDate {
    seconds: i64,
}

impl HTTPDate {
    /// The seconds since the start of 1970 UTC.
    pub closed spec fn seconds(self) -> i64 {
        self.seconds
    }

    /// The calendar has this point in time.
    pub open spec fn wf(self) -> bool {
        0 <= self.seconds() <= LAST_SECOND
    }

    /// The current time.
    pub fn new() -> (r: HTTPDate)
        ensures
            r.wf(),
    {
        HTTPDate { seconds: seconds_now() }
    }

    /// The point so many seconds after the start of 1970 UTC, unless it lies outside the calendar.
    pub fn at(seconds: i64) -> (r: Option<HTTPDate>)
        ensures
            r is Some <==> 0 <= seconds <= LAST_SECOND,
            r matches Some(date) ==> date.wf() && date.seconds() == seconds,
    {
        if 0 <= seconds && seconds <= LAST_SECOND {
            Some(HTTPDate { seconds })
        } else {
            None
        }
    }

    /// The date as an HTTP header has it.
    pub fn to_string(&self) -> (r: String)
        requires
            self.wf(),
        ensures
            clock::strftime(self.seconds(), http_date_pattern()) == Some(r@),
            is_ascii_chars(r@),
    {
        format_seconds(self.seconds, "%a, %e %b %Y %H:%M:%S GMT").unwrap()
    }
}

} // verus!
