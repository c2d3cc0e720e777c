//! Responses, and the bytes that are sent of them.

use crate::ascii_text::ascii_as_bytes;
use crate::common::{self, contains_field, header_of, Header, HeaderView, StatusCode};
use crate::text::{self, parse_usize};
use vstd::prelude::*;
use vstd::string::*;
use vstd::utf8::*;

verus! {

/// `From` from a type to itself: std documents that it returns its argument unchanged.
pub assume_specification<Same>[ <Same as std::convert::From<Same>>::from ](value: Same) -> (r: Same)
    ensures
        r == value,
;

/// `String::from` a borrowed text: std documents that it copies the text.
pub assume_specification<'a>[ <String as std::convert::From<&'a str>>::from ](s: &str) -> (r: String)
    ensures
        r@ == s@,
;

/// `Vec::from` a slice: std documents that it is filled by cloning the items of the slice.
pub assume_specification<'a, Item: Clone>[ <Vec<Item> as std::convert::From<&'a [Item]>>::from ](
    s: &[Item],
) -> (r: Vec<Item>)
    ensures
        r@.len() == s@.len(),
        forall|i: int| 0 <= i < s@.len() ==> cloned::<Item>(s@[i], #[trigger] r@[i]),
;

/// `Vec::from` a borrowed text: std documents that it is filled with the text in UTF-8.
pub assume_specification<'a>[ <Vec<u8> as std::convert::From<&'a str>>::from ](s: &str) -> (r: Vec<u8>)
    ensures
        r@ == encode_utf8(s@),
;

/// `Vec::from` a text: std documents that it holds the bytes of the text, which is UTF-8.
pub assume_specification[ <Vec<u8> as std::convert::From<String>>::from ](s: String) -> (r: Vec<u8>)
    ensures
        r@ == encode_utf8(s@),
;

/// The threshold of a response that names none.
pub const DEFAULT_CHUNKED_THRESHOLD: usize = 32768;

/// A response without its data, as values.
#[verifier::ext_equal]
pub struct ResponseView {
    pub status_code: StatusCode,
    pub headers: Seq<HeaderView>,
    pub data_length: Option<usize>,
    pub chunked_threshold: Option<usize>,
}

/// The headers that only the server itself sets.
pub open spec fn is_forbidden(field: Seq<u8>) -> bool {
    ||| text::same_ignoring_case(field, "Accept-Ranges".spec_bytes())
    ||| text::same_ignoring_case(field, "Connection".spec_bytes())
    ||| text::same_ignoring_case(field, "Content-Range".spec_bytes())
    ||| text::same_ignoring_case(field, "Trailer".spec_bytes())
    ||| text::same_ignoring_case(field, "Transfer-Encoding".spec_bytes())
    ||| text::same_ignoring_case(field, "Upgrade".spec_bytes())
}

/// The header that sets the length of the data.
pub open spec fn is_content_length(field: Seq<u8>) -> bool {
    text::same_ignoring_case(field, "Content-Length".spec_bytes())
}

impl ResponseView {
    /// A response with no headers yet.
    pub open spec fn bare(status_code: StatusCode, data_length: Option<usize>) -> ResponseView {
        ResponseView { status_code, headers: Seq::empty(), data_length, chunked_threshold: None }
    }

    /// None of the headers is one that the server itself sets.
    pub open spec fn wf(self) -> bool {
        forall|i: int|
            0 <= i < self.headers.len() ==> !is_forbidden((#[trigger] self.headers[i]).field)
                && !is_content_length(self.headers[i].field)
    }

    /// The response with one more header. A forbidden header changes nothing. `Content-Length`
    /// sets the length of the data, if its value is a number, and is not itself kept. Any other
    /// header goes behind those that are there.
    pub open spec fn with_header(self, header: HeaderView) -> ResponseView {
        if is_forbidden(header.field) {
            self
        } else if is_content_length(header.field) {
            match text::usize_value(header.value) {
                Some(length) => ResponseView { data_length: Some(length), ..self },
                None => self,
            }
        } else {
            ResponseView { headers: self.headers.push(header), ..self }
        }
    }

    /// The response with more headers, one after the other.
    pub open spec fn with_headers(self, headers: Seq<HeaderView>) -> ResponseView
        decreases headers.len(),
    {
        if headers.len() == 0 {
            self
        } else {
            self.with_headers(headers.drop_last()).with_header(headers.last())
        }
    }

    /// The response with a `Date`: the given header in front, unless there is one already.
    pub open spec fn dated(self, date: HeaderView) -> ResponseView {
        if common::has_field(self.headers, "Date".spec_bytes()) {
            self
        } else {
            ResponseView { headers: seq![date] + self.headers, ..self }
        }
    }

    /// The length of data from which on a body is sent in chunks.
    pub open spec fn threshold(self) -> usize {
        match self.chunked_threshold {
            Some(length) => length,
            None => DEFAULT_CHUNKED_THRESHOLD,
        }
    }
}

/// A header that a response keeps as it is.
pub open spec fn is_kept(header: HeaderView) -> bool {
    !is_forbidden(header.field) && !is_content_length(header.field)
}

/// The last length that some headers set.
pub open spec fn last_length(headers: Seq<HeaderView>) -> Option<usize>
    decreases headers.len(),
{
    if headers.len() == 0 {
        None
    } else if is_content_length(headers.last().field) && text::usize_value(headers.last().value)
        is Some {
        text::usize_value(headers.last().value)
    } else {
        last_length(headers.drop_last())
    }
}

/// Headers that are added keep their order, behind those that were there. The forbidden ones and
/// `Content-Length` are left out; the last `Content-Length` with a number sets the length of the
/// data. Nothing else changes.
pub proof fn added_headers_keep_their_order(response: ResponseView, headers: Seq<HeaderView>)
    ensures
        response.with_headers(headers) == (ResponseView {
            headers: response.headers + headers.filter(|header: HeaderView| is_kept(header)),
            data_length: match last_length(headers) {
                Some(length) => Some(length),
                None => response.data_length,
            },
            ..response
        }),
    decreases headers.len(),
{
    let kept = |header: HeaderView| is_kept(header);
    reveal(Seq::filter);
    if headers.len() == 0 {
        assert(response.headers + headers.filter(kept) =~= response.headers);
    } else {
        let before = headers.drop_last();
        added_headers_keep_their_order(response, before);
        let last = headers.last();
        lemma_content_length_is_not_forbidden(last.field);
        if is_kept(last) {
            assert(headers.filter(kept) =~= before.filter(kept).push(last));
            assert(response.headers + headers.filter(kept) =~= (response.headers + before.filter(
                kept,
            )).push(last));
        } else {
            assert(headers.filter(kept) =~= before.filter(kept));
        }
        assert(response.with_headers(headers) =~= response.with_headers(before).with_header(last));
    }
}

/// No header is both forbidden and `Content-Length`.
proof fn lemma_content_length_is_not_forbidden(field: Seq<u8>)
    ensures
        !(is_forbidden(field) && is_content_length(field)),
{
    lemma_field_lengths();
}

/// Adding headers in two goes is adding them in one.
pub proof fn headers_can_be_added_in_parts(
    response: ResponseView,
    first: Seq<HeaderView>,
    more: Seq<HeaderView>,
)
    ensures
        response.with_headers(first + more) == response.with_headers(first).with_headers(more),
    decreases more.len(),
{
    if more.len() == 0 {
        assert(first + more =~= first);
    } else {
        headers_can_be_added_in_parts(response, first, more.drop_last());
        assert((first + more).drop_last() =~= first + more.drop_last());
    }
}

/// A source of data that yields nothing.
#[derive(Debug, Clone, Copy, PartialEq, Eq, Structural)]
pub struct Empty;

/// A response: a status, headers, and the source of its data.
///
/// Some headers are never taken from the caller: `Accept-Ranges`, `Connection`, `Content-Range`,
/// `Trailer`, `Transfer-Encoding` and `Upgrade`. `Content-Length` changes the length of the data.
pub struct Response<R> {
    reader: R,
    status_code: StatusCode,
    headers: Vec<Header>,
    data_length: Option<usize>,
    chunked_threshold: Option<usize>,
}

impl<R> View for Response<R> {
    type V = ResponseView;

    closed spec fn view(&self) -> ResponseView {
        ResponseView {
            status_code: self.status_code,
            headers: common::views(self.headers@),
            data_length: self.data_length,
            chunked_threshold: self.chunked_threshold,
        }
    }
}

impl<R> Response<R> {
    /// The source of the data.
    pub closed spec fn reader(self) -> R {
        self.reader
    }

    /// None of the headers is one that the server itself sets.
    pub open spec fn wf(self) -> bool {
        self@.wf()
    }

    /// Builds a response. The headers are added one by one, and then the additional ones.
    pub fn new(
        status_code: StatusCode,
        headers: Vec<Header>,
        data: R,
        data_length: Option<usize>,
        additional_headers: Option<Vec<Header>>,
    ) -> (r: Response<R>)
        ensures
            r.wf(),
            r.reader() == data,
            r@ == ResponseView::bare(status_code, data_length).with_headers(
                common::views(headers@),
            ).with_headers(
                match additional_headers {
                    Some(more) => common::views(more@),
                    None => Seq::empty(),
                },
            ),
    {
        let mut response = Response {
            reader: data,
            status_code,
            headers: Vec::with_capacity(16),
            data_length,
            chunked_threshold: None,
        };
        assert(response@ =~= ResponseView::bare(status_code, data_length));
        response.add_headers(headers);
        if let Some(additional_headers) = additional_headers {
            response.add_headers(additional_headers);
        }
        response
    }

    fn add_headers(&mut self, headers: Vec<Header>)
        requires
            old(self).wf(),
        ensures
            final(self).wf(),
            final(self).reader() == old(self).reader(),
            final(self)@ == old(self)@.with_headers(common::views(headers@)),
    {
        let ghost all = common::views(headers@);
        let ghost start = *self;
        assert(all.take(0) =~= Seq::<HeaderView>::empty());
        for header in iter: headers
            invariant
                self.wf(),
                self.reader() == start.reader(),
                iter.seq() == headers@,
                all == common::views(headers@),
                self@ == start@.with_headers(all.take(iter.index())),
        {
            let ghost i = iter.index();
            assert(all.take(i + 1).drop_last() =~= all.take(i));
            assert(all.take(i + 1).last() == header@);
            self.add_header(header);
        }
        assert(all.take(all.len() as int) =~= all);
    }

    /// Adds a header to the response.
    pub fn add_header<H: Into<Header>>(&mut self, header: H)
        requires
            old(self).wf(),
        ensures
            final(self).wf(),
            final(self).reader() == old(self).reader(),
            exists|h: Header|
                #[trigger] call_ensures(H::into, (header,), h) && final(self)@ == old(
                    self,
                )@.with_header(h@),
    {
        let header: Header = header.into();
        let ghost h = header;
        // ignoring forbidden headers
        if header.field.equiv("Accept-Ranges") || header.field.equiv("Connection")
            || header.field.equiv("Content-Range") || header.field.equiv("Trailer")
            || header.field.equiv("Transfer-Encoding") || header.field.equiv("Upgrade") {
            return ;
        }
        if header.field.equiv("Content-Length") {
            match parse_usize(ascii_as_bytes(&header.value)) {
                Some(length) => {
                    self.data_length = Some(length);
                },
                None => {},
            }
            assert(self@ =~= old(self)@.with_header(h@));
            return ;
        }
        self.headers.push(header);
        assert(self@.headers =~= old(self)@.headers.push(h@));
        assert(self@ =~= old(self)@.with_header(h@));
    }

    /// Sets the length of data from which on it is sent in chunks.
    pub fn with_chunked_threshold(self, length: usize) -> (r: Response<R>)
        requires
            self.wf(),
        ensures
            r.wf(),
            r.reader() == self.reader(),
            r@ == (ResponseView { chunked_threshold: Some(length), ..self@ }),
    {
        let mut response = self;
        response.chunked_threshold = Some(length);
        response
    }

    /// The length of data from which on it is sent in chunks.
    pub fn chunked_threshold(&self) -> (r: usize)
        ensures
            r == self@.threshold(),
    {
        self.chunked_threshold.unwrap_or(DEFAULT_CHUNKED_THRESHOLD)
    }

    /// Returns the same response, but with an additional header.
    ///
    /// Some headers cannot be set and one other has a special behaviour. See `Response`.
    pub fn with_header<H: Into<Header>>(self, header: H) -> (r: Response<R>)
        requires
            self.wf(),
        ensures
            r.wf(),
            r.reader() == self.reader(),
            exists|h: Header|
                #[trigger] call_ensures(H::into, (header,), h) && r@ == self@.with_header(h@),
    {
        let mut response = self;
        let header: Header = header.into();
        response.add_header(header);
        response
    }

    /// Returns the same response, but with a different status code.
    pub fn with_status_code<S: Into<StatusCode>>(self, code: S) -> (r: Response<R>)
        requires
            self.wf(),
        ensures
            r.wf(),
            r.reader() == self.reader(),
            exists|status_code: StatusCode|
                #[trigger] call_ensures(S::into, (code,), status_code) && r@ == (ResponseView {
                    status_code,
                    ..self@
                }),
    {
        let mut response = self;
        response.status_code = code.into();
        assert(response@.headers == self@.headers);
        response
    }

    /// Returns the same response, but with different data.
    pub fn with_data<S>(self, reader: S, data_length: Option<usize>) -> (r: Response<S>)
        requires
            self.wf(),
        ensures
            r.wf(),
            r.reader() == reader,
            r@ == (ResponseView { data_length, ..self@ }),
    {
        Response {
            reader,
            headers: self.headers,
            status_code: self.status_code,
            data_length,
            chunked_threshold: self.chunked_threshold,
        }
    }

    /// Returns the same response with the source of its data in a box. Its threshold is the
    /// default one.
    pub fn boxed(self) -> (r: Response<Box<R>>)
        requires
            self.wf(),
        ensures
            r.wf(),
            r.reader() == self.reader(),
            r@ == (ResponseView { chunked_threshold: None, ..self@ }),
    {
        Response {
            reader: Box::new(self.reader),
            status_code: self.status_code,
            headers: self.headers,
            data_length: self.data_length,
            chunked_threshold: None,
        }
    }

    /// Exchanges the source of the data for another one, and changes nothing else.
    pub fn replace_reader<S>(self, reader: S) -> (r: (Response<S>, R))
        ensures
            r.0.reader() == reader,
            r.0@ == self@,
            r.1 == self.reader(),
    {
        let response = Response {
            reader,
            status_code: self.status_code,
            headers: self.headers,
            data_length: self.data_length,
            chunked_threshold: self.chunked_threshold,
        };
        (response, self.reader)
    }

    /// Whether the response has a header with the given name.
    pub(crate) fn has_header(&self, name: &str) -> (r: bool)
        ensures
            r == common::has_field(self@.headers, name.spec_bytes()),
    {
        contains_field(&self.headers, name)
    }

    /// Gives the response a date, unless it has one.
    pub fn with_date(self, date: Header) -> (r: Response<R>)
        requires
            self.wf(),
            text::same_ignoring_case(date@.field, "Date".spec_bytes()),
        ensures
            r.wf(),
            r.reader() == self.reader(),
            r@ == self@.dated(date@),
    {
        let mut response = self;
        if !response.has_header("Date") {
            let ghost d = date@;
            response.headers.insert(0, date);
            proof {
                lemma_field_lengths();
                assert(response@.headers =~= seq![d] + self@.headers);
            }
        }
        response
    }

    /// The parts of a response: the source of its data, the status code, the headers, the length
    /// of the data and the threshold.
    pub(crate) fn into_parts(self) -> (r: (R, StatusCode, Vec<Header>, Option<usize>, usize))
        ensures
            r.0 == self.reader(),
            r.1 == self@.status_code,
            common::views(r.2@) == self@.headers,
            r.3 == self@.data_length,
            r.4 == self@.threshold(),
    {
        let threshold = self.chunked_threshold();
        (self.reader, self.status_code, self.headers, self.data_length, threshold)
    }
}

/// The lengths of the names that the server knows, which tell most of them apart.
pub(crate) proof fn lemma_field_lengths()
    ensures
        "Date".spec_bytes().len() == 4,
        "Server".spec_bytes().len() == 6,
        "Content-Type".spec_bytes().len() == 12,
        "Accept-Ranges".spec_bytes().len() == 13,
        "Connection".spec_bytes().len() == 10,
        "Content-Range".spec_bytes().len() == 13,
        "Trailer".spec_bytes().len() == 7,
        "Transfer-Encoding".spec_bytes().len() == 17,
        "Upgrade".spec_bytes().len() == 7,
        "Content-Length".spec_bytes().len() == 14,
{
    reveal_strlit("Date");
    reveal_strlit("Server");
    reveal_strlit("Content-Type");
    reveal_strlit("Accept-Ranges");
    reveal_strlit("Connection");
    reveal_strlit("Content-Range");
    reveal_strlit("Trailer");
    reveal_strlit("Transfer-Encoding");
    reveal_strlit("Upgrade");
    reveal_strlit("Content-Length");
    text::lemma_ascii_bytes("Date");
    text::lemma_ascii_bytes("Server");
    text::lemma_ascii_bytes("Content-Type");
    text::lemma_ascii_bytes("Accept-Ranges");
    text::lemma_ascii_bytes("Connection");
    text::lemma_ascii_bytes("Content-Range");
    text::lemma_ascii_bytes("Trailer");
    text::lemma_ascii_bytes("Transfer-Encoding");
    text::lemma_ascii_bytes("Upgrade");
    text::lemma_ascii_bytes("Content-Length");
}

/// The header of a text.
pub open spec fn text_content_type() -> HeaderView {
    HeaderView {
        field: "Content-Type".spec_bytes(),
        value: "text/plain; charset=UTF-8".spec_bytes(),
    }
}

impl Response<Vec<u8>> {
    /// A response with the given data, and the status 200.
    pub fn from_data<D: Into<Vec<u8>>>(data: D) -> (r: Response<Vec<u8>>)
        ensures
            r.wf(),
            call_ensures(D::into, (data,), r.reader()),
            r@ == ResponseView::bare(StatusCode(200), Some(r.reader().len())),
    {
        let data: Vec<u8> = data.into();
        let data_len = data.len();
        Response::new(StatusCode(200), Vec::with_capacity(0), data, Some(data_len), None)
    }

    /// A response with the given text, and the status 200. It says of itself that it is plain
    /// text.
    pub fn from_string<S: Into<String>>(data: S) -> (r: Response<Vec<u8>>)
        ensures
            r.wf(),
            exists|s: String|
                #[trigger] call_ensures(S::into, (data,), s) && r.reader()@ == encode_utf8(s@),
            r@ == (ResponseView {
                headers: seq![text_content_type()],
                ..ResponseView::bare(StatusCode(200), Some(r.reader().len()))
            }),
    {
        let data: String = data.into();
        let data = data.as_str().as_bytes_vec();
        let data_len = data.len();
        proof {
            reveal_strlit("Content-Type");
            reveal_strlit("text/plain; charset=UTF-8");
            text::lemma_ascii_bytes("text/plain; charset=UTF-8");
        }
        let content_type = header_of("Content-Type", "text/plain; charset=UTF-8".as_bytes());
        let headers = vec![content_type];
        proof {
            lemma_field_lengths();
            let added = common::views(headers@);
            assert(added =~= seq![text_content_type()]);
            let bare = ResponseView::bare(StatusCode(200), Some(data_len));
            assert(added.drop_last() =~= Seq::<HeaderView>::empty());
            reveal_with_fuel(ResponseView::with_headers, 2);
            assert(bare.headers.push(text_content_type()) =~= added);
        }
        Response::new(StatusCode(200), headers, data, Some(data_len), None)
    }
}

/// A text that is handed over borrowed gives the response that it gives when it is handed over
/// owned: its bytes in UTF-8.
pub proof fn texts_are_carried(
    owned: String,
    borrowed: &str,
    of_owned: Response<Vec<u8>>,
    of_borrowed: Response<Vec<u8>>,
)
    requires
        owned@ == borrowed@,
        call_ensures(Response::<Vec<u8>>::from_string::<String>, (owned,), of_owned),
        call_ensures(Response::<Vec<u8>>::from_string::<&str>, (borrowed,), of_borrowed),
    ensures
        of_borrowed.reader()@ == encode_utf8(borrowed@),
        of_owned.reader()@ == of_borrowed.reader()@,
        of_owned@ == of_borrowed@,
{
}

/// Borrowed bytes are carried as they are, and a text, borrowed or owned, as its bytes in UTF-8.
pub proof fn data_are_carried(
    bytes: &[u8],
    borrowed: &str,
    owned: String,
    of_bytes: Response<Vec<u8>>,
    of_borrowed: Response<Vec<u8>>,
    of_owned: Response<Vec<u8>>,
)
    requires
        call_ensures(Response::<Vec<u8>>::from_data::<&[u8]>, (bytes,), of_bytes),
        call_ensures(Response::<Vec<u8>>::from_data::<&str>, (borrowed,), of_borrowed),
        call_ensures(Response::<Vec<u8>>::from_data::<String>, (owned,), of_owned),
    ensures
        of_bytes.reader()@ == bytes@,
        of_borrowed.reader()@ == encode_utf8(borrowed@),
        of_owned.reader()@ == encode_utf8(owned@),
{
    assert(of_bytes.reader()@ =~= bytes@);
}

impl Response<Empty> {
    /// Builds an empty response with the given status code.
    pub fn empty<S: Into<StatusCode>>(status_code: S) -> (r: Response<Empty>)
        ensures
            r.wf(),
            exists|code: StatusCode|
                #[trigger] call_ensures(S::into, (status_code,), code) && r@ == ResponseView::bare(
                    code,
                    Some(0),
                ),
    {
        Response::new(status_code.into(), Vec::with_capacity(0), Empty, Some(0), None)
    }

    /// Deprecated. Use `empty` instead.
    pub fn new_empty(status_code: StatusCode) -> (r: Response<Empty>)
        ensures
            r.wf(),
            r@ == ResponseView::bare(status_code, Some(0)),
    {
        Response::empty(status_code)
    }
}

impl Clone for Response<Empty> {
    fn clone(&self) -> (r: Response<Empty>)
        ensures
            r@ == self@,
    {
        let headers = self.headers.clone();
        assert(common::views(headers@) =~= common::views(self.headers@));
        Response {
            reader: Empty,
            status_code: self.status_code,
            headers,
            data_length: self.data_length,
            chunked_threshold: self.chunked_threshold,
        }
    }
}

} // verus!
