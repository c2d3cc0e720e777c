//! The bytes of a response on the wire.

use crate::ascii_text::ascii_as_bytes;
use crate::chunks::{self, write_chunks};
use crate::clock::LAST_SECOND;
use crate::common::{
    self, contains_field, header_of, HTTPDate, HTTPVersion, Header, HeaderView, StatusCode,
};
use crate::response::{Empty, Response, ResponseView};
use crate::text::{self, push_bytes, push_decimal};
use crate::transfer_encoding::{self, choose_transfer_encoding, TransferEncoding};
use crate::util::header_value::OfferView;
use vstd::prelude::*;
use vstd::string::*;
use vstd::utf8::*;

verus! {

/// The line that a response starts with.
pub open spec fn status_line(http_version: HTTPVersion, status_code: StatusCode) -> Seq<u8> {
    "HTTP/".spec_bytes() + text::decimal(http_version.0 as nat) + ".".spec_bytes() + text::decimal(
        http_version.1 as nat,
    ) + " ".spec_bytes() + text::decimal(status_code.0 as nat) + " ".spec_bytes()
        + status_code.reason_phrase() + chunks::crlf()
}

/// The line of a header.
pub open spec fn header_line(header: HeaderView) -> Seq<u8> {
    header.field + ": ".spec_bytes() + header.value + chunks::crlf()
}

/// The lines of some headers, in their order.
pub open spec fn header_lines(headers: Seq<HeaderView>) -> Seq<u8>
    decreases headers.len(),
{
    if headers.len() == 0 {
        Seq::empty()
    } else {
        header_lines(headers.drop_last()) + header_line(headers.last())
    }
}

/// All that stands before the data of a response: the status line, the headers, an empty line.
pub open spec fn message_head(
    http_version: HTTPVersion,
    status_code: StatusCode,
    headers: Seq<HeaderView>,
) -> Seq<u8> {
    status_line(http_version, status_code) + header_lines(headers) + chunks::crlf()
}

fn push_crlf(out: &mut Vec<u8>)
    ensures
        final(out)@ == old(out)@ + chunks::crlf(),
{
    out.push(0x0D);
    out.push(0x0A);
    assert(out@ =~= old(out)@ + chunks::crlf());
}

/// Writes the status line, the headers and the empty line of a response.
pub fn write_message_header(
    writer: &mut Vec<u8>,
    http_version: &HTTPVersion,
    status_code: &StatusCode,
    headers: &Vec<Header>,
)
    ensures
        final(writer)@ == old(writer)@ + message_head(
            *http_version,
            *status_code,
            common::views(headers@),
        ),
{
    push_bytes(writer, "HTTP/".as_bytes());
    push_decimal(writer, http_version.0 as usize);
    push_bytes(writer, ".".as_bytes());
    push_decimal(writer, http_version.1 as usize);
    push_bytes(writer, " ".as_bytes());
    push_decimal(writer, status_code.0 as usize);
    push_bytes(writer, " ".as_bytes());
    push_bytes(writer, status_code.default_reason_phrase().as_bytes());
    push_crlf(writer);
    assert(writer@ =~= old(writer)@ + status_line(*http_version, *status_code));
    let ghost start = writer@;
    let ghost all = common::views(headers@);
    let mut i: usize = 0;
    assert(all.take(0) =~= Seq::<HeaderView>::empty());
    assert(writer@ =~= start + header_lines(all.take(0)));
    while i < headers.len()
        invariant
            i <= headers.len(),
            all == common::views(headers@),
            writer@ == start + header_lines(all.take(i as int)),
        decreases headers.len() - i,
    {
        let ghost before = writer@;
        push_bytes(writer, headers[i].field.as_bytes());
        push_bytes(writer, ": ".as_bytes());
        push_bytes(writer, ascii_as_bytes(&headers[i].value));
        push_crlf(writer);
        assert(writer@ =~= before + header_line(all[i as int]));
        assert(all.take(i + 1).drop_last() =~= all.take(i as int));
        i += 1;
        assert(writer@ =~= start + header_lines(all.take(i as int)));
    }
    assert(all.take(all.len() as int) =~= all);
    push_crlf(writer);
    assert(writer@ =~= old(writer)@ + message_head(*http_version, *status_code, all));
}

/// What is sent of the data of a response.
#[derive(Debug, Clone, Copy, PartialEq, Eq, Structural)]
pub enum BodyPlan {
    /// Nothing.
    Omit,
    /// All of it, in chunks.
    Chunked,
    /// So many bytes from its start, or all of it where it is shorter.
    Exactly(usize),
}

impl BodyPlan {
    /// The bytes that are sent.
    pub open spec fn applied_to(self, data: Seq<u8>) -> Seq<u8> {
        match self {
            BodyPlan::Omit => Seq::empty(),
            BodyPlan::Chunked => chunks::chunked(data),
            BodyPlan::Exactly(length) => if length <= data.len() {
                data.take(length as int)
            } else {
                data
            },
        }
    }

    /// Appends the bytes that are sent.
    pub fn write(&self, writer: &mut Vec<u8>, data: &[u8])
        ensures
            final(writer)@ == old(writer)@ + self.applied_to(data@),
    {
        match *self {
            BodyPlan::Omit => {
                assert(writer@ =~= old(writer)@ + Seq::<u8>::empty());
            },
            BodyPlan::Chunked => {
                write_chunks(writer, data);
            },
            BodyPlan::Exactly(length) => {
                let n: usize = if length <= data.len() {
                    length
                } else {
                    data.len()
                };
                let sent = vstd::slice::slice_subrange(data, 0, n);
                assert(sent@ =~= self.applied_to(data@));
                push_bytes(writer, sent);
            },
        }
    }
}

/// The header `Date` with the text of a second.
pub open spec fn date_header(seconds: i64) -> HeaderView {
    HeaderView { field: "Date".spec_bytes(), value: common::http_date_text(seconds) }
}

/// Builds the header `Date` with the text of a date.
pub fn header_of_date_text(value: &str) -> (r: Header)
    requires
        is_ascii_chars(value@),
    ensures
        r@ == (HeaderView { field: "Date".spec_bytes(), value: value.spec_bytes() }),
{
    proof {
        reveal_strlit("Date");
        text::lemma_ascii_bytes(value);
    }
    header_of("Date", value.as_bytes())
}

/// Builds the header that gives a date.
pub fn header_of_date(date: &HTTPDate) -> (r: Header)
    requires
        date.wf(),
    ensures
        r@ == date_header(date.seconds()),
{
    header_of_date_text(date.to_string().as_str())
}

/// Builds the header that gives the current date.
pub fn build_data_header() -> (r: Header)
    ensures
        exists|seconds: i64|
            0 <= seconds <= LAST_SECOND && #[trigger] date_header(seconds) == r@,
{
    header_of_date(&HTTPDate::new())
}

/// The header that names the server.
pub open spec fn server_header() -> HeaderView {
    HeaderView { field: "Server".spec_bytes(), value: "tiny-http (Rust)".spec_bytes() }
}

/// The headers that switch to another protocol.
pub open spec fn upgrade_headers(protocol: Seq<u8>) -> Seq<HeaderView> {
    seq![
        HeaderView { field: "Connection".spec_bytes(), value: "upgrade".spec_bytes() },
        HeaderView { field: "Upgrade".spec_bytes(), value: protocol },
    ]
}

/// The header of data in chunks.
pub open spec fn chunked_header() -> HeaderView {
    HeaderView { field: "Transfer-Encoding".spec_bytes(), value: "chunked".spec_bytes() }
}

/// The header of data of a known length.
pub open spec fn length_header(length: nat) -> HeaderView {
    HeaderView { field: "Content-Length".spec_bytes(), value: text::decimal(length) }
}

/// A response on its way out, as values.
#[verifier::ext_equal]
pub struct PrinterView {
    pub http_version: HTTPVersion,
    pub status_code: StatusCode,
    pub headers: Seq<HeaderView>,
    pub transfer_encoding: Option<TransferEncoding>,
    pub data_length: Option<usize>,
    pub do_not_send_body: bool,
}

impl PrinterView {
    /// A response, ready to be sent to a client with the given version that made the given offers.
    pub open spec fn of(
        response: ResponseView,
        http_version: HTTPVersion,
        offers: Seq<OfferView>,
        do_not_send_body: bool,
        upgrade: Option<Seq<u8>>,
    ) -> PrinterView {
        let named = if common::has_field(response.headers, "Server".spec_bytes()) {
            response.headers
        } else {
            seq![server_header()] + response.headers
        };
        PrinterView {
            http_version,
            status_code: response.status_code,
            headers: match upgrade {
                Some(protocol) => upgrade_headers(protocol) + named,
                None => named,
            },
            transfer_encoding: match upgrade {
                Some(_) => None,
                None => Some(
                    transfer_encoding::transfer_encoding_of(
                        offers,
                        http_version,
                        response.data_length,
                        false,
                        response.threshold(),
                    ),
                ),
            },
            data_length: response.data_length,
            do_not_send_body: do_not_send_body || response.status_code.bodiless(),
        }
    }

    /// The length of the data has to be found out before anything is sent.
    pub open spec fn must_measure(self) -> bool {
        self.data_length is None && self.transfer_encoding == Some(TransferEncoding::Identity)
    }

    /// The length of the data is known now.
    pub open spec fn measured(self, length: usize) -> PrinterView {
        PrinterView { data_length: Some(length), ..self }
    }

    /// All the headers that are sent.
    pub open spec fn all_headers(self) -> Seq<HeaderView> {
        match self.transfer_encoding {
            Some(TransferEncoding::Chunked) => self.headers.push(chunked_header()),
            Some(TransferEncoding::Identity) => self.headers.push(
                length_header(self.data_length->0 as nat),
            ),
            None => self.headers,
        }
    }

    /// What is sent before the data.
    pub open spec fn head(self) -> Seq<u8> {
        message_head(self.http_version, self.status_code, self.all_headers())
    }

    /// What is sent of the data.
    pub open spec fn body(self) -> BodyPlan {
        if self.do_not_send_body {
            BodyPlan::Omit
        } else {
            match self.transfer_encoding {
                Some(TransferEncoding::Chunked) => BodyPlan::Chunked,
                Some(TransferEncoding::Identity) => BodyPlan::Exactly(self.data_length->0),
                None => BodyPlan::Omit,
            }
        }
    }
}

/// The printer once it knows what it needs of the data.
pub open spec fn settled(printer: PrinterView, data: Seq<u8>) -> PrinterView {
    if printer.must_measure() {
        printer.measured(data.len() as usize)
    } else {
        printer
    }
}

/// All that is sent of a response with the given data.
pub open spec fn message(printer: PrinterView, data: Seq<u8>) -> Seq<u8> {
    let printer = settled(printer, data);
    printer.head() + printer.body().applied_to(data)
}

/// A response on its way out.
///
/// Where `must_measure` says so, the data is read to its end and `measured` takes its length.
/// Then `finish` gives the bytes before the data, and what to send of the data.
pub struct Printer {
    http_version: HTTPVersion,
    status_code: StatusCode,
    headers: Vec<Header>,
    transfer_encoding: Option<TransferEncoding>,
    data_length: Option<usize>,
    do_not_send_body: bool,
}

impl View for Printer {
    type V = PrinterView;

    closed spec fn view(&self) -> PrinterView {
        PrinterView {
            http_version: self.http_version,
            status_code: self.status_code,
            headers: common::views(self.headers@),
            transfer_encoding: self.transfer_encoding,
            data_length: self.data_length,
            do_not_send_body: self.do_not_send_body,
        }
    }
}

impl Printer {
    /// Whether the length of the data has to be found out before anything is sent.
    pub fn must_measure(&self) -> (r: bool)
        ensures
            r == self@.must_measure(),
    {
        self.data_length.is_none() && match self.transfer_encoding {
            Some(TransferEncoding::Identity) => true,
            _ => false,
        }
    }

    /// Takes the length of the data.
    pub fn measured(self, length: usize) -> (r: Printer)
        requires
            self@.must_measure(),
        ensures
            r@ == self@.measured(length),
            !r@.must_measure(),
    {
        let mut printer = self;
        printer.data_length = Some(length);
        printer
    }

    /// The bytes before the data, and what to send of the data.
    pub fn finish(self) -> (r: (Vec<u8>, BodyPlan))
        requires
            !self@.must_measure(),
        ensures
            r.0@ == self@.head(),
            r.1 == self@.body(),
    {
        let mut headers = self.headers;
        match self.transfer_encoding {
            Some(TransferEncoding::Chunked) => {
                proof {
                    reveal_strlit("Transfer-Encoding");
                    reveal_strlit("chunked");
                    text::lemma_ascii_bytes("chunked");
                }
                headers.push(header_of("Transfer-Encoding", "chunked".as_bytes()));
            },
            Some(TransferEncoding::Identity) => {
                let mut value: Vec<u8> = Vec::new();
                push_decimal(&mut value, self.data_length.unwrap());
                proof {
                    assert(value@ =~= text::decimal(self.data_length->0 as nat));
                    text::decimal_reads_back(self.data_length->0 as nat);
                    assert forall|i: int| 0 <= i < value@.len() implies #[trigger] value@[i]
                        < 128 by {
                        assert(text::is_digit(value@[i]));
                    }
                    reveal_strlit("Content-Length");
                }
                headers.push(header_of("Content-Length", value.as_slice()));
            },
            None => {},
        }
        assert(common::views(headers@) =~= self@.all_headers());
        let mut head: Vec<u8> = Vec::new();
        write_message_header(&mut head, &self.http_version, &self.status_code, &headers);
        assert(head@ =~= self@.head());
        let body = if self.do_not_send_body {
            BodyPlan::Omit
        } else {
            match self.transfer_encoding {
                Some(TransferEncoding::Chunked) => BodyPlan::Chunked,
                Some(TransferEncoding::Identity) => BodyPlan::Exactly(self.data_length.unwrap()),
                None => BodyPlan::Omit,
            }
        };
        (head, body)
    }
}

impl<R> Response<R> {
    /// Gives the response the current date, unless it has a date.
    pub fn with_current_date(self) -> (r: Response<R>)
        requires
            self.wf(),
        ensures
            r.wf(),
            r.reader() == self.reader(),
            exists|seconds: i64|
                0 <= seconds <= LAST_SECOND && r@ == self@.dated(#[trigger] date_header(seconds)),
    {
        if self.has_header("Date") {
            assert(self@ == self@.dated(date_header(0)));
            self
        } else {
            self.with_date(build_data_header())
        }
    }

    /// Makes the response ready to be sent, and hands out the source of its data.
    pub fn prepare(
        self,
        http_version: HTTPVersion,
        request_headers: &Vec<Header>,
        readings: &Vec<Vec<Option<i32>>>,
        do_not_send_body: bool,
        upgrade: Option<&str>,
    ) -> (r: (Printer, R))
        requires
            upgrade matches Some(protocol) ==> is_ascii_chars(protocol@),
        ensures
            r.0@ == PrinterView::of(
                self@,
                http_version,
                transfer_encoding::offers_of(
                    common::views(request_headers@),
                    transfer_encoding::reading_views(readings@),
                ),
                do_not_send_body,
                match upgrade {
                    Some(protocol) => Some(protocol.spec_bytes()),
                    None => None,
                },
            ),
            r.1 == self.reader(),
    {
        let (reader, status_code, headers, data_length, threshold) = self.into_parts();
        let mut headers = headers;
        let mut transfer_encoding = Some(
            choose_transfer_encoding(
                request_headers,
                readings,
                &http_version,
                &data_length,
                false,
                threshold,
            ),
        );
        if !contains_field(&headers, "Server") {
            let ghost before = common::views(headers@);
            proof {
                reveal_strlit("Server");
                reveal_strlit("tiny-http (Rust)");
                text::lemma_ascii_bytes("tiny-http (Rust)");
            }
            headers.insert(0, header_of("Server", "tiny-http (Rust)".as_bytes()));
            assert(common::views(headers@) =~= seq![server_header()] + before);
        }
        if let Some(protocol) = upgrade {
            let ghost before = common::views(headers@);
            proof {
                reveal_strlit("Upgrade");
                reveal_strlit("Connection");
                reveal_strlit("upgrade");
                text::lemma_ascii_bytes("upgrade");
                text::lemma_ascii_bytes(protocol);
            }
            headers.insert(0, header_of("Upgrade", protocol.as_bytes()));
            headers.insert(0, header_of("Connection", "upgrade".as_bytes()));
            assert(common::views(headers@) =~= upgrade_headers(protocol.spec_bytes()) + before);
            transfer_encoding = None;
        }
        let bodiless = match status_code.0 {
            100..=199 | 204 | 304 => true,
            _ => false,
        };
        let printer = Printer {
            http_version,
            status_code,
            headers,
            transfer_encoding,
            data_length,
            do_not_send_body: do_not_send_body || bodiless,
        };
        (printer, reader)
    }
}

/// A source of data that is in memory.
pub trait Data: Sized {
    /// The data.
    spec fn data(&self) -> Seq<u8>;

    /// Hands out the data.
    fn into_data(self) -> (r: Vec<u8>)
        ensures
            r@ == self.data(),
    ;
}

impl Data for Vec<u8> {
    open spec fn data(&self) -> Seq<u8> {
        self@
    }

    fn into_data(self) -> (r: Vec<u8>) {
        self
    }
}

impl Data for Empty {
    open spec fn data(&self) -> Seq<u8> {
        Seq::empty()
    }

    fn into_data(self) -> (r: Vec<u8>) {
        Vec::new()
    }
}

impl<R: Data> Data for Box<R> {
    open spec fn data(&self) -> Seq<u8> {
        (**self).data()
    }

    fn into_data(self) -> (r: Vec<u8>) {
        (*self).into_data()
    }
}

impl<R: Data> Response<R> {
    /// Writes the response, as it is, behind what is in the buffer.
    pub fn print(
        self,
        writer: &mut Vec<u8>,
        http_version: HTTPVersion,
        request_headers: &Vec<Header>,
        readings: &Vec<Vec<Option<i32>>>,
        do_not_send_body: bool,
        upgrade: Option<&str>,
    )
        requires
            upgrade matches Some(protocol) ==> is_ascii_chars(protocol@),
        ensures
            self.reader().data().len() <= usize::MAX,
            final(writer)@ == old(writer)@ + message(
                PrinterView::of(
                    self@,
                    http_version,
                    transfer_encoding::offers_of(
                        common::views(request_headers@),
                        transfer_encoding::reading_views(readings@),
                    ),
                    do_not_send_body,
                    match upgrade {
                        Some(protocol) => Some(protocol.spec_bytes()),
                        None => None,
                    },
                ),
                self.reader().data(),
            ),
    {
        let (printer, reader) = self.prepare(
            http_version,
            request_headers,
            readings,
            do_not_send_body,
            upgrade,
        );
        let data = reader.into_data();
        assert(data.len() == self.reader().data().len());
        let printer = if printer.must_measure() {
            printer.measured(data.len())
        } else {
            printer
        };
        let (head, body) = printer.finish();
        push_bytes(writer, head.as_slice());
        body.write(writer, data.as_slice());
        assert(writer@ =~= old(writer)@ + (printer@.head() + printer@.body().applied_to(data@)));
    }

    /// Writes the response behind what is in the buffer. A response without a date gets the
    /// current one.
    pub fn raw_print(
        self,
        writer: &mut Vec<u8>,
        http_version: HTTPVersion,
        request_headers: &Vec<Header>,
        readings: &Vec<Vec<Option<i32>>>,
        do_not_send_body: bool,
        upgrade: Option<&str>,
    )
        requires
            self.wf(),
            upgrade matches Some(protocol) ==> is_ascii_chars(protocol@),
        ensures
            self.reader().data().len() <= usize::MAX,
            exists|seconds: i64|
                0 <= seconds <= LAST_SECOND && final(writer)@ == old(writer)@ + message(
                    PrinterView::of(
                        self@.dated(#[trigger] date_header(seconds)),
                        http_version,
                        transfer_encoding::offers_of(
                            common::views(request_headers@),
                            transfer_encoding::reading_views(readings@),
                        ),
                        do_not_send_body,
                        match upgrade {
                            Some(protocol) => Some(protocol.spec_bytes()),
                            None => None,
                        },
                    ),
                    self.reader().data(),
                ),
    {
        self.with_current_date().print(
            writer,
            http_version,
            request_headers,
            readings,
            do_not_send_body,
            upgrade,
        );
    }
}

} // verus!
