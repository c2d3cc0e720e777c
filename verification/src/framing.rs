//! What holds of every message: how its end is marked, and which headers it has.

use crate::chunks;
use crate::common::{self, HTTPVersion, HeaderView};
use crate::message::{self, BodyPlan, PrinterView};
use crate::response::{self, ResponseView};
use crate::text;
use crate::transfer_encoding::TransferEncoding;
use crate::util::header_value::OfferView;
use vstd::prelude::*;
use vstd::string::*;

verus! {

proof fn lemma_has_field_in_front(front: Seq<HeaderView>, headers: Seq<HeaderView>, name: Seq<u8>)
    requires
        common::has_field(headers, name),
    ensures
        common::has_field(front + headers, name),
{
    let i = choose|i: int|
        0 <= i < headers.len() && text::same_ignoring_case((#[trigger] headers[i]).field, name);
    assert((front + headers)[front.len() + i] == headers[i]);
}

/// A header of a prepared response that is not the last one sent: it sets neither the length of
/// the data nor its coding.
proof fn lemma_headers_leave_framing_open(
    response: ResponseView,
    http_version: HTTPVersion,
    offers: Seq<OfferView>,
    do_not_send_body: bool,
    upgrade: Option<Seq<u8>>,
    i: int,
)
    requires
        response.wf(),
        0 <= i < PrinterView::of(
            response,
            http_version,
            offers,
            do_not_send_body,
            upgrade,
        ).headers.len(),
    ensures
        ({
            let field = PrinterView::of(
                response,
                http_version,
                offers,
                do_not_send_body,
                upgrade,
            ).headers[i].field;
            &&& !response::is_content_length(field)
            &&& !text::same_ignoring_case(field, "Transfer-Encoding".spec_bytes())
        }),
{
    response::lemma_field_lengths();
    let headers = PrinterView::of(
        response,
        http_version,
        offers,
        do_not_send_body,
        upgrade,
    ).headers;
    let own = headers.len() - response.headers.len();
    if i >= own {
        assert(headers[i] == response.headers[i - own]);
    }
}

/// A message says in one way how its data ends. It has a `Transfer-Encoding` exactly when its
/// data is in chunks, and a `Content-Length` exactly when the data goes as it is; each of them
/// stands behind all other headers, so there is never a second one, and never both. Only a message
/// that switches protocols has neither.
pub proof fn framing_is_stated_once(
    response: ResponseView,
    http_version: HTTPVersion,
    offers: Seq<OfferView>,
    do_not_send_body: bool,
    upgrade: Option<Seq<u8>>,
    data: Seq<u8>,
)
    requires
        response.wf(),
    ensures
        ({
            let printer = message::settled(
                PrinterView::of(response, http_version, offers, do_not_send_body, upgrade),
                data,
            );
            let headers = printer.all_headers();
            let last = headers.len() - 1;
            &&& printer.transfer_encoding is None <==> upgrade is Some
            &&& printer.transfer_encoding == Some(TransferEncoding::Chunked) ==> last >= 0
                && headers[last] == message::chunked_header()
            &&& printer.transfer_encoding == Some(TransferEncoding::Identity) ==> last >= 0
                && printer.data_length is Some && headers[last] == message::length_header(
                printer.data_length->0 as nat,
            )
            &&& forall|i: int|
                0 <= i < headers.len() && text::same_ignoring_case(
                    (#[trigger] headers[i]).field,
                    "Transfer-Encoding".spec_bytes(),
                ) ==> i == last && printer.transfer_encoding == Some(TransferEncoding::Chunked)
            &&& forall|i: int|
                0 <= i < headers.len() && response::is_content_length(
                    (#[trigger] headers[i]).field,
                ) ==> i == last && printer.transfer_encoding == Some(TransferEncoding::Identity)
        }),
{
    let prepared = PrinterView::of(response, http_version, offers, do_not_send_body, upgrade);
    let printer = message::settled(prepared, data);
    let headers = printer.all_headers();
    response::lemma_field_lengths();
    assert forall|i: int| 0 <= i < prepared.headers.len() implies !response::is_content_length(
        (#[trigger] headers[i]).field,
    ) && !text::same_ignoring_case(headers[i].field, "Transfer-Encoding".spec_bytes()) by {
        lemma_headers_leave_framing_open(
            response,
            http_version,
            offers,
            do_not_send_body,
            upgrade,
            i,
        );
        assert(headers[i] == prepared.headers[i]);
    }
}

/// A client that speaks HTTP 1.0 or an older version is never sent chunks.
pub proof fn old_versions_get_no_chunks(
    response: ResponseView,
    http_version: HTTPVersion,
    offers: Seq<OfferView>,
    do_not_send_body: bool,
    upgrade: Option<Seq<u8>>,
    data: Seq<u8>,
)
    requires
        http_version.at_most(1, 0),
    ensures
        ({
            let printer = message::settled(
                PrinterView::of(response, http_version, offers, do_not_send_body, upgrade),
                data,
            );
            &&& printer.transfer_encoding != Some(TransferEncoding::Chunked)
            &&& printer.body() != BodyPlan::Chunked
        }),
{
}

/// A message that is to have no body, that has a status without one, or that switches protocols,
/// ends with its head.
pub proof fn bodiless_messages_end_with_their_head(
    response: ResponseView,
    http_version: HTTPVersion,
    offers: Seq<OfferView>,
    do_not_send_body: bool,
    upgrade: Option<Seq<u8>>,
    data: Seq<u8>,
)
    ensures
        ({
            let prepared = PrinterView::of(
                response,
                http_version,
                offers,
                do_not_send_body,
                upgrade,
            );
            do_not_send_body || response.status_code.bodiless() || upgrade is Some
                ==> message::message(prepared, data) == message::settled(prepared, data).head()
        }),
{
    let prepared = PrinterView::of(response, http_version, offers, do_not_send_body, upgrade);
    let head = message::settled(prepared, data).head();
    assert(head + Seq::<u8>::empty() =~= head);
}

/// A body in chunks carries all the data, whatever the length that the response names.
pub proof fn chunked_body_carries_the_data(printer: PrinterView, data: Seq<u8>)
    requires
        printer.body() == BodyPlan::Chunked,
    ensures
        chunks::dechunked(printer.body().applied_to(data)) == Some(data),
{
    chunks::chunks_carry_the_body(data);
}

/// A body that goes as it is has the length that `Content-Length` names, when there is so much
/// data, and consists of the first bytes of the data. When that length is the length of the data,
/// or was not given, the body is the data.
pub proof fn content_length_is_the_length(printer: PrinterView, data: Seq<u8>)
    requires
        printer.transfer_encoding == Some(TransferEncoding::Identity),
        data.len() <= usize::MAX,
    ensures
        ({
            let sent = message::settled(printer, data);
            let body = sent.body().applied_to(data);
            let named = text::usize_value(sent.all_headers().last().value);
            &&& named == sent.data_length
            &&& named is Some
            &&& !printer.do_not_send_body && named->0 <= data.len() ==> body.len() == named->0
                && body == data.take(named->0 as int)
            &&& !printer.do_not_send_body && (printer.data_length is None
                || printer.data_length->0 == data.len()) ==> body == data
        }),
{
    let sent = message::settled(printer, data);
    text::written_usize_reads_back(sent.data_length->0);
    assert(sent.all_headers().last() == message::length_header(sent.data_length->0 as nat));
    assert(data.take(data.len() as int) =~= data);
}

/// A message has a date and names its server, whatever headers the response has.
pub proof fn messages_are_dated_and_signed(
    response: ResponseView,
    seconds: i64,
    http_version: HTTPVersion,
    offers: Seq<OfferView>,
    do_not_send_body: bool,
    upgrade: Option<Seq<u8>>,
    data: Seq<u8>,
)
    ensures
        ({
            let headers = message::settled(
                PrinterView::of(
                    response.dated(message::date_header(seconds)),
                    http_version,
                    offers,
                    do_not_send_body,
                    upgrade,
                ),
                data,
            ).all_headers();
            &&& common::has_field(headers, "Date".spec_bytes())
            &&& common::has_field(headers, "Server".spec_bytes())
        }),
{
    let date = "Date".spec_bytes();
    let server = "Server".spec_bytes();
    let dated = response.dated(message::date_header(seconds));
    assert(common::has_field(dated.headers, date)) by {
        if !common::has_field(response.headers, date) {
            assert(dated.headers[0].field == date);
        }
    }
    let named = if common::has_field(dated.headers, server) {
        dated.headers
    } else {
        seq![message::server_header()] + dated.headers
    };
    assert(common::has_field(named, server)) by {
        if !common::has_field(dated.headers, server) {
            assert(named[0].field == server);
        }
    }
    if !common::has_field(dated.headers, server) {
        lemma_has_field_in_front(seq![message::server_header()], dated.headers, date);
    }
    let prepared = PrinterView::of(dated, http_version, offers, do_not_send_body, upgrade);
    if upgrade is Some {
        lemma_has_field_in_front(message::upgrade_headers(upgrade->0), named, date);
        lemma_has_field_in_front(message::upgrade_headers(upgrade->0), named, server);
    }
    let headers = message::settled(prepared, data).all_headers();
    assert forall|name: Seq<u8>| common::has_field(
        prepared.headers,
        name,
    ) implies #[trigger] common::has_field(headers, name) by {
        let i = choose|i: int|
            0 <= i < prepared.headers.len() && text::same_ignoring_case(
                (#[trigger] prepared.headers[i]).field,
                name,
            );
        assert(headers[i] == prepared.headers[i]);
    }
}

/// A message that switches protocols says so first: `Connection: upgrade`, then the protocol.
pub proof fn upgrade_comes_first(
    response: ResponseView,
    http_version: HTTPVersion,
    offers: Seq<OfferView>,
    do_not_send_body: bool,
    protocol: Seq<u8>,
    data: Seq<u8>,
)
    ensures
        message::settled(
            PrinterView::of(response, http_version, offers, do_not_send_body, Some(protocol)),
            data,
        ).all_headers().take(2) == message::upgrade_headers(protocol),
{
    assert(message::settled(
        PrinterView::of(response, http_version, offers, do_not_send_body, Some(protocol)),
        data,
    ).all_headers().take(2) =~= message::upgrade_headers(protocol));
}

/// Where a byte first occurs in a text; the length of the text if it does not.
pub open spec fn first_position(s: Seq<u8>, b: u8) -> nat
    decreases s.len(),
{
    if s.len() == 0 || s[0] == b {
        0
    } else {
        1 + first_position(s.skip(1), b)
    }
}

/// The header that a line stands for: a name up to the first colon, a space, and a value.
pub open spec fn read_header(line: Seq<u8>) -> Option<HeaderView> {
    let colon = first_position(line, 0x3A) as int;
    if colon + 1 < line.len() && line[colon + 1] == 0x20 {
        Some(HeaderView { field: line.take(colon), value: line.skip(colon + 2) })
    } else {
        None
    }
}

/// The headers that a text starts with, up to an empty line, and what stands behind that line.
pub open spec fn read_headers(s: Seq<u8>) -> Option<(Seq<HeaderView>, Seq<u8>)>
    decreases s.len(),
{
    let end = first_position(s, 0x0D) as int;
    if end + 1 >= s.len() || s[end + 1] != 0x0A {
        None
    } else if end == 0 {
        Some((Seq::empty(), s.skip(2)))
    } else {
        match (read_header(s.take(end)), read_headers(s.skip(end + 2))) {
            (Some(header), Some((headers, rest))) => Some((seq![header] + headers, rest)),
            _ => None,
        }
    }
}

/// A header that fits on its line: no colon in the name, and no carriage return at all.
pub open spec fn fits_its_line(header: HeaderView) -> bool {
    &&& !header.field.contains(0x3A)
    &&& !header.field.contains(0x0D)
    &&& !header.value.contains(0x0D)
}

pub(crate) proof fn lemma_first_position(before: Seq<u8>, b: u8, behind: Seq<u8>)
    requires
        !before.contains(b),
        behind.len() > 0,
        behind[0] == b,
    ensures
        first_position(before + behind, b) == before.len(),
    decreases before.len(),
{
    if before.len() == 0 {
        assert(before + behind =~= behind);
    } else {
        assert(before.contains(before[0]));
        assert forall|i: int| 0 <= i < before.skip(1).len() implies before.skip(1)[i] != b by {
            assert(before.contains(before[i + 1]));
        }
        lemma_first_position(before.skip(1), b, behind);
        assert((before + behind).skip(1) =~= before.skip(1) + behind);
    }
}

pub(crate) proof fn lemma_lines_from_the_front(headers: Seq<HeaderView>)
    requires
        headers.len() > 0,
    ensures
        message::header_lines(headers) == message::header_line(headers[0]) + message::header_lines(
            headers.skip(1),
        ),
    decreases headers.len(),
{
    let before = headers.drop_last();
    if before.len() == 0 {
        assert(headers.skip(1) =~= Seq::<HeaderView>::empty());
        assert(message::header_lines(before) + message::header_line(headers.last())
            =~= message::header_line(headers[0]) + message::header_lines(headers.skip(1)));
    } else {
        lemma_lines_from_the_front(before);
        assert(headers.skip(1).drop_last() =~= before.skip(1));
        assert(message::header_lines(headers) =~= message::header_line(headers[0])
            + message::header_lines(headers.skip(1)));
    }
}

/// The headers of a message read back as they are, in their order, and what stands behind them is
/// what was written behind them; as long as each of them fits on its line.
pub proof fn headers_read_back(headers: Seq<HeaderView>, rest: Seq<u8>)
    requires
        forall|i: int| 0 <= i < headers.len() ==> fits_its_line(#[trigger] headers[i]),
    ensures
        read_headers(message::header_lines(headers) + chunks::crlf() + rest) == Some(
            (headers, rest),
        ),
    decreases headers.len(),
{
    let s = message::header_lines(headers) + chunks::crlf() + rest;
    let none = Seq::<u8>::empty();
    if headers.len() == 0 {
        assert(s =~= none + (chunks::crlf() + rest));
        lemma_first_position(none, 0x0D, chunks::crlf() + rest);
        assert(s.skip(2) =~= rest);
        assert(headers =~= Seq::<HeaderView>::empty());
    } else {
        let header = headers[0];
        let more = headers.skip(1);
        let behind = message::header_lines(more) + chunks::crlf() + rest;
        let separator = ": ".spec_bytes();
        reveal_strlit(": ");
        text::lemma_ascii_bytes(": ");
        is_ascii_spec_bytes(": ");
        assert(separator =~= seq![0x3Au8, 0x20u8]);
        let line = header.field + separator + header.value;
        lemma_lines_from_the_front(headers);
        assert(s =~= line + (chunks::crlf() + behind));
        assert forall|i: int| 0 <= i < line.len() implies line[i] != 0x0D by {
            if i < header.field.len() {
                assert(header.field.contains(header.field[i]));
            } else if i >= header.field.len() + 2 {
                assert(header.value.contains(header.value[i - header.field.len() - 2]));
            }
        }
        lemma_first_position(line, 0x0D, chunks::crlf() + behind);
        assert(s.take(line.len() as int) =~= line);
        assert(s.skip(line.len() + 2int) =~= behind);
        assert(line =~= header.field + (separator + header.value));
        lemma_first_position(header.field, 0x3A, separator + header.value);
        assert(line.take(header.field.len() as int) =~= header.field);
        assert(line.skip(header.field.len() + 2int) =~= header.value);
        assert forall|i: int| 0 <= i < more.len() implies fits_its_line(#[trigger] more[i]) by {
            assert(more[i] == headers[i + 1]);
        }
        headers_read_back(more, rest);
        assert(seq![header] + more =~= headers);
    }
}

} // verus!
