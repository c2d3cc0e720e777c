//! Messages: what is sent of a response.

use crate::chunks;
use crate::clock;
use crate::common::{self, HTTPVersion, Header, HeaderView, StatusCode};
use crate::framing;
use crate::laws::responses;
use crate::laws::words;
use crate::message::{
    self, build_data_header, write_message_header, BodyPlan, Data, Printer, PrinterView,
};
use crate::response::{self, Empty, Response, ResponseView};
use crate::text;
use crate::transfer_encoding::{self, choose_transfer_encoding, TransferEncoding};
use crate::util::header_value::OfferView;
use vstd::prelude::*;
use vstd::string::*;
use vstd::utf8::*;

verus! {

/// Each header on a line of its own: its name, a colon and a space, and its value.
pub open spec fn lines(headers: Seq<HeaderView>) -> Seq<u8>
    decreases headers.len(),
{
    if headers.len() == 0 {
        Seq::empty()
    } else {
        headers[0].field + seq![58u8, 32u8] + headers[0].value + words::line_end() + lines(
            headers.skip(1),
        )
    }
}

/// The numbers of a status line, as they are written.
pub struct StatusNumbers {
    pub major: Seq<u8>,
    pub minor: Seq<u8>,
    pub code: Seq<u8>,
}

/// The numbers are those of the version and of the status code.
pub open spec fn are_numbers(numbers: StatusNumbers, version: HTTPVersion, code: StatusCode) -> bool {
    &&& words::is_numeral(numbers.major, version.0 as nat)
    &&& words::is_numeral(numbers.minor, version.1 as nat)
    &&& words::is_numeral(numbers.code, code.0 as nat)
}

/// What stands before the data of a message: the version, the status code and its phrase on the
/// first line, then the lines of the headers, and an empty line.
pub open spec fn is_head(
    head: Seq<u8>,
    version: HTTPVersion,
    code: StatusCode,
    phrase: Seq<u8>,
    headers: Seq<HeaderView>,
) -> bool {
    exists|numbers: StatusNumbers| #[trigger]
        are_numbers(numbers, version, code) && head == "HTTP/".spec_bytes() + numbers.major
            + seq![46u8] + numbers.minor + seq![32u8] + numbers.code + seq![32u8] + phrase
            + words::line_end() + lines(headers) + words::line_end()
}

/// A message in its parts.
pub struct Sent {
    pub head: Seq<u8>,
    pub headers: Seq<HeaderView>,
    pub body: Seq<u8>,
}

/// How many headers the server puts before those of the response.
pub open spec fn in_front(
    own: Seq<HeaderView>,
    date: Option<HeaderView>,
    upgrade: Option<Seq<u8>>,
) -> int {
    (if upgrade is Some {
        2int
    } else {
        0int
    }) + (if words::has_name(own, "Server".spec_bytes()) {
        0int
    } else {
        1int
    }) + (if date is None || words::has_name(own, "Date".spec_bytes()) {
        0int
    } else {
        1int
    })
}

/// The headers that are sent are those of the response, in their order. Before them stand at most
/// the change of the protocol, the name of the server and a date, the last two where the response
/// has no such header itself. Behind them stands at most the one that says how the data is sent.
pub open spec fn sends_headers(
    sent: Seq<HeaderView>,
    own: Seq<HeaderView>,
    date: Option<HeaderView>,
    upgrade: Option<Seq<u8>>,
) -> bool {
    let front = in_front(own, date, upgrade);
    &&& sent.len() == front + own.len() + if upgrade is Some {
        0int
    } else {
        1int
    }
    &&& sent.subrange(front, front + own.len()) == own
    &&& upgrade matches Some(protocol) ==> {
        &&& sent[0].field == "Connection".spec_bytes() && sent[0].value == "upgrade".spec_bytes()
        &&& sent[1].field == "Upgrade".spec_bytes() && sent[1].value == protocol
    }
    &&& !words::has_name(own, "Server".spec_bytes()) ==> {
        let place = if upgrade is Some {
            2int
        } else {
            0int
        };
        sent[place].field == "Server".spec_bytes() && sent[place].value
            == "tiny-http (Rust)".spec_bytes()
    }
    &&& date is Some && !words::has_name(own, "Date".spec_bytes()) ==> sent[front - 1] == date->0
}

/// The length that is given for data that goes as it is: the one that the response names, or that
/// of the data.
pub open spec fn length_to_give(data_length: Option<usize>, data: Seq<u8>) -> nat {
    match data_length {
        Some(length) => length as nat,
        None => data.len(),
    }
}

/// The last header says how the data is sent: in chunks, or with which length.
pub open spec fn says_how(last: HeaderView, coding: TransferEncoding, length: nat) -> bool {
    match coding {
        TransferEncoding::Chunked => last.field == "Transfer-Encoding".spec_bytes() && last.value
            == "chunked".spec_bytes(),
        TransferEncoding::Identity => last.field == "Content-Length".spec_bytes()
            && words::is_numeral(last.value, length),
    }
}

/// A message ends with its head when the body is not asked for, when the protocol changes, and when
/// the status code is between 100 and 199, or is 204 or 304.
pub open spec fn has_no_body(code: StatusCode, do_not_send_body: bool, upgrade: bool) -> bool {
    do_not_send_body || upgrade || 100 <= code.0 <= 199 || code.0 == 204 || code.0 == 304
}

/// The body carries the data: all of it in chunks, or as much of it, from its start, as the length
/// says.
pub open spec fn carries(body: Seq<u8>, data: Seq<u8>, coding: TransferEncoding, length: nat) -> bool {
    match coding {
        TransferEncoding::Chunked => chunks::dechunked(body) == Some(data),
        TransferEncoding::Identity => {
            &&& body.len() <= data.len() && data.take(body.len() as int) == body
            &&& body.len() == length || body.len() == data.len() && data.len() <= length
        },
    }
}

/// All that is promised of a message.
pub open spec fn is_sent(
    sent: Sent,
    response: ResponseView,
    date: Option<HeaderView>,
    data: Seq<u8>,
    version: HTTPVersion,
    phrase: Seq<u8>,
    coding: TransferEncoding,
    do_not_send_body: bool,
    upgrade: Option<Seq<u8>>,
) -> bool {
    let length = length_to_give(response.data_length, data);
    &&& is_head(sent.head, version, response.status_code, phrase, sent.headers)
    &&& sends_headers(sent.headers, response.headers, date, upgrade)
    &&& upgrade is None ==> says_how(sent.headers.last(), coding, length)
    &&& if has_no_body(response.status_code, do_not_send_body, upgrade is Some) {
        sent.body.len() == 0
    } else {
        carries(sent.body, data, coding, length)
    }
}

proof fn lemma_lines(headers: Seq<HeaderView>)
    ensures
        lines(headers) == message::header_lines(headers),
    decreases headers.len(),
{
    if headers.len() > 0 {
        framing::lemma_lines_from_the_front(headers);
        lemma_lines(headers.skip(1));
        reveal_strlit(": ");
        text::lemma_ascii_bytes(": ");
        is_ascii_spec_bytes(": ");
        assert(": ".spec_bytes() =~= seq![58u8, 32u8]);
    }
}

proof fn lemma_head(
    version: HTTPVersion,
    code: StatusCode,
    headers: Seq<HeaderView>,
)
    ensures
        is_head(
            message::message_head(version, code, headers),
            version,
            code,
            code.reason_phrase(),
            headers,
        ),
{
    let head = message::message_head(version, code, headers);
    let numbers = StatusNumbers {
        major: text::decimal(version.0 as nat),
        minor: text::decimal(version.1 as nat),
        code: text::decimal(code.0 as nat),
    };
    words::lemma_decimal(version.0 as nat);
    words::lemma_decimal(version.1 as nat);
    words::lemma_decimal(code.0 as nat);
    lemma_lines(headers);
    reveal_strlit(".");
    reveal_strlit(" ");
    text::lemma_ascii_bytes(".");
    text::lemma_ascii_bytes(" ");
    is_ascii_spec_bytes(".");
    is_ascii_spec_bytes(" ");
    assert(".".spec_bytes() =~= seq![46u8]);
    assert(" ".spec_bytes() =~= seq![32u8]);
    assert(are_numbers(numbers, version, code));
    assert(head =~= "HTTP/".spec_bytes() + numbers.major + seq![46u8] + numbers.minor + seq![32u8]
        + numbers.code + seq![32u8] + code.reason_phrase() + words::line_end() + lines(headers)
        + words::line_end());
}

/// The head of a message is written behind what is in the buffer.
pub proof fn heads_are_written(
    writer: &mut Vec<u8>,
    version: HTTPVersion,
    code: StatusCode,
    headers: Vec<Header>,
    phrase: &str,
)
    requires
        call_ensures(write_message_header, (writer, &version, &code, &headers), ()),
        call_ensures(StatusCode::default_reason_phrase, (&code,), phrase),
    ensures
        exists|head: Seq<u8>| #[trigger]
            is_head(head, version, code, phrase.spec_bytes(), words::shown(headers@))
                && final(writer)@ == old(writer)@ + head,
{
    words::lemma_shown();
    lemma_head(version, code, words::shown(headers@));
    assert(final(writer)@ == old(writer)@ + message::message_head(
        version,
        code,
        words::shown(headers@),
    ));
}

proof fn lemma_digits_before(digits: Seq<u8>, b: u8)
    requires
        words::is_digits(digits),
        b < 48,
    ensures
        !digits.contains(b),
{
}

/// The first line reads back. The digits behind `HTTP/` and up to the first dot are the major
/// version, those from there to the first space the minor version, and those from there to the
/// second space the status code.
pub proof fn status_lines_read_back(
    head: Seq<u8>,
    version: HTTPVersion,
    code: StatusCode,
    phrase: Seq<u8>,
    headers: Seq<HeaderView>,
)
    requires
        is_head(head, version, code, phrase, headers),
    ensures
        ({
            let dot = framing::first_position(head, 46) as int;
            let space = framing::first_position(head, 32) as int;
            let second = space + 1 + framing::first_position(head.skip(space + 1), 32);
            &&& 5 < dot < space < second < head.len()
            &&& head.take(5) == "HTTP/".spec_bytes()
            &&& words::is_numeral(head.subrange(5, dot), version.0 as nat)
            &&& words::is_numeral(head.subrange(dot + 1, space), version.1 as nat)
            &&& words::is_numeral(head.subrange(space + 1, second), code.0 as nat)
        }),
{
    let numbers = choose|numbers: StatusNumbers| #[trigger]
        are_numbers(numbers, version, code) && head == "HTTP/".spec_bytes() + numbers.major
            + seq![46u8] + numbers.minor + seq![32u8] + numbers.code + seq![32u8] + phrase
            + words::line_end() + lines(headers) + words::line_end();
    let http = "HTTP/".spec_bytes();
    reveal_strlit("HTTP/");
    text::lemma_ascii_bytes("HTTP/");
    is_ascii_spec_bytes("HTTP/");
    assert(http =~= seq![72u8, 84u8, 84u8, 80u8, 47u8]);
    lemma_digits_before(numbers.major, 46);
    lemma_digits_before(numbers.major, 32);
    lemma_digits_before(numbers.minor, 32);
    lemma_digits_before(numbers.code, 32);
    let behind = phrase + words::line_end() + lines(headers) + words::line_end();
    let to_dot = http + numbers.major;
    let from_dot = seq![46u8] + numbers.minor + seq![32u8] + numbers.code + seq![32u8] + behind;
    let to_space = http + numbers.major + seq![46u8] + numbers.minor;
    let from_space = seq![32u8] + numbers.code + seq![32u8] + behind;
    assert(head =~= to_dot + from_dot);
    assert(head =~= to_space + from_space);
    assert forall|i: int| 0 <= i < to_dot.len() implies to_dot[i] != 46 by {
        if i >= 5 {
            assert(numbers.major.contains(numbers.major[i - 5]));
        }
    }
    framing::lemma_first_position(to_dot, 46, from_dot);
    assert forall|i: int| 0 <= i < to_space.len() implies to_space[i] != 32 by {
        if 5 <= i < to_dot.len() {
            assert(numbers.major.contains(numbers.major[i - 5]));
        } else if i > to_dot.len() {
            assert(numbers.minor.contains(numbers.minor[i - to_dot.len() - 1]));
        }
    }
    framing::lemma_first_position(to_space, 32, from_space);
    let space = to_space.len() as int;
    assert(head.skip(space + 1) =~= numbers.code + (seq![32u8] + behind));
    framing::lemma_first_position(numbers.code, 32, seq![32u8] + behind);
    assert(head.take(5) =~= http);
    assert(head.subrange(5, to_dot.len() as int) =~= numbers.major);
    assert(head.subrange(to_dot.len() + 1int, space) =~= numbers.minor);
    assert(head.subrange(space + 1, space + 1 + numbers.code.len()) =~= numbers.code);
}

/// Two messages with the same head have the same version and the same status code.
pub proof fn heads_tell_codes_apart(
    head: Seq<u8>,
    version: HTTPVersion,
    code: StatusCode,
    phrase: Seq<u8>,
    headers: Seq<HeaderView>,
    other_version: HTTPVersion,
    other_code: StatusCode,
    other_phrase: Seq<u8>,
    other_headers: Seq<HeaderView>,
)
    requires
        is_head(head, version, code, phrase, headers),
        is_head(head, other_version, other_code, other_phrase, other_headers),
    ensures
        version == other_version,
        code == other_code,
{
    status_lines_read_back(head, version, code, phrase, headers);
    status_lines_read_back(head, other_version, other_code, other_phrase, other_headers);
}

/// The printer of a response that may have got a date.
spec fn printer_of(
    response: ResponseView,
    date: Option<HeaderView>,
    version: HTTPVersion,
    offers: Seq<OfferView>,
    do_not_send_body: bool,
    upgrade: Option<Seq<u8>>,
) -> PrinterView {
    let dated = match date {
        Some(date) => response.dated(date),
        None => response,
    };
    PrinterView::of(dated, version, offers, do_not_send_body, upgrade)
}

/// What a printer sends of a response.
spec fn sent_by(printer: PrinterView, data: Seq<u8>) -> Sent {
    let settled = message::settled(printer, data);
    Sent {
        head: settled.head(),
        headers: settled.all_headers(),
        body: settled.body().applied_to(data),
    }
}

proof fn lemma_has_name_in_front(front: HeaderView, headers: Seq<HeaderView>, name: Seq<u8>)
    requires
        !words::same_name(front.field, name),
    ensures
        words::has_name(seq![front] + headers, name) == words::has_name(headers, name),
{
    let all = seq![front] + headers;
    if words::has_name(headers, name) {
        let i = choose|i: int|
            0 <= i < headers.len() && words::same_name((#[trigger] headers[i]).field, name);
        assert(all[i + 1] == headers[i]);
    }
    if words::has_name(all, name) {
        let i = choose|i: int|
            0 <= i < all.len() && words::same_name((#[trigger] all[i]).field, name);
        assert(headers[i - 1] == all[i]);
    }
}

/// The headers that a printer sends are those that are promised.
proof fn lemma_printed_headers(
    response: ResponseView,
    date: Option<HeaderView>,
    data: Seq<u8>,
    version: HTTPVersion,
    offers: Seq<OfferView>,
    do_not_send_body: bool,
    upgrade: Option<Seq<u8>>,
)
    requires
        date matches Some(date) ==> date.field == "Date".spec_bytes(),
    ensures
        ({
            let printer = printer_of(response, date, version, offers, do_not_send_body, upgrade);
            sends_headers(sent_by(printer, data).headers, response.headers, date, upgrade)
        }),
{
    let printer = printer_of(response, date, version, offers, do_not_send_body, upgrade);
    let sent = sent_by(printer, data).headers;
    let own = response.headers;
    let front = in_front(own, date, upgrade);
    let dated = match date {
        Some(date) => response.dated(date),
        None => response,
    };
    let server = "Server".spec_bytes();
    responses::lemma_has_name(own, "Date".spec_bytes());
    responses::lemma_has_name(dated.headers, server);
    response::lemma_field_lengths();
    if date is Some && !words::has_name(own, "Date".spec_bytes()) {
        lemma_has_name_in_front(date->0, own, server);
    }
    assert(words::has_name(dated.headers, server) == words::has_name(own, server));
    assert(sent.subrange(front, front + own.len()) =~= own);
}

/// What a printer sends is what is promised.
proof fn lemma_printed(
    response: ResponseView,
    date: Option<HeaderView>,
    data: Seq<u8>,
    version: HTTPVersion,
    offers: Seq<OfferView>,
    do_not_send_body: bool,
    upgrade: Option<Seq<u8>>,
)
    requires
        date matches Some(date) ==> date.field == "Date".spec_bytes(),
        data.len() <= usize::MAX,
    ensures
        is_sent(
            sent_by(
                printer_of(response, date, version, offers, do_not_send_body, upgrade),
                data,
            ),
            response,
            date,
            data,
            version,
            response.status_code.reason_phrase(),
            transfer_encoding::transfer_encoding_of(
                offers,
                version,
                response.data_length,
                false,
                response.threshold(),
            ),
            do_not_send_body,
            upgrade,
        ),
{
    let printer = printer_of(response, date, version, offers, do_not_send_body, upgrade);
    let sent = sent_by(printer, data);
    lemma_printed_headers(response, date, data, version, offers, do_not_send_body, upgrade);
    lemma_head(version, response.status_code, sent.headers);
    words::lemma_decimal(length_to_give(response.data_length, data));
    chunks::chunks_carry_the_body(data);
    if message::settled(printer, data).body() is Exactly {
        assert(data.take(sent.body.len() as int) =~= sent.body);
    }
}

/// The bytes of the protocol to change to.
pub open spec fn protocol(upgrade: Option<&str>) -> Option<Seq<u8>> {
    match upgrade {
        Some(protocol) => Some(protocol.spec_bytes()),
        None => None,
    }
}

/// A header that gives a second as a date.
pub open spec fn gives_second(header: HeaderView, seconds: i64) -> bool {
    &&& 0 <= seconds <= 8_210_266_876_799
    &&& header.field == "Date".spec_bytes()
    &&& header.value == encode_utf8(clock::strftime(seconds, "%a, %e %b %Y %H:%M:%S GMT"@)->0)
}

/// A header that gives some second as a date.
pub open spec fn gives_date(header: HeaderView) -> bool {
    exists|seconds: i64| #[trigger] gives_second(header, seconds)
}

/// The header of the current date gives a date.
pub proof fn current_dates_are_dates(header: Header)
    requires
        call_ensures(build_data_header, (), header),
    ensures
        gives_date(header@),
{
    let seconds = choose|seconds: i64|
        0 <= seconds <= 8_210_266_876_799 && #[trigger] message::date_header(seconds) == header@;
    assert(gives_second(header@, seconds));
}

/// A response that has a date stays as it is. Any other gets one in front of all the headers that
/// it has.
pub proof fn current_dates_are_added_in_front<R>(response: Response<R>, dated: Response<R>)
    requires
        call_ensures(Response::<R>::with_current_date, (response,), dated),
    ensures
        dated.reader() == response.reader(),
        words::has_name(response@.headers, "Date".spec_bytes()) ==> dated@ == response@,
        !words::has_name(response@.headers, "Date".spec_bytes()) ==> {
            &&& dated@.headers.len() == response@.headers.len() + 1
            &&& gives_date(dated@.headers[0])
            &&& dated@.headers.skip(1) == response@.headers
            &&& dated@.status_code == response@.status_code
            &&& dated@.data_length == response@.data_length
            &&& dated@.chunked_threshold == response@.chunked_threshold
        },
{
    responses::lemma_has_name(response@.headers, "Date".spec_bytes());
    let seconds = choose|seconds: i64|
        0 <= seconds <= 8_210_266_876_799 && dated@ == response@.dated(
            #[trigger] message::date_header(seconds),
        );
    assert(gives_second(message::date_header(seconds), seconds));
    if !words::has_name(response@.headers, "Date".spec_bytes()) {
        assert(dated@.headers.skip(1) =~= response@.headers);
    }
}

/// A response is printed as it is promised of messages, behind what is in the buffer.
pub proof fn responses_are_printed<R: Data>(
    response: Response<R>,
    writer: &mut Vec<u8>,
    version: HTTPVersion,
    request_headers: Vec<Header>,
    readings: Vec<Vec<Option<i32>>>,
    do_not_send_body: bool,
    upgrade: Option<&str>,
    phrase: &str,
    threshold: usize,
    coding: TransferEncoding,
)
    requires
        call_ensures(
            Response::<R>::print,
            (
                response,
                writer,
                version,
                &request_headers,
                &readings,
                do_not_send_body,
                upgrade,
            ),
            (),
        ),
        call_ensures(StatusCode::default_reason_phrase, (&response@.status_code,), phrase),
        call_ensures(Response::<R>::chunked_threshold, (&response,), threshold),
        call_ensures(
            choose_transfer_encoding,
            (
                &request_headers,
                &readings,
                &version,
                &response@.data_length,
                false,
                threshold,
            ),
            coding,
        ),
    ensures
        exists|sent: Sent| #[trigger]
            is_sent(
                sent,
                response@,
                None,
                response.reader().data(),
                version,
                phrase.spec_bytes(),
                coding,
                do_not_send_body,
                protocol(upgrade),
            ) && final(writer)@ == old(writer)@ + sent.head + sent.body,
{
    let offers = transfer_encoding::offers_of(
        common::views(request_headers@),
        transfer_encoding::reading_views(readings@),
    );
    let data = response.reader().data();
    let printer = printer_of(
        response@,
        None,
        version,
        offers,
        do_not_send_body,
        protocol(upgrade),
    );
    lemma_printed(response@, None, data, version, offers, do_not_send_body, protocol(upgrade));
    let sent = sent_by(printer, data);
    assert(final(writer)@ =~= old(writer)@ + sent.head + sent.body);
}

/// A response is sent as it is promised of messages, with a date.
pub proof fn responses_are_sent<R: Data>(
    response: Response<R>,
    writer: &mut Vec<u8>,
    version: HTTPVersion,
    request_headers: Vec<Header>,
    readings: Vec<Vec<Option<i32>>>,
    do_not_send_body: bool,
    upgrade: Option<&str>,
    phrase: &str,
    threshold: usize,
    coding: TransferEncoding,
)
    requires
        call_ensures(
            Response::<R>::raw_print,
            (
                response,
                writer,
                version,
                &request_headers,
                &readings,
                do_not_send_body,
                upgrade,
            ),
            (),
        ),
        call_ensures(StatusCode::default_reason_phrase, (&response@.status_code,), phrase),
        call_ensures(Response::<R>::chunked_threshold, (&response,), threshold),
        call_ensures(
            choose_transfer_encoding,
            (
                &request_headers,
                &readings,
                &version,
                &response@.data_length,
                false,
                threshold,
            ),
            coding,
        ),
    ensures
        exists|sent: Sent, date: HeaderView| #[trigger]
            is_sent(
                sent,
                response@,
                Some(date),
                response.reader().data(),
                version,
                phrase.spec_bytes(),
                coding,
                do_not_send_body,
                protocol(upgrade),
            ) && gives_date(date) && final(writer)@ == old(writer)@ + sent.head + sent.body,
{
    let offers = transfer_encoding::offers_of(
        common::views(request_headers@),
        transfer_encoding::reading_views(readings@),
    );
    let data = response.reader().data();
    let seconds = choose|seconds: i64|
        0 <= seconds <= 8_210_266_876_799 && final(writer)@ == old(writer)@ + message::message(
            PrinterView::of(
                response@.dated(#[trigger] message::date_header(seconds)),
                version,
                offers,
                do_not_send_body,
                protocol(upgrade),
            ),
            data,
        );
    let date = message::date_header(seconds);
    assert(gives_second(date, seconds));
    let printer = printer_of(
        response@,
        Some(date),
        version,
        offers,
        do_not_send_body,
        protocol(upgrade),
    );
    lemma_printed(
        response@,
        Some(date),
        data,
        version,
        offers,
        do_not_send_body,
        protocol(upgrade),
    );
    let sent = sent_by(printer, data);
    assert(final(writer)@ =~= old(writer)@ + sent.head + sent.body);
}

/// The data of a response in memory is what is in memory, also behind a box. An empty source has
/// none.
pub proof fn data_is_handed_out<R: Data>(
    bytes: Vec<u8>,
    of_bytes: Vec<u8>,
    of_empty: Vec<u8>,
    reader: R,
    of_reader: Vec<u8>,
    of_box: Vec<u8>,
)
    requires
        call_ensures(<Vec<u8> as Data>::into_data, (bytes,), of_bytes),
        call_ensures(<Empty as Data>::into_data, (Empty,), of_empty),
        call_ensures(<R as Data>::into_data, (reader,), of_reader),
        call_ensures(<Box<R> as Data>::into_data, (Box::new(reader),), of_box),
    ensures
        bytes.data() == bytes@ && of_bytes@ == bytes@,
        Empty.data().len() == 0 && of_empty@.len() == 0,
        Box::new(reader).data() == reader.data() && of_box@ == of_reader@,
{
}

/// What a plan for the body comes to: nothing, all the data in chunks, or so much of it from its
/// start.
pub open spec fn is_planned(plan: BodyPlan, body: Seq<u8>, data: Seq<u8>) -> bool {
    match plan {
        BodyPlan::Omit => body.len() == 0,
        BodyPlan::Chunked => carries(body, data, TransferEncoding::Chunked, 0),
        BodyPlan::Exactly(length) => carries(
            body,
            data,
            TransferEncoding::Identity,
            length as nat,
        ),
    }
}

/// A body is written as it is planned, behind what is in the buffer.
pub proof fn bodies_are_written(plan: BodyPlan, writer: &mut Vec<u8>, data: &[u8])
    requires
        call_ensures(BodyPlan::write, (&plan, writer, data), ()),
    ensures
        exists|body: Seq<u8>| #[trigger]
            is_planned(plan, body, data@) && final(writer)@ == old(writer)@ + body,
{
    let body = plan.applied_to(data@);
    chunks::chunks_carry_the_body(data@);
    if plan is Exactly {
        assert(data@.take(body.len() as int) =~= body);
    }
    assert(is_planned(plan, body, data@));
}

/// In steps a response is sent as at once: its length is asked for exactly when it goes as it is and
/// names no length, and then the head and the plan for the body are those that are promised of
/// messages.
pub proof fn responses_are_sent_in_steps<R>(
    response: Response<R>,
    version: HTTPVersion,
    request_headers: Vec<Header>,
    readings: Vec<Vec<Option<i32>>>,
    do_not_send_body: bool,
    upgrade: Option<&str>,
    prepared: (Printer, R),
    must_measure: bool,
    data: Seq<u8>,
    measured: Printer,
    finished: (Vec<u8>, BodyPlan),
    phrase: &str,
    threshold: usize,
    coding: TransferEncoding,
)
    requires
        call_ensures(
            Response::<R>::prepare,
            (response, version, &request_headers, &readings, do_not_send_body, upgrade),
            prepared,
        ),
        call_ensures(Printer::must_measure, (&prepared.0,), must_measure),
        data.len() <= usize::MAX,
        if must_measure {
            call_ensures(Printer::measured, (prepared.0, data.len() as usize), measured)
        } else {
            measured == prepared.0
        },
        call_ensures(Printer::finish, (measured,), finished),
        call_ensures(StatusCode::default_reason_phrase, (&response@.status_code,), phrase),
        call_ensures(Response::<R>::chunked_threshold, (&response,), threshold),
        call_ensures(
            choose_transfer_encoding,
            (
                &request_headers,
                &readings,
                &version,
                &response@.data_length,
                false,
                threshold,
            ),
            coding,
        ),
    ensures
        prepared.1 == response.reader(),
        must_measure <==> response@.data_length is None && upgrade is None && coding
            == TransferEncoding::Identity,
        exists|sent: Sent| #[trigger]
            is_sent(
                sent,
                response@,
                None,
                data,
                version,
                phrase.spec_bytes(),
                coding,
                do_not_send_body,
                protocol(upgrade),
            ) && finished.0@ == sent.head && is_planned(finished.1, sent.body, data),
        finished.1 is Omit <==> has_no_body(
            response@.status_code,
            do_not_send_body,
            upgrade is Some,
        ),
        finished.1 is Chunked <==> coding == TransferEncoding::Chunked && !has_no_body(
            response@.status_code,
            do_not_send_body,
            upgrade is Some,
        ),
        finished.1 matches BodyPlan::Exactly(length) ==> length == length_to_give(
            response@.data_length,
            data,
        ),
{
    let offers = transfer_encoding::offers_of(
        common::views(request_headers@),
        transfer_encoding::reading_views(readings@),
    );
    let printer = printer_of(
        response@,
        None,
        version,
        offers,
        do_not_send_body,
        protocol(upgrade),
    );
    lemma_printed(response@, None, data, version, offers, do_not_send_body, protocol(upgrade));
    let sent = sent_by(printer, data);
    assert(prepared.0@ == printer);
    assert(measured@ == message::settled(printer, data));
    assert(is_planned(finished.1, sent.body, data));
}

} // verus!
