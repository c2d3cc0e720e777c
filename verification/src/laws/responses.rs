//! Responses: what they are made of, and what each change leaves as it was.

use crate::common::{self, Header, HeaderView, StatusCode};
use crate::laws::words;
use crate::response::{self, Empty, Response, ResponseView};
use crate::text;
use vstd::prelude::*;
use vstd::string::*;
use vstd::utf8::*;

verus! {

/// The headers of which the library takes care are those that the laws name.
proof fn lemma_names()
    ensures
        forall|name: Seq<u8>|
            #![trigger response::is_forbidden(name)]
            #![trigger words::is_withheld(name)]
            response::is_forbidden(name) == words::is_withheld(name),
        forall|name: Seq<u8>|
            #![trigger response::is_content_length(name)]
            #![trigger words::is_length_name(name)]
            response::is_content_length(name) == words::is_length_name(name),
        forall|header: HeaderView|
            #![trigger response::is_kept(header)]
            #![trigger words::stays(header)]
            response::is_kept(header) == words::stays(header),
{
    words::lemma_same_names();
}

/// What adding a header makes of a response. One that is not for the user to set changes nothing. A
/// `Content-Length` sets the length of the data, if it has a number, and is not itself kept. Any
/// other header comes behind those that are there.
pub open spec fn is_with_header(
    before: ResponseView,
    header: HeaderView,
    after: ResponseView,
) -> bool {
    &&& after.status_code == before.status_code
    &&& after.chunked_threshold == before.chunked_threshold
    &&& words::stays(header) ==> {
        &&& after.headers.len() == before.headers.len() + 1
        &&& after.headers.last() == header
        &&& after.headers.drop_last() == before.headers
    }
    &&& !words::stays(header) ==> after.headers == before.headers
    &&& words::sets_length(header) ==> after.data_length == words::read_number(header.value)
    &&& !words::sets_length(header) ==> after.data_length == before.data_length
}

proof fn lemma_with_header(before: ResponseView, header: HeaderView)
    ensures
        is_with_header(before, header, before.with_header(header)),
{
    lemma_names();
    words::lemma_read_number(header.value);
    response::lemma_field_lengths();
    let after = before.with_header(header);
    if words::stays(header) {
        assert(after.headers.drop_last() =~= before.headers);
    }
    assert(!(words::is_length_name(header.field) && words::is_withheld(header.field)));
}

/// A header that is added is the last one, unless it is one of those that are not for the user to
/// set, or says how long the data is. Nothing else changes.
pub proof fn added_headers_are_kept<R>(
    response: &mut Response<R>,
    header: Header,
    other: Response<R>,
    with_header: Response<R>,
)
    requires
        call_ensures(Response::<R>::add_header::<Header>, (response, header), ()),
        call_ensures(Response::<R>::with_header::<Header>, (other, header), with_header),
    ensures
        is_with_header(old(response)@, header@, final(response)@),
        final(response).reader() == old(response).reader(),
        is_with_header(other@, header@, with_header@),
        with_header.reader() == other.reader(),
{
    lemma_with_header(old(response)@, header@);
    lemma_with_header(other@, header@);
}

/// A name that is of another length than `Upgrade`, `Trailer`, `Connection`, `Accept-Ranges`,
/// `Content-Range`, `Content-Length` and `Transfer-Encoding` is none of them, and its header is
/// kept.
pub proof fn names_of_other_lengths_are_kept<R>(
    response: Response<R>,
    header: Header,
    with_header: Response<R>,
)
    requires
        call_ensures(Response::<R>::with_header::<Header>, (response, header), with_header),
        header@.field.len() != 7,
        header@.field.len() != 10,
        header@.field.len() != 13,
        header@.field.len() != 14,
        header@.field.len() != 17,
    ensures
        with_header@.headers.len() == response@.headers.len() + 1,
        with_header@.headers.last() == header@,
        forall|i: int|
            0 <= i < response@.headers.len() ==> #[trigger] with_header@.headers[i]
                == response@.headers[i],
{
    lemma_with_header(response@, header@);
    response::lemma_field_lengths();
    assert forall|i: int| 0 <= i < response@.headers.len() implies #[trigger] with_header@.headers[i]
        == response@.headers[i] by {
        assert(with_header@.headers.drop_last()[i] == with_header@.headers[i]);
    }
}

/// The headers that are given to a new response, and then the additional ones.
pub open spec fn given(headers: Seq<Header>, more: Option<Vec<Header>>) -> Seq<HeaderView> {
    match more {
        Some(more) => words::shown(headers) + words::shown(more@),
        None => words::shown(headers),
    }
}

/// The length that results from the one that was given and from some headers: that of the last
/// header that sets it, if any does.
pub open spec fn is_resulting_length(
    headers: Seq<HeaderView>,
    given: Option<usize>,
    length: Option<usize>,
) -> bool {
    ||| length == given && forall|i: int|
        0 <= i < headers.len() ==> !words::sets_length(#[trigger] headers[i])
    ||| exists|i: int|
        {
            &&& 0 <= i < headers.len()
            &&& words::sets_length(#[trigger] headers[i])
            &&& length == words::read_number(headers[i].value)
            &&& forall|j: int| i < j < headers.len() ==> !words::sets_length(#[trigger] headers[j])
        }
}

proof fn lemma_resulting_length(headers: Seq<HeaderView>, given: Option<usize>)
    ensures
        is_resulting_length(
            headers,
            given,
            match response::last_length(headers) {
                Some(length) => Some(length),
                None => given,
            },
        ),
    decreases headers.len(),
{
    lemma_names();
    if headers.len() > 0 {
        let before = headers.drop_last();
        let last = headers.len() - 1;
        let length = match response::last_length(before) {
            Some(length) => Some(length),
            None => given,
        };
        lemma_resulting_length(before, given);
        words::lemma_read_number(headers[last].value);
        if words::sets_length(headers[last]) {
            assert(words::sets_length(headers[last]));
        } else if exists|i: int|
            {
                &&& 0 <= i < before.len()
                &&& words::sets_length(#[trigger] before[i])
                &&& length == words::read_number(before[i].value)
                &&& forall|j: int|
                    i < j < before.len() ==> !words::sets_length(#[trigger] before[j])
            } {
            let i = choose|i: int|
                {
                    &&& 0 <= i < before.len()
                    &&& words::sets_length(#[trigger] before[i])
                    &&& length == words::read_number(before[i].value)
                    &&& forall|j: int|
                        i < j < before.len() ==> !words::sets_length(#[trigger] before[j])
                };
            assert(words::sets_length(headers[i]));
            assert forall|j: int| i < j < headers.len() implies !words::sets_length(
                #[trigger] headers[j],
            ) by {
                if j < last {
                    assert(before[j] == headers[j]);
                }
            }
        } else {
            assert forall|j: int| 0 <= j < headers.len() implies !words::sets_length(
                #[trigger] headers[j],
            ) by {
                if j < last {
                    assert(before[j] == headers[j]);
                }
            }
        }
    }
}

/// A new response has the status, the data and, in their order, those headers that are for the user
/// to set. The length of its data is what the last header says that sets it, and otherwise what
/// was given.
pub proof fn new_responses_have_what_was_given<R>(
    status_code: StatusCode,
    headers: Vec<Header>,
    data: R,
    data_length: Option<usize>,
    more: Option<Vec<Header>>,
    made: Response<R>,
    threshold: usize,
)
    requires
        call_ensures(Response::<R>::new, (status_code, headers, data, data_length, more), made),
        call_ensures(Response::<R>::chunked_threshold, (&made,), threshold),
    ensures
        made.reader() == data,
        made@.status_code == status_code,
        made@.headers == given(headers@, more).filter(|header: HeaderView| words::stays(header)),
        is_resulting_length(given(headers@, more), data_length, made@.data_length),
        threshold == 32768,
{
    let first = common::views(headers@);
    let extra = match more {
        Some(more) => common::views(more@),
        None => Seq::empty(),
    };
    let all = given(headers@, more);
    words::lemma_shown();
    assert(all =~= first + extra);
    let bare = ResponseView::bare(status_code, data_length);
    response::headers_can_be_added_in_parts(bare, first, extra);
    response::added_headers_keep_their_order(bare, all);
    lemma_names();
    let kept = |header: HeaderView| response::is_kept(header);
    let stays = |header: HeaderView| words::stays(header);
    assert(kept =~= stays);
    assert(bare.headers + all.filter(kept) =~= all.filter(kept));
    lemma_resulting_length(all, data_length);
}

/// A change of the status changes nothing else, and the code is the one that was given.
pub proof fn status_is_changed_alone<R>(
    response: Response<R>,
    number: u16,
    code: StatusCode,
    with_number: Response<R>,
    with_code: Response<R>,
)
    requires
        call_ensures(Response::<R>::with_status_code::<u16>, (response, number), with_number),
        call_ensures(Response::<R>::with_status_code::<StatusCode>, (response, code), with_code),
    ensures
        with_number@.status_code.0 == number,
        with_code@.status_code == code,
        with_number.reader() == response.reader() && with_code.reader() == response.reader(),
        with_number@.headers == response@.headers && with_code@.headers == response@.headers,
        with_number@.data_length == response@.data_length,
        with_code@.data_length == response@.data_length,
        with_number@.chunked_threshold == response@.chunked_threshold,
        with_code@.chunked_threshold == response@.chunked_threshold,
{
}

/// A change of the data changes its length, and nothing else.
pub proof fn data_is_changed_alone<R, S>(
    response: Response<R>,
    reader: S,
    data_length: Option<usize>,
    with_data: Response<S>,
    exchanged: (Response<S>, R),
    threshold: usize,
    threshold_with_data: usize,
    threshold_exchanged: usize,
)
    requires
        call_ensures(Response::<R>::with_data::<S>, (response, reader, data_length), with_data),
        call_ensures(Response::<R>::replace_reader::<S>, (response, reader), exchanged),
        call_ensures(Response::<R>::chunked_threshold, (&response,), threshold),
        call_ensures(Response::<S>::chunked_threshold, (&with_data,), threshold_with_data),
        call_ensures(Response::<S>::chunked_threshold, (&exchanged.0,), threshold_exchanged),
    ensures
        with_data.reader() == reader && exchanged.0.reader() == reader,
        exchanged.1 == response.reader(),
        with_data@.data_length == data_length,
        exchanged.0@.data_length == response@.data_length,
        with_data@.status_code == response@.status_code,
        exchanged.0@.status_code == response@.status_code,
        with_data@.headers == response@.headers && exchanged.0@.headers == response@.headers,
        threshold_with_data == threshold && threshold_exchanged == threshold,
{
}

/// A response in a box has the same status, headers and data, and the default threshold.
pub proof fn boxes_hold_the_response<R>(
    response: Response<R>,
    boxed: Response<Box<R>>,
    threshold: usize,
)
    requires
        call_ensures(Response::<R>::boxed, (response,), boxed),
        call_ensures(Response::<Box<R>>::chunked_threshold, (&boxed,), threshold),
    ensures
        *boxed.reader() == response.reader(),
        boxed@.status_code == response@.status_code,
        boxed@.headers == response@.headers,
        boxed@.data_length == response@.data_length,
        threshold == 32768,
{
}

/// The threshold is the one that was set last, and setting it changes nothing else.
pub proof fn thresholds_are_set<R>(
    response: Response<R>,
    length: usize,
    set: Response<R>,
    threshold: usize,
)
    requires
        call_ensures(Response::<R>::with_chunked_threshold, (response, length), set),
        call_ensures(Response::<R>::chunked_threshold, (&set,), threshold),
    ensures
        threshold == length,
        set.reader() == response.reader(),
        set@.status_code == response@.status_code,
        set@.headers == response@.headers,
        set@.data_length == response@.data_length,
{
}

/// A response that has a date stays as it is. Any other gets the given one in front of all the
/// headers that it has.
pub proof fn dates_are_added_in_front<R>(
    response: Response<R>,
    date: Header,
    dated: Response<R>,
)
    requires
        call_ensures(Response::<R>::with_date, (response, date), dated),
    ensures
        dated.reader() == response.reader(),
        words::has_name(response@.headers, "Date".spec_bytes()) ==> dated@ == response@,
        !words::has_name(response@.headers, "Date".spec_bytes()) ==> {
            &&& dated@.headers.len() == response@.headers.len() + 1
            &&& dated@.headers[0] == date@
            &&& dated@.headers.skip(1) == response@.headers
            &&& dated@.status_code == response@.status_code
            &&& dated@.data_length == response@.data_length
            &&& dated@.chunked_threshold == response@.chunked_threshold
        },
{
    lemma_has_name(response@.headers, "Date".spec_bytes());
    if !words::has_name(response@.headers, "Date".spec_bytes()) {
        assert(dated@.headers.skip(1) =~= response@.headers);
    }
}

/// A header has the name, whichever of the two words says so.
pub(crate) proof fn lemma_has_name(headers: Seq<HeaderView>, name: Seq<u8>)
    ensures
        words::has_name(headers, name) == common::has_field(headers, name),
{
    words::lemma_same_names();
    if words::has_name(headers, name) {
        let i = choose|i: int|
            0 <= i < headers.len() && words::same_name((#[trigger] headers[i]).field, name);
        assert(text::same_ignoring_case(headers[i].field, name));
    }
    if common::has_field(headers, name) {
        let i = choose|i: int|
            0 <= i < headers.len() && text::same_ignoring_case((#[trigger] headers[i]).field, name);
        assert(words::same_name(headers[i].field, name));
    }
}

/// A response from a text has the status 200, the bytes of the text in UTF-8, as long as they are,
/// and says that they are plain text. A response from bytes has the bytes, and no header.
pub proof fn responses_from_data_carry_it(
    text: String,
    of_text: Response<Vec<u8>>,
    bytes: Vec<u8>,
    of_bytes: Response<Vec<u8>>,
    threshold_of_text: usize,
    threshold_of_bytes: usize,
)
    requires
        call_ensures(Response::<Vec<u8>>::from_string::<String>, (text,), of_text),
        call_ensures(Response::<Vec<u8>>::from_data::<Vec<u8>>, (bytes,), of_bytes),
        call_ensures(Response::<Vec<u8>>::chunked_threshold, (&of_text,), threshold_of_text),
        call_ensures(Response::<Vec<u8>>::chunked_threshold, (&of_bytes,), threshold_of_bytes),
    ensures
        of_text@.status_code.0 == 200 && of_bytes@.status_code.0 == 200,
        of_text.reader()@ == encode_utf8(text@),
        of_bytes.reader()@ == bytes@,
        of_text@.data_length is Some && of_text@.data_length->0 == encode_utf8(text@).len(),
        of_bytes@.data_length is Some && of_bytes@.data_length->0 == bytes@.len(),
        of_text@.headers.len() == 1,
        of_text@.headers[0].field == "Content-Type".spec_bytes(),
        of_text@.headers[0].value == "text/plain; charset=UTF-8".spec_bytes(),
        of_bytes@.headers.len() == 0,
        threshold_of_text == 32768 && threshold_of_bytes == 32768,
{
}

/// An empty response has the status that was given, no header, and data of length zero. So has a
/// copy of it, with all the headers that it has got.
pub proof fn empty_responses_are_empty(
    number: u16,
    of_number: Response<Empty>,
    code: StatusCode,
    of_code: Response<Empty>,
    any: Response<Empty>,
    copy: Response<Empty>,
)
    requires
        call_ensures(Response::<Empty>::empty::<u16>, (number,), of_number),
        call_ensures(Response::<Empty>::new_empty, (code,), of_code),
        call_ensures(Response::<Empty>::clone, (&any,), copy),
    ensures
        of_number@.status_code.0 == number,
        of_code@.status_code == code,
        of_number@.headers.len() == 0 && of_code@.headers.len() == 0,
        of_number@.data_length == Some(0usize) && of_code@.data_length == Some(0usize),
        copy@.status_code == any@.status_code,
        copy@.headers == any@.headers,
        copy@.data_length == any@.data_length,
        copy@.chunked_threshold == any@.chunked_threshold,
{
}

} // verus!
