//! The choice of the transfer coding.

use crate::common::{self, HTTPVersion, Header, HeaderView};
use crate::laws::header_values;
use crate::laws::words;
use crate::text;
use crate::transfer_encoding::{self, choose_transfer_encoding, requested_codings, TransferEncoding};
use crate::util::header_value::Element;
use vstd::prelude::*;
use vstd::string::*;

verus! {

/// The name of a coding.
pub open spec fn is_named(name: Seq<u8>, coding: TransferEncoding) -> bool {
    match coding {
        TransferEncoding::Identity => words::same_name(name, "identity".spec_bytes()),
        TransferEncoding::Chunked => words::same_name(name, "chunked".spec_bytes()),
    }
}

proof fn lemma_named(name: Seq<u8>, coding: TransferEncoding)
    ensures
        is_named(name, coding) <==> TransferEncoding::named(name) == Some(coding),
{
    words::lemma_same_names();
    reveal_strlit("identity");
    reveal_strlit("chunked");
    text::lemma_ascii_bytes("identity");
    text::lemma_ascii_bytes("chunked");
}

/// A text is read as the coding that it is the name of, and as none if it is no such name.
pub proof fn codings_are_found_by_name(
    bytes: &[u8],
    found: Result<TransferEncoding, ()>,
    input: &str,
    found_by_text: Result<TransferEncoding, ()>,
    coding: TransferEncoding,
)
    requires
        call_ensures(TransferEncoding::from_bytes, (bytes,), found),
        call_ensures(TransferEncoding::from_str, (input,), found_by_text),
    ensures
        found == Ok::<TransferEncoding, ()>(coding) <==> is_named(bytes@, coding),
        found_by_text == Ok::<TransferEncoding, ()>(coding) <==> is_named(
            input.spec_bytes(),
            coding,
        ),
{
    lemma_named(bytes@, coding);
    lemma_named(input.spec_bytes(), coding);
}

/// The first of the headers that has the name.
pub open spec fn is_first_named(headers: Seq<HeaderView>, name: Seq<u8>, i: int) -> bool {
    &&& 0 <= i < headers.len()
    &&& words::same_name(headers[i].field, name)
    &&& forall|j: int| 0 <= j < i ==> !words::same_name((#[trigger] headers[j]).field, name)
}

proof fn lemma_first_value(headers: Seq<HeaderView>, name: Seq<u8>)
    ensures
        !words::has_name(headers, name) ==> common::first_value(headers, name) is None,
        forall|i: int| #[trigger]
            is_first_named(headers, name, i) ==> common::first_value(headers, name) == Some(
                headers[i].value,
            ),
    decreases headers.len(),
{
    words::lemma_same_names();
    if headers.len() > 0 {
        let rest = headers.skip(1);
        lemma_first_value(rest, name);
        if !words::has_name(headers, name) {
            assert(!words::same_name(headers[0].field, name));
            assert forall|i: int| 0 <= i < rest.len() implies !words::same_name(
                (#[trigger] rest[i]).field,
                name,
            ) by {
                assert(rest[i] == headers[i + 1]);
            }
        }
        assert forall|i: int| #[trigger] is_first_named(headers, name, i) implies common::first_value(
            headers,
            name,
        ) == Some(headers[i].value) by {
            if i > 0 {
                assert(!words::same_name(headers[0].field, name));
                assert(rest[i - 1] == headers[i]);
                assert forall|j: int| 0 <= j < i - 1 implies !words::same_name(
                    (#[trigger] rest[j]).field,
                    name,
                ) by {
                    assert(rest[j] == headers[j + 1]);
                }
                assert(is_first_named(rest, name, i - 1));
            }
        }
    }
}

/// The codings that a request names are the elements of its first `TE` header. Without one, it
/// names none.
pub proof fn requests_name_codings(request_headers: Vec<Header>, codings: Vec<Element>)
    requires
        call_ensures(requested_codings, (&request_headers,), codings),
    ensures
        !words::has_name(words::shown(request_headers@), "TE".spec_bytes()) ==> codings@.len()
            == 0,
        forall|i: int| #[trigger]
            is_first_named(words::shown(request_headers@), "TE".spec_bytes(), i)
                ==> header_values::are_elements(
                words::shown(request_headers@)[i].value,
                header_values::shown(codings@),
            ),
{
    let headers = words::shown(request_headers@);
    words::lemma_shown();
    header_values::lemma_shown(codings@);
    lemma_first_value(headers, "TE".spec_bytes());
    assert(header_values::shown(codings@).len() == codings@.len());
    assert forall|i: int| #[trigger]
        is_first_named(headers, "TE".spec_bytes(), i) implies header_values::are_elements(
        headers[i].value,
        header_values::shown(codings@),
    ) by {
        header_values::lemma_elements(headers[i].value);
    }
}

/// What was read of the weights of an element: nothing where there is no row for it.
pub open spec fn row(readings: Seq<Vec<Option<i32>>>, i: int) -> Seq<Option<i32>> {
    if i < readings.len() {
        readings[i]@
    } else {
        Seq::empty()
    }
}

/// The client can take the coding: it has named it, with more weight than zero.
pub open spec fn takes(
    codings: Seq<Element>,
    weights: Seq<int>,
    i: int,
    coding: TransferEncoding,
) -> bool {
    &&& 0 <= i < codings.len()
    &&& is_named(codings[i].name@, coding)
    &&& weights[i] > 0
}

/// The client would rather have the coding than any other: it gives none more weight, and names none
/// of the same weight before.
pub open spec fn prefers(
    codings: Seq<Element>,
    weights: Seq<int>,
    i: int,
    coding: TransferEncoding,
) -> bool {
    &&& takes(codings, weights, i, coding)
    &&& forall|j: int, other: TransferEncoding| #[trigger]
        takes(codings, weights, j, other) ==> weights[j] < weights[i] || weights[j] == weights[i]
            && i <= j
}

/// Up to version 1.0 data goes as it is. From then on it goes as the client prefers. Where the
/// client takes no coding that there is, it goes in chunks if headers may follow, if its length is
/// not known, or if it is no shorter than the threshold.
pub proof fn codings_are_chosen(
    request_headers: Vec<Header>,
    codings: Vec<Element>,
    readings: Vec<Vec<Option<i32>>>,
    weights: Seq<int>,
    http_version: HTTPVersion,
    entity_length: Option<usize>,
    has_additional_headers: bool,
    chunked_threshold: usize,
    chosen: TransferEncoding,
)
    requires
        call_ensures(requested_codings, (&request_headers,), codings),
        weights.len() == codings@.len(),
        forall|i: int|
            0 <= i < weights.len() ==> header_values::is_quality(
                row(readings@, i),
                #[trigger] weights[i],
            ),
        call_ensures(
            choose_transfer_encoding,
            (
                &request_headers,
                &readings,
                &http_version,
                &entity_length,
                has_additional_headers,
                chunked_threshold,
            ),
            chosen,
        ),
    ensures
        256 * http_version.0 + http_version.1 <= 256 ==> chosen == TransferEncoding::Identity,
        256 * http_version.0 + http_version.1 > 256 ==> {
            &&& forall|i: int, coding: TransferEncoding| #[trigger]
                prefers(codings@, weights, i, coding) ==> chosen == coding
            &&& (forall|i: int, coding: TransferEncoding|
                !(#[trigger] takes(codings@, weights, i, coding))) ==> (chosen
                == TransferEncoding::Chunked <==> has_additional_headers || entity_length is None
                || entity_length->0 >= chunked_threshold)
            &&& (exists|i: int, coding: TransferEncoding| #[trigger]
                takes(codings@, weights, i, coding)) ==> exists|i: int, coding: TransferEncoding|
                #[trigger] prefers(codings@, weights, i, coding)
        },
{
    let headers = common::views(request_headers@);
    let rows = transfer_encoding::reading_views(readings@);
    let elements = transfer_encoding::te_elements(headers);
    let offers = transfer_encoding::offers_of(headers, rows);
    header_values::lemma_shown(codings@);
    assert(elements.len() == codings@.len());
    assert forall|i: int| 0 <= i < codings@.len() implies (#[trigger] offers[i]).name
        == codings@[i].name@ && offers[i].quality == weights[i] by {
        assert(elements[i] == header_values::shown(codings@)[i]);
        header_values::lemma_quality(row(readings@, i), weights[i]);
        if i < readings@.len() {
            assert(rows[i] == readings@[i]@);
        }
    }
    assert forall|i: int, coding: TransferEncoding| #[trigger]
        takes(codings@, weights, i, coding) implies transfer_encoding::is_acceptable(offers[i])
        && TransferEncoding::named(offers[i].name) == Some(coding) by {
        lemma_named(codings@[i].name@, coding);
    }
    assert forall|i: int|
        0 <= i < offers.len() && transfer_encoding::is_acceptable(#[trigger] offers[i])
        implies takes(codings@, weights, i, TransferEncoding::named(offers[i].name)->0) by {
        lemma_named(codings@[i].name@, TransferEncoding::named(offers[i].name)->0);
    }
    if 256 * http_version.0 + http_version.1 > 256 {
        assert forall|i: int, coding: TransferEncoding| #[trigger]
            prefers(codings@, weights, i, coding) implies chosen == coding by {
            assert forall|j: int|
                #![trigger offers[j]]
                0 <= j < offers.len() && transfer_encoding::is_acceptable(offers[j])
                implies offers[j].quality < offers[i].quality || offers[j].quality
                == offers[i].quality && i <= j by {
                assert(takes(codings@, weights, j, TransferEncoding::named(offers[j].name)->0));
            }
            assert(takes(codings@, weights, i, coding));
            assert(transfer_encoding::is_preferred(offers, i));
            transfer_encoding::lemma_preferred_is_unique(offers, i);
        }
        transfer_encoding::acceptable_offer_is_heard(offers);
        if exists|i: int, coding: TransferEncoding| #[trigger] takes(codings@, weights, i, coding) {
            let (i, coding) = choose|i: int, coding: TransferEncoding| #[trigger]
                takes(codings@, weights, i, coding);
            assert(transfer_encoding::is_acceptable(offers[i]));
            let k = choose|k: int| transfer_encoding::is_preferred(offers, k);
            assert(transfer_encoding::is_preferred(offers, k));
            let preferred = TransferEncoding::named(offers[k].name)->0;
            assert(takes(codings@, weights, k, preferred));
            assert(prefers(codings@, weights, k, preferred));
        }
    }
}

} // verus!
