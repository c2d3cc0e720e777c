//! How the data of a response is sent: as it is, or in chunks.

use crate::common::{self, find_value, HTTPVersion, Header, HeaderView};
use crate::text::{self, eq_ignore_ascii_case};
use crate::util::header_value::{self, parse_header_value, Element, ElementView, Offer, OfferView};
use vstd::prelude::*;
use vstd::string::*;

verus! {

/// The transfer codings that a response can have.
#[derive(Debug, Clone, Copy, PartialEq, Eq, Structural)]
pub enum TransferEncoding {
    Identity,
    Chunked,
}

impl TransferEncoding {
    /// The coding with the given name. The case of letters does not matter.
    pub open spec fn named(name: Seq<u8>) -> Option<TransferEncoding> {
        if text::same_ignoring_case(name, "identity".spec_bytes()) {
            Some(TransferEncoding::Identity)
        } else if text::same_ignoring_case(name, "chunked".spec_bytes()) {
            Some(TransferEncoding::Chunked)
        } else {
            None
        }
    }

    /// Finds a coding by its name.
    pub fn from_str(input: &str) -> (r: Result<TransferEncoding, ()>)
        ensures
            r == TransferEncoding::named(input.spec_bytes()).ok_or(()),
    {
        TransferEncoding::from_bytes(input.as_bytes())
    }

    /// Finds a coding by the bytes of its name.
    pub fn from_bytes(input: &[u8]) -> (r: Result<TransferEncoding, ()>)
        ensures
            r == TransferEncoding::named(input@).ok_or(()),
    {
        if eq_ignore_ascii_case(input, "identity".as_bytes()) {
            Ok(TransferEncoding::Identity)
        } else if eq_ignore_ascii_case(input, "chunked".as_bytes()) {
            Ok(TransferEncoding::Chunked)
        } else {
            Err(())
        }
    }
}

/// Some offers as values.
pub open spec fn offer_views(offers: Seq<Offer>) -> Seq<OfferView> {
    offers.map_values(|offer: Offer| offer@)
}

/// A coding that is known and that the client does not rule out with a weight of zero or less.
pub open spec fn is_acceptable(offer: OfferView) -> bool {
    offer.quality > 0 && TransferEncoding::named(offer.name) is Some
}

/// The offer at `i` is the acceptable one with the greatest weight, and of several such the first.
pub open spec fn is_preferred(offers: Seq<OfferView>, i: int) -> bool {
    &&& 0 <= i < offers.len()
    &&& is_acceptable(offers[i])
    &&& forall|j: int|
        #![trigger offers[j]]
        0 <= j < offers.len() && is_acceptable(offers[j]) ==> offers[j].quality
            < offers[i].quality || offers[j].quality == offers[i].quality && i <= j
}

/// The coding that the client asks for.
pub open spec fn requested(offers: Seq<OfferView>) -> Option<TransferEncoding> {
    if exists|i: int| is_preferred(offers, i) {
        TransferEncoding::named(offers[choose|i: int| is_preferred(offers, i)].name)
    } else {
        None
    }
}

/// The coding of a response. Versions up to 1.0 know no chunks. Otherwise the client's wish
/// counts. Without one, a response goes in chunks when headers may follow its data, when the
/// length of the data is not known, and when the data is long.
pub open spec fn transfer_encoding_of(
    offers: Seq<OfferView>,
    http_version: HTTPVersion,
    entity_length: Option<usize>,
    has_additional_headers: bool,
    chunked_threshold: usize,
) -> TransferEncoding {
    if http_version.at_most(1, 0) {
        TransferEncoding::Identity
    } else {
        match requested(offers) {
            Some(wish) => wish,
            None => if has_additional_headers || entity_length is None || entity_length->0
                >= chunked_threshold {
                TransferEncoding::Chunked
            } else {
                TransferEncoding::Identity
            },
        }
    }
}

/// There is at most one preferred offer.
pub(crate) proof fn lemma_preferred_is_unique(offers: Seq<OfferView>, i: int)
    requires
        is_preferred(offers, i),
    ensures
        requested(offers) == TransferEncoding::named(offers[i].name),
{
    let k = choose|k: int| is_preferred(offers, k);
    assert(is_preferred(offers, k));
    assert(offers[k].quality == offers[i].quality && k == i);
}

/// An offer that all acceptable offers give way to, those before the last one and the last one, is
/// preferred.
proof fn lemma_preferred_with_the_last(offers: Seq<OfferView>, i: int)
    requires
        0 <= i < offers.len(),
        is_acceptable(offers[i]),
        forall|j: int|
            #![trigger offers.drop_last()[j]]
            0 <= j < offers.len() - 1 && is_acceptable(offers.drop_last()[j])
                ==> offers.drop_last()[j].quality < offers[i].quality
                || offers.drop_last()[j].quality == offers[i].quality && i <= j,
        is_acceptable(offers.last()) ==> offers.last().quality < offers[i].quality
            || offers.last().quality == offers[i].quality,
    ensures
        is_preferred(offers, i),
{
    assert forall|j: int|
        #![trigger offers[j]]
        0 <= j < offers.len() && is_acceptable(offers[j]) implies offers[j].quality
        < offers[i].quality || offers[j].quality == offers[i].quality && i <= j by {
        if j < offers.len() - 1 {
            assert(offers.drop_last()[j] == offers[j]);
        }
    }
}

/// Among the acceptable offers there is a preferred one, so the client's wish is unknown only
/// where it accepts no coding that is known.
pub proof fn acceptable_offer_is_heard(offers: Seq<OfferView>)
    ensures
        requested(offers) is None <==> forall|i: int|
            0 <= i < offers.len() ==> !is_acceptable(#[trigger] offers[i]),
    decreases offers.len(),
{
    if exists|i: int| is_preferred(offers, i) {
        let i = choose|i: int| is_preferred(offers, i);
        assert(is_preferred(offers, i));
        lemma_preferred_is_unique(offers, i);
        assert(is_acceptable(offers[i]));
    } else if offers.len() > 0 {
        let before = offers.drop_last();
        let last = offers.len() - 1;
        acceptable_offer_is_heard(before);
        if requested(before) is Some {
            let i = choose|i: int| is_preferred(before, i);
            assert(is_preferred(before, i));
            assert(offers[i] == before[i]);
            if is_acceptable(offers[last]) && offers[last].quality > offers[i].quality {
                lemma_preferred_with_the_last(offers, last);
            } else {
                lemma_preferred_with_the_last(offers, i);
            }
        } else {
            if is_acceptable(offers[last]) {
                lemma_preferred_with_the_last(offers, last);
            }
            assert forall|i: int| 0 <= i < offers.len() implies !is_acceptable(
                #[trigger] offers[i],
            ) by {
                if i < last {
                    assert(before[i] == offers[i]);
                }
            }
        }
    }
}

/// The elements of the first `TE` header of a request.
pub open spec fn te_elements(request_headers: Seq<HeaderView>) -> Seq<ElementView> {
    match common::first_value(request_headers, "TE".spec_bytes()) {
        Some(value) => header_value::elements_of(value),
        None => Seq::empty(),
    }
}

/// What was read of the weights of each element.
pub open spec fn reading_views(readings: Seq<Vec<Option<i32>>>) -> Seq<Seq<Option<i32>>> {
    readings.map_values(|row: Vec<Option<i32>>| row@)
}

/// The codings that a request asks for, each with its weight: the elements of its first `TE`
/// header, with what was read of their weights.
pub open spec fn offers_of(
    request_headers: Seq<HeaderView>,
    readings: Seq<Seq<Option<i32>>>,
) -> Seq<OfferView> {
    let elements = te_elements(request_headers);
    Seq::new(
        elements.len(),
        |i: int|
            OfferView {
                name: elements[i].name,
                quality: header_value::first_reading(
                    if i < readings.len() {
                        readings[i]
                    } else {
                        Seq::empty()
                    },
                ) as int,
            },
    )
}

/// The codings that a request names: the elements of its first `TE` header. The weights are
/// texts; what is read of them goes into `choose_transfer_encoding`.
pub fn requested_codings(request_headers: &Vec<Header>) -> (r: Vec<Element>)
    ensures
        r@.map_values(|element: Element| element@) == te_elements(common::views(request_headers@)),
{
    match find_value(request_headers, "TE") {
        Some(value) => parse_header_value(value),
        None => {
            let none: Vec<Element> = Vec::new();
            assert(none@.map_values(|element: Element| element@) =~= Seq::empty());
            none
        },
    }
}

fn requested_offers(request_headers: &Vec<Header>, readings: &Vec<Vec<Option<i32>>>) -> (r: Vec<
    Offer,
>)
    ensures
        offer_views(r@) == offers_of(common::views(request_headers@), reading_views(readings@)),
{
    let elements = requested_codings(request_headers);
    let unread: Vec<Option<i32>> = Vec::new();
    let ghost views = elements@.map_values(|element: Element| element@);
    let ghost expected = offers_of(common::views(request_headers@), reading_views(readings@));
    let mut offers: Vec<Offer> = Vec::new();
    for element in iter: elements
        invariant
            iter.seq() == elements@,
            views == elements@.map_values(|element: Element| element@),
            views == te_elements(common::views(request_headers@)),
            expected == offers_of(common::views(request_headers@), reading_views(readings@)),
            unread@ == Seq::<Option<i32>>::empty(),
            offers.len() == iter.index(),
            forall|j: int| 0 <= j < offers.len() ==> (#[trigger] offers@[j])@ == expected[j],
    {
        let i: usize = offers.len();
        assert(views[i as int] == element@);
        let row = if i < readings.len() {
            assert(reading_views(readings@)[i as int] == readings@[i as int]@);
            &readings[i]
        } else {
            &unread
        };
        offers.push(element.weighed(row));
    }
    assert(offer_views(offers@) =~= expected);
    offers
}

fn find_requested(offers: &Vec<Offer>) -> (r: Option<TransferEncoding>)
    ensures
        r == requested(offer_views(offers@)),
{
    let ghost all = offer_views(offers@);
    let mut best: Option<(usize, TransferEncoding)> = None;
    let mut i: usize = 0;
    while i < offers.len()
        invariant
            i <= offers.len(),
            all == offer_views(offers@),
            match best {
                None => forall|j: int| 0 <= j < i ==> !is_acceptable(#[trigger] all[j]),
                Some((b, coding)) => b < i && TransferEncoding::named(all[b as int].name) == Some(
                    coding,
                ) && all[b as int].quality > 0 && forall|j: int|
                    #![trigger all[j]]
                    0 <= j < i && is_acceptable(all[j]) ==> all[j].quality < all[b as int].quality
                        || all[j].quality == all[b as int].quality && b <= j,
            },
        decreases offers.len() - i,
    {
        assert(all[i as int] == offers@[i as int]@);
        if offers[i].quality > 0 {
            if let Ok(coding) = TransferEncoding::from_bytes(offers[i].name.as_slice()) {
                match best {
                    None => {
                        best = Some((i, coding));
                    },
                    Some((b, _)) => {
                        assert(all[b as int] == offers@[b as int]@);
                        if offers[i].quality > offers[b].quality {
                            best = Some((i, coding));
                        }
                    },
                }
            }
        }
        i += 1;
    }
    match best {
        Some((b, coding)) => {
            proof {
                assert(is_preferred(all, b as int));
                lemma_preferred_is_unique(all, b as int);
            }
            Some(coding)
        },
        None => {
            proof {
                acceptable_offer_is_heard(all);
            }
            None
        },
    }
}

/// Chooses the coding of a response to a request with the given headers. `readings` has, for each
/// element of `requested_codings` and each of its weights, the order key of the number that the
/// weight is, or `None` where it is no number.
pub fn choose_transfer_encoding(
    request_headers: &Vec<Header>,
    readings: &Vec<Vec<Option<i32>>>,
    http_version: &HTTPVersion,
    entity_length: &Option<usize>,
    has_additional_headers: bool,
    chunked_threshold: usize,
) -> (r: TransferEncoding)
    ensures
        r == transfer_encoding_of(
            offers_of(common::views(request_headers@), reading_views(readings@)),
            *http_version,
            *entity_length,
            has_additional_headers,
            chunked_threshold,
        ),
{
    if http_version.is_at_most(1, 0) {
        return TransferEncoding::Identity;
    }
    if let Some(user_request) = find_requested(&requested_offers(request_headers, readings)) {
        return user_request;
    }
    if has_additional_headers {
        return TransferEncoding::Chunked;
    }
    match *entity_length {
        Some(length) => if length >= chunked_threshold {
            TransferEncoding::Chunked
        } else {
            TransferEncoding::Identity
        },
        None => TransferEncoding::Chunked,
    }
}

} // verus!
