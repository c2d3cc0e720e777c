//! The elements of a header value, and their weights.

use crate::laws::words;
use crate::util::header_value::{self, parse_header_value, Element, ElementView, Offer};
use vstd::prelude::*;

verus! {

/// A parameter that gives a weight: `q=`, perhaps behind white space, at the given place.
pub open spec fn has_weight_at(parameter: Seq<u8>, place: int) -> bool {
    &&& 0 <= place
    &&& place + 2 <= parameter.len()
    &&& parameter[place] == 113 && parameter[place + 1] == 61
    &&& forall|i: int| 0 <= i < place ==> words::is_blank(#[trigger] parameter[i])
}

/// A parameter that gives a weight.
pub open spec fn gives_weight(parameter: Seq<u8>) -> bool {
    exists|place: int| #[trigger] has_weight_at(parameter, place)
}

/// The weight that a parameter gives: what stands behind `q=`, without white space at its ends.
pub open spec fn is_weight(parameter: Seq<u8>, weight: Seq<u8>) -> bool {
    exists|place: int| #[trigger]
        has_weight_at(parameter, place) && words::is_stripped(parameter.skip(place + 2), weight)
}

/// The weights that some parameters give, in their order.
pub open spec fn are_weights(parameters: Seq<Seq<u8>>, weights: Seq<Seq<u8>>) -> bool {
    let giving = parameters.filter(|parameter: Seq<u8>| gives_weight(parameter));
    &&& weights.len() == giving.len()
    &&& forall|i: int| 0 <= i < weights.len() ==> is_weight(giving[i], #[trigger] weights[i])
}

/// The element that a text stands for. Semicolons part the name from the parameters and these from
/// each other.
pub open spec fn is_element(text: Seq<u8>, element: ElementView) -> bool {
    exists|parts: Seq<Seq<u8>>| #[trigger]
        words::are_parts(parts, text, 59) && words::is_stripped(parts[0], element.name)
            && are_weights(parts.skip(1), element.weights)
}

/// The elements that a header value stands for. Commas part them from each other.
pub open spec fn are_elements(value: Seq<u8>, elements: Seq<ElementView>) -> bool {
    exists|texts: Seq<Seq<u8>>| #[trigger]
        words::are_parts(texts, value, 44) && texts.len() == elements.len() && forall|i: int|
            0 <= i < texts.len() ==> is_element(#[trigger] texts[i], elements[i])
}

/// The weight of an element, as an order key: that of the first of its weights that is a number,
/// and one if none is.
pub open spec fn is_quality(readings: Seq<Option<i32>>, quality: int) -> bool {
    ||| quality == 1_065_353_216 && forall|i: int|
        0 <= i < readings.len() ==> (#[trigger] readings[i]) is None
    ||| exists|i: int|
        {
            &&& 0 <= i < readings.len()
            &&& (#[trigger] readings[i]) is Some
            &&& readings[i]->0 == quality
            &&& forall|j: int| 0 <= j < i ==> (#[trigger] readings[j]) is None
        }
}

proof fn lemma_joined(parts: Seq<Seq<u8>>, separator: u8)
    ensures
        words::joined(parts, separator) == header_value::joined(parts, separator),
    decreases parts.len(),
{
    if parts.len() > 1 {
        let before = parts.drop_last();
        lemma_joined(before, separator);
        words::lemma_joined_push(before, parts.last(), separator);
        assert(before.push(parts.last()) =~= parts);
        assert(header_value::joined(parts, separator) =~= header_value::joined(before, separator)
            + seq![separator] + parts.last());
    }
}

proof fn lemma_parts(s: Seq<u8>, separator: u8)
    ensures
        words::are_parts(header_value::split(s, separator), s, separator),
{
    let parts = header_value::split(s, separator);
    header_value::parts_make_up_the_text(s, separator);
    lemma_joined(parts, separator);
    assert forall|i: int, j: int|
        0 <= i < parts.len() && 0 <= j < parts[i].len() implies #[trigger] parts[i][j]
        != separator by {
        assert(!parts[i].contains(separator));
        assert(parts[i].contains(parts[i][j]));
    }
}

proof fn lemma_stripped(s: Seq<u8>)
    ensures
        words::is_stripped(s, header_value::trim(s)),
{
    let range = header_value::trimming_takes_only_space(s);
    let stripped = s.subrange(range.0, range.1);
    assert forall|i: int| 0 <= i < range.0 || range.1 <= i < s.len() implies words::is_blank(
        #[trigger] s[i],
    ) by {
        assert(header_value::is_space(s[i]));
    }
    if range.0 < range.1 {
        assert(stripped[0] == s[range.0] && stripped.last() == s[range.1 - 1]);
    }
}

proof fn lemma_weight(parameter: Seq<u8>)
    ensures
        gives_weight(parameter) <==> header_value::weight_text(parameter) is Some,
        header_value::weight_text(parameter) matches Some(weight) ==> is_weight(parameter, weight),
{
    let n = header_value::lemma_trim_start(parameter);
    let p = header_value::trim_start(parameter);
    if header_value::weight_text(parameter) is Some {
        assert(p[0] == parameter[n] && p[1] == parameter[n + 1]);
        assert forall|i: int| 0 <= i < n implies words::is_blank(#[trigger] parameter[i]) by {
            assert(header_value::is_space(parameter[i]));
        }
        assert(has_weight_at(parameter, n));
        assert(p.skip(2) =~= parameter.skip(n + 2));
        lemma_stripped(p.skip(2));
    }
    if gives_weight(parameter) {
        let place = choose|place: int| #[trigger] has_weight_at(parameter, place);
        if place < n {
            assert(header_value::is_space(parameter[place]));
        } else if n < place {
            assert(words::is_blank(parameter[n]));
        }
        assert(p[0] == parameter[n] && p[1] == parameter[n + 1]);
    }
}

proof fn lemma_weights(parameters: Seq<Seq<u8>>)
    ensures
        are_weights(parameters, header_value::weight_texts(parameters)),
    decreases parameters.len(),
{
    reveal(Seq::filter);
    if parameters.len() > 0 {
        let before = parameters.drop_last();
        lemma_weights(before);
        lemma_weight(parameters.last());
        let giving = |parameter: Seq<u8>| gives_weight(parameter);
        let weights = header_value::weight_texts(parameters);
        assert forall|i: int| 0 <= i < weights.len() implies is_weight(
            parameters.filter(giving)[i],
            #[trigger] weights[i],
        ) by {
            if i < header_value::weight_texts(before).len() {
                assert(weights[i] == header_value::weight_texts(before)[i]);
            }
        }
    }
}

proof fn lemma_element(text: Seq<u8>)
    ensures
        is_element(text, header_value::element_of(text)),
{
    let parts = header_value::split(text, 0x3B);
    lemma_parts(text, 0x3B);
    lemma_stripped(parts[0]);
    lemma_weights(parts.skip(1));
    assert(words::are_parts(parts, text, 59));
}

pub(crate) proof fn lemma_elements(value: Seq<u8>)
    ensures
        are_elements(value, header_value::elements_of(value)),
{
    let texts = header_value::split(value, 0x2C);
    lemma_parts(value, 0x2C);
    assert forall|i: int| 0 <= i < texts.len() implies is_element(
        #[trigger] texts[i],
        header_value::elements_of(value)[i],
    ) by {
        lemma_element(texts[i]);
    }
    assert(words::are_parts(texts, value, 44));
}

/// Some elements, each as its name and the texts of its weights.
pub open spec fn shown(elements: Seq<Element>) -> Seq<ElementView> {
    Seq::new(
        elements.len(),
        |i: int|
            ElementView {
                name: elements[i].name@,
                weights: Seq::new(elements[i].weights@.len(), |j: int| elements[i].weights@[j]@),
            },
    )
}

pub(crate) proof fn lemma_shown(elements: Seq<Element>)
    ensures
        elements.map_values(|element: Element| element@) == shown(elements),
{
    assert forall|i: int| 0 <= i < elements.len() implies (#[trigger] elements[i])@ == shown(
        elements,
    )[i] by {
        assert(elements[i]@ =~= shown(elements)[i]);
    }
    assert(elements.map_values(|element: Element| element@) =~= shown(elements));
}

/// A header value is read as the elements that it stands for.
pub proof fn header_values_are_read(value: &[u8], elements: Vec<Element>)
    requires
        call_ensures(parse_header_value, (value,), elements),
    ensures
        are_elements(value@, shown(elements@)),
{
    lemma_elements(value@);
    lemma_shown(elements@);
}

pub(crate) proof fn lemma_quality(readings: Seq<Option<i32>>, quality: int)
    requires
        is_quality(readings, quality),
    ensures
        header_value::first_reading(readings) == quality,
    decreases readings.len(),
{
    if readings.len() > 0 && readings[0] is None {
        let rest = readings.skip(1);
        if forall|i: int| 0 <= i < readings.len() ==> (#[trigger] readings[i]) is None {
            assert forall|i: int| 0 <= i < rest.len() implies (#[trigger] rest[i]) is None by {
                assert(rest[i] == readings[i + 1]);
            }
        } else {
            let i = choose|i: int|
                {
                    &&& 0 <= i < readings.len()
                    &&& (#[trigger] readings[i]) is Some
                    &&& readings[i]->0 == quality
                    &&& forall|j: int| 0 <= j < i ==> (#[trigger] readings[j]) is None
                };
            assert(rest[i - 1] == readings[i]);
            assert forall|j: int| 0 <= j < i - 1 implies (#[trigger] rest[j]) is None by {
                assert(rest[j] == readings[j + 1]);
            }
        }
        lemma_quality(rest, quality);
    }
}

/// Weighing an element keeps its name, and gives it the first weight that could be read.
pub proof fn elements_are_weighed(
    element: Element,
    readings: Vec<Option<i32>>,
    offer: Offer,
    quality: int,
)
    requires
        call_ensures(Element::weighed, (element, &readings), offer),
        is_quality(readings@, quality),
    ensures
        offer.name@ == element.name@,
        offer.quality == quality,
{
    lemma_quality(readings@, quality);
    assert(offer@.name == element@.name && offer@.quality == quality);
}

} // verus!
