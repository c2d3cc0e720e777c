//! The elements of a header value such as that of `TE` or `Accept`.
//!
//! `text/plain, image/png; q=0.5` has two elements: `text/plain`, without a weight, and
//! `image/png` with the weight `0.5`.

use vstd::prelude::*;
use vstd::slice::{slice_subrange, slice_to_vec};

verus! {

/// The order key of the weight one, which an element has that gives no weight of its own.
pub const FULL_QUALITY: i32 = 0x3F80_0000;

pub open spec fn is_space(b: u8) -> bool {
    0x09 <= b <= 0x0D || b == 0x20
}

/// The text without the white space that it starts with.
pub open spec fn trim_start(s: Seq<u8>) -> Seq<u8>
    decreases s.len(),
{
    if s.len() > 0 && is_space(s[0]) {
        trim_start(s.skip(1))
    } else {
        s
    }
}

/// The text without the white space that it ends with.
pub open spec fn trim_end(s: Seq<u8>) -> Seq<u8>
    decreases s.len(),
{
    if s.len() > 0 && is_space(s.last()) {
        trim_end(s.drop_last())
    } else {
        s
    }
}

/// The text without white space at its ends.
pub open spec fn trim(s: Seq<u8>) -> Seq<u8> {
    trim_end(trim_start(s))
}

/// The parts of a text between separators: always at least one, and one more than there are
/// separators.
pub open spec fn split(s: Seq<u8>, separator: u8) -> Seq<Seq<u8>>
    decreases s.len(),
{
    if s.len() == 0 {
        seq![s]
    } else {
        let before = split(s.drop_last(), separator);
        if s.last() == separator {
            before.push(Seq::empty())
        } else {
            before.drop_last().push(before.last().push(s.last()))
        }
    }
}

/// The weight that a parameter gives, as it is written: what stands behind `q=`.
pub open spec fn weight_text(parameter: Seq<u8>) -> Option<Seq<u8>> {
    let p = trim_start(parameter);
    if p.len() >= 2 && p[0] == 0x71 && p[1] == 0x3D {
        Some(trim(p.skip(2)))
    } else {
        None
    }
}

/// The weights among some parameters, in their order.
pub open spec fn weight_texts(parameters: Seq<Seq<u8>>) -> Seq<Seq<u8>>
    decreases parameters.len(),
{
    if parameters.len() == 0 {
        Seq::empty()
    } else {
        let before = weight_texts(parameters.drop_last());
        match weight_text(parameters.last()) {
            Some(weight) => before.push(weight),
            None => before,
        }
    }
}

/// An element as bytes.
#[verifier::ext_equal]
pub struct ElementView {
    pub name: Seq<u8>,
    pub weights: Seq<Seq<u8>>,
}

/// The element that a text stands for: a name, and parameters behind semicolons.
pub open spec fn element_of(text: Seq<u8>) -> ElementView {
    let parts = split(text, 0x3B);
    ElementView { name: trim(parts[0]), weights: weight_texts(parts.skip(1)) }
}

/// The elements of a header value, which commas separate.
pub open spec fn elements_of(value: Seq<u8>) -> Seq<ElementView> {
    split(value, 0x2C).map_values(|text: Seq<u8>| element_of(text))
}

/// The bytes of some texts.
pub open spec fn contents(texts: Seq<Vec<u8>>) -> Seq<Seq<u8>> {
    texts.map_values(|text: Vec<u8>| text@)
}

/// An element of a header value: its name, and the weights that its parameters give, as they are
/// written.
pub struct Element {
    pub name: Vec<u8>,
    pub weights: Vec<Vec<u8>>,
}

impl View for Element {
    type V = ElementView;

    open spec fn view(&self) -> ElementView {
        ElementView { name: self.name@, weights: contents(self.weights@) }
    }
}

/// The first weight that could be read, or the weight one.
pub open spec fn first_reading(readings: Seq<Option<i32>>) -> i32
    decreases readings.len(),
{
    if readings.len() == 0 {
        FULL_QUALITY
    } else if readings[0] is Some {
        readings[0]->0
    } else {
        first_reading(readings.skip(1))
    }
}

/// An offer as values.
#[verifier::ext_equal]
pub struct OfferView {
    pub name: Seq<u8>,
    pub quality: int,
}

/// A name with its weight. The weight is an order key: keys are ordered as the weights are, and
/// the key of the weight zero is zero.
pub struct Offer {
    pub name: Vec<u8>,
    pub quality: i32,
}

impl View for Offer {
    type V = OfferView;

    open spec fn view(&self) -> OfferView {
        OfferView { name: self.name@, quality: self.quality as int }
    }
}

impl Element {
    /// Gives an element its weight, from what was read of its weights: `None` for each text that
    /// is no number. The first number counts; without one the weight is one.
    pub fn weighed(self, readings: &Vec<Option<i32>>) -> (r: Offer)
        ensures
            r@ == (OfferView { name: self@.name, quality: first_reading(readings@) as int }),
    {
        let mut i: usize = 0;
        assert(readings@.skip(0) =~= readings@);
        while i < readings.len()
            invariant
                i <= readings.len(),
                first_reading(readings@) == first_reading(readings@.skip(i as int)),
            decreases readings.len() - i,
        {
            assert(readings@.skip(i as int).skip(1) =~= readings@.skip(i + 1));
            if let Some(quality) = readings[i] {
                return Offer { name: self.name, quality };
            }
            i += 1;
        }
        Offer { name: self.name, quality: FULL_QUALITY }
    }
}

/// Texts with a separator between each and the next.
pub open spec fn joined(parts: Seq<Seq<u8>>, separator: u8) -> Seq<u8>
    decreases parts.len(),
{
    if parts.len() == 0 {
        Seq::empty()
    } else if parts.len() == 1 {
        parts[0]
    } else {
        joined(parts.drop_last(), separator).push(separator) + parts.last()
    }
}

/// The parts of a text contain no separator, and with separators between them they are the text.
pub proof fn parts_make_up_the_text(s: Seq<u8>, separator: u8)
    ensures
        split(s, separator).len() > 0,
        joined(split(s, separator), separator) == s,
        forall|i: int|
            0 <= i < split(s, separator).len() ==> !(#[trigger] split(s, separator)[i]).contains(
                separator,
            ),
    decreases s.len(),
{
    let parts = split(s, separator);
    if s.len() > 0 {
        let b = s.last();
        let before = split(s.drop_last(), separator);
        parts_make_up_the_text(s.drop_last(), separator);
        assert(s =~= s.drop_last().push(b));
        if b == separator {
            assert(parts.drop_last() =~= before);
            assert(joined(parts, separator) =~= s);
        } else {
            assert(parts.drop_last() =~= before.drop_last());
            assert(joined(parts, separator) =~= joined(before, separator).push(b));
            assert forall|i: int| 0 <= i < parts.len() implies !(#[trigger] parts[i]).contains(
                separator,
            ) by {
                if i < parts.len() - 1 {
                    assert(parts[i] == before[i]);
                } else {
                    assert(!before.last().contains(separator));
                    assert forall|j: int| 0 <= j < parts[i].len() implies parts[i][j]
                        != separator by {
                        if j < before.last().len() {
                            assert(before.last()[j] == parts[i][j]);
                        }
                    }
                }
            }
        }
    }
}

/// A trimmed text neither starts nor ends with white space, and only white space was taken from
/// the text.
pub proof fn trimming_takes_only_space(s: Seq<u8>) -> (range: (int, int))
    ensures
        0 <= range.0 <= range.1 <= s.len(),
        trim(s) == s.subrange(range.0, range.1),
        forall|i: int| 0 <= i < range.0 || range.1 <= i < s.len() ==> is_space(#[trigger] s[i]),
        trim(s).len() > 0 ==> !is_space(trim(s)[0]) && !is_space(trim(s).last()),
{
    let start = lemma_trim_start(s);
    let rest = s.skip(start);
    let length = lemma_trim_end(rest);
    assert(trim(s) =~= s.subrange(start, start + length));
    assert forall|i: int| 0 <= i < start || start + length <= i < s.len() implies is_space(
        #[trigger] s[i],
    ) by {
        if i >= start {
            assert(rest[i - start] == s[i]);
        }
    }
    (start, start + length)
}

pub(crate) proof fn lemma_trim_start(s: Seq<u8>) -> (n: int)
    ensures
        0 <= n <= s.len(),
        trim_start(s) == s.skip(n),
        forall|i: int| 0 <= i < n ==> is_space(#[trigger] s[i]),
        n < s.len() ==> !is_space(s[n]),
    decreases s.len(),
{
    if s.len() > 0 && is_space(s[0]) {
        let n = lemma_trim_start(s.skip(1));
        assert(s.skip(1).skip(n) =~= s.skip(n + 1));
        assert forall|i: int| 0 <= i < n + 1 implies is_space(#[trigger] s[i]) by {
            if i > 0 {
                assert(s.skip(1)[i - 1] == s[i]);
            }
        }
        n + 1
    } else {
        assert(s.skip(0) =~= s);
        0
    }
}

proof fn lemma_trim_end(s: Seq<u8>) -> (n: int)
    ensures
        0 <= n <= s.len(),
        trim_end(s) == s.take(n),
        forall|i: int| n <= i < s.len() ==> is_space(#[trigger] s[i]),
        n > 0 ==> !is_space(s[n - 1]),
    decreases s.len(),
{
    if s.len() > 0 && is_space(s.last()) {
        let n = lemma_trim_end(s.drop_last());
        assert(s.drop_last().take(n) =~= s.take(n));
        assert forall|i: int| n <= i < s.len() implies is_space(#[trigger] s[i]) by {
            if i < s.len() - 1 {
                assert(s.drop_last()[i] == s[i]);
            }
        }
        n
    } else {
        assert(s.take(s.len() as int) =~= s);
        s.len() as int
    }
}

fn is_space_byte(b: u8) -> (r: bool)
    ensures
        r == is_space(b),
{
    0x09 <= b && b <= 0x0D || b == 0x20
}

fn trim_start_bytes(s: &[u8]) -> (r: &[u8])
    ensures
        r@ == trim_start(s@),
{
    let mut i: usize = 0;
    assert(s@.skip(0) =~= s@);
    while i < s.len() && is_space_byte(s[i])
        invariant
            i <= s.len(),
            trim_start(s@) == trim_start(s@.skip(i as int)),
        decreases s.len() - i,
    {
        assert(s@.skip(i as int).skip(1) =~= s@.skip(i + 1));
        i += 1;
    }
    assert(s@.skip(i as int) =~= s@.subrange(i as int, s@.len() as int));
    slice_subrange(s, i, s.len())
}

fn trim_end_bytes(s: &[u8]) -> (r: &[u8])
    ensures
        r@ == trim_end(s@),
{
    let mut n: usize = s.len();
    assert(s@.take(n as int) =~= s@);
    while n > 0 && is_space_byte(s[n - 1])
        invariant
            n <= s.len(),
            trim_end(s@) == trim_end(s@.take(n as int)),
        decreases n,
    {
        assert(s@.take(n as int).drop_last() =~= s@.take(n - 1));
        n -= 1;
    }
    assert(s@.take(n as int) =~= s@.subrange(0, n as int));
    slice_subrange(s, 0, n)
}

fn trim_bytes(s: &[u8]) -> (r: &[u8])
    ensures
        r@ == trim(s@),
{
    trim_end_bytes(trim_start_bytes(s))
}

fn split_bytes(s: &[u8], separator: u8) -> (r: Vec<Vec<u8>>)
    ensures
        contents(r@) == split(s@, separator),
        r.len() > 0,
{
    let mut parts: Vec<Vec<u8>> = Vec::new();
    let mut current: Vec<u8> = Vec::new();
    let mut i: usize = 0;
    proof {
        assert(s@.take(0) =~= Seq::<u8>::empty());
        assert(contents(parts@).push(current@) =~= split(s@.take(0), separator));
    }
    while i < s.len()
        invariant
            i <= s.len(),
            contents(parts@).push(current@) == split(s@.take(i as int), separator),
        decreases s.len() - i,
    {
        let ghost parts_before = contents(parts@);
        let ghost before = parts_before.push(current@);
        let b = s[i];
        assert(s@.take(i + 1).drop_last() =~= s@.take(i as int));
        assert(before.drop_last() =~= parts_before);
        if b == separator {
            parts.push(current);
            current = Vec::new();
            assert(contents(parts@) =~= before);
        } else {
            current.push(b);
        }
        assert(contents(parts@).push(current@) =~= split(s@.take(i + 1), separator));
        i += 1;
    }
    let ghost parts_before = contents(parts@);
    let ghost last = current@;
    parts.push(current);
    assert(s@.take(s@.len() as int) =~= s@);
    assert(contents(parts@) =~= parts_before.push(last));
    parts
}

fn weight_of(parameter: &[u8]) -> (r: Option<Vec<u8>>)
    ensures
        r is Some <==> weight_text(parameter@) is Some,
        r matches Some(weight) ==> weight_text(parameter@) == Some(weight@),
{
    let p = trim_start_bytes(parameter);
    if p.len() >= 2 && p[0] == 0x71 && p[1] == 0x3D {
        let behind = slice_subrange(p, 2, p.len());
        assert(behind@ =~= p@.skip(2));
        Some(slice_to_vec(trim_bytes(behind)))
    } else {
        None
    }
}

fn parse_element(text: &[u8]) -> (r: Element)
    ensures
        r@ == element_of(text@),
{
    let parts = split_bytes(text, 0x3B);
    let ghost all = contents(parts@);
    let name = slice_to_vec(trim_bytes(parts[0].as_slice()));
    let mut weights: Vec<Vec<u8>> = Vec::new();
    let mut i: usize = 1;
    assert(all.skip(1).take(0) =~= Seq::<Seq<u8>>::empty());
    assert(contents(weights@) =~= weight_texts(all.skip(1).take(0)));
    while i < parts.len()
        invariant
            1 <= i <= parts.len(),
            all == contents(parts@),
            contents(weights@) == weight_texts(all.skip(1).take(i - 1)),
        decreases parts.len() - i,
    {
        let ghost before = contents(weights@);
        let ghost seen = all.skip(1).take(i as int);
        assert(seen.drop_last() =~= all.skip(1).take(i - 1));
        assert(seen.last() == parts@[i as int]@);
        if let Some(weight) = weight_of(parts[i].as_slice()) {
            let ghost w = weight@;
            weights.push(weight);
            assert(contents(weights@) =~= before.push(w));
        }
        i += 1;
    }
    assert(all.skip(1).take(parts@.len() - 1) =~= all.skip(1));
    Element { name, weights }
}

/// Parses the value of a header such as `TE` or `Accept`.
pub fn parse_header_value(value: &[u8]) -> (r: Vec<Element>)
    ensures
        r@.map_values(|element: Element| element@) == elements_of(value@),
{
    let parts = split_bytes(value, 0x2C);
    let ghost all = contents(parts@);
    let mut elements: Vec<Element> = Vec::new();
    let mut i: usize = 0;
    while i < parts.len()
        invariant
            i <= parts.len(),
            all == contents(parts@),
            elements.len() == i,
            forall|j: int| 0 <= j < i ==> (#[trigger] elements@[j])@ == element_of(all[j]),
        decreases parts.len() - i,
    {
        elements.push(parse_element(parts[i].as_slice()));
        i += 1;
    }
    assert(elements@.map_values(|element: Element| element@) =~= elements_of(value@));
    elements
}

} // verus!
