use tiny_web::text::{eq_ignore_ascii_case, parse_usize, push_bytes, push_decimal};
use tiny_web::transfer_encoding::{choose_transfer_encoding, requested_codings, TransferEncoding};
use tiny_web::util::header_value::{parse_header_value, FULL_QUALITY};
use tiny_web::{HTTPVersion, Header};

fn te(value: &str) -> Vec<Header> {
    vec![Header::from_bytes(b"TE", value.as_bytes()).unwrap()]
}

fn pick(value: &str, readings: Vec<Vec<Option<i32>>>, length: Option<usize>) -> TransferEncoding {
    let version = HTTPVersion(1, 1);
    choose_transfer_encoding(&te(value), &readings, &version, &length, false, 100)
}

#[test]
fn numbers_are_read_and_written() {
    for (input, expected) in [
        ("0", Some(0)),
        ("+17", Some(17)),
        ("0042", Some(42)),
        ("18446744073709551615", Some(18446744073709551615)),
        ("18446744073709551616", None),
        ("99999999999999999999", None),
        ("", None),
        ("+", None),
        ("-1", None),
        (" 1", None),
        ("1 ", None),
        ("1_0", None),
    ] {
        assert_eq!(parse_usize(input.as_bytes()), expected);
        assert_eq!(input.parse::<usize>().ok(), expected);
    }
    for n in [0usize, 9, 10, 4096, usize::MAX] {
        let mut out = b"n=".to_vec();
        push_decimal(&mut out, n);
        assert_eq!(out, format!("n={}", n).into_bytes());
        assert_eq!(parse_usize(&out[2..]), Some(n));
    }
}

#[test]
fn case_is_ignored() {
    assert!(eq_ignore_ascii_case(b"AbZz@[", b"aBzZ@["));
    assert!(!eq_ignore_ascii_case(b"@", b"`"));
    assert!(!eq_ignore_ascii_case(b"[", b"{"));
    assert!(!eq_ignore_ascii_case(b"ab", b"abc"));
    let mut out = b"a".to_vec();
    push_bytes(&mut out, b"bc");
    assert_eq!(out, b"abc");
}

#[test]
fn codings_have_names() {
    assert_eq!(TransferEncoding::from_str("Identity"), Ok(TransferEncoding::Identity));
    assert_eq!(TransferEncoding::from_str("CHUNKED"), Ok(TransferEncoding::Chunked));
    assert_eq!(TransferEncoding::from_str("gzip"), Err(()));
    assert_eq!(TransferEncoding::from_bytes(b""), Err(()));
}

#[test]
fn header_values_have_elements() {
    let elements = parse_header_value(b"text/plain, image/png; level=1;\tq= 1.5 ;q=2 ,");
    assert_eq!(elements.len(), 3);
    assert_eq!(elements[0].name, b"text/plain");
    assert!(elements[0].weights.is_empty());
    assert_eq!(elements[1].name, b"image/png");
    assert_eq!(elements[1].weights, vec![b"1.5".to_vec(), b"2".to_vec()]);
    assert_eq!(elements[2].name, b"");
    assert!(elements[2].weights.is_empty());
    assert_eq!(parse_header_value(b"").len(), 1);
}

#[test]
fn first_weight_that_reads_counts() {
    let weigh = |readings: Vec<Option<i32>>| {
        let mut elements = parse_header_value(b"x");
        elements.remove(0).weighed(&readings).quality
    };
    assert_eq!(weigh(vec![]), FULL_QUALITY);
    assert_eq!(weigh(vec![None]), FULL_QUALITY);
    assert_eq!(weigh(vec![None, Some(3), Some(4)]), 3);
    assert_eq!(FULL_QUALITY, 1.0f32.to_bits() as i32);
}

#[test]
fn first_te_header_counts() {
    let mut headers = vec![Header::from_bytes(b"A", b"chunked").unwrap()];
    assert!(requested_codings(&headers).is_empty());
    headers.extend(te("trailers;q=0.5"));
    headers.extend(te("chunked"));
    let elements = requested_codings(&headers);
    assert_eq!(elements.len(), 1);
    assert_eq!(elements[0].name, b"trailers");
    assert_eq!(elements[0].weights, vec![b"0.5".to_vec()]);
}

#[test]
fn greatest_weight_wins_and_then_the_first() {
    let identity = TransferEncoding::Identity;
    let chunked = TransferEncoding::Chunked;
    assert_eq!(pick("identity, chunked", vec![], Some(5)), identity);
    assert_eq!(pick("chunked, identity", vec![], Some(5)), chunked);
    let two = |a: i32, b: i32| vec![vec![Some(a)], vec![Some(b)]];
    assert_eq!(pick("identity;q=1, chunked;q=2", two(1, 2), Some(5)), chunked);
    assert_eq!(pick("chunked;q=1, identity;q=2", two(1, 2), Some(500)), identity);
    assert_eq!(pick("gzip;q=9, identity;q=2", two(9, 2), None), identity);
}

#[test]
fn weight_zero_rules_out() {
    let zero = vec![vec![Some(0)]];
    let below = vec![vec![Some(-1)]];
    assert_eq!(pick("chunked;q=0", zero, Some(5)), TransferEncoding::Identity);
    assert_eq!(pick("identity;q=-1", below, Some(500)), TransferEncoding::Chunked);
}

#[test]
fn without_a_wish_the_length_decides() {
    assert_eq!(pick("gzip", vec![], Some(99)), TransferEncoding::Identity);
    assert_eq!(pick("gzip", vec![], Some(100)), TransferEncoding::Chunked);
    assert_eq!(pick("gzip", vec![], None), TransferEncoding::Chunked);
    let none = Vec::new();
    let readings = Vec::new();
    let version = HTTPVersion(1, 1);
    assert_eq!(
        choose_transfer_encoding(&none, &readings, &version, &Some(1), true, 100),
        TransferEncoding::Chunked
    );
    assert_eq!(
        choose_transfer_encoding(&none, &readings, &version, &Some(1), false, 100),
        TransferEncoding::Identity
    );
}

#[test]
fn old_versions_know_no_chunks() {
    let version = HTTPVersion(1, 0);
    let headers = te("chunked");
    assert_eq!(
        choose_transfer_encoding(&headers, &Vec::new(), &version, &None, true, 0),
        TransferEncoding::Identity
    );
}
