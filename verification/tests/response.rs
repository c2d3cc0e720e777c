use std::io::Read;
use tiny_web::message::{
    build_data_header, header_of_date, header_of_date_text, write_message_header, BodyPlan,
};
use tiny_web::response::{Empty, Response};
use tiny_web::{HTTPDate, HTTPVersion, Header, StatusCode};

fn header(field: &str, value: &str) -> Header {
    Header::from_bytes(field.as_bytes(), value.as_bytes()).unwrap()
}

fn dated<R>(response: Response<R>) -> Response<R> {
    response.with_header(header("Date", "today"))
}

fn text(bytes: Vec<u8>) -> String {
    String::from_utf8(bytes).unwrap()
}

fn printed(response: Response<Vec<u8>>, version: HTTPVersion) -> String {
    let mut out = Vec::new();
    dated(response).raw_print(&mut out, version, &Vec::new(), &Vec::new(), false, None);
    text(out)
}

const V10: HTTPVersion = HTTPVersion(1, 0);
const V11: HTTPVersion = HTTPVersion(1, 1);

#[test]
fn text_goes_as_it_is() {
    assert_eq!(
        printed(Response::from_string("hello world"), V11),
        "HTTP/1.1 200 OK\r\nServer: tiny-http (Rust)\r\n\
         Content-Type: text/plain; charset=UTF-8\r\nDate: today\r\n\
         Content-Length: 11\r\n\r\nhello world"
    );
}

#[test]
fn texts_are_carried() {
    let borrowed = Response::from_string("h\u{e9}");
    let owned = Response::from_string(String::from("h\u{e9}"));
    assert_eq!(printed(borrowed, V11), printed(owned, V11));
}

#[test]
fn data_are_carried() {
    let bytes: &[u8] = &[0, 255, 13, 10];
    assert_eq!(Response::from_data(bytes).replace_reader(Empty).1, [0, 255, 13, 10]);
    assert_eq!(Response::from_data("h\u{e9}").replace_reader(Empty).1, [b'h', 0xc3, 0xa9]);
    let text = String::from("\u{20ac}");
    assert_eq!(Response::from_data(text).replace_reader(Empty).1, [0xe2, 0x82, 0xac]);
}

#[test]
fn text_is_sent_as_utf8() {
    let message = printed(Response::from_string("h\u{e9}"), V11);
    assert!(message.ends_with("Content-Length: 3\r\n\r\nh\u{e9}"));
}

#[test]
fn long_data_goes_in_chunks() {
    let message = printed(Response::from_data(vec![b'a'; 32768]), V11);
    assert!(message.contains("Transfer-Encoding: chunked\r\n\r\n2000\r\naaa"));
    assert!(!message.contains("Content-Length"));
    assert!(message.ends_with("aaa\r\n0\r\n\r\n"));
    let message = printed(Response::from_data(vec![b'a'; 32767]), V11);
    assert!(message.contains("Content-Length: 32767\r\n\r\naaa"));
    assert!(!message.contains("Transfer-Encoding"));
}

#[test]
fn threshold_decides_over_chunks() {
    let response = Response::from_data(b"hello".to_vec());
    assert_eq!(response.chunked_threshold(), 32768);
    let response = response.with_chunked_threshold(5);
    assert_eq!(response.chunked_threshold(), 5);
    assert_eq!(
        printed(response, V11),
        "HTTP/1.1 200 OK\r\nServer: tiny-http (Rust)\r\nDate: today\r\n\
         Transfer-Encoding: chunked\r\n\r\n5\r\nhello\r\n0\r\n\r\n"
    );
}

#[test]
fn old_clients_get_no_chunks() {
    let response = Response::from_data(b"hello".to_vec()).with_chunked_threshold(1);
    assert_eq!(
        printed(response, V10),
        "HTTP/1.0 200 OK\r\nServer: tiny-http (Rust)\r\nDate: today\r\n\
         Content-Length: 5\r\n\r\nhello"
    );
}

#[test]
fn unknown_length_is_measured_for_old_clients() {
    let response = Response::new(StatusCode(200), vec![], b"abc".to_vec(), None, None);
    assert!(printed(response, HTTPVersion(0, 9)).ends_with("Content-Length: 3\r\n\r\nabc"));
    let response = Response::new(StatusCode(200), vec![], b"abc".to_vec(), None, None);
    assert!(printed(response, V11).ends_with("chunked\r\n\r\n3\r\nabc\r\n0\r\n\r\n"));
}

#[test]
fn length_limits_the_data() {
    let response = Response::new(StatusCode(200), vec![], b"abcdef".to_vec(), Some(4), None);
    assert!(printed(response, V11).ends_with("Content-Length: 4\r\n\r\nabcd"));
    let response = Response::new(StatusCode(200), vec![], b"ab".to_vec(), Some(4), None);
    assert!(printed(response, V11).ends_with("Content-Length: 4\r\n\r\nab"));
    let response = Response::new(StatusCode(200), vec![], b"ab".to_vec(), Some(0), None);
    assert!(printed(response, V11).ends_with("Content-Length: 0\r\n\r\n"));
}

#[test]
fn forbidden_headers_are_ignored() {
    let mut response = Response::from_data(b"x".to_vec());
    for field in [
        "Accept-Ranges",
        "connection",
        "Content-Range",
        "TRAILER",
        "Transfer-Encoding",
        "upgrade",
    ] {
        response.add_header(header(field, "v"));
    }
    response.add_header(header("X-Kept", "v"));
    assert_eq!(
        printed(response, V11),
        "HTTP/1.1 200 OK\r\nServer: tiny-http (Rust)\r\nX-Kept: v\r\nDate: today\r\n\
         Content-Length: 1\r\n\r\nx"
    );
}

#[test]
fn content_length_header_sets_the_length() {
    let response = Response::from_data(b"abcdef".to_vec())
        .with_header(header("content-length", "+3"))
        .with_header(header("Content-Length", "many"))
        .with_header(header("Content-Length", ""));
    assert!(printed(response, V11).ends_with("Content-Length: 3\r\n\r\nabc"));
}

#[test]
fn added_headers_keep_their_order() {
    let response = Response::new(
        StatusCode(404),
        vec![header("A", "1"), header("Upgrade", "2"), header("B", "3")],
        Vec::new(),
        Some(0),
        Some(vec![header("C", "4"), header("A", "5")]),
    );
    assert_eq!(
        printed(response, V11),
        "HTTP/1.1 404 Not Found\r\nServer: tiny-http (Rust)\r\nA: 1\r\nB: 3\r\nC: 4\r\nA: 5\r\n\
         Date: today\r\nContent-Length: 0\r\n\r\n"
    );
}

#[test]
fn server_header_can_be_replaced() {
    let response = Response::from_data(Vec::new()).with_header(header("server", "mine"));
    let message = printed(response, V11);
    assert!(message.contains("server: mine\r\n"));
    assert!(!message.contains("tiny-http"));
}

#[test]
fn bodiless_messages_end_with_their_head() {
    for code in [100u16, 199, 204, 304] {
        let response = Response::from_data(b"hello".to_vec()).with_status_code(code);
        assert!(printed(response, V11).ends_with("Content-Length: 5\r\n\r\n"));
    }
    for code in [99u16, 200, 205, 303] {
        let response = Response::from_data(b"hello".to_vec()).with_status_code(code);
        assert!(printed(response, V11).ends_with("Content-Length: 5\r\n\r\nhello"));
    }
    let mut out = Vec::new();
    dated(Response::from_data(b"hello".to_vec())).raw_print(
        &mut out,
        V11,
        &Vec::new(),
        &Vec::new(),
        true,
        None,
    );
    assert!(text(out).ends_with("Content-Length: 5\r\n\r\n"));
}

#[test]
fn upgrade_comes_first_and_sends_no_data() {
    let mut out = b"before|".to_vec();
    dated(Response::from_data(b"hello".to_vec()).with_status_code(StatusCode(101))).raw_print(
        &mut out,
        V11,
        &Vec::new(),
        &Vec::new(),
        false,
        Some("websocket"),
    );
    assert_eq!(
        text(out),
        "before|HTTP/1.1 101 Switching Protocols\r\nConnection: upgrade\r\nUpgrade: websocket\r\n\
         Server: tiny-http (Rust)\r\nDate: today\r\n\r\n"
    );
}

#[test]
fn client_chooses_the_coding() {
    let request = vec![header("te", "chunked; q=0.5, identity")];
    let readings = vec![vec![Some(1)], vec![]];
    let mut out = Vec::new();
    dated(Response::from_data(vec![b'x'; 40000])).raw_print(
        &mut out, V11, &request, &readings, false, None,
    );
    assert!(text(out).contains("Content-Length: 40000\r\n\r\nxxx"));
    let request = vec![header("TE", "Chunked")];
    let mut out = Vec::new();
    dated(Response::from_data(b"hi".to_vec())).raw_print(
        &mut out,
        V11,
        &request,
        &Vec::new(),
        false,
        None,
    );
    assert!(text(out).ends_with("chunked\r\n\r\n2\r\nhi\r\n0\r\n\r\n"));
}

#[test]
fn response_without_a_date_gets_one() {
    let mut out = Vec::new();
    Response::from_data(b"hi".to_vec()).raw_print(
        &mut out,
        V11,
        &Vec::new(),
        &Vec::new(),
        false,
        None,
    );
    let message = text(out);
    assert!(message.starts_with("HTTP/1.1 200 OK\r\nServer: tiny-http (Rust)\r\nDate: "));
    assert!(message.contains(" GMT\r\nContent-Length: 2\r\n\r\nhi"));
}

#[test]
fn printing_as_it_is_adds_no_date() {
    let mut out = Vec::new();
    Response::from_data(b"hi".to_vec()).print(
        &mut out,
        V11,
        &Vec::new(),
        &Vec::new(),
        false,
        None,
    );
    assert_eq!(
        text(out),
        "HTTP/1.1 200 OK\r\nServer: tiny-http (Rust)\r\nContent-Length: 2\r\n\r\nhi"
    );
}

#[test]
fn empty_responses() {
    let response = dated(Response::<Empty>::empty(404u16));
    let copy = response.clone();
    let again = dated(Response::new_empty(StatusCode(404)));
    let expected = "HTTP/1.1 404 Not Found\r\nServer: tiny-http (Rust)\r\nDate: today\r\n\
                    Content-Length: 0\r\n\r\n";
    for r in [response, copy, again] {
        let mut out = Vec::new();
        r.raw_print(&mut out, V11, &Vec::new(), &Vec::new(), false, None);
        assert_eq!(text(out), expected);
    }
}

#[test]
fn new_data_changes_nothing_else() {
    let response = Response::from_string("a")
        .with_chunked_threshold(7)
        .with_data(Empty, Some(0));
    assert_eq!(response.chunked_threshold(), 7);
    let response = Response::<Empty>::empty(StatusCode(404)).with_chunked_threshold(6);
    let response = dated(response).with_data(b"hello".to_vec(), Some(5));
    assert_eq!(response.chunked_threshold(), 6);
    let mut out = Vec::new();
    response.raw_print(&mut out, V11, &Vec::new(), &Vec::new(), false, None);
    assert_eq!(
        text(out),
        "HTTP/1.1 404 Not Found\r\nServer: tiny-http (Rust)\r\nDate: today\r\n\
         Content-Length: 5\r\n\r\nhello"
    );
}

#[test]
fn boxes_forget_the_threshold() {
    let response = dated(Response::from_data(b"hello".to_vec()));
    let response = response.with_chunked_threshold(1).boxed();
    assert_eq!(response.chunked_threshold(), 32768);
    let mut out = Vec::new();
    response.raw_print(&mut out, V11, &Vec::new(), &Vec::new(), false, None);
    assert!(text(out).ends_with("Content-Length: 5\r\n\r\nhello"));
}

#[test]
fn replacing_the_source_changes_nothing_else() {
    let response = Response::from_data(b"hello".to_vec()).with_chunked_threshold(7);
    let (response, data) = response.replace_reader(b"world".to_vec());
    assert_eq!(data, b"hello");
    assert_eq!(response.chunked_threshold(), 7);
    assert!(printed(response, V11).ends_with("Content-Length: 5\r\n\r\nworld"));
}

#[test]
fn printer_says_what_to_do() {
    let response = Response::new(StatusCode(200), vec![], (), None, None);
    let (printer, ()) = response.prepare(V10, &Vec::new(), &Vec::new(), false, None);
    assert!(printer.must_measure());
    let (head, body) = printer.measured(12).finish();
    assert!(text(head).ends_with("Content-Length: 12\r\n\r\n"));
    assert_eq!(body, BodyPlan::Exactly(12));
    let response = Response::new(StatusCode(200), vec![], (), None, None);
    let (printer, ()) = response.prepare(V11, &Vec::new(), &Vec::new(), false, None);
    assert!(!printer.must_measure());
    assert_eq!(printer.finish().1, BodyPlan::Chunked);
}

#[test]
fn chunks_carry_the_body() {
    for length in [0usize, 1, 15, 16, 8191, 8192, 8193, 16384, 100000, 3000000] {
        let data: Vec<u8> = (0..length).map(|i| (i % 251) as u8).collect();
        let mut out = Vec::new();
        BodyPlan::Chunked.write(&mut out, &data);
        let mut decoded = Vec::new();
        chunked_transfer::Decoder::new(&out[..])
            .read_to_end(&mut decoded)
            .unwrap();
        assert_eq!(decoded, data);
        let mut expected = Vec::new();
        for piece in data.chunks(8192) {
            expected.extend(format!("{:x}\r\n", piece.len()).into_bytes());
            expected.extend(piece);
            expected.extend(b"\r\n");
        }
        expected.extend(b"0\r\n\r\n");
        assert_eq!(out, expected);
    }
}

#[test]
fn body_plans_append() {
    let mut out = b">".to_vec();
    BodyPlan::Omit.write(&mut out, b"abc");
    assert_eq!(out, b">");
    BodyPlan::Exactly(2).write(&mut out, b"abc");
    assert_eq!(out, b">ab");
    BodyPlan::Exactly(9).write(&mut out, b"abc");
    assert_eq!(out, b">ababc");
    BodyPlan::Chunked.write(&mut out, b"");
    assert_eq!(out, b">ababc0\r\n\r\n");
}

#[test]
fn head_has_a_line_for_each_header() {
    let mut out = Vec::new();
    let headers = vec![header("A", "b"), header("C", "")];
    write_message_header(&mut out, &HTTPVersion(2, 10), &StatusCode(65535), &headers);
    assert_eq!(text(out), "HTTP/2.10 65535 Unknown\r\nA: b\r\nC: \r\n\r\n");
}

#[test]
fn dates_are_written_as_http_has_them() {
    let date = HTTPDate::at(784111777).unwrap();
    assert_eq!(date.to_string(), "Sun,  6 Nov 1994 08:49:37 GMT");
    let epoch = HTTPDate::at(0).unwrap();
    assert_eq!(epoch.to_string(), "Thu,  1 Jan 1970 00:00:00 GMT");
    let built = header_of_date(&date);
    assert!(built.field.equiv("date"));
    assert_eq!(built.value.as_str(), "Sun,  6 Nov 1994 08:49:37 GMT");
    let given = header_of_date_text("Mon, 1 Jan 2024 00:00:00 GMT");
    assert_eq!(given.field.as_bytes(), b"Date");
    assert_eq!(given.value.as_str(), "Mon, 1 Jan 2024 00:00:00 GMT");
    assert!(HTTPDate::at(-1).is_none());
    let last = HTTPDate::at(8_210_266_876_799).unwrap();
    assert_eq!(last.to_string(), "Mon, 31 Dec +262142 23:59:59 GMT");
    assert!(HTTPDate::at(8_210_266_876_800).is_none());
}

#[test]
fn current_date_is_built() {
    let built = build_data_header();
    assert_eq!(built.field.as_bytes(), b"Date");
    assert!(built.value.as_str().ends_with(" GMT"));
    assert!(built.value.as_str().len() >= 29);
    assert!(HTTPDate::new().to_string().ends_with(" GMT"));
}

#[test]
fn headers_are_ascii() {
    let h = header("Content-Type", "text/html");
    assert_eq!(h.field.as_bytes(), b"Content-Type");
    assert_eq!(h.value.as_str(), "text/html");
    assert!(h.field.equiv("content-TYPE"));
    assert!(!h.field.equiv("Content-Typ"));
    assert!(Header::from_bytes("F\u{fc}r".as_bytes(), b"x").is_err());
    assert!(Header::from_bytes(b"A", &[0x80]).is_err());
    assert!(Header::from_bytes(b"", &[0x7F]).is_ok());
    let copy = h.clone();
    assert_eq!(copy.value.as_str(), "text/html");
    assert_eq!(copy.field.as_bytes(), b"Content-Type");
}

#[test]
fn versions_are_ordered() {
    assert!(HTTPVersion(1, 0).is_at_most(1, 0));
    assert!(HTTPVersion(0, 9).is_at_most(1, 0));
    assert!(!HTTPVersion(1, 1).is_at_most(1, 0));
    assert!(!HTTPVersion(2, 0).is_at_most(1, 0));
}
