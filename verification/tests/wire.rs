use nethop::errors::HttpError;
use nethop::http::{assemble_raw, parse_response, BodyDecoder, DecodeNeed, HeadScan, Request,
    Response};
use nethop::network::serialize_request;

fn plain_request(method: &[u8], url: &[u8], body: &[u8], content_type: &[u8]) -> Request {
    Request {
        url: url.to_vec(),
        method: method.to_vec(),
        body: body.to_vec(),
        content_type: content_type.to_vec(),
        test_cases: Vec::new(),
    }
}

#[test]
fn serialized_get_request_is_byte_exact() {
    let req = plain_request(b"GET", b"/status", b"", b"");
    let bytes = serialize_request(b"example.com", &req).unwrap();
    let expected = b"GET /status HTTP/1.1\r\n\
        Host: example.com\r\n\
        User-Agent: NetHop/0.0\r\n\
        Content-Type: \r\n\
        Content-Length: 0\r\n\
        Accept: application/json\r\n\
        Accept-Encoding: identity\r\n\
        Connection: keep-alive\r\n\
        \r\n";
    assert_eq!(bytes, expected.to_vec());
}

#[test]
fn post_appends_body_and_counts_its_bytes() {
    let req = plain_request(b"POST", b"/items", b"{\"a\":1}\n", b"application/json");
    let bytes = serialize_request(b"example.com", &req).unwrap();
    let text = String::from_utf8(bytes).unwrap();
    assert!(text.ends_with("\r\n\r\n{\"a\":1}\n"));
    assert!(text.contains("Content-Length: 8\r\n"));
}

#[test]
fn get_sends_no_body_even_if_declared() {
    let req = plain_request(b"GET", b"/a", b"ignored", b"");
    let bytes = serialize_request(b"h", &req).unwrap();
    let text = String::from_utf8(bytes).unwrap();
    assert!(text.ends_with("\r\n\r\n"));
    assert!(!text.contains("ignored"));
}

#[test]
fn empty_body_on_post_is_fatal_naming_the_method() {
    let req = plain_request(b"POST", b"/a", b"", b"");
    match serialize_request(b"h", &req).unwrap_err() {
        HttpError::EmptyBody(m) => assert_eq!(m, b"POST".to_vec()),
        _ => panic!("wrong error"),
    }
}

#[test]
fn round_trip_method_url_content_type() {
    // what a stub server echoing the request head would report
    let req = plain_request(b"PUT", b"/things/7", b"x", b"text/plain");
    let bytes = serialize_request(b"example.com", &req).unwrap();
    let text = String::from_utf8(bytes).unwrap();
    let mut lines = text.lines();
    let request_line = lines.next().unwrap();
    let mut tokens = request_line.split_whitespace();
    assert_eq!(tokens.next(), Some("PUT"));
    assert_eq!(tokens.next(), Some("/things/7"));
    let ct_line = lines.find(|l| l.starts_with("Content-Type: ")).unwrap();
    assert_eq!(ct_line, "Content-Type: text/plain");
}

#[test]
fn head_scan_detects_length_and_chunking_case_insensitively() {
    let mut scan = HeadScan::new();
    assert!(scan.feed_line(b"HTTP/1.1 200 OK\r\n"));
    assert!(scan.feed_line(b"CONTENT-LENGTH: 12\r\n"));
    assert!(scan.feed_line(b"Transfer-Encoding: chunked\r\n"));
    assert!(!scan.feed_line(b"\r\n"));
    assert_eq!(scan.content_length, 12);
    assert!(scan.is_chunked);
    let text = String::from_utf8(scan.headers).unwrap();
    assert!(text.contains("CONTENT-LENGTH: 12\r\n"));
}

#[test]
fn unparsable_content_length_reads_as_zero() {
    let mut scan = HeadScan::new();
    assert!(scan.feed_line(b"Content-Length: many\r\n"));
    assert_eq!(scan.content_length, 0);
}

#[test]
fn chunked_decoding_concatenates_chunk_payloads() {
    // chunks of sizes [5, 3, 0]
    let mut dec = BodyDecoder::new(true, 0);
    assert_eq!(dec.need(), DecodeNeed::Line);
    dec.feed_line(b"5\r\n").unwrap();
    assert_eq!(dec.need(), DecodeNeed::Bytes(5));
    dec.feed_bytes(b"Hello");
    assert_eq!(dec.need(), DecodeNeed::Line);
    dec.feed_line(b"\r\n").unwrap();
    dec.feed_line(b"3\r\n").unwrap();
    assert_eq!(dec.need(), DecodeNeed::Bytes(3));
    dec.feed_bytes(b"abc");
    dec.feed_line(b"\r\n").unwrap();
    dec.feed_line(b"0\r\n").unwrap();
    assert_eq!(dec.need(), DecodeNeed::Done);
    assert_eq!(dec.body, b"Helloabc".to_vec());
}

#[test]
fn chunk_sizes_are_hexadecimal() {
    let mut dec = BodyDecoder::new(true, 0);
    dec.feed_line(b"A\r\n").unwrap();
    assert_eq!(dec.need(), DecodeNeed::Bytes(10));
}

#[test]
fn invalid_chunk_size_is_fatal() {
    let mut dec = BodyDecoder::new(true, 0);
    match dec.feed_line(b"zz\r\n").unwrap_err() {
        HttpError::InvalidChunkSize(l) => assert_eq!(l, b"zz\r\n".to_vec()),
        _ => panic!("wrong error"),
    }
}

#[test]
fn content_length_zero_decodes_to_empty_body() {
    let dec = BodyDecoder::new(false, 0);
    assert_eq!(dec.need(), DecodeNeed::Done);
    assert_eq!(dec.body, Vec::<u8>::new());
}

#[test]
fn content_length_body_is_read_exactly() {
    let mut dec = BodyDecoder::new(false, 4);
    assert_eq!(dec.need(), DecodeNeed::Bytes(4));
    dec.feed_bytes(b"abcd");
    assert_eq!(dec.need(), DecodeNeed::Done);
    assert_eq!(dec.body, b"abcd".to_vec());
}

#[test]
fn content_length_zero_response_is_not_an_error() {
    let raw = assemble_raw(b"HTTP/1.1 204 No Content\r\nContent-Type: text/plain\r\n", b"");
    let resp = parse_response(&raw).unwrap();
    assert_eq!(resp.status, 204);
    assert_eq!(resp.body, Vec::<u8>::new());
}

#[test]
fn parse_response_reads_status_and_plain_body() {
    let raw = b"HTTP/1.1 200 OK\r\nContent-Type: text/plain\r\nDate: today\r\n\r\nhello";
    let resp = parse_response(raw).unwrap();
    assert_eq!(resp.status, 200);
    assert_eq!(resp.body, b"hello".to_vec());
    assert_eq!(resp.get_header(b"date").unwrap(), b"today".to_vec());
}

#[test]
fn json_body_is_reparsed_and_pretty_printed() {
    let raw = b"HTTP/1.1 200 OK\r\nContent-Type: application/json; charset=utf-8\r\n\r\n{\"a\":1}";
    let resp = parse_response(raw).unwrap();
    let text = String::from_utf8(resp.body).unwrap();
    assert_eq!(text, "{\n  \"a\": 1\n}");
}

#[test]
fn malformed_json_is_fatal() {
    let raw = b"HTTP/1.1 200 OK\r\nContent-Type: application/json\r\n\r\n{nope";
    assert!(matches!(
        parse_response(raw).unwrap_err(),
        HttpError::MalformedJson(_)
    ));
}

#[test]
fn unsupported_content_type_is_fatal_naming_it() {
    let raw = b"HTTP/1.1 200 OK\r\nContent-Type: text/html; charset=utf-8\r\n\r\n<p>hi</p>";
    match parse_response(raw).unwrap_err() {
        HttpError::UnsupportedContentType(m) => assert_eq!(m, b"text/html".to_vec()),
        _ => panic!("wrong error"),
    }
}

#[test]
fn missing_content_type_is_fatal() {
    let raw = b"HTTP/1.1 200 OK\r\nDate: today\r\n\r\nbody";
    assert!(matches!(
        parse_response(raw).unwrap_err(),
        HttpError::MissingContentType
    ));
}

#[test]
fn response_without_blank_line_is_malformed() {
    assert!(matches!(
        parse_response(b"HTTP/1.1 200 OK").unwrap_err(),
        HttpError::MalformedResponse
    ));
}

#[test]
fn empty_head_is_an_empty_response() {
    assert!(matches!(
        parse_response(b"\r\n\r\nbody").unwrap_err(),
        HttpError::EmptyResponse
    ));
}

#[test]
fn status_line_without_code_is_invalid() {
    assert!(matches!(
        parse_response(b"HTTP/1.1\r\nContent-Type: text/plain\r\n\r\n").unwrap_err(),
        HttpError::InvalidStatusLine
    ));
}

#[test]
fn non_numeric_status_code_is_invalid() {
    assert!(matches!(
        parse_response(b"HTTP/1.1 abc OK\r\nContent-Type: text/plain\r\n\r\n").unwrap_err(),
        HttpError::InvalidStatusCode
    ));
}

#[test]
fn header_lookup_is_case_insensitive_and_absence_is_distinct() {
    let resp = Response {
        status: 200,
        headers: b"X-Thing: \r\nDate: today\r\n".to_vec(),
        body: Vec::new(),
    };
    // an empty value is found, an absent header is not
    assert_eq!(resp.get_header(b"x-thing").unwrap(), Vec::<u8>::new());
    assert_eq!(resp.get_header(b"DATE").unwrap(), b"today".to_vec());
    assert!(resp.get_header(b"missing").is_none());
}

#[test]
fn invalid_utf8_in_the_body_is_replaced_not_an_error() {
    let raw = assemble_raw(
        b"HTTP/1.1 200 OK\r\nContent-Type: text/plain\r\n",
        b"a\xffb",
    );
    let resp = parse_response(&raw).unwrap();
    assert_eq!(resp.body, "a\u{FFFD}b".as_bytes().to_vec());
}
