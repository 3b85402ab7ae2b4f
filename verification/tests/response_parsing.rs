use rust_docker::errors::DockerApiError;
use rust_docker::utils::Response;

fn bytes(s: &str) -> Vec<u8> {
    s.as_bytes().to_vec()
}

#[test]
fn plain_body_response() {
    let input = bytes("HTTP/1.1 200 OK\r\nContent-Type: text/plain\r\n\r\nhello");
    let r = Response::parse_http_response(input).unwrap();
    assert_eq!(r.status_code, 200);
    assert_eq!(r.body, "hello");
}

#[test]
fn chunked_body_response() {
    let input = bytes("HTTP/1.1 200 OK\r\nTransfer-Encoding: chunked\r\n\r\n5\r\nhello\r\n0\r\n\r\n");
    let r = Response::parse_http_response(input).unwrap();
    assert_eq!(r.status_code, 200);
    assert_eq!(r.body, "hello");
}

#[test]
fn missing_boundary_is_malformed() {
    let input = bytes("HTTP/1.1 200 OK\r\nContent-Type: text/plain\r\nhello");
    let r = Response::parse_http_response(input);
    assert_eq!(r, Err(DockerApiError::MalformedResponse));
}

#[test]
fn empty_input_is_malformed() {
    let r = Response::parse_http_response(Vec::new());
    assert_eq!(r, Err(DockerApiError::MalformedResponse));
}

#[test]
fn truncated_chunk_is_framing_error() {
    let input = bytes("HTTP/1.1 200 OK\r\nTransfer-Encoding: chunked\r\n\r\na\r\n0123");
    let r = Response::parse_http_response(input);
    assert_eq!(r, Err(DockerApiError::ChunkFramingError));
}

#[test]
fn truncated_chunk_in_parse_chunk() {
    // the size line declares ten bytes but fewer follow
    let r = Response::parse_chunk(bytes("a\r\n0123"));
    assert_eq!(r, Err(DockerApiError::ChunkFramingError));
}

#[test]
fn chunk_without_length_marker() {
    let r = Response::parse_chunk(bytes("5hello"));
    assert_eq!(r, Err(DockerApiError::ChunkFramingError));
}

#[test]
fn chunk_extension_is_rejected() {
    let r = Response::parse_chunk(bytes("5;name=value\r\nhello\r\n0\r\n\r\n"));
    assert_eq!(r, Err(DockerApiError::ChunkFramingError));
}

#[test]
fn chunk_round_trip_two_chunks() {
    let r = Response::parse_chunk(bytes("5\r\nhello\r\n6\r\nworld!\r\n0\r\n\r\n")).unwrap();
    assert_eq!(r, b"helloworld!".to_vec());
}

#[test]
fn chunk_round_trip_hex_size() {
    // a sixteen-byte chunk has the size line "10"
    let r = Response::parse_chunk(bytes("10\r\nabcdefghijklmnop\r\n0\r\n\r\n")).unwrap();
    assert_eq!(r, b"abcdefghijklmnop".to_vec());
}

#[test]
fn chunk_uppercase_hex_size() {
    let r = Response::parse_chunk(bytes("A\r\n0123456789\r\n0\r\n\r\n")).unwrap();
    assert_eq!(r, b"0123456789".to_vec());
}

#[test]
fn empty_chunked_body() {
    let r = Response::parse_chunk(bytes("0\r\n\r\n")).unwrap();
    assert_eq!(r, Vec::<u8>::new());
}

#[test]
fn parsing_is_deterministic() {
    let input = "HTTP/1.1 201 Created\r\nContent-Type: application/json\r\n\r\n{\"Id\":\"abc\"}";
    let r1 = Response::parse_http_response(bytes(input)).unwrap();
    let r2 = Response::parse_http_response(bytes(input)).unwrap();
    assert_eq!(r1, r2);
}

#[test]
fn status_code_is_extracted() {
    let r = Response::parse_http_response(bytes("HTTP/1.1 404 Not Found\r\n\r\nmissing")).unwrap();
    assert_eq!(r.status_code, 404);
    let r = Response::parse_http_response(bytes("HTTP/1.1 204 No Content\r\n\r\n")).unwrap();
    assert_eq!(r.status_code, 204);
    assert_eq!(r.body, "");
}

#[test]
fn non_numeric_status_code_is_rejected() {
    let r = Response::parse_http_response(bytes("HTTP/1.1 abc OK\r\n\r\nhello"));
    assert_eq!(r, Err(DockerApiError::InvalidStatusLine));
}

#[test]
fn status_line_needs_three_tokens() {
    let r = Response::parse_http_response(bytes("HTTP/1.1 200\r\n\r\nhello"));
    assert_eq!(r, Err(DockerApiError::InvalidStatusLine));
    let r = Response::parse_http_response(bytes("HTTP/1.1\r\n\r\nhello"));
    assert_eq!(r, Err(DockerApiError::InvalidStatusLine));
}

#[test]
fn empty_status_line_is_rejected() {
    let r = Response::parse_http_response(bytes("\r\nA: b\r\n\r\nhello"));
    assert_eq!(r, Err(DockerApiError::InvalidStatusLine));
}

#[test]
fn invalid_header_utf8_is_rejected() {
    let mut input = bytes("HTTP/1.1 200 OK\r\nX-Bad: ");
    input.push(0xff);
    input.extend_from_slice(b"\r\n\r\nhello");
    let r = Response::parse_http_response(input);
    assert_eq!(r, Err(DockerApiError::InvalidHeaderEncoding));
}

#[test]
fn invalid_body_utf8_is_rejected() {
    let mut input = bytes("HTTP/1.1 200 OK\r\n\r\n");
    input.push(0xff);
    input.push(0xfe);
    let r = Response::parse_http_response(input);
    assert_eq!(r, Err(DockerApiError::InvalidBodyEncoding));
}

#[test]
fn multibyte_body_is_decoded() {
    let r = Response::parse_http_response(bytes("HTTP/1.1 200 OK\r\n\r\nh\u{e9}llo \u{4e16}\u{754c}"))
        .unwrap();
    assert_eq!(r.body, "h\u{e9}llo \u{4e16}\u{754c}");
}

#[test]
fn body_whitespace_is_trimmed() {
    let r = Response::parse_http_response(bytes("HTTP/1.1 200 OK\r\n\r\n  hello \r\n")).unwrap();
    assert_eq!(r.body, "hello");
}

#[test]
fn unicode_whitespace_is_trimmed() {
    // U+00A0 no-break space on both sides of the body
    let r = Response::parse_http_response(bytes("HTTP/1.1 200 OK\r\n\r\n\u{a0}hello\u{a0}")).unwrap();
    assert_eq!(r.body, "hello");
}

#[test]
fn last_transfer_encoding_wins() {
    let input = bytes(
        "HTTP/1.1 200 OK\r\nTransfer-Encoding: identity\r\nTransfer-Encoding: chunked\r\n\r\n5\r\nhello\r\n0\r\n\r\n",
    );
    let r = Response::parse_http_response(input).unwrap();
    assert_eq!(r.body, "hello");
    let input = bytes(
        "HTTP/1.1 200 OK\r\nTransfer-Encoding: chunked\r\nTransfer-Encoding: identity\r\n\r\nplain",
    );
    let r = Response::parse_http_response(input).unwrap();
    assert_eq!(r.body, "plain");
}

#[test]
fn header_line_without_separator_is_passed_over() {
    let input = bytes("HTTP/1.1 200 OK\r\nnocolonhere\r\nContent-Type: text/plain\r\n\r\nhello");
    let r = Response::parse_http_response(input).unwrap();
    assert_eq!(r.status_code, 200);
    assert_eq!(r.body, "hello");
}

#[test]
fn body_may_contain_boundary_bytes() {
    // the split happens at the first boundary; later CR LF pairs are body text
    let r = Response::parse_http_response(bytes("HTTP/1.1 200 OK\r\n\r\nline1\r\n\r\nline2"))
        .unwrap();
    assert_eq!(r.body, "line1\r\n\r\nline2");
}

#[test]
fn overlong_utf8_body_is_rejected() {
    // 0xC0 0xAF is an overlong encoding of '/'
    let mut input = bytes("HTTP/1.1 200 OK\r\n\r\n");
    input.push(0xc0);
    input.push(0xaf);
    let r = Response::parse_http_response(input);
    assert_eq!(r, Err(DockerApiError::InvalidBodyEncoding));
}

#[test]
fn surrogate_utf8_body_is_rejected() {
    // 0xED 0xA0 0x80 encodes the surrogate U+D800
    let mut input = bytes("HTTP/1.1 200 OK\r\n\r\n");
    input.push(0xed);
    input.push(0xa0);
    input.push(0x80);
    let r = Response::parse_http_response(input);
    assert_eq!(r, Err(DockerApiError::InvalidBodyEncoding));
}

#[test]
fn truncated_utf8_body_is_rejected() {
    // the leading byte of a two-byte encoding with nothing after it
    let mut input = bytes("HTTP/1.1 200 OK\r\n\r\nab");
    input.push(0xc3);
    let r = Response::parse_http_response(input);
    assert_eq!(r, Err(DockerApiError::InvalidBodyEncoding));
}

#[test]
fn four_byte_utf8_body_is_decoded() {
    let r = Response::parse_http_response(bytes("HTTP/1.1 200 OK\r\n\r\n\u{1f600}\u{10ffff}"))
        .unwrap();
    assert_eq!(r.body, "\u{1f600}\u{10ffff}");
}

#[test]
fn oversized_status_code_is_rejected() {
    let r = Response::parse_http_response(bytes(
        "HTTP/1.1 99999999999999999999999 Huge\r\n\r\nhello",
    ));
    assert_eq!(r, Err(DockerApiError::InvalidStatusLine));
}

#[test]
fn oversized_chunk_size_is_rejected() {
    let r = Response::parse_chunk(bytes("ffffffffffffffffff\r\nhello\r\n0\r\n\r\n"));
    assert_eq!(r, Err(DockerApiError::ChunkFramingError));
}
