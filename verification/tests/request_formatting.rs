use rust_docker::api::api_utils::get_formatted_api_request;

#[test]
fn get_request_shape() {
    let req = get_formatted_api_request("/info", "GET", "").unwrap();
    let first_line = req.split("\r\n").next().unwrap();
    assert_eq!(first_line, "GET /info HTTP/1.1");
    assert!(req.contains("Host: v1.37\r\n"));
    assert!(req.ends_with("\r\n\r\n"));
}

#[test]
fn get_request_appends_query_suffix() {
    let req = get_formatted_api_request("/containers/json", "GET", "?all=true").unwrap();
    assert_eq!(
        req,
        "GET /containers/json?all=true HTTP/1.1\r\nHost: v1.37\r\n\r\n"
    );
}

#[test]
fn unsupported_method_yields_nothing() {
    assert!(get_formatted_api_request("/x", "PUT", "").is_none());
    assert!(get_formatted_api_request("/x", "DELETE", "").is_none());
    assert!(get_formatted_api_request("/x", "", "").is_none());
}

#[test]
fn method_match_ignores_ascii_case() {
    assert!(get_formatted_api_request("/x", "get", "").is_some());
    assert!(get_formatted_api_request("/x", "GeT", "").is_some());
    assert!(get_formatted_api_request("/x", "pOsT", "{}").is_some());
    assert!(get_formatted_api_request("/x", "g\u{e9}t", "").is_none());
}

#[test]
fn post_request_shape() {
    let body = "{\"Image\":\"x\"}";
    let req = get_formatted_api_request("/containers/create?name=a", "POST", body).unwrap();
    assert_eq!(
        req,
        "POST /containers/create?name=a HTTP/1.1\r\nHost: v1.37\r\nContent-Length: 13\r\nContent-Type: application/json\r\n\r\n{\"Image\":\"x\"}\r\n\r\n"
    );
}

#[test]
fn post_content_length_counts_bytes_not_chars() {
    // four characters, seven bytes in UTF-8
    let body = "ab\u{e9}\u{20ac}";
    assert_eq!(body.chars().count(), 4);
    assert_eq!(body.len(), 7);
    let req = get_formatted_api_request("/x", "POST", body).unwrap();
    assert!(req.contains("Content-Length: 7\r\n"));
}

#[test]
fn post_content_length_multidigit() {
    let body = "0123456789012345678901234"; // 25 bytes
    let req = get_formatted_api_request("/x", "POST", body).unwrap();
    assert!(req.contains("Content-Length: 25\r\n"));
}
