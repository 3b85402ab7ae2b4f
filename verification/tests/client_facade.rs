use rust_docker::api::version::Version;
use rust_docker::api::DockerApiClient;
use rust_docker::errors::DockerApiError;
use rust_docker::utils::validate_unix_socket_address;

/// A transport stand-in that replays one canned response.
struct CannedClient {
    response: Option<Vec<u8>>,
}

impl DockerApiClient for CannedClient {
    fn request(&self, _request: &str) -> Option<Vec<u8>> {
        self.response.clone()
    }
}

impl Version for CannedClient {}

#[test]
fn facade_parses_transport_bytes() {
    let client = CannedClient {
        response: Some(b"HTTP/1.1 200 OK\r\nContent-Type: text/plain\r\n\r\nok".to_vec()),
    };
    let resp = client.get_response_from_api("/info", "GET", "").unwrap();
    assert_eq!(resp.status_code, 200);
    assert_eq!(resp.body, "ok");
}

#[test]
fn facade_rejects_unsupported_method() {
    let client = CannedClient { response: Some(b"HTTP/1.1 200 OK\r\n\r\n".to_vec()) };
    let r = client.get_response_from_api("/info", "PUT", "");
    assert_eq!(r, Err(DockerApiError::RequestUnsupportedMethod));
}

#[test]
fn facade_reports_transport_failure() {
    let client = CannedClient { response: None };
    let r = client.get_response_from_api("/info", "GET", "");
    assert_eq!(r, Err(DockerApiError::TransportIOFailure));
}

#[test]
fn facade_propagates_parse_errors() {
    let client = CannedClient { response: Some(b"no boundary here".to_vec()) };
    let r = client.get_response_from_api("/info", "GET", "");
    assert_eq!(r, Err(DockerApiError::MalformedResponse));
}

#[test]
fn version_info_returns_body() {
    let client = CannedClient {
        response: Some(b"HTTP/1.1 200 OK\r\n\r\n{\"Version\":\"20.10\"}".to_vec()),
    };
    let info = client.get_version_info().unwrap();
    assert_eq!(info, "{\"Version\":\"20.10\"}");
}

#[test]
fn version_info_reports_missing_response() {
    let client = CannedClient { response: None };
    let r = client.get_version_info();
    assert_eq!(r, Err(String::from("Got no response from docker host.")));
}

#[test]
fn address_with_scheme_is_split() {
    let parts = validate_unix_socket_address("unix:///var/run/docker.sock").unwrap();
    assert_eq!(parts, vec!["unix", "/var/run/docker.sock"]);
}

#[test]
fn bare_path_gets_default_scheme() {
    let parts = validate_unix_socket_address("/var/run/docker.sock").unwrap();
    assert_eq!(parts, vec!["unix", "/var/run/docker.sock"]);
}

#[test]
fn wrong_scheme_is_rejected() {
    assert!(validate_unix_socket_address("tcp://127.0.0.1:2375").is_none());
    assert!(validate_unix_socket_address("UNIX:///var/run/docker.sock").is_none());
}

#[test]
fn double_separator_is_rejected() {
    assert!(validate_unix_socket_address("unix://a://b").is_none());
}

#[test]
fn empty_address_is_bare_path() {
    let parts = validate_unix_socket_address("").unwrap();
    assert_eq!(parts, vec!["unix", ""]);
}
