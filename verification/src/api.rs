//! The client-facing layer over the codec: request formatting, the transport
//! capability trait, and the data model of the resource endpoints.

pub mod api_utils;
pub mod containers;
pub mod images;
pub mod version;

use vstd::prelude::*;

use crate::api::api_utils::format_request_spec;
use crate::api::api_utils::get_formatted_api_request;
use crate::errors::DockerApiError;
use crate::utils::parse_http_response_spec;
use crate::utils::parse_result_matches;
use crate::utils::Response;

verus! {

/// The capability an API client needs: one way to put request bytes on the
/// wire and get raw response bytes back. Implementations supply `request`;
/// the codec logic comes with the trait. Nothing is assumed of what
/// `request` returns, so everything proved of the provided method holds for
/// any transport.
pub trait DockerApiClient {
    /// Writes the formatted request to the daemon and returns the raw
    /// response bytes, or `None` on any transport failure.
    fn request(&self, request: &str) -> Option<Vec<u8>>;

    /// Formats the request for the given endpoint, method and body, sends
    /// it, and parses the response. An unsupported method is reported
    /// without touching the transport; a transport failure is
    /// `TransportIOFailure`; whatever bytes the transport hands back are
    /// parsed exactly as `parse_http_response_spec` describes.
    fn get_response_from_api(&self, api_endpoint: &str, method: &str, body: &str) -> (r: Result<
        Response,
        DockerApiError,
    >)
        ensures
            format_request_spec(api_endpoint@, method@, body@) is None ==> r == Err::<
                Response,
                DockerApiError,
            >(DockerApiError::RequestUnsupportedMethod),
            format_request_spec(api_endpoint@, method@, body@) is Some ==> (r == Err::<
                Response,
                DockerApiError,
            >(DockerApiError::TransportIOFailure) || exists|raw: Seq<u8>|
                parse_result_matches(r, #[trigger] parse_http_response_spec(raw))),
    {
        let req = match get_formatted_api_request(api_endpoint, method, body) {
            Some(req) => req,
            None => {
                return Err(DockerApiError::RequestUnsupportedMethod);
            },
        };
        match self.request(req.as_str()) {
            Some(resp) => {
                let ghost raw = resp@;
                let r = crate::utils::Response::parse_http_response(resp);
                proof {
                    assert(parse_result_matches(r, parse_http_response_spec(raw)));
                }
                r
            },
            None => Err(DockerApiError::TransportIOFailure),
        }
    }
}

} // verus!
