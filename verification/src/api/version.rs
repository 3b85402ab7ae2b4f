//! The version endpoint of the daemon API: a GET of `/info` whose parsed
//! body is handed back as text.

use vstd::prelude::*;
use vstd::string::StringExecFns;

use crate::api::api_utils::get_formatted_api_request;
use crate::api::DockerApiClient;
use crate::utils::parse_http_response_spec;
use crate::utils::Response;

verus! {

/// The version-info operation, available on any client with a transport.
pub trait Version: DockerApiClient {
    /// Fetches `/info` and returns the parsed response body: on success the
    /// body text of a response that parses per `parse_http_response_spec`,
    /// else a message saying what went wrong.
    fn get_version_info(&self) -> (r: Result<String, String>)
        ensures
            r matches Ok(body) ==> exists|raw: Seq<u8>|
                {
                    &&& #[trigger] parse_http_response_spec(raw) matches Ok(m)
                    &&& m.body == body@
                },
            r matches Err(msg) ==> (msg@ == "Error while preparing request"@ || msg@
                == "Response body was not valid"@ || msg@ == "Got no response from docker host."@),
    {
        let req = match get_formatted_api_request("/info", "GET", "") {
            Some(req) => req,
            None => {
                return Err(String::from_str("Error while preparing request"));
            },
        };
        match self.request(req.as_str()) {
            Some(resp) => {
                let ghost raw = resp@;
                match Response::parse_http_response(resp) {
                    Ok(res) => {
                        proof {
                            assert(parse_http_response_spec(raw) matches Ok(m) && m.body
                                == res.body@);
                        }
                        Ok(res.body)
                    },
                    Err(_err) => Err(String::from_str("Response body was not valid")),
                }
            },
            None => Err(String::from_str("Got no response from docker host.")),
        }
    }
}

} // verus!
