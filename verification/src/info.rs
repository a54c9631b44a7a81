//! The service's self-description, answered at `/info`.

use vstd::prelude::*;

verus! {

/// The service's name, version and port.
#[derive(Debug, Clone)]
pub struct InfoResponse {
    pub service: String,
    pub version: String,
    pub port: String,
}

impl InfoResponse {
    /// The description of this service listening on `port`.
    pub fn new(port: String) -> (info: InfoResponse)
        ensures
            info.service@ == "cache-proxy-api"@,
            info.version@ == "0.1"@,
            info.port@ == port@,
    {
        InfoResponse { service: "cache-proxy-api".to_owned(), version: "0.1".to_owned(), port }
    }
}

} // verus!
