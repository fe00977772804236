//! The canned routing of the basic connection handler: the root path is
//! answered with a success, the sleep path with a success after a pause,
//! anything else is not found. Reading the stream, pausing and writing the
//! answer back are the embedding program's part.

use vstd::prelude::*;

use crate::request::http_request::HttpRequest;
use crate::response::response::HttpResponse;
use crate::text::str_eq;

verus! {

/// What the basic handler decides for a target path: whether to pause
/// before answering, and with which status.
pub open spec fn spec_process_request(target: Seq<char>) -> (bool, u16) {
    if target == "/"@ {
        (false, 200)
    } else if target == "/sleep"@ {
        (true, 200)
    } else {
        (false, 404)
    }
}

/// Decides the answer for one decoded request. The first component asks
/// the caller to pause before writing the response.
pub fn process_request(request: &HttpRequest) -> (r: (bool, HttpResponse))
    ensures
        r.0 == spec_process_request(request.target@).0,
        r.1.status_code == spec_process_request(request.target@).1,
{
    if str_eq(request.target.as_str(), "/") {
        (false, HttpResponse::new(200))
    } else if str_eq(request.target.as_str(), "/sleep") {
        (true, HttpResponse::new(200))
    } else {
        (false, HttpResponse::new(404))
    }
}

} // verus!
