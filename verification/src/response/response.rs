//! A bare status-only response: the fixed texts for the two answers the
//! accept loop writes on its own.

use vstd::prelude::*;

verus! {

/// A response carrying nothing but a status code.
pub struct HttpResponse {
    pub status_code: u16,
}

impl HttpResponse {
    /// A response with the given status.
    pub fn new(status_code: u16) -> (r: Self)
        ensures
            r.status_code == status_code,
    {
        HttpResponse { status_code }
    }

    /// The fixed wire text: a success is written as such, anything else as
    /// a bad request.
    pub fn build(self) -> (r: String)
        ensures
            self.status_code == 200 ==> r@ == "HTTP/1.1 200 OK\r\n\r\n"@,
            self.status_code != 200 ==> r@ == "HTTP/1.1 400 Bad Request\r\n\r\n"@,
    {
        if self.status_code == 200 {
            self.ok()
        } else {
            self.bad_request()
        }
    }

    fn ok(self) -> (r: String)
        ensures
            r@ == "HTTP/1.1 200 OK\r\n\r\n"@,
    {
        "HTTP/1.1 200 OK\r\n\r\n".to_owned()
    }

    fn bad_request(self) -> (r: String)
        ensures
            r@ == "HTTP/1.1 400 Bad Request\r\n\r\n"@,
    {
        "HTTP/1.1 400 Bad Request\r\n\r\n".to_owned()
    }
}

} // verus!
