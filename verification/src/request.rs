use vstd::prelude::*;
use crate::method::Method;

verus! {

/// An incoming HTTP request, as the transport adapter hands it to the router:
/// the request path, the method, the headers in wire order, the path
/// parameters the router captured (empty until a route matches), and the
/// body bytes.
pub struct HttpRequest {
    pub uri: String,
    pub method: Method,
    pub headers: Vec<(String, String)>,
    pub params: Vec<(String, String)>,
    pub body: Vec<u8>,
}

} // verus!
