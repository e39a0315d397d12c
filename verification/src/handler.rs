use vstd::prelude::*;
use crate::request::HttpRequest;
use crate::response::HttpResponse;

verus! {

/// A handler capability: anything that turns a matched request into a
/// response can be registered under a controller name. The router promises
/// nothing about the response a handler produces; it hands it back verbatim.
pub trait HttpHandler {
    /// Handles one request, already enriched with the captured path
    /// parameters, and produces the response to send back.
    fn handle(&self, req: HttpRequest) -> HttpResponse;
}

} // verus!
