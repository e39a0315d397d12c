use vstd::prelude::*;
use crate::method::{Method, MethodModel};

verus! {

/// One route entry of the configuration: a method, a path pattern with
/// literal and `:name` parameter segments, the controller name the route
/// dispatches to, and a human-readable description the core never reads.
pub struct Endpoint {
    pub method: Method,
    pub path: String,
    pub controller: String,
    pub description: String,
}

/// Mathematical model of an [`Endpoint`].
#[verifier::ext_equal]
pub ghost struct EndpointModel {
    pub method: MethodModel,
    pub path: Seq<char>,
    pub controller: Seq<char>,
    pub description: Seq<char>,
}

impl View for Endpoint {
    type V = EndpointModel;

    open spec fn view(&self) -> EndpointModel {
        EndpointModel {
            method: self.method@,
            path: self.path@,
            controller: self.controller@,
            description: self.description@,
        }
    }
}

/// The route list a router is built from, in registration order.
pub struct Config {
    pub endpoints: Vec<Endpoint>,
}

impl View for Config {
    type V = Seq<EndpointModel>;

    open spec fn view(&self) -> Seq<EndpointModel> {
        self.endpoints@.map_values(|e: Endpoint| e@)
    }
}

} // verus!
