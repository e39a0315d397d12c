//! A configuration-driven HTTP request router.
//!
//! The library builds a per-method routing table from a declarative list of
//! route entries, matches incoming request paths against it (literal and
//! named-parameter segments), and dispatches a matched request to a handler
//! registered under the route's controller name. A request that matches no
//! route under any method is answered 404; one whose path matches only under
//! other methods is answered 405 with an `Allow` header; one whose route
//! names an unregistered controller is answered 501.

pub mod config;
pub mod error;
pub mod handler;
pub mod matcher;
pub mod method;
pub mod pattern;
pub mod registry;
pub mod request;
pub mod response;
pub mod table;

pub use crate::config::{Config, Endpoint};
pub use crate::error::{ConflictError, RouterError};
pub use crate::handler::HttpHandler;
pub use crate::method::Method;
pub use crate::request::HttpRequest;
pub use crate::response::HttpResponse;

use vstd::prelude::*;
use vstd::utf8::encode_utf8;
use crate::matcher::{NodeModel, params_map};
use crate::method::{MethodModel, spec_token};
use crate::pattern::spec_segments;
use crate::registry::{HandlerRegistry, reg_find, lemma_reg_find};
use crate::table::{RouteTable, methods_allowed, spec_build, spec_table_lookup};
use crate::error::RouterErrorModel;

verus! {

/// The names under which handlers are registered, in registration order.
pub open spec fn reg_names<H>(items: Seq<(String, H)>) -> Seq<Seq<char>> {
    items.map_values(|e: (String, H)| e.0@)
}

/// What the dispatch state machine decides for a request, before any handler
/// runs: the terminal state and the data the response is built from.
pub enum Decision {
    /// No route matches the path under any method.
    NotFound,
    /// The path matches under other methods only; they populate `Allow`.
    MethodNotAllowed(Vec<Method>),
    /// A route matched but its controller name has no registered handler.
    NotImplemented(String),
    /// A route matched and its handler is registered: the controller name
    /// and the captured path parameters.
    Dispatched(String, Vec<(String, String)>),
}

/// Mathematical model of a [`Decision`].
pub ghost enum DecisionModel {
    NotFound,
    MethodNotAllowed(Seq<MethodModel>),
    NotImplemented(Seq<char>),
    Dispatched(Seq<char>, Map<Seq<char>, Seq<char>>),
}

impl View for Decision {
    type V = DecisionModel;

    open spec fn view(&self) -> DecisionModel {
        match self {
            Decision::NotFound => DecisionModel::NotFound,
            Decision::MethodNotAllowed(ms) => DecisionModel::MethodNotAllowed(
                ms@.map_values(|m: Method| m@),
            ),
            Decision::NotImplemented(c) => DecisionModel::NotImplemented(c@),
            Decision::Dispatched(c, ps) => DecisionModel::Dispatched(c@, params_map(ps@)),
        }
    }
}

/// The dispatch state machine: 405 when the path matches only under other
/// methods; otherwise 404 when nothing matches, 501 when the matched route's
/// controller is unregistered, and dispatch when it is registered. Identical
/// inputs always reach the same state.
pub open spec fn spec_decide(
    t: Seq<(MethodModel, NodeModel)>,
    names: Seq<Seq<char>>,
    m: MethodModel,
    path: Seq<char>,
) -> DecisionModel {
    let segs = spec_segments(path);
    let allow = methods_allowed(t, segs);
    if allow.len() > 0 && !allow.contains(m) {
        DecisionModel::MethodNotAllowed(allow)
    } else {
        match spec_table_lookup(t, m, segs) {
            Some(r) => if names.contains(r.0) {
                DecisionModel::Dispatched(r.0, r.1)
            } else {
                DecisionModel::NotImplemented(r.0)
            },
            None => DecisionModel::NotFound,
        }
    }
}

/// The text of an `Allow` header: the methods' tokens joined by `, ` in the
/// order given.
pub open spec fn join_tokens(ms: Seq<MethodModel>) -> Seq<char>
    decreases ms.len(),
{
    if ms.len() == 0 {
        Seq::empty()
    } else if ms.len() == 1 {
        spec_token(ms[0])
    } else {
        spec_token(ms[0]) + ", "@ + join_tokens(ms.drop_first())
    }
}

/// The diagnostic body of a 501 response for an unregistered controller.
pub open spec fn spec_missing_message(c: Seq<char>) -> Seq<char> {
    "Error: Handler for '"@ + c + "' is not implemented."@
}

/// Joins the methods' tokens with `, ` for an `Allow` header.
fn join_methods(ms: &Vec<Method>) -> (r: String)
    ensures
        r@ == join_tokens(ms@.map_values(|m: Method| m@)),
{
    let ghost model = ms@.map_values(|m: Method| m@);
    let mut r = String::new();
    let mut i: usize = 0;
    while i < ms.len()
        invariant
            0 <= i <= ms@.len(),
            model == ms@.map_values(|m: Method| m@),
            i == 0 ==> r@ =~= Seq::<char>::empty(),
            (0 < i < ms@.len()) ==> r@ + ", "@ + join_tokens(model.skip(i as int)) =~= join_tokens(
                model,
            ),
            (0 < i && i == ms@.len()) ==> r@ =~= join_tokens(model),
        decreases ms@.len() - i,
    {
        proof {
            assert(model.skip(i as int)[0] == model[i as int]);
            assert(model.skip(i as int).drop_first() =~= model.skip(i as int + 1));
        }
        if i > 0 {
            r.append(", ");
        }
        let tok = ms[i].as_str();
        r.append(tok.as_str());
        i = i + 1;
    }
    r
}

/// The router: the routing table built from the configuration, and the
/// registry binding controller names to handler capabilities. Built and
/// populated at startup, read-only while serving.
pub struct Router<H> {
    table: RouteTable,
    handlers: HandlerRegistry<H>,
}

impl<H: HttpHandler> Router<H> {
    /// The model of the routing table.
    pub closed spec fn table_model(&self) -> Seq<(MethodModel, NodeModel)> {
        self.table@
    }

    /// The registered (name, handler) pairs, in registration order.
    pub closed spec fn registry_model(&self) -> Seq<(String, H)> {
        self.handlers@
    }

    /// The registered controller names.
    pub open spec fn handler_names(&self) -> Seq<Seq<char>> {
        reg_names(self.registry_model())
    }

    /// Builds a router from a route list, with no handlers registered yet.
    /// Fails on the first conflicting route entry, exactly as
    /// [`spec_build`] describes.
    pub fn new(config: Config) -> (r: Result<Router<H>, RouterError>)
        ensures
            r is Ok ==> spec_build(Seq::empty(), config@, 0) == Ok::<_, RouterErrorModel>(
                r->Ok_0.table_model(),
            ) && r->Ok_0.handler_names() =~= Seq::<Seq<char>>::empty(),
            r is Err ==> spec_build(Seq::empty(), config@, 0) == Err::<
                Seq<(MethodModel, NodeModel)>,
                RouterErrorModel,
            >(r->Err_0@),
    {
        match RouteTable::build(config) {
            Ok(table) => {
                let router = Router { table, handlers: HandlerRegistry::new() };
                proof {
                    assert(router.handler_names() =~= Seq::<Seq<char>>::empty());
                }
                Ok(router)
            },
            Err(e) => Err(e),
        }
    }

    /// Registers a handler under a controller name, overwriting a previous
    /// registration of the same name: the last registration wins. Must run
    /// during setup, before requests are served.
    pub fn register(&mut self, controller_name: String, handler: H)
        ensures
            final(self).table_model() == old(self).table_model(),
            match reg_find(old(self).registry_model(), controller_name@) {
                Some(j) => final(self).registry_model() == old(self).registry_model().update(
                    j,
                    (controller_name, handler),
                ),
                None => final(self).registry_model() == old(self).registry_model().push(
                    (controller_name, handler),
                ),
            },
    {
        self.handlers.register(controller_name, handler);
    }

    /// Runs the dispatch state machine for a request, without invoking any
    /// handler: exactly [`spec_decide`] over the table and the registered
    /// names.
    pub fn decide(&self, method: &Method, path: &str) -> (d: Decision)
        ensures
            d@ == spec_decide(self.table_model(), self.handler_names(), method@, path@),
    {
        let ghost names = self.handler_names();
        let allow = self.table.methods_matching(path);
        let ghost allow_model = allow@.map_values(|m: Method| m@);
        let mut found = false;
        let mut j: usize = 0;
        while j < allow.len()
            invariant
                0 <= j <= allow@.len(),
                allow_model == allow@.map_values(|m: Method| m@),
                found ==> allow_model.contains(method@),
                !found ==> forall|k: int| 0 <= k < j ==> allow_model[k] != method@,
            decreases allow@.len() - j,
        {
            let hit = {
                let e = &allow[j];
                *e == *method
            };
            if hit {
                proof {
                    assert(allow_model[j as int] == allow@[j as int]@);
                }
                found = true;
            }
            j = j + 1;
        }
        proof {
            if !found {
                assert(!allow_model.contains(method@));
            }
        }
        if allow.len() > 0 && !found {
            return Decision::MethodNotAllowed(allow);
        }
        match self.table.lookup(method, path) {
            Some(p) => {
                let (c, ps) = p;
                let registered = self.handlers.resolve(c.as_str()).is_some();
                proof {
                    lemma_reg_find(self.registry_model(), c@);
                    match reg_find(self.registry_model(), c@) {
                        Some(jj) => {
                            assert(names[jj] == self.registry_model()[jj].0@);
                            assert(names.contains(c@));
                        },
                        None => {
                            if names.contains(c@) {
                                let w = choose|k: int| 0 <= k < names.len() && names[k] == c@;
                                assert(self.registry_model()[w].0@ == c@);
                            }
                        },
                    }
                }
                if registered {
                    Decision::Dispatched(c, ps)
                } else {
                    Decision::NotImplemented(c)
                }
            },
            None => Decision::NotFound,
        }
    }

    /// Dispatches a request: decides its terminal state, synthesizes the 404,
    /// 405 and 501 responses itself, and for a dispatched route invokes the
    /// registered handler on the request enriched with the captured
    /// parameters, returning the handler's response verbatim.
    pub fn route(&self, req: HttpRequest) -> (resp: HttpResponse)
        ensures
            ({
                let d = spec_decide(self.table_model(), self.handler_names(), req.method@, req.uri@);
                &&& d is NotFound ==> resp.status == 404 && resp.headers@.len() == 0
                    && resp.body@.len() == 0
                &&& d is MethodNotAllowed ==> resp.status == 405 && resp.body@.len() == 0
                    && resp.headers@.len() == 1 && resp.headers@[0].0@ == "Allow"@
                    && resp.headers@[0].1@ == join_tokens(d->MethodNotAllowed_0)
                &&& d is NotImplemented ==> resp.status == 501 && resp.headers@.len() == 0
                    && resp.body@ == encode_utf8(spec_missing_message(d->NotImplemented_0))
            }),
    {
        let d = self.decide(&req.method, req.uri.as_str());
        match d {
            Decision::NotFound => HttpResponse::new(404, Vec::new()),
            Decision::MethodNotAllowed(allow) => {
                // The list is set directly: a non-standard method's raw token
                // may hold characters the validating add_header would refuse,
                // and the 405 response always carries its Allow header.
                let allow_text = join_methods(&allow);
                let mut headers: Vec<(String, String)> = Vec::new();
                headers.push(("Allow".to_owned(), allow_text));
                HttpResponse::with_headers(405, headers, Vec::new())
            },
            Decision::NotImplemented(c) => {
                let mut msg = "Error: Handler for '".to_owned();
                msg.append(c.as_str());
                msg.append("' is not implemented.");
                proof {
                    assert(msg@ == spec_missing_message(c@));
                }
                let body = msg.as_str().as_bytes_vec();
                HttpResponse::new(501, body)
            },
            Decision::Dispatched(c, captured) => {
                match self.handlers.resolve(c.as_str()) {
                    Some(h) => {
                        let HttpRequest { uri, method, headers, params: _, body } = req;
                        let enriched = HttpRequest { uri, method, headers, params: captured, body };
                        h.handle(enriched)
                    },
                    None => {
                        proof {
                            lemma_reg_find(self.registry_model(), c@);
                            if self.handler_names().contains(c@) {
                                let w = choose|k: int|
                                    0 <= k < self.handler_names().len() && self.handler_names()[k]
                                        == c@;
                                assert(self.registry_model()[w].0@ == c@);
                            }
                            assert(false);
                        }
                        HttpResponse::new(500, Vec::new())
                    },
                }
            },
        }
    }
}

} // verus!
