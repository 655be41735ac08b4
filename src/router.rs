//! Dispatch: resolves a request's method and path in the route table and
//! invokes the registered handler.
use vstd::prelude::*;
use crate::request::{Method, Request, method_named};
use crate::response::Response;
use crate::radix_tree::RadixTree;
use crate::route_model::{RouteNode, Lookup, lookup, inserted, leaf, path_segments};

verus! {

/// What `str::to_uppercase` makes of a string.
pub uninterp spec fn upper_of(s: Seq<char>) -> Seq<char>;

/// Relies on `str::to_uppercase`: the result depends on the characters alone.
#[verifier::external_body]
fn uppercase(s: &str) -> (r: String)
    ensures
        r@ == upper_of(s@),
{
    s.to_uppercase()
}

pub open spec fn unsupported_message(s: Seq<char>) -> Seq<char> {
    "Unsupported HTTP method: "@ + s
}

/// The method that `s` names, letters compared without regard to case.
pub fn string_to_method(s: &str) -> (r: Result<Method, String>)
    ensures
        match method_named(upper_of(s@)) {
            Some(m) => r matches Ok(x) && x == m,
            None => r matches Err(msg) && msg@ == unsupported_message(s@),
        },
{
    let upper = uppercase(s);
    match Method::from_name(upper.as_str()) {
        Some(m) => Ok(m),
        None => {
            let mut msg = String::from_str("Unsupported HTTP method: ");
            msg.append(s);
            Err(msg)
        },
    }
}

pub open spec fn not_found_body() -> Seq<char> {
    "404 Not Found"@
}

pub open spec fn bad_method_body() -> Seq<char> {
    "400 Bad Request - Invalid Method"@
}

/// Routes requests to handlers of type `H`.
pub struct Router<H> {
    routes: RadixTree<H>,
}

impl<H: Fn(Request) -> Response> Router<H> {
    /// The abstract route table.
    pub closed spec fn table(&self) -> RouteNode<H> {
        self.routes.root@
    }

    /// `r` is a response that routing `req` may give: 400 for a method that
    /// is not recognised, 404 when no route or no handler for the method
    /// matches, and otherwise what the handler returns for `req` with the
    /// captured parameters.
    pub open spec fn routed(&self, req: Request, r: Response) -> bool {
        match method_named(upper_of(req.status_line.method@)) {
            None => r.status == 400 && r.body@ == bad_method_body(),
            Some(m) => match lookup(self.table(), path_segments(req.status_line.path@), m) {
                Lookup::Found(h, p) => exists|q: Request|
                    q.status_line == req.status_line && q.headers == req.headers && q.body == req.body
                        && q.params@ == p && #[trigger] call_ensures(h, (q,), r),
                _ => r.status == 404 && r.body@ == not_found_body(),
            },
        }
    }

    pub fn new() -> (r: Self)
        ensures
            r.table() == leaf::<H>("/"@),
    {
        Router { routes: RadixTree::new() }
    }

    /// Registers `handler` for `method` (any letter case) on `path`.
    pub fn add_route(&mut self, method: &str, path: &str, handler: H) -> (r: Result<(), String>)
        ensures
            match method_named(upper_of(method@)) {
                Some(m) => r is Ok && final(self).table() == inserted(
                    old(self).table(),
                    path_segments(path@),
                    m,
                    handler,
                ),
                None => r matches Err(msg) && msg@ == unsupported_message(method@)
                    && final(self).table() == old(self).table(),
            },
    {
        match string_to_method(method) {
            Ok(m) => {
                self.routes.root.insert(path, m, handler);
                Ok(())
            },
            Err(e) => Err(e),
        }
    }

    /// Dispatches `req` and returns the response.
    pub fn route(&self, req: Request) -> (r: Response)
        requires
            forall|h: H, q: Request| call_requires(h, (q,)),
        ensures
            self.routed(req, r),
    {
        match string_to_method(req.status_line.method.as_str()) {
            Ok(method) => {
                match self.routes.root.match_route(req.status_line.path.as_str(), method) {
                    Ok(found) => {
                        let ghost given = req;
                        let mut q = req;
                        q.params = found.params;
                        let ghost sent = q;
                        let r = (found.handler)(q);
                        assert(sent.status_line == given.status_line && sent.headers
                            == given.headers && sent.body == given.body);
                        assert(call_ensures(*found.handler, (sent,), r));
                        r
                    },
                    Err(_) => Response::text(&String::from_str("404 Not Found")).with_status(404),
                }
            },
            Err(_) => Response::text(&String::from_str("400 Bad Request - Invalid Method")).with_status(
                400,
            ),
        }
    }
}

} // verus!
