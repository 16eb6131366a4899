//! The connection handler: from the bytes that a client sent to the bytes that
//! go back to it. Parse, route, encode, in that order.

use std::sync::Arc;
use vstd::prelude::*;
use crate::headers::Headers;
use crate::http::{ParseError, Status, StatusCode};
use crate::request::{parse, Request};
use crate::response::{built, wire, Response, ResponseView};
use crate::router::Router;

verus! {

/// The response to input that holds no request.
pub open spec fn bad_request() -> ResponseView {
    built(StatusCode::BadRequest, "Bad Request"@, "Bad Request"@, Seq::empty())
}

/// The response that a routing result carries, be it a success or an error.
pub open spec fn settled(result: Result<Response, Response>) -> Response {
    match result {
        Ok(response) => response,
        Err(response) => response,
    }
}

/// A server around a finished routing table.
pub struct HttpServer<H> {
    router: Arc<Router<H>>,
}

impl<H: Fn(Request) -> Result<Response, Response>> HttpServer<H> {
    /// The routing table of this server.
    pub closed spec fn router(&self) -> Router<H> {
        *self.router
    }

    /// A server that answers by the table `router`.
    pub fn new(router: Arc<Router<H>>) -> (r: Self)
        ensures
            r.router() == *router,
    {
        HttpServer { router }
    }

    /// The response to input that could not be parsed: always the same 400.
    pub fn reject(_error: ParseError) -> (r: Response)
        ensures
            r@ == bad_request(),
    {
        Response::builder(
            Status { code: StatusCode::BadRequest, message: "Bad Request".to_string() },
            "Bad Request".to_string(),
            Headers::new(),
        )
    }

    /// The bytes that answer a request, given what the router returned for it.
    pub fn reply(result: Result<Response, Response>) -> (r: Vec<u8>)
        ensures
            r@ == wire(settled(result)@),
    {
        match result {
            Ok(response) => response.to_bytes(),
            Err(response) => response.to_bytes(),
        }
    }

    /// Answers one connection: `input` is what the client sent, the result is
    /// what goes back. Input that holds no request is answered with the 400
    /// response; a request is answered with what the router returns for it.
    pub fn handle_client(&self, input: &[u8]) -> (r: Vec<u8>)
        requires
            self.router().wf(),
        ensures
            match parse(input@) {
                Err(_) => r@ == wire(bad_request()),
                Ok(parsed) => exists|request: Request, result: Result<Response, Response>|
                    request@ == parsed && #[trigger] self.router().routes_to(request, result) && r@
                        == wire(settled(result)@),
            },
    {
        match Request::builder(input) {
            Err(error) => Self::reject(error).to_bytes(),
            Ok(request) => {
                let result = self.router.route(request);
                Self::reply(result)
            },
        }
    }
}

} // verus!
