//! The router: a table of (method, path prefix) registrations, each with its
//! handler.
//!
//! Prefixes may overlap, so matching alone can leave several registrations for
//! one request. The choice among them is part of the contract and does not
//! depend on how the table is stored: a request goes to the registration with
//! the longest prefix that matches it, and of two equally long ones to the one
//! registered first. The router only dispatches; what a handler makes of the
//! rest of the path is the handler's business.

use vstd::prelude::*;
use crate::headers::Headers;
use crate::http::{RequestMethod, Status, StatusCode};
use crate::request::Request;
use crate::response::{built, Response, ResponseView};
use crate::text::{lemma_prefix_lengths, str_eq, str_starts_with};

verus! {

/// What a registration is known by: its method and its path prefix.
pub type RouteKey = (RequestMethod, Seq<char>);

/// Whether the registration `key` matches a request for `path` with `method`.
/// The methods must be the same. The prefix `/` matches the path `/` alone;
/// any other prefix matches every path that begins with it.
pub open spec fn route_matches(key: RouteKey, method: RequestMethod, path: Seq<char>) -> bool {
    key.0 == method && if key.1 == "/"@ {
        path == "/"@
    } else {
        key.1.is_prefix_of(path)
    }
}

/// The registration among the first `n` of `keys` to which a request goes: a
/// later one takes over only where its prefix is longer.
pub open spec fn resolved_among(
    keys: Seq<RouteKey>,
    method: RequestMethod,
    path: Seq<char>,
    n: int,
) -> Option<int>
    decreases n,
{
    if n <= 0 {
        None
    } else {
        let earlier = resolved_among(keys, method, path, n - 1);
        if route_matches(keys[n - 1], method, path) && (earlier is None || keys[earlier.unwrap()].1.len()
            < keys[n - 1].1.len()) {
            Some(n - 1)
        } else {
            earlier
        }
    }
}

/// The index of the registration to which a request goes, if any matches.
pub open spec fn resolved(keys: Seq<RouteKey>, method: RequestMethod, path: Seq<char>) -> Option<
    int,
> {
    resolved_among(keys, method, path, keys.len() as int)
}

/// Whether `i` is the matching registration with the longest prefix and,
/// among those with a prefix of that length, the first.
pub open spec fn is_best_match(
    keys: Seq<RouteKey>,
    method: RequestMethod,
    path: Seq<char>,
    n: int,
    i: int,
) -> bool {
    &&& 0 <= i < n
    &&& route_matches(keys[i], method, path)
    &&& forall|j: int|
        0 <= j < n && route_matches(#[trigger] keys[j], method, path) ==> keys[j].1.len()
            < keys[i].1.len() || (keys[j].1.len() == keys[i].1.len() && i <= j)
}

/// A request goes to the longest matching prefix, first-registered among
/// equals; it goes nowhere exactly when no registration matches.
pub proof fn lemma_resolved_among(
    keys: Seq<RouteKey>,
    method: RequestMethod,
    path: Seq<char>,
    n: int,
)
    requires
        0 <= n <= keys.len(),
    ensures
        match resolved_among(keys, method, path, n) {
            Some(i) => is_best_match(keys, method, path, n, i),
            None => forall|j: int| 0 <= j < n ==> !route_matches(#[trigger] keys[j], method, path),
        },
    decreases n,
{
    if n > 0 {
        lemma_resolved_among(keys, method, path, n - 1);
    }
}

/// Longest-prefix resolution over the whole table.
pub proof fn lemma_resolved(keys: Seq<RouteKey>, method: RequestMethod, path: Seq<char>)
    ensures
        match resolved(keys, method, path) {
            Some(i) => is_best_match(keys, method, path, keys.len() as int, i),
            None => forall|j: int|
                0 <= j < keys.len() ==> !route_matches(#[trigger] keys[j], method, path),
        },
{
    lemma_resolved_among(keys, method, path, keys.len() as int);
}

/// The other way round: the registration with the longest matching prefix,
/// first-registered among equals, is the one to which the request goes.
pub proof fn lemma_best_match_resolved(
    keys: Seq<RouteKey>,
    method: RequestMethod,
    path: Seq<char>,
    i: int,
)
    requires
        is_best_match(keys, method, path, keys.len() as int, i),
    ensures
        resolved(keys, method, path) == Some(i),
{
    lemma_resolved(keys, method, path);
}

/// Of two registrations with one method and one prefix the later never
/// answers: the first registered wins the tie.
pub proof fn lemma_first_registered_wins(
    keys: Seq<RouteKey>,
    method: RequestMethod,
    path: Seq<char>,
    i: int,
    j: int,
)
    requires
        0 <= i < j < keys.len(),
        keys[i] == keys[j],
    ensures
        resolved(keys, method, path) != Some(j),
{
    lemma_resolved(keys, method, path);
}

/// A registration never serves a request made with another method.
pub proof fn lemma_method_sensitive(
    keys: Seq<RouteKey>,
    method: RequestMethod,
    path: Seq<char>,
)
    ensures
        forall|j: int| 0 <= j < keys.len() && (#[trigger] keys[j]).0 != method ==> resolved(
            keys,
            method,
            path,
        ) != Some(j),
        (forall|j: int| 0 <= j < keys.len() ==> (#[trigger] keys[j]).0 != method) ==> resolved(
            keys,
            method,
            path,
        ) is None,
{
    lemma_resolved(keys, method, path);
}

/// Index of the first of `prefixes` at or after `start` with which `target`
/// begins, or `prefixes.len()` if there is none.
pub open spec fn first_prefix_from(prefixes: Seq<Seq<char>>, target: Seq<char>, start: int) -> int
    decreases prefixes.len() - start,
{
    if start < 0 || start >= prefixes.len() {
        prefixes.len() as int
    } else if prefixes[start].is_prefix_of(target) {
        start
    } else {
        first_prefix_from(prefixes, target, start + 1)
    }
}

/// The first of `prefixes` with which `target` begins, and `target` itself
/// where there is none.
pub open spec fn leading_prefix(prefixes: Seq<Seq<char>>, target: Seq<char>) -> Seq<char> {
    let i = first_prefix_from(prefixes, target, 0);
    if 0 <= i < prefixes.len() {
        prefixes[i]
    } else {
        target
    }
}

/// The response to a request that no registration matches.
pub open spec fn not_found() -> ResponseView {
    built(StatusCode::NotFound, "Not Found"@, "404 Not Found"@, Seq::empty())
}

struct Route<H> {
    method: RequestMethod,
    prefix: String,
    handler: H,
}

/// The table of registrations. It is built once, with `add_route`, and only
/// read afterwards.
pub struct Router<H> {
    routes: Vec<Route<H>>,
}

impl<H: Fn(Request) -> Result<Response, Response>> Router<H> {
    /// The registrations, in the order in which they were made.
    pub closed spec fn keys(&self) -> Seq<RouteKey> {
        Seq::new(self.routes@.len(), |i: int| (self.routes@[i].method, self.routes@[i].prefix@))
    }

    /// The handlers, each at the index of its registration.
    pub closed spec fn handlers(&self) -> Seq<H> {
        Seq::new(self.routes@.len(), |i: int| self.routes@[i].handler)
    }

    /// Every registration has its handler, and every handler takes every
    /// request.
    pub open spec fn wf(&self) -> bool {
        &&& self.keys().len() == self.handlers().len()
        &&& forall|i: int, request: Request|
            0 <= i < self.handlers().len() ==> #[trigger] call_requires(
                self.handlers()[i],
                (request,),
            )
    }

    /// What `route` may return for `req`: what the handler of the registration
    /// that `req` goes to may return for it, and the 404 response, as an error,
    /// where no registration matches.
    pub open spec fn routes_to(&self, req: Request, r: Result<Response, Response>) -> bool {
        match resolved(self.keys(), req.method, req.target@) {
            Some(i) => call_ensures(self.handlers()[i], (req,), r),
            None => r matches Err(response) && response@ == not_found(),
        }
    }

    /// The empty table.
    pub fn new() -> (r: Self)
        ensures
            r.keys() == Seq::<RouteKey>::empty(),
            r.handlers() == Seq::<H>::empty(),
            r.wf(),
    {
        let r = Router { routes: Vec::new() };
        r
    }

    /// Registers `handler` for requests with `method` whose path begins with
    /// `path`. The registration goes to the end of the table, behind every
    /// earlier one; where the same method and prefix are registered again,
    /// the earlier registration keeps answering.
    pub fn add_route(&mut self, method: RequestMethod, path: &str, handler: H)
        requires
            old(self).wf(),
            forall|request: Request| call_requires(handler, (request,)),
        ensures
            final(self).wf(),
            final(self).keys() == old(self).keys().push((method, path@)),
            final(self).handlers() == old(self).handlers().push(handler),
    {
        self.routes.push(Route { method, prefix: path.to_owned(), handler });
        assert(self.handlers() =~= old(self).handlers().push(handler));
    }

    /// The index of the registration to which a request for `path` with
    /// `method` goes.
    pub fn resolve(&self, method: &RequestMethod, path: &str) -> (r: Option<usize>)
        ensures
            match r {
                Some(i) => resolved(self.keys(), *method, path@) == Some(i as int),
                None => resolved(self.keys(), *method, path@) is None,
            },
            r matches Some(i) ==> i < self.keys().len(),
    {
        let ghost keys = self.keys();
        let mut best: Option<usize> = None;
        let mut best_len: usize = 0;
        let mut i: usize = 0;
        while i < self.routes.len()
            invariant
                i <= self.routes@.len(),
                keys == self.keys(),
                keys.len() == self.routes@.len(),
                match best {
                    Some(b) => {
                        &&& resolved_among(keys, *method, path@, i as int) == Some(b as int)
                        &&& b < i
                        &&& route_matches(keys[b as int], *method, path@)
                        &&& best_len == vstd::utf8::encode_utf8(keys[b as int].1).len()
                    },
                    None => resolved_among(keys, *method, path@, i as int) is None,
                },
            decreases self.routes.len() - i,
        {
            let route = &self.routes[i];
            let hit = route.method == *method && if str_eq(route.prefix.as_str(), "/") {
                str_eq(path, "/")
            } else {
                str_starts_with(path, route.prefix.as_str())
            };
            if hit {
                let len = route.prefix.as_str().as_bytes().len();
                let longer = match best {
                    Some(b) => {
                        proof {
                            lemma_prefix_lengths(keys[b as int].1, keys[i as int].1, path@);
                        }
                        best_len < len
                    },
                    None => true,
                };
                if longer {
                    best = Some(i);
                    best_len = len;
                }
            }
            i += 1;
        }
        best
    }

    /// The handler to which a request for `prefix` with `method` goes.
    pub fn contains_prefix(&self, method: &RequestMethod, prefix: &str) -> (r: Option<&H>)
        ensures
            match r {
                Some(handler) => resolved(self.keys(), *method, prefix@) is Some && *handler
                    == self.handlers()[resolved(self.keys(), *method, prefix@).unwrap()],
                None => resolved(self.keys(), *method, prefix@) is None,
            },
    {
        match self.resolve(method, prefix) {
            Some(i) => Some(&self.routes[i].handler),
            None => None,
        }
    }

    /// Hands the request to the handler of the registration that it goes to,
    /// and returns what the handler returns. A request that no registration
    /// matches gets the 404 response, as an error.
    pub fn route(&self, req: Request) -> (r: Result<Response, Response>)
        requires
            self.wf(),
        ensures
            self.routes_to(req, r),
    {
        match self.resolve(&req.method, req.target.as_str()) {
            Some(i) => {
                assert(call_requires(self.handlers()[i as int], (req,)));
                let handler = &self.routes[i].handler;
                handler(req)
            },
            None => Err(
                Response::builder(
                    Status { code: StatusCode::NotFound, message: "Not Found".to_string() },
                    "404 Not Found".to_string(),
                    Headers::new(),
                ),
            ),
        }
    }

    /// The path prefixes of all registrations, in the order in which they
    /// were made.
    pub fn get_prefixes(&self) -> (r: Vec<String>)
        ensures
            r@.len() == self.keys().len(),
            forall|i: int| 0 <= i < r@.len() ==> r@[i]@ == self.keys()[i].1,
    {
        let mut prefixes: Vec<String> = Vec::new();
        let mut i: usize = 0;
        while i < self.routes.len()
            invariant
                i <= self.routes@.len(),
                prefixes@.len() == i,
                forall|j: int| 0 <= j < i ==> prefixes@[j]@ == self.routes@[j].prefix@,
            decreases self.routes.len() - i,
        {
            prefixes.push(self.routes[i].prefix.clone());
            i += 1;
        }
        prefixes
    }

    /// The first of `prefixes` with which `target` begins.
    pub fn find_prefix<'a>(target: &'a str, prefixes: &'a [String]) -> (r: Option<&'a str>)
        ensures
            ({
                let names = Seq::new(prefixes@.len(), |i: int| prefixes@[i]@);
                let at = first_prefix_from(names, target@, 0);
                match r {
                    Some(prefix) => 0 <= at < names.len() && prefix@ == names[at],
                    None => at == names.len(),
                }
            }),
    {
        let ghost names = Seq::new(prefixes@.len(), |i: int| prefixes@[i]@);
        let mut i: usize = 0;
        while i < prefixes.len()
            invariant
                i <= prefixes@.len(),
                names == Seq::new(prefixes@.len(), |i: int| prefixes@[i]@),
                first_prefix_from(names, target@, 0) == first_prefix_from(names, target@, i as int),
            decreases prefixes.len() - i,
        {
            if str_starts_with(target, prefixes[i].as_str()) {
                return Some(prefixes[i].as_str());
            }
            i += 1;
        }
        None
    }

    /// The registered prefix under which `path` falls: the first registered
    /// one with which it begins, or `path` itself where there is none.
    pub fn parse_target(&self, path: String) -> (r: String)
        ensures
            r@ == leading_prefix(Seq::new(self.keys().len(), |i: int| self.keys()[i].1), path@),
    {
        let prefixes = self.get_prefixes();
        proof {
            assert(Seq::new(prefixes@.len(), |i: int| prefixes@[i]@) =~= Seq::new(
                self.keys().len(),
                |i: int| self.keys()[i].1,
            ));
        }
        let found = match Self::find_prefix(path.as_str(), prefixes.as_slice()) {
            Some(prefix) => Some(prefix.to_owned()),
            None => None,
        };
        match found {
            Some(prefix) => prefix,
            None => path,
        }
    }
}

} // verus!
