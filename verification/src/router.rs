use vstd::prelude::*;

use crate::http::request::{HttpRequest, Method, MethodView};
use crate::http::response::{HttpResponse, text_response};
use crate::http::status::StatusCode;

verus! {

struct Route<H> {
    method: Method,
    path: String,
    handler: H,
}

/// Routes requests by method and path to handlers, in the order the routes were added.
pub struct Router<H> {
    routes: Vec<Route<H>>,
}

/// Two methods match when they are the same known method; an unknown method matches nothing.
pub open spec fn methods_match_spec(a: MethodView, b: MethodView) -> bool {
    a == b && !(a is Unknown)
}

/// The route keyed by `key` serves a request with method `m` for path `p`.
pub open spec fn route_serves(key: (MethodView, Seq<char>), m: MethodView, p: Seq<char>) -> bool {
    key.1 == p && methods_match_spec(key.0, m)
}

/// The first route, at or after `from`, that serves method `m` for path `p`.
pub open spec fn first_route_from(
    keys: Seq<(MethodView, Seq<char>)>,
    m: MethodView,
    p: Seq<char>,
    from: int,
) -> Option<int>
    decreases keys.len() - from,
{
    if from < 0 || from >= keys.len() {
        None
    } else if route_serves(keys[from], m, p) {
        Some(from)
    } else {
        first_route_from(keys, m, p, from + 1)
    }
}

/// The first route that serves method `m` for path `p`.
pub open spec fn first_route(keys: Seq<(MethodView, Seq<char>)>, m: MethodView, p: Seq<char>) -> Option<
    int,
> {
    first_route_from(keys, m, p, 0)
}

/// The route that `first_route_from` picks serves the request, and no route before it,
/// from `from` on, does; where it picks none, no route from `from` on serves the request.
pub proof fn lemma_first_route_from(
    keys: Seq<(MethodView, Seq<char>)>,
    m: MethodView,
    p: Seq<char>,
    from: int,
)
    requires
        0 <= from,
    ensures
        match first_route_from(keys, m, p, from) {
            Some(i) => from <= i < keys.len() && route_serves(keys[i], m, p) && forall|j: int|
                from <= j < i ==> !route_serves(#[trigger] keys[j], m, p),
            None => forall|j: int| from <= j < keys.len() ==> !route_serves(#[trigger] keys[j], m, p),
        },
    decreases keys.len() - from,
{
    if from < keys.len() && !route_serves(keys[from], m, p) {
        lemma_first_route_from(keys, m, p, from + 1);
    }
}

/// A route serves a request only when the request has exactly the route's method and path:
/// the route chosen for a request has the request's method, which is a known method, and its
/// path; no earlier route has both; and where none is chosen, no route has both.
pub proof fn lemma_chosen_route_matches_exactly(
    keys: Seq<(MethodView, Seq<char>)>,
    m: MethodView,
    p: Seq<char>,
)
    ensures
        match first_route(keys, m, p) {
            Some(i) => 0 <= i < keys.len() && keys[i].0 == m && keys[i].1 == p && !(m is Unknown)
                && forall|j: int| 0 <= j < i ==> !(#[trigger] keys[j].0 == m && keys[j].1 == p),
            None => forall|j: int|
                0 <= j < keys.len() ==> !(#[trigger] keys[j].0 == m && keys[j].1 == p && !(
                m is Unknown)),
        },
{
    lemma_first_route_from(keys, m, p, 0);
    match first_route(keys, m, p) {
        Some(i) => {
            assert forall|j: int| 0 <= j < i implies !(#[trigger] keys[j].0 == m && keys[j].1 == p) by {
                assert(!route_serves(keys[j], m, p));
            }
        },
        None => {
            assert forall|j: int| 0 <= j < keys.len() implies !(#[trigger] keys[j].0 == m
                && keys[j].1 == p && !(m is Unknown)) by {
                assert(!route_serves(keys[j], m, p));
            }
        },
    }
}

/// A request with a method the server does not know is never routed.
pub proof fn lemma_unknown_method_unrouted(
    keys: Seq<(MethodView, Seq<char>)>,
    name: Seq<char>,
    p: Seq<char>,
)
    ensures
        first_route(keys, MethodView::Unknown(name), p) is None,
{
    lemma_first_route_from(keys, MethodView::Unknown(name), p, 0);
    if let Some(i) = first_route(keys, MethodView::Unknown(name), p) {
        assert(route_serves(keys[i], MethodView::Unknown(name), p));
    }
}

/// Routes are tried in the order they were added: adding a route never changes the answer
/// to a request that an earlier route serves, and the new route serves exactly the requests
/// for its method and path that no earlier route served.
pub proof fn lemma_route_added_last(
    keys: Seq<(MethodView, Seq<char>)>,
    key: (MethodView, Seq<char>),
    m: MethodView,
    p: Seq<char>,
)
    ensures
        first_route(keys, m, p) is Some ==> first_route(keys.push(key), m, p) == first_route(
            keys,
            m,
            p,
        ),
        first_route(keys, m, p) is None ==> first_route(keys.push(key), m, p) == (if route_serves(
            key,
            m,
            p,
        ) {
            Some(keys.len() as int)
        } else {
            None
        }),
{
    let ks = keys.push(key);
    lemma_first_route_from(keys, m, p, 0);
    lemma_first_route_from(ks, m, p, 0);
    match first_route(keys, m, p) {
        Some(i) => {
            assert(ks[i] == keys[i]);
            match first_route(ks, m, p) {
                Some(j) => {
                    if j < i {
                        assert(ks[j] == keys[j]);
                    }
                },
                None => {},
            }
        },
        None => {
            match first_route(ks, m, p) {
                Some(j) => {
                    if j < keys.len() {
                        assert(ks[j] == keys[j]);
                    }
                },
                None => {
                    assert(ks[keys.len() as int] == key);
                },
            }
        },
    }
}

/// Whether two methods are the same known method.
fn methods_match(a: &Method, b: &Method) -> (r: bool)
    ensures
        r == methods_match_spec(a@, b@),
{
    match (a, b) {
        (Method::Get, Method::Get) => true,
        (Method::Post, Method::Post) => true,
        (Method::Put, Method::Put) => true,
        (Method::Delete, Method::Delete) => true,
        (Method::Head, Method::Head) => true,
        (Method::Options, Method::Options) => true,
        (Method::Patch, Method::Patch) => true,
        _ => false,
    }
}

impl<H> Router<H> {
    /// The method and path of each route, in order.
    pub closed spec fn route_keys(&self) -> Seq<(MethodView, Seq<char>)> {
        self.routes@.map_values(|r: Route<H>| (r.method@, r.path@))
    }

    /// The handler of each route, in order.
    pub closed spec fn handlers(&self) -> Seq<H> {
        self.routes@.map_values(|r: Route<H>| r.handler)
    }

    /// There is one handler for each route.
    pub proof fn lemma_handlers_len(&self)
        ensures
            self.handlers().len() == self.route_keys().len(),
    {
    }

    /// A router with no routes.
    pub fn new() -> (r: Router<H>)
        ensures
            r.route_keys() == Seq::<(MethodView, Seq<char>)>::empty(),
            r.handlers() == Seq::<H>::empty(),
    {
        let r = Router { routes: Vec::new() };
        assert(r.route_keys() =~= Seq::<(MethodView, Seq<char>)>::empty());
        assert(r.handlers() =~= Seq::<H>::empty());
        r
    }

    fn add(self, method: Method, path: &str, handler: H) -> (r: Router<H>)
        ensures
            r.route_keys() == self.route_keys().push((method@, path@)),
            r.handlers() == self.handlers().push(handler),
    {
        let mut r = self;
        r.routes.push(Route { method, path: String::from_str(path), handler });
        assert(r.route_keys() =~= self.route_keys().push((method@, path@)));
        assert(r.handlers() =~= self.handlers().push(handler));
        r
    }

    /// The router with a route for `GET path` added last.
    pub fn get(self, path: &str, handler: H) -> (r: Router<H>)
        ensures
            r.route_keys() == self.route_keys().push((MethodView::Get, path@)),
            r.handlers() == self.handlers().push(handler),
    {
        self.add(Method::Get, path, handler)
    }

    /// The router with a route for `POST path` added last.
    pub fn post(self, path: &str, handler: H) -> (r: Router<H>)
        ensures
            r.route_keys() == self.route_keys().push((MethodView::Post, path@)),
            r.handlers() == self.handlers().push(handler),
    {
        self.add(Method::Post, path, handler)
    }

    /// The router with a route for `PUT path` added last.
    pub fn put(self, path: &str, handler: H) -> (r: Router<H>)
        ensures
            r.route_keys() == self.route_keys().push((MethodView::Put, path@)),
            r.handlers() == self.handlers().push(handler),
    {
        self.add(Method::Put, path, handler)
    }

    /// The router with a route for `DELETE path` added last.
    pub fn delete(self, path: &str, handler: H) -> (r: Router<H>)
        ensures
            r.route_keys() == self.route_keys().push((MethodView::Delete, path@)),
            r.handlers() == self.handlers().push(handler),
    {
        self.add(Method::Delete, path, handler)
    }

    /// The position of the first route that serves the request's method and path.
    pub fn find_route(&self, method: &Method, path: &String) -> (r: Option<usize>)
        ensures
            match r {
                Some(i) => first_route(self.route_keys(), method@, path@) == Some(i as int)
                    && self.route_keys()[i as int].0 == method@ && self.route_keys()[i as int].1
                    == path@,
                None => first_route(self.route_keys(), method@, path@) is None,
            },
    {
        proof {
            lemma_chosen_route_matches_exactly(self.route_keys(), method@, path@);
        }
        let ghost keys = self.route_keys();
        let mut i: usize = 0;
        while i < self.routes.len()
            invariant
                keys == self.route_keys(),
                keys.len() == self.routes@.len(),
                i <= keys.len(),
                first_route(keys, method@, path@) == first_route_from(keys, method@, path@, i as int),
            decreases self.routes.len() - i,
        {
            let route = &self.routes[i];
            assert(keys[i as int] == (route.method@, route.path@));
            if route.path == *path && methods_match(&route.method, method) {
                return Some(i);
            }
            i = i + 1;
        }
        None
    }
}

impl<H: Fn(HttpRequest) -> HttpResponse> Router<H> {
    /// Every handler accepts `request`.
    pub open spec fn accepts(&self, request: HttpRequest) -> bool {
        forall|i: int| 0 <= i < self.handlers().len() ==> call_requires(
            #[trigger] self.handlers()[i],
            (request,),
        )
    }

    /// Answers a request with the handler of the first route for its method and path,
    /// or with `404 Not Found` where no route serves it.
    pub fn handle(&self, request: HttpRequest) -> (res: HttpResponse)
        requires
            self.accepts(request),
        ensures
            match first_route(self.route_keys(), request@.method, request@.path) {
                Some(i) => call_ensures(self.handlers()[i], (request,), res)
                    && self.route_keys()[i].0 == request@.method && self.route_keys()[i].1
                    == request@.path,
                None => res@ == text_response(StatusCode::NotFound, "404 Not Found"@),
            },
    {
        proof {
            lemma_chosen_route_matches_exactly(self.route_keys(), request@.method, request@.path);
        }
        match self.find_route(&request.method, &request.path) {
            Some(i) => {
                proof {
                    self.lemma_handlers_len();
                    lemma_first_route_from(self.route_keys(), request@.method, request@.path, 0);
                }
                let handler = &self.routes[i].handler;
                assert(*handler == self.handlers()[i as int]);
                handler(request)
            },
            None => HttpResponse::not_found(),
        }
    }
}

} // verus!
