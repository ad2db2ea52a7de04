//! The admin service: a router from paths to handlers, and its replies.
use crate::http::{
    body_bytes, boxed, empty_body, form_pairs, from_parts, into_parts, pair_views, parse_form,
    parts_headers, parts_status, reply_body, reply_head, text_body, text_head, with_status, Body,
};
use crate::string_map::{
    law_prefixed_keeps_count, law_prefixed_lookup, law_prefixed_twice, lemma_prefixed_insert,
    prefixed, StringMap,
};
use std::sync::Arc;
use tonic::codegen::http::{Method, Response};
use vstd::multiset::Multiset;
use vstd::prelude::*;
use vstd::utf8::encode_utf8;

verus! {

/// The name under which the admin service is registered.
pub const NAME: &'static str = "admin";

/// The status of a reply to a path without a handler.
pub const NOT_FOUND: u16 = 404;

/// The status of a reply of a handler that failed.
pub const INTERNAL_SERVER_ERROR: u16 = 500;

/// The parameters of a query string.
pub type Params = StringMap<String>;

/// Answers requests.
pub trait HttpHandler {
    /// Answers a request to `path`. An error is given as its text.
    fn handle(&self, path: &str, method: Method, params: &Params) -> Result<
        Response<String>,
        String,
    >;
}

/// Whether a path can be routed: it starts with a slash.
pub open spec fn is_valid_path(path: Seq<char>) -> bool {
    path.len() > 0 && path[0] == '/'
}

/// Returns whether a path can be routed: paths must start with a `/`.
pub fn check_path(path: &str) -> (valid: bool)
    ensures
        valid == is_valid_path(path@),
        valid <==> path@.len() > 0 && path@[0] == '/',
{
    path.unicode_len() > 0 && path.get_char(0) == '/'
}

/// The texts that strings hold.
pub open spec fn texts(params: Map<Seq<char>, String>) -> Map<Seq<char>, Seq<char>> {
    params.map_values(|text: String| text@)
}

/// What pairs map their first to, where the last of equal pairs counts.
pub open spec fn collected(pairs: Seq<(Seq<char>, Seq<char>)>) -> Map<Seq<char>, Seq<char>>
    decreases pairs.len(),
{
    if pairs.len() == 0 {
        Map::empty()
    } else {
        collected(pairs.drop_last()).insert(pairs.last().0, pairs.last().1)
    }
}

/// Collects pairs into parameters: of pairs with one name the last counts.
pub fn collect_params(pairs: Vec<(String, String)>) -> (params: Params)
    ensures
        texts(params@) == collected(pair_views(pairs@)),
        forall|i: int|
            #![trigger pairs@[i]]
            0 <= i < pairs@.len() && (forall|j: int|
                i < j < pairs@.len() ==> (#[trigger] pairs@[j]).0@ != pairs@[i].0@)
                ==> params@.contains_key(pairs@[i].0@) && params@[pairs@[i].0@]@
                == pairs@[i].1@,
        forall|name: Seq<char>| #[trigger]
            params@.contains_key(name) ==> exists|i: int|
                0 <= i < pairs@.len() && (#[trigger] pairs@[i]).0@ == name,
{
    let ghost all = pairs@;
    let mut params = StringMap::new();
    assert(texts(params@) =~= Map::<Seq<char>, Seq<char>>::empty());
    for pair in reader: pairs.into_iter()
        invariant
            reader.seq() == all,
            texts(params@) == collected(pair_views(all.take(reader.index()))),
    {
        let ghost at = reader.index();
        let ghost before = params@;
        let (name, value) = pair;
        proof {
            assert(all[at] == pair);
            assert(pair_views(all.take(at + 1)).drop_last() =~= pair_views(all.take(at)));
            assert(texts(before.insert(name@, value)) =~= texts(before).insert(name@, value@));
        }
        params = params.insert(name, value);
    }
    assert(all.take(all.len() as int) =~= all);
    proof {
        let views = pair_views(all);
        assert forall|i: int|
            #![trigger all[i]]
            0 <= i < all.len() && (forall|j: int|
                i < j < all.len() ==> (#[trigger] all[j]).0@ != all[i].0@) implies params@.contains_key(
            all[i].0@,
        ) && params@[all[i].0@]@ == all[i].1@ by {
            assert forall|j: int| i < j < views.len() implies (#[trigger] views[j]).0
                != views[i].0 by {
                assert(all[j].0@ != all[i].0@);
            }
            law_last_parameter_counts(views, i);
            assert(texts(params@).contains_key(views[i].0));
        }
        assert forall|name: Seq<char>| #[trigger] params@.contains_key(name) implies exists|i: int|
            0 <= i < all.len() && (#[trigger] all[i]).0@ == name by {
            assert(texts(params@).contains_key(name));
            if forall|i: int| 0 <= i < views.len() ==> (#[trigger] views[i]).0 != name {
                law_only_given_parameters(views, name);
            }
            let i = choose|i: int| 0 <= i < views.len() && (#[trigger] views[i]).0 == name;
            assert(all[i].0@ == name);
        }
    }
    params
}

/// The parameters of a query string, or of none.
pub open spec fn params_of(query: Option<&str>) -> Map<Seq<char>, Seq<char>> {
    match query {
        Some(query) => collected(form_pairs(encode_utf8(query@))),
        None => Map::empty(),
    }
}

/// Returns the parameters of a query string, or none where there is none.
pub fn query_params(query: Option<&str>) -> (params: Params)
    ensures
        texts(params@) == params_of(query),
        query matches Some(text) && text@.len() == 0 ==> params@ == Map::<
            Seq<char>,
            String,
        >::empty(),
        query is None ==> params@ == Map::<Seq<char>, String>::empty(),
        query matches Some(text) ==> {
            let pairs = form_pairs(encode_utf8(text@));
            &&& forall|i: int|
                #![trigger pairs[i]]
                0 <= i < pairs.len() && (forall|j: int|
                    i < j < pairs.len() ==> (#[trigger] pairs[j]).0 != pairs[i].0)
                    ==> params@.contains_key(pairs[i].0) && params@[pairs[i].0]@ == pairs[i].1
            &&& forall|name: Seq<char>| #[trigger]
                params@.contains_key(name) ==> exists|i: int|
                    0 <= i < pairs.len() && (#[trigger] pairs[i]).0 == name
        },
{
    match query {
        Some(query) => {
            let params = collect_params(parse_form(query.as_bytes()));
            proof {
                let pairs = form_pairs(encode_utf8(query@));
                assert forall|i: int|
                    #![trigger pairs[i]]
                    0 <= i < pairs.len() && (forall|j: int|
                        i < j < pairs.len() ==> (#[trigger] pairs[j]).0
                            != pairs[i].0) implies params@.contains_key(pairs[i].0)
                    && params@[pairs[i].0]@ == pairs[i].1 by {
                    law_last_parameter_counts(pairs, i);
                    assert(texts(params@).contains_key(pairs[i].0));
                }
                assert forall|name: Seq<char>| #[trigger]
                    params@.contains_key(name) implies exists|i: int|
                    0 <= i < pairs.len() && (#[trigger] pairs[i]).0 == name by {
                    assert(texts(params@).contains_key(name));
                    if forall|i: int| 0 <= i < pairs.len() ==> (#[trigger] pairs[i]).0 != name {
                        law_only_given_parameters(pairs, name);
                    }
                }
            }
            params
        },
        None => {
            let params = StringMap::new();
            assert(texts(params@) =~= Map::<Seq<char>, Seq<char>>::empty());
            params
        },
    }
}

/// Whether a reply has a status, no headers, and a body of those bytes.
pub open spec fn is_plain_reply(reply: Response<Body>, status: u16, bytes: Seq<u8>) -> bool {
    &&& parts_status(reply_head(reply)) == status
    &&& parts_headers(reply_head(reply)) == Multiset::<(Seq<char>, Seq<u8>)>::empty()
    &&& body_bytes(reply_body(reply)) == bytes
}

/// Whether `reply` is the reply to a request that a handler answered with
/// `outcome`: the handler's own head and text, or an internal server error with
/// the text of the error.
pub open spec fn is_reply(
    outcome: Result<Response<String>, String>,
    reply: Response<Body>,
) -> bool {
    match outcome {
        Ok(response) => {
            &&& reply_head(reply) == text_head(response)
            &&& body_bytes(reply_body(reply)) == encode_utf8(text_body(response))
        },
        Err(error) => is_plain_reply(reply, INTERNAL_SERVER_ERROR, encode_utf8(error@)),
    }
}

/// Replies with what a handler answered.
pub fn respond(outcome: Result<Response<String>, String>) -> (reply: Response<Body>)
    ensures
        is_reply(outcome, reply),
        outcome matches Ok(response) ==> reply_head(reply) == text_head(response) && body_bytes(
            reply_body(reply),
        ) == encode_utf8(text_body(response)),
        outcome matches Err(error) ==> parts_status(reply_head(reply)) == 500 && parts_headers(reply_head(reply)) == Multiset::<
            (Seq<char>, Seq<u8>),
        >::empty() && body_bytes(reply_body(reply)) == encode_utf8(error@),
{
    match outcome {
        Ok(response) => {
            let (head, body) = into_parts(response);
            from_parts(head, boxed(body))
        },
        Err(error) => with_status(INTERNAL_SERVER_ERROR, boxed(error)),
    }
}

/// Replies that there is no handler.
pub fn not_found() -> (reply: Response<Body>)
    ensures
        is_plain_reply(reply, NOT_FOUND, Seq::<u8>::empty()),
        parts_status(reply_head(reply)) == 404 && parts_headers(reply_head(reply)) == Multiset::<
            (Seq<char>, Seq<u8>),
        >::empty() && body_bytes(reply_body(reply)) == Seq::<u8>::empty(),
{
    with_status(NOT_FOUND, empty_body())
}

/// Routes requests to handlers by their paths.
#[derive(Debug)]
pub struct Router<H> {
    handlers: StringMap<H>,
}

impl<H> View for Router<H> {
    type V = Map<Seq<char>, H>;

    closed spec fn view(&self) -> Map<Seq<char>, H> {
        self.handlers@
    }
}

impl<H> Router<H> {
    /// Creates a router without handlers.
    pub fn new() -> (router: Self)
        ensures
            router@ == Map::<Seq<char>, H>::empty(),
    {
        Router { handlers: StringMap::new() }
    }

    /// Creates a router with the handlers of `router`, each under `path`
    /// followed by its own path.
    pub fn nest(path: &str, router: Router<H>) -> (nested: Self)
        requires
            is_valid_path(path@),
        ensures
            nested@ == prefixed(router@, path@),
            forall|url: Seq<char>| #[trigger]
                router@.contains_key(url) ==> nested@.contains_key(path@ + url) && nested@[path@
                    + url] == router@[url],
            forall|url: Seq<char>| #[trigger]
                nested@.contains_key(url) ==> {
                    let rest = url.skip(path@.len() as int);
                    url == path@ + rest && router@.contains_key(rest)
                },
    {
        Router { handlers: router.handlers.with_prefix(path) }
    }

    /// Adds a handler. It takes the place of an earlier one under `path`.
    pub fn route(self, path: &str, handler: H) -> (router: Self)
        requires
            is_valid_path(path@),
        ensures
            router@ == self@.insert(path@, handler),
    {
        Router { handlers: self.handlers.insert(path.to_owned(), handler) }
    }

    /// Returns the handler under a path.
    pub fn lookup(&self, path: &str) -> (handler: Option<&H>)
        ensures
            match handler {
                Some(h) => self@.contains_key(path@) && *h == self@[path@],
                None => !self@.contains_key(path@),
            },
    {
        self.handlers.get(path)
    }

    /// Returns the number of handlers.
    pub fn len(&self) -> (len: usize)
        ensures
            self@.dom().finite(),
            len == self@.dom().len(),
    {
        self.handlers.len()
    }

    /// Whether `reply` is the reply of this router to a request: that to what
    /// the handler of the path answers, or that there is none.
    pub open spec fn replies(
        self,
        path: &str,
        method: Method,
        params: &Params,
        reply: Response<Body>,
    ) -> bool where H: HttpHandler {
        if self@.contains_key(path@) {
            exists|outcome: Result<Response<String>, String>|
                {
                    &&& #[trigger] call_ensures(
                        H::handle,
                        (&self@[path@], path, method, params),
                        outcome,
                    )
                    &&& is_reply(outcome, reply)
                }
        } else {
            is_plain_reply(reply, NOT_FOUND, Seq::<u8>::empty())
        }
    }

    /// Answers a request with the handler of its path.
    pub fn call(&self, path: &str, method: Method, params: Params) -> (reply: Response<Body>) where
        H: HttpHandler,

        ensures
            self.replies(path, method, &params, reply),
            !self@.contains_key(path@) ==> parts_status(reply_head(reply)) == 404 && parts_headers(
                reply_head(reply),
            ) == Multiset::<(Seq<char>, Seq<u8>)>::empty() && body_bytes(reply_body(reply))
                == Seq::<u8>::empty(),
            self@.contains_key(path@) ==> exists|outcome: Result<Response<String>, String>|
                {
                    &&& #[trigger] call_ensures(
                        H::handle,
                        (&self@[path@], path, method, &params),
                        outcome,
                    )
                    &&& outcome matches Ok(response) ==> reply_head(reply) == text_head(response)
                        && body_bytes(reply_body(reply)) == encode_utf8(text_body(response))
                    &&& outcome matches Err(error) ==> parts_status(reply_head(reply)) == 500
                        && parts_headers(reply_head(reply)) == Multiset::<
                        (Seq<char>, Seq<u8>),
                    >::empty() && body_bytes(reply_body(reply)) == encode_utf8(error@)
                },
    {
        match self.lookup(path) {
            Some(handler) => {
                let outcome = handler.handle(path, method, &params);
                assert(call_ensures(H::handle, (&self@[path@], path, method, &params), outcome));
                respond(outcome)
            },
            None => not_found(),
        }
    }
}

impl<H> Default for Router<H> {
    /// Creates a router without handlers.
    fn default() -> (router: Self)
        ensures
            router@ == Map::<Seq<char>, H>::empty(),
    {
        Router::new()
    }
}

/// The admin service.
#[derive(Debug)]
pub struct Admin<H> {
    router: Arc<Router<H>>,
}

impl<H> Admin<H> {
    /// The router of the service.
    pub closed spec fn spec_router(self) -> Router<H> {
        *self.router
    }

    /// Creates the service of a router.
    pub fn new(router: Router<H>) -> (admin: Self)
        ensures
            admin.spec_router() == router,
    {
        Admin { router: Arc::new(router) }
    }

    /// Returns the router of the service.
    pub fn router(&self) -> (router: &Arc<Router<H>>)
        ensures
            **router == self.spec_router(),
    {
        &self.router
    }

    /// Answers a request to `path` with a query string or without.
    pub fn call(&self, path: &str, query: Option<&str>, method: Method) -> (reply: Response<
        Body,
    >) where H: HttpHandler
        ensures
            exists|params: &Params|
                {
                    &&& #[trigger] self.spec_router().replies(path, method, params, reply)
                    &&& texts(params@) == params_of(query)
                },
            !self.spec_router()@.contains_key(path@) ==> parts_status(reply_head(reply)) == 404
                && parts_headers(reply_head(reply)) == Multiset::<(Seq<char>, Seq<u8>)>::empty()
                && body_bytes(reply_body(reply)) == Seq::<u8>::empty(),
            self.spec_router()@.contains_key(path@) ==> exists|
                params: &Params,
                outcome: Result<Response<String>, String>,
            |
                {
                    &&& #[trigger] call_ensures(
                        H::handle,
                        (&self.spec_router()@[path@], path, method, params),
                        outcome,
                    )
                    &&& outcome matches Ok(response) ==> reply_head(reply) == text_head(response)
                        && body_bytes(reply_body(reply)) == encode_utf8(text_body(response))
                    &&& outcome matches Err(error) ==> parts_status(reply_head(reply)) == 500
                        && parts_headers(reply_head(reply)) == Multiset::<
                        (Seq<char>, Seq<u8>),
                    >::empty() && body_bytes(reply_body(reply)) == encode_utf8(error@)
                    &&& query is None ==> params@ == Map::<Seq<char>, String>::empty()
                    &&& query matches Some(text) ==> {
                        let pairs = form_pairs(encode_utf8(text@));
                        &&& forall|i: int|
                            #![trigger pairs[i]]
                            0 <= i < pairs.len() && (forall|j: int|
                                i < j < pairs.len() ==> (#[trigger] pairs[j]).0 != pairs[i].0)
                                ==> params@.contains_key(pairs[i].0) && params@[pairs[i].0]@
                                == pairs[i].1
                        &&& forall|name: Seq<char>| #[trigger]
                            params@.contains_key(name) ==> exists|i: int|
                                0 <= i < pairs.len() && (#[trigger] pairs[i]).0 == name
                    }
                },
    {
        let params = query_params(query);
        let ghost given = params;
        let reply = self.router.call(path, method, params);
        assert(self.spec_router().replies(path, method, &given, reply));
        reply
    }
}

impl<H> Clone for Admin<H> {
    /// Shares the router.
    fn clone(&self) -> (admin: Self)
        ensures
            admin == *self,
    {
        Admin { router: Arc::clone(&self.router) }
    }
}

/// The handlers of the admin service under their paths, where `heartbeat_copy`
/// is a copy of the heartbeat handler.
pub open spec fn admin_routes<H>(
    health: H,
    node_lease: H,
    heartbeat: H,
    heartbeat_copy: H,
    leader: H,
    maintenance: H,
) -> Map<Seq<char>, H> {
    Map::<Seq<char>, H>::empty().insert("/admin/health"@, health).insert(
        "/admin/node-lease"@,
        node_lease,
    ).insert("/admin/heartbeat"@, heartbeat_copy).insert("/admin/heartbeat/help"@, heartbeat).insert(
        "/admin/leader"@,
        leader,
    ).insert("/admin/maintenance"@, maintenance)
}

/// Creates the admin service out of its handlers. The heartbeat handler also
/// answers requests for help about it.
pub fn make_admin_service<H: Clone>(
    health: H,
    node_lease: H,
    heartbeat: H,
    leader: H,
    maintenance: H,
) -> (admin: Admin<H>)
    ensures
        exists|copy: H| #[trigger]
            cloned(heartbeat, copy) && admin.spec_router()@ == admin_routes(
                health,
                node_lease,
                heartbeat,
                copy,
                leader,
                maintenance,
            ),
        ({
            let routes = admin.spec_router()@;
            &&& routes.contains_key("/admin/health"@) && routes["/admin/health"@] == health
            &&& routes.contains_key("/admin/node-lease"@) && routes["/admin/node-lease"@]
                == node_lease
            &&& routes.contains_key("/admin/heartbeat"@) && cloned(
                heartbeat,
                routes["/admin/heartbeat"@],
            )
            &&& routes.contains_key("/admin/heartbeat/help"@) && routes["/admin/heartbeat/help"@]
                == heartbeat
            &&& routes.contains_key("/admin/leader"@) && routes["/admin/leader"@] == leader
            &&& routes.contains_key("/admin/maintenance"@) && routes["/admin/maintenance"@]
                == maintenance
            &&& forall|path: Seq<char>| #[trigger]
                routes.contains_key(path) ==> path == "/admin/health"@ || path
                    == "/admin/node-lease"@ || path == "/admin/heartbeat"@ || path
                    == "/admin/heartbeat/help"@ || path == "/admin/leader"@ || path
                    == "/admin/maintenance"@
        }),
{
    proof {
        reveal_strlit("/admin");
        reveal_strlit("/health");
        reveal_strlit("/node-lease");
        reveal_strlit("/heartbeat");
        reveal_strlit("/heartbeat/help");
        reveal_strlit("/leader");
        reveal_strlit("/maintenance");
        reveal_strlit("/admin/health");
        reveal_strlit("/admin/node-lease");
        reveal_strlit("/admin/heartbeat");
        reveal_strlit("/admin/heartbeat/help");
        reveal_strlit("/admin/leader");
        reveal_strlit("/admin/maintenance");
    }
    let heartbeat_copy = heartbeat.clone();
    let router = Router::new().route("/health", health);
    let router = router.route("/node-lease", node_lease);
    let router = router.route("/heartbeat", heartbeat_copy).route("/heartbeat/help", heartbeat);
    let router = router.route("/leader", leader);
    let router = router.route("/maintenance", maintenance);
    let router = Router::nest("/admin", router);
    proof {
        let top = "/admin"@;
        let none = Map::<Seq<char>, H>::empty();
        let one = none.insert("/health"@, health);
        let two = one.insert("/node-lease"@, node_lease);
        let three = two.insert("/heartbeat"@, heartbeat_copy);
        let four = three.insert("/heartbeat/help"@, heartbeat);
        let five = four.insert("/leader"@, leader);
        assert(prefixed(none, top) =~= none);
        lemma_prefixed_insert(none, top, "/health"@, health);
        lemma_prefixed_insert(one, top, "/node-lease"@, node_lease);
        lemma_prefixed_insert(two, top, "/heartbeat"@, heartbeat_copy);
        lemma_prefixed_insert(three, top, "/heartbeat/help"@, heartbeat);
        lemma_prefixed_insert(four, top, "/leader"@, leader);
        lemma_prefixed_insert(five, top, "/maintenance"@, maintenance);
        assert(top + "/health"@ =~= "/admin/health"@);
        assert(top + "/node-lease"@ =~= "/admin/node-lease"@);
        assert(top + "/heartbeat"@ =~= "/admin/heartbeat"@);
        assert(top + "/heartbeat/help"@ =~= "/admin/heartbeat/help"@);
        assert(top + "/leader"@ =~= "/admin/leader"@);
        assert(top + "/maintenance"@ =~= "/admin/maintenance"@);
        assert(cloned(heartbeat, heartbeat_copy));
        // The paths differ.
        assert("/admin/health"@.len() == 13);
        assert("/admin/node-lease"@.len() == 17);
        assert("/admin/heartbeat"@.len() == 16);
        assert("/admin/heartbeat/help"@.len() == 21);
        assert("/admin/leader"@.len() == 13);
        assert("/admin/maintenance"@.len() == 18);
        assert("/admin/health"@[7] == 'h');
        assert("/admin/leader"@[7] == 'l');
    }
    Admin::new(router)
}

/// A nested handler is found under the path that it is nested under followed by
/// its own, and nothing is found elsewhere.
pub proof fn law_nested_handlers_are_found<H>(
    router: Router<H>,
    path: Seq<char>,
    nested: Router<H>,
    url: Seq<char>,
)
    requires
        nested@ == prefixed(router@, path),
    ensures
        nested@.contains_key(path + url) <==> router@.contains_key(url),
        router@.contains_key(url) ==> nested@[path + url] == router@[url],
        nested@.contains_key(url) ==> path.is_prefix_of(url) && router@.contains_key(
            url.skip(path.len() as int),
        ),
{
    law_prefixed_lookup(router@, path, url);
}

/// Nesting keeps the number of handlers.
pub proof fn law_nesting_keeps_count<H>(router: Router<H>, path: Seq<char>, nested: Router<H>)
    requires
        router@.dom().finite(),
        nested@ == prefixed(router@, path),
    ensures
        nested@.dom().finite(),
        nested@.dom().len() == router@.dom().len(),
{
    law_prefixed_keeps_count(router@, path);
}

/// Nesting twice is nesting once under both paths, the outer first.
pub proof fn law_nesting_twice<H>(
    router: Router<H>,
    inner: Seq<char>,
    middle: Router<H>,
    outer: Seq<char>,
    nested: Router<H>,
)
    requires
        middle@ == prefixed(router@, inner),
        nested@ == prefixed(middle@, outer),
    ensures
        nested@ == prefixed(router@, outer + inner),
{
    law_prefixed_twice(router@, inner, outer);
}

/// Every path of a nested router can be routed.
pub proof fn law_nested_paths_are_valid<H>(router: Router<H>, path: Seq<char>, nested: Router<H>)
    requires
        is_valid_path(path),
        nested@ == prefixed(router@, path),
    ensures
        forall|url: Seq<char>| #[trigger] nested@.contains_key(url) ==> is_valid_path(url),
{
}

/// A handler that was added is found under its path, and every other path finds
/// what it found before.
pub proof fn law_route_adds_one_path<H>(
    before: Router<H>,
    path: Seq<char>,
    handler: H,
    after: Router<H>,
    other: Seq<char>,
)
    requires
        after@ == before@.insert(path, handler),
        other != path,
    ensures
        after@.contains_key(path) && after@[path] == handler,
        after@.contains_key(other) == before@.contains_key(other),
        before@.contains_key(other) ==> after@[other] == before@[other],
{
}

/// A request to a path without a handler is answered as not found, whatever its
/// method and parameters, with an empty body.
pub proof fn law_unknown_path_is_not_found<H: HttpHandler>(
    router: Router<H>,
    path: &str,
    method: Method,
    params: &Params,
    reply: Response<Body>,
)
    requires
        !router@.contains_key(path@),
        router.replies(path, method, params, reply),
    ensures
        is_plain_reply(reply, NOT_FOUND, Seq::<u8>::empty()),
{
}

/// A handler that fails on a request with one error only makes the reply an
/// internal server error with the text of that error.
pub proof fn law_failed_handler_is_server_error<H: HttpHandler>(
    router: Router<H>,
    path: &str,
    method: Method,
    params: &Params,
    error: String,
    reply: Response<Body>,
)
    requires
        router@.contains_key(path@),
        forall|outcome: Result<Response<String>, String>| #[trigger]
            call_ensures(H::handle, (&router@[path@], path, method, params), outcome) ==> outcome
                == Err::<Response<String>, String>(error),
        router.replies(path, method, params, reply),
    ensures
        is_plain_reply(reply, INTERNAL_SERVER_ERROR, encode_utf8(error@)),
{
}

/// Of parameters with one name the last counts.
pub proof fn law_last_parameter_counts(pairs: Seq<(Seq<char>, Seq<char>)>, i: int)
    requires
        0 <= i < pairs.len(),
        forall|j: int| i < j < pairs.len() ==> (#[trigger] pairs[j]).0 != pairs[i].0,
    ensures
        collected(pairs).contains_key(pairs[i].0),
        collected(pairs)[pairs[i].0] == pairs[i].1,
    decreases pairs.len(),
{
    let rest = pairs.drop_last();
    if i < rest.len() {
        assert(pairs[pairs.len() - 1].0 != pairs[i].0);
        law_last_parameter_counts(rest, i);
    }
}

/// There are no other parameters than those of the pairs.
pub proof fn law_only_given_parameters(pairs: Seq<(Seq<char>, Seq<char>)>, name: Seq<char>)
    requires
        forall|i: int| 0 <= i < pairs.len() ==> (#[trigger] pairs[i]).0 != name,
    ensures
        !collected(pairs).contains_key(name),
    decreases pairs.len(),
{
    if pairs.len() > 0 {
        assert(pairs[pairs.len() - 1].0 != name);
        law_only_given_parameters(pairs.drop_last(), name);
    }
}

/// A reply of a router to a request is that to an answer of the handler of the
/// path, asked with just this path, method and parameters: the answer's head and
/// the bytes of its text, or status 500 with the bytes of the error's text. To a
/// path without a handler it is status 404 without a body.
pub proof fn law_reply_is_the_handlers<H: HttpHandler>(
    router: Router<H>,
    path: &str,
    method: Method,
    params: &Params,
    reply: Response<Body>,
)
    requires
        router.replies(path, method, params, reply),
    ensures
        !router@.contains_key(path@) ==> parts_status(reply_head(reply)) == 404 && parts_headers(
            reply_head(reply),
        ) == Multiset::<(Seq<char>, Seq<u8>)>::empty() && body_bytes(reply_body(reply)) == Seq::<
            u8,
        >::empty(),
        router@.contains_key(path@) ==> exists|outcome: Result<Response<String>, String>|
            {
                &&& #[trigger] call_ensures(
                    H::handle,
                    (&router@[path@], path, method, params),
                    outcome,
                )
                &&& outcome matches Ok(response) ==> reply_head(reply) == text_head(response)
                    && body_bytes(reply_body(reply)) == encode_utf8(text_body(response))
                &&& outcome matches Err(error) ==> parts_status(reply_head(reply)) == 500
                    && parts_headers(reply_head(reply)) == Multiset::<
                    (Seq<char>, Seq<u8>),
                >::empty() && body_bytes(reply_body(reply)) == encode_utf8(error@)
            },
{
}

/// The parameters of a query are the pairs that it stands for: under each name
/// the value of the last pair of that name, and no other names. A request
/// without a query has none.
pub proof fn law_parameters_are_the_querys(query: &str, name: Seq<char>, i: int)
    requires
        0 <= i < form_pairs(encode_utf8(query@)).len(),
        forall|j: int|
            i < j < form_pairs(encode_utf8(query@)).len() ==> (#[trigger] form_pairs(
                encode_utf8(query@),
            )[j]).0 != form_pairs(encode_utf8(query@))[i].0,
    ensures
        ({
            let pairs = form_pairs(encode_utf8(query@));
            let params = params_of(Some(query));
            &&& params.contains_key(pairs[i].0) && params[pairs[i].0] == pairs[i].1
            &&& params.contains_key(name) ==> exists|j: int|
                0 <= j < pairs.len() && (#[trigger] pairs[j]).0 == name
        }),
        params_of(None) == Map::<Seq<char>, Seq<char>>::empty(),
{
    let pairs = form_pairs(encode_utf8(query@));
    law_last_parameter_counts(pairs, i);
    if forall|j: int| 0 <= j < pairs.len() ==> (#[trigger] pairs[j]).0 != name {
        law_only_given_parameters(pairs, name);
    }
}

/// Each handler of the admin service stands under its own path, and there are no
/// other paths.
pub proof fn law_admin_paths<H>(
    health: H,
    node_lease: H,
    heartbeat: H,
    heartbeat_copy: H,
    leader: H,
    maintenance: H,
)
    ensures
        ({
            let routes = admin_routes(
                health,
                node_lease,
                heartbeat,
                heartbeat_copy,
                leader,
                maintenance,
            );
            &&& routes.contains_key("/admin/health"@) && routes["/admin/health"@] == health
            &&& routes.contains_key("/admin/node-lease"@) && routes["/admin/node-lease"@]
                == node_lease
            &&& routes.contains_key("/admin/heartbeat"@) && routes["/admin/heartbeat"@]
                == heartbeat_copy
            &&& routes.contains_key("/admin/heartbeat/help"@) && routes["/admin/heartbeat/help"@]
                == heartbeat
            &&& routes.contains_key("/admin/leader"@) && routes["/admin/leader"@] == leader
            &&& routes.contains_key("/admin/maintenance"@) && routes["/admin/maintenance"@]
                == maintenance
            &&& routes.dom().len() == 6
        }),
{
    reveal_strlit("/admin/health");
    reveal_strlit("/admin/node-lease");
    reveal_strlit("/admin/heartbeat");
    reveal_strlit("/admin/heartbeat/help");
    reveal_strlit("/admin/leader");
    reveal_strlit("/admin/maintenance");
    assert("/admin/health"@.len() == 13);
    assert("/admin/node-lease"@.len() == 17);
    assert("/admin/heartbeat"@.len() == 16);
    assert("/admin/heartbeat/help"@.len() == 21);
    assert("/admin/leader"@.len() == 13);
    assert("/admin/maintenance"@.len() == 18);
    assert("/admin/health"@[7] == 'h');
    assert("/admin/leader"@[7] == 'l');
}

} // verus!
