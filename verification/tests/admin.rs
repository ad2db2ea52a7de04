use futures::executor::block_on;
use greptime_verified::admin::{
    check_path, collect_params, make_admin_service, not_found, query_params, respond, Admin,
    HttpHandler, Params, Router, NAME,
};
use greptime_verified::http::Body;
use http_body_util::BodyExt;
use tonic::codegen::http::{Method, Response, StatusCode};

struct MockOkHandler;

impl HttpHandler for MockOkHandler {
    fn handle(&self, _: &str, _: Method, _: &Params) -> Result<Response<String>, String> {
        Ok(Response::builder()
            .status(StatusCode::OK)
            .body("Ok".to_string())
            .unwrap())
    }
}

struct MockEmptyKeyErrorHandler;

impl HttpHandler for MockEmptyKeyErrorHandler {
    fn handle(&self, _: &str, _: Method, _: &Params) -> Result<Response<String>, String> {
        Err("Empty key is not allowed".to_string())
    }
}

/// Answers with what it was asked.
#[derive(Clone)]
struct Echo(&'static str);

impl HttpHandler for Echo {
    fn handle(&self, path: &str, method: Method, params: &Params) -> Result<Response<String>, String> {
        let a = params.get("a").map_or("none", |a| a.as_str());
        Ok(Response::builder()
            .status(201)
            .header("x-handler", self.0)
            .body(format!("{method} {path} a={a}"))
            .unwrap())
    }
}

fn text(reply: Response<Body>) -> String {
    let bytes = block_on(reply.into_body().collect()).unwrap().to_bytes();
    String::from_utf8(bytes.to_vec()).unwrap()
}

#[test]
fn test_route_nest() {
    let mock_handler = MockOkHandler {};
    let router = Router::new().route("/test_node", mock_handler);
    let router = Router::nest("/test_root", router);

    assert_eq!(1, router.len());
    assert!(router.lookup("/test_root/test_node").is_some());
}

#[test]
fn test_route_call_ok() {
    let mock_handler = MockOkHandler {};
    let router = Router::new().route("/test_node", mock_handler);
    let router = Router::nest("/test_root", router);

    let res = router.call("/test_root/test_node", Method::GET, Params::default());

    assert!(res.status().is_success());
    assert_eq!("Ok", text(res));
}

#[test]
fn test_route_call_no_handler() {
    let router: Router<MockOkHandler> = Router::new();

    let res = router.call("/test_root/test_node", Method::GET, Params::default());

    assert_eq!(StatusCode::NOT_FOUND, res.status());
    assert_eq!("", text(res));
}

#[test]
fn test_route_call_err() {
    let mock_handler = MockEmptyKeyErrorHandler {};
    let router = Router::new().route("/test_node", mock_handler);
    let router = Router::nest("/test_root", router);

    let res = router.call("/test_root/test_node", Method::GET, Params::default());

    assert_eq!(StatusCode::INTERNAL_SERVER_ERROR, res.status());
    assert!(res.headers().is_empty());
    assert_eq!("Empty key is not allowed", text(res));
}

#[test]
fn paths_start_with_a_slash() {
    assert!(!check_path("test_node"));
    assert!(!check_path(""));
    assert!(!check_path("a/b"));
    assert!(check_path("/"));
    assert!(check_path("/test_node"));
    assert!(check_path("/\u{e4}"));
    assert!(!check_path("\u{e4}/"));
}

#[test]
fn unnested_paths_are_not_found() {
    let router = Router::nest("/r", Router::new().route("/a", Echo("e")));
    assert!(router.lookup("/a").is_none());
    assert!(router.lookup("/r").is_none());
    assert!(router.lookup("/r/a/").is_none());
    assert!(router.lookup("/r/a").is_some());
}

#[test]
fn nesting_twice_is_nesting_under_both_paths() {
    let inner = Router::new().route("/a", Echo("a")).route("/b", Echo("b"));
    let twice = Router::nest("/x", Router::nest("/y", inner));
    assert_eq!(2, twice.len());
    assert_eq!("a", twice.lookup("/x/y/a").unwrap().0);
    assert_eq!("b", twice.lookup("/x/y/b").unwrap().0);
}

#[test]
fn a_later_route_takes_the_place_of_an_earlier() {
    let router = Router::new()
        .route("/a", Echo("first"))
        .route("/b", Echo("other"))
        .route("/a", Echo("second"));
    assert_eq!(2, router.len());
    assert_eq!("second", router.lookup("/a").unwrap().0);
    assert_eq!("other", router.lookup("/b").unwrap().0);
}

#[test]
fn a_reply_keeps_the_head_of_the_handler() {
    let router = Router::default().route("/a", Echo("me"));
    let res = router.call("/a", Method::PUT, query_params(Some("a=1&b=2")));
    assert_eq!(201, res.status().as_u16());
    assert_eq!("me", res.headers().get("x-handler").unwrap());
    assert_eq!("PUT /a a=1", text(res));
}

#[test]
fn replies_to_outcomes() {
    let failed = respond(Err("boom".to_string()));
    assert_eq!(500, failed.status().as_u16());
    assert_eq!("boom", text(failed));

    let answered = respond(Ok(Response::new("fine \u{fc}".to_string())));
    assert_eq!(200, answered.status().as_u16());
    assert_eq!("fine \u{fc}", text(answered));

    let missing = not_found();
    assert_eq!(404, missing.status().as_u16());
    assert!(missing.headers().is_empty());
    assert_eq!("", text(missing));
}

#[test]
fn query_strings_are_decoded() {
    let params = query_params(Some("%23first=%25try%25&plus=a+b&flag&&empty="));
    assert_eq!("%try%", params.get("#first").unwrap());
    assert_eq!("a b", params.get("plus").unwrap());
    assert_eq!("", params.get("flag").unwrap());
    assert_eq!("", params.get("empty").unwrap());
    assert!(!params.contains_key("first"));
    assert_eq!(4, params.len());
}

#[test]
fn no_query_has_no_parameters() {
    assert_eq!(0, query_params(None).len());
    assert_eq!(0, query_params(Some("")).len());
}

#[test]
fn the_last_of_equal_parameters_counts() {
    let params = query_params(Some("a=1&b=2&a=3"));
    assert_eq!("3", params.get("a").unwrap());
    assert_eq!("2", params.get("b").unwrap());

    let params = collect_params(vec![
        ("k".to_string(), "x".to_string()),
        ("k".to_string(), "y".to_string()),
    ]);
    assert_eq!(1, params.len());
    assert_eq!(
        vec![("k".to_string(), "y".to_string())],
        params.into_entries()
    );
}

#[test]
fn the_admin_service_has_its_handlers() {
    assert_eq!("admin", NAME);
    let admin = make_admin_service(
        Echo("health"),
        Echo("node-lease"),
        Echo("heartbeat"),
        Echo("leader"),
        Echo("maintenance"),
    );
    let router = admin.router();
    assert_eq!(6, router.len());
    for (path, name) in [
        ("/admin/health", "health"),
        ("/admin/node-lease", "node-lease"),
        ("/admin/heartbeat", "heartbeat"),
        ("/admin/heartbeat/help", "heartbeat"),
        ("/admin/leader", "leader"),
        ("/admin/maintenance", "maintenance"),
    ] {
        assert_eq!(name, router.lookup(path).unwrap().0);
    }
    assert!(router.lookup("/health").is_none());
}

#[test]
fn the_admin_service_answers_requests() {
    let admin = Admin::new(Router::new().route("/a", Echo("e")));
    let copy = admin.clone();
    assert_eq!("GET /a a=7", text(copy.call("/a", Some("a=6&a=7"), Method::GET)));
    assert_eq!("POST /a a=none", text(admin.call("/a", None, Method::POST)));
    assert_eq!(404, admin.call("/b", Some("a=1"), Method::GET).status().as_u16());
}
