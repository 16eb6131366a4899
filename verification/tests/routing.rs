use http_server::headers::Headers;
use http_server::http::{Header, RequestMethod, Status, StatusCode};
use http_server::request::Request;
use http_server::response::Response;
use http_server::router::Router;

type Handler = Box<dyn Fn(Request) -> Result<Response, Response>>;

fn tagged(tag: &'static str) -> Handler {
    Box::new(move |_request: Request| {
        Ok(Response::builder(Status::new(StatusCode::OK), tag.to_string(), Headers::new()))
    })
}

fn failing(tag: &'static str) -> Handler {
    Box::new(move |_request: Request| {
        Err(Response::builder(
            Status::new(StatusCode::InternalServerError),
            tag.to_string(),
            Headers::new(),
        ))
    })
}

fn ask(method: RequestMethod, target: &str) -> Request {
    Request {
        method,
        target: target.to_string(),
        version: "HTTP/1.1".to_string(),
        body: None,
        headers: Headers::new(),
    }
}

fn served_by(router: &Router<Handler>, method: RequestMethod, target: &str) -> Option<String> {
    match router.route(ask(method, target)) {
        Ok(response) => Some(String::from_utf8(response.body).unwrap()),
        Err(_) => None,
    }
}

fn echo_table() -> Router<Handler> {
    let mut router: Router<Handler> = Router::new();
    router.add_route(RequestMethod::GET, "/", tagged("root"));
    router.add_route(RequestMethod::GET, "/echo", tagged("echo"));
    router.add_route(RequestMethod::GET, "/echo/extra", tagged("extra"));
    router
}

#[test]
fn longest_prefix_wins() {
    let router = echo_table();
    assert_eq!(served_by(&router, RequestMethod::GET, "/echo/extra/foo"), Some("extra".to_string()));
    assert_eq!(served_by(&router, RequestMethod::GET, "/echo/extra"), Some("extra".to_string()));
    assert_eq!(served_by(&router, RequestMethod::GET, "/echo/extr"), Some("echo".to_string()));
    assert_eq!(served_by(&router, RequestMethod::GET, "/echo"), Some("echo".to_string()));
    assert_eq!(served_by(&router, RequestMethod::GET, "/echoes"), Some("echo".to_string()));
}

#[test]
fn longest_prefix_wins_whatever_the_registration_order() {
    let mut router: Router<Handler> = Router::new();
    router.add_route(RequestMethod::GET, "/echo/extra", tagged("extra"));
    router.add_route(RequestMethod::GET, "/echo", tagged("echo"));
    router.add_route(RequestMethod::GET, "/", tagged("root"));
    assert_eq!(served_by(&router, RequestMethod::GET, "/echo/extra/foo"), Some("extra".to_string()));
    assert_eq!(served_by(&router, RequestMethod::GET, "/echo/x"), Some("echo".to_string()));
    assert_eq!(router.resolve(&RequestMethod::GET, "/echo/extra/foo"), Some(0));
    assert_eq!(router.resolve(&RequestMethod::GET, "/echo/x"), Some(1));
    assert_eq!(router.resolve(&RequestMethod::GET, "/"), Some(2));
    assert_eq!(router.resolve(&RequestMethod::GET, "/x"), None);
}

#[test]
fn root_matches_the_root_path_alone() {
    let router = echo_table();
    assert_eq!(served_by(&router, RequestMethod::GET, "/"), Some("root".to_string()));
    assert_eq!(served_by(&router, RequestMethod::GET, "/nope"), None);
    assert_eq!(served_by(&router, RequestMethod::GET, "//"), None);
    assert_eq!(served_by(&router, RequestMethod::GET, ""), None);
}

#[test]
fn routes_are_method_sensitive() {
    let mut router: Router<Handler> = Router::new();
    router.add_route(RequestMethod::GET, "/files", tagged("read"));
    assert_eq!(served_by(&router, RequestMethod::GET, "/files"), Some("read".to_string()));
    assert_eq!(served_by(&router, RequestMethod::POST, "/files"), None);
    let refused = router.route(ask(RequestMethod::POST, "/files")).unwrap_err();
    assert_eq!(refused.status.code.to_u16(), 404);

    router.add_route(RequestMethod::POST, "/files", tagged("write"));
    assert_eq!(served_by(&router, RequestMethod::GET, "/files/a"), Some("read".to_string()));
    assert_eq!(served_by(&router, RequestMethod::POST, "/files/a"), Some("write".to_string()));
    assert_eq!(served_by(&router, RequestMethod::PUT, "/files/a"), None);
}

#[test]
fn unmatched_path_gets_the_404_response() {
    let router = echo_table();
    let response = match router.route(ask(RequestMethod::GET, "/nope")) {
        Ok(_) => panic!("a handler took the request"),
        Err(response) => response,
    };
    assert_eq!(response.status.code, StatusCode::NotFound);
    assert_eq!(response.status.code.to_u16(), 404);
    assert_eq!(response.status.message, "Not Found");
    assert_eq!(response.body, b"404 Not Found".to_vec());
    assert_eq!(response.headers.len(), 0);
    assert_eq!(response.version, "HTTP/1.1");
    assert_eq!(
        response.to_bytes(),
        b"HTTP/1.1 404 Not Found\r\nContent-Length: 13\r\n\r\n404 Not Found".to_vec()
    );
}

#[test]
fn empty_table_matches_nothing() {
    let router: Router<Handler> = Router::new();
    assert_eq!(served_by(&router, RequestMethod::GET, "/"), None);
    assert_eq!(router.get_prefixes(), Vec::<String>::new());
    assert!(router.contains_prefix(&RequestMethod::GET, "/").is_none());
}

#[test]
fn handler_result_is_passed_on_unchanged() {
    let mut router: Router<Handler> = Router::new();
    router.add_route(RequestMethod::GET, "/boom", failing("handler said no"));
    let response = router.route(ask(RequestMethod::GET, "/boom/now")).unwrap_err();
    assert_eq!(response.status.code, StatusCode::InternalServerError);
    assert_eq!(response.body, b"handler said no".to_vec());
}

#[test]
fn handler_receives_the_request_itself() {
    let mut router: Router<Handler> = Router::new();
    router.add_route(
        RequestMethod::PUT,
        "/mirror",
        Box::new(|request: Request| {
            let mut headers = Headers::new();
            headers.extend(&request.headers);
            let body = format!(
                "{} {} {} {:?}",
                request.method.to_string(),
                request.target,
                request.version,
                request.body
            );
            Ok(Response::builder(Status::new(StatusCode::OK), body, headers))
        }),
    );
    let mut request = ask(RequestMethod::PUT, "/mirror/x");
    request.body = Some("b".to_string());
    request.headers.insert(Header::Host, "h".to_string());
    let response = router.route(request).unwrap();
    assert_eq!(response.body, b"PUT /mirror/x HTTP/1.1 Some(\"b\")".to_vec());
    assert_eq!(response.headers.get(&Header::Host), Some(&"h".to_string()));
}

#[test]
fn registering_again_leaves_the_first_handler_answering() {
    let mut router: Router<Handler> = Router::new();
    router.add_route(RequestMethod::GET, "/a", tagged("first"));
    router.add_route(RequestMethod::GET, "/b", tagged("other"));
    router.add_route(RequestMethod::GET, "/a", tagged("second"));
    assert_eq!(
        router.get_prefixes(),
        vec!["/a".to_string(), "/b".to_string(), "/a".to_string()]
    );
    assert_eq!(router.resolve(&RequestMethod::GET, "/a"), Some(0));
    assert_eq!(router.resolve(&RequestMethod::GET, "/a/x"), Some(0));
    assert_eq!(served_by(&router, RequestMethod::GET, "/a"), Some("first".to_string()));
    assert_eq!(served_by(&router, RequestMethod::GET, "/a/x"), Some("first".to_string()));
    assert_eq!(served_by(&router, RequestMethod::GET, "/b"), Some("other".to_string()));
    let handler = router.contains_prefix(&RequestMethod::GET, "/a").expect("no handler");
    assert_eq!(handler(ask(RequestMethod::GET, "/a")).unwrap().body, b"first".to_vec());
}

#[test]
fn equally_long_prefixes_of_other_methods_do_not_tie() {
    let mut router: Router<Handler> = Router::new();
    router.add_route(RequestMethod::POST, "/a", tagged("post"));
    router.add_route(RequestMethod::GET, "/a", tagged("get"));
    router.add_route(RequestMethod::GET, "/a", tagged("late"));
    assert_eq!(served_by(&router, RequestMethod::GET, "/a"), Some("get".to_string()));
    assert_eq!(served_by(&router, RequestMethod::POST, "/a"), Some("post".to_string()));
}

#[test]
fn empty_prefix_matches_every_path() {
    let mut router: Router<Handler> = Router::new();
    router.add_route(RequestMethod::GET, "", tagged("any"));
    router.add_route(RequestMethod::GET, "/a", tagged("a"));
    assert_eq!(served_by(&router, RequestMethod::GET, "/zzz"), Some("any".to_string()));
    assert_eq!(served_by(&router, RequestMethod::GET, ""), Some("any".to_string()));
    assert_eq!(served_by(&router, RequestMethod::GET, "/a/b"), Some("a".to_string()));
}

#[test]
fn prefixes_are_compared_by_characters() {
    let mut router: Router<Handler> = Router::new();
    router.add_route(RequestMethod::GET, "/caf\u{e9}", tagged("accent"));
    router.add_route(RequestMethod::GET, "/caf", tagged("plain"));
    assert_eq!(served_by(&router, RequestMethod::GET, "/caf\u{e9}/1"), Some("accent".to_string()));
    assert_eq!(served_by(&router, RequestMethod::GET, "/caf\u{e8}"), Some("plain".to_string()));
    assert_eq!(served_by(&router, RequestMethod::GET, "/Caf"), None);
}

#[test]
fn prefixes_are_listed_in_registration_order() {
    let mut router = echo_table();
    router.add_route(RequestMethod::POST, "/echo", tagged("post"));
    assert_eq!(
        router.get_prefixes(),
        vec!["/".to_string(), "/echo".to_string(), "/echo/extra".to_string(), "/echo".to_string()]
    );
}

#[test]
fn contains_prefix_gives_the_handler_that_route_would_call() {
    let router = echo_table();
    let handler = router.contains_prefix(&RequestMethod::GET, "/echo/extra/x").expect("no handler");
    let response = handler(ask(RequestMethod::GET, "/anything")).unwrap();
    assert_eq!(response.body, b"extra".to_vec());
    assert!(router.contains_prefix(&RequestMethod::POST, "/echo").is_none());
    assert!(router.contains_prefix(&RequestMethod::GET, "/nope").is_none());
}

#[test]
fn find_prefix_takes_the_first_in_the_list() {
    let prefixes = vec!["/echo".to_string(), "/echo/extra".to_string(), "/".to_string()];
    assert_eq!(Router::<Handler>::find_prefix("/echo/extra/x", &prefixes), Some("/echo"));
    assert_eq!(Router::<Handler>::find_prefix("/files", &prefixes), Some("/"));
    assert_eq!(Router::<Handler>::find_prefix("files", &prefixes), None);
    assert_eq!(Router::<Handler>::find_prefix("/", &[]), None);
}

#[test]
fn parse_target_gives_the_first_registered_prefix_or_the_path() {
    let router = echo_table();
    assert_eq!(router.parse_target("/".to_string()), "/");
    assert_eq!(router.parse_target("/echo/extra/foo".to_string()), "/");
    assert_eq!(router.parse_target("nowhere".to_string()), "nowhere");

    let mut ordered: Router<Handler> = Router::new();
    ordered.add_route(RequestMethod::GET, "/echo/extra", tagged("extra"));
    ordered.add_route(RequestMethod::GET, "/echo", tagged("echo"));
    assert_eq!(ordered.parse_target("/echo/extra/foo".to_string()), "/echo/extra");
    assert_eq!(ordered.parse_target("/echo/abc".to_string()), "/echo");
    assert_eq!(ordered.parse_target("/files".to_string()), "/files");
}
