use smallweb::params::StringMap;
use smallweb::parser::parse_req;
use smallweb::pattern::RoutePattern;
use smallweb::request::Request;
use smallweb::response::{HttpResponse, Response};
use smallweb::router::Router;
use smallweb::server::{
    exchange, respond, respond_to_bytes, route, Reading, Reply, REQUEST_BUFFER_SIZE,
};

type Handler = fn(Request) -> HttpResponse;
type Check = fn(Request) -> Option<Request>;

fn hello(_r: Request) -> HttpResponse {
    HttpResponse::OK("Hello".to_string())
}

fn name_and_alter(r: Request) -> HttpResponse {
    HttpResponse::OK(format!(
        "{} {}",
        r.url_params.get("name").unwrap(),
        r.url_params.get("alter").unwrap()
    ))
}

fn first(_r: Request) -> HttpResponse {
    HttpResponse::OK("first".to_string())
}

fn second(_r: Request) -> HttpResponse {
    HttpResponse::OK("second".to_string())
}

fn reject(_r: Request) -> Option<Request> {
    None
}

fn body_of(r: &HttpResponse) -> String {
    match r {
        HttpResponse::OK(b) => b.clone(),
        other => panic!("no page: {:?}", other),
    }
}

#[test]
fn t() {
    assert_eq!(3, 3);
}

#[test]
fn literal_route_answers_with_its_handler() {
    let router = Router::<Handler, Check>::new().get("/hello", hello);
    let msg = respond("GET /hello HTTP/1.1\r\n\r\n", &router);
    assert_eq!(
        msg,
        "HTTP/1.1 200 OK\r\nContent-Type: text/html; charset=utf-8\r\nContent-Length:5\r\n\r\nHello"
    );
}

#[test]
fn template_captures_each_placeholder() {
    let pattern = RoutePattern::compile("/:name/:alter/alter");
    let found = pattern.matches("/alice/bob/alter").unwrap();
    assert_eq!(found.len(), 2);
    assert_eq!(found.get("name").unwrap(), "alice");
    assert_eq!(found.get("alter").unwrap(), "bob");
}

#[test]
fn request_line_against_template_yields_url_parameters() {
    let router = Router::<Handler, Check>::new().get("/:name/:alter/alter", name_and_alter);
    let request = parse_req("GET /alice/bob/alter HTTP/1.1").unwrap();
    assert_eq!(body_of(&router.route(request)), "alice bob");
}

#[test]
fn first_registered_pattern_wins() {
    let router = Router::<Handler, Check>::new().get("/:a/x", first).get("/x/:b", second);
    let request = parse_req("GET /x/x HTTP/1.1\r\n\r\n").unwrap();
    assert_eq!(body_of(&router.route(request)), "first");
    let router = Router::<Handler, Check>::new().get("/x/:b", second).get("/:a/x", first);
    let request = parse_req("GET /x/x HTTP/1.1\r\n\r\n").unwrap();
    assert_eq!(body_of(&router.route(request)), "second");
}

#[test]
fn rejection_by_the_validator_is_unauthorized() {
    let router = Router::<Handler, Check>::new().get("/hello", hello).validator(reject);
    let msg = respond("GET /hello HTTP/1.1\r\n\r\n", &router);
    assert_eq!(msg, "HTTP/1.1 401 Unauthorized\r\n\r\n");
}

#[test]
fn unknown_method_is_answered_with_not_found() {
    let router = Router::<Handler, Check>::new().get("/hello", hello);
    assert!(parse_req("BREW /hello HTTP/1.1\r\n\r\n").is_none());
    let msg = respond_to_bytes(b"BREW /hello HTTP/1.1\r\n\r\n", &router);
    assert_eq!(
        msg,
        "HTTP/1.1 404 Not Found\r\nContent-Type: text/html; charset=utf-8\r\nContent-Length:13\r\n\r\n404 NOT FOUND"
    );
}

#[test]
fn content_length_counts_bytes() {
    let msg = Response::new().send(HttpResponse::OK("h\u{e9}llo \u{4e16}".to_string()));
    assert!(msg.contains("Content-Length:10\r\n\r\n"));
    let mut headers = StringMap::new();
    headers.insert("X-A", "1");
    let msg = Response::new().send(HttpResponse::OKWithHeader("\u{1f600}".to_string(), headers));
    assert_eq!(msg, "HTTP/1.1 200 OK\r\nX-A:1\r\nContent-Length:4\r\n\r\n\u{1f600}");
}

fn by_name(r: Request) -> HttpResponse {
    HttpResponse::OK(format!("name={}", r.url_params.get("name").unwrap()))
}

fn echo_params(r: Request) -> HttpResponse {
    HttpResponse::OK(format!(
        "{} {} q={} h={}",
        r.method,
        r.path,
        r.params.get("q").unwrap(),
        r.header.get("Host").unwrap()
    ))
}

fn mark(r: Request) -> Option<Request> {
    let mut r = r;
    r.add_header("X-Checked", "yes");
    Some(r)
}

fn show_mark(r: Request) -> HttpResponse {
    HttpResponse::OK(r.header.get("X-Checked").unwrap().clone())
}

fn answer(router: &Router<Handler, Check>, text: &str) -> HttpResponse {
    router.route(parse_req(text).unwrap())
}

#[test]
fn new_router_has_no_routes_and_eight_workers() {
    let router = Router::<Handler, Check>::new();
    assert_eq!(router.paths.len(), 0);
    assert_eq!(router.dyn_paths.len(), 0);
    assert_eq!(router.thradpool_size, 8);
    assert!(router.validator.is_none());
    assert!(matches!(router.default_response, HttpResponse::NotFound));
    assert_eq!(router.thradpool_size(4).thradpool_size, 4);
}

#[test]
fn literal_binding_precedes_dynamic_route() {
    let router = Router::<Handler, Check>::new().get("/:name", by_name).get("/hello", hello);
    assert_eq!(body_of(&answer(&router, "GET /hello HTTP/1.1")), "Hello");
    assert_eq!(body_of(&answer(&router, "GET /world HTTP/1.1")), "name=world");
}

#[test]
fn template_text_as_path_is_matched_dynamically() {
    let router = Router::<Handler, Check>::new().get("/:name", by_name);
    assert_eq!(body_of(&answer(&router, "GET /:name HTTP/1.1")), "name=:name");
}

#[test]
fn routes_are_kept_apart_by_method() {
    let router = Router::<Handler, Check>::new()
        .get("/item", first)
        .post("/item", second)
        .put("/:a", by_name_a)
        .delete("/:b", by_name_b);
    assert_eq!(body_of(&answer(&router, "GET /item HTTP/1.1")), "first");
    assert_eq!(body_of(&answer(&router, "POST /item HTTP/1.1")), "second");
    assert_eq!(body_of(&answer(&router, "PUT /item HTTP/1.1")), "a=item");
    assert_eq!(body_of(&answer(&router, "DELETE /item HTTP/1.1")), "b=item");
    assert!(matches!(answer(&router, "POST /other HTTP/1.1"), HttpResponse::NotFound));
}

fn by_name_a(r: Request) -> HttpResponse {
    HttpResponse::OK(format!("a={}", r.url_params.get("a").unwrap()))
}

fn by_name_b(r: Request) -> HttpResponse {
    HttpResponse::OK(format!("b={}", r.url_params.get("b").unwrap()))
}

#[test]
fn unmatched_request_gets_the_default_response() {
    let router = Router::<Handler, Check>::new().get("/hello", hello);
    assert!(matches!(answer(&router, "GET /nothing HTTP/1.1"), HttpResponse::NotFound));
    let router = router.default(HttpResponse::OK("NOT FOUND".to_string()));
    assert_eq!(body_of(&answer(&router, "GET /nothing HTTP/1.1")), "NOT FOUND");
    assert_eq!(body_of(&answer(&router, "GET /hello/more HTTP/1.1")), "NOT FOUND");
    assert_eq!(body_of(&answer(&router, "POST /hello HTTP/1.1")), "NOT FOUND");
    assert_eq!(body_of(&answer(&router, "GET /hello HTTP/1.1")), "Hello");
}

#[test]
fn second_registration_replaces_the_first() {
    let router = Router::<Handler, Check>::new().get("/x", first).get("/y", hello).get("/x", second);
    assert_eq!(router.paths.len(), 2);
    assert_eq!(router.paths[0].template, "/x");
    assert_eq!(body_of(&answer(&router, "GET /x HTTP/1.1")), "second");
    let router = Router::<Handler, Check>::new().get("/:n", first).get("/:n", second);
    assert_eq!(router.paths.len(), 1);
    assert_eq!(router.dyn_paths.len(), 1);
    assert_eq!(body_of(&answer(&router, "GET /x HTTP/1.1")), "second");
}

#[test]
fn reregistered_pattern_keeps_its_place_in_the_order() {
    let router = Router::<Handler, Check>::new()
        .get("/:a/x", first)
        .get("/x/:b", second)
        .get("/:a/x", hello);
    assert_eq!(router.dyn_paths.len(), 2);
    assert_eq!(body_of(&answer(&router, "GET /x/x HTTP/1.1")), "Hello");
}

#[test]
fn add_route_registers_for_any_method_text() {
    let mut router = Router::<Handler, Check>::new();
    router.add_route("/hello", hello, "GET".to_string());
    router.add_route("/:name", by_name, "GET".to_string());
    assert_eq!(router.paths.len(), 2);
    assert!(!router.paths[0].dynamic);
    assert!(router.paths[1].dynamic);
    assert_eq!(router.dyn_paths.len(), 1);
    assert_eq!(router.dyn_paths[0].template, "/:name");
    assert_eq!(router.find_binding(&"GET".to_string(), &"/:name".to_string()), 1);
    assert_eq!(router.find_binding(&"POST".to_string(), &"/:name".to_string()), 2);
    assert_eq!(router.find_literal(&"GET".to_string(), &"/hello".to_string()), 0);
    assert_eq!(router.find_literal(&"GET".to_string(), &"/:name".to_string()), 2);
    assert_eq!(router.find_dynamic(&"GET".to_string(), &"/:name".to_string()), 0);
    assert_eq!(router.find_dynamic(&"GET".to_string(), &"/hello".to_string()), 1);
}

#[test]
fn matches_dyn_route_returns_template_and_captures() {
    let router = Router::<Handler, Check>::new().get("/:name/:aaa", first).post("/:only", second);
    let get = "GET".to_string();
    let (template, found) = router.matches_dyn_route(&get, "/alice/bob").unwrap();
    assert_eq!(template, "/:name/:aaa");
    assert_eq!(found.get("name").unwrap(), "alice");
    assert_eq!(found.get("aaa").unwrap(), "bob");
    assert!(router.matches_dyn_route(&get, "/alice").is_none());
    assert!(router.matches_dyn_route(&"POST".to_string(), "/alice").is_some());
    let (j, _) = router.first_match(&"POST".to_string(), "/alice").unwrap();
    assert_eq!(j, 1);
}

#[test]
fn dynamic_route_without_binding_answers_404_dyn() {
    let mut router = Router::<Handler, Check>::new().get("/:name", by_name);
    router.paths.clear();
    assert_eq!(body_of(&answer(&router, "GET /alice HTTP/1.1")), "404 DYN");
    let msg = respond("GET /alice HTTP/1.1\r\n\r\n", &router);
    assert_eq!(
        msg,
        "HTTP/1.1 200 OK\r\nContent-Type: text/html; charset=utf-8\r\nContent-Length:7\r\n\r\n404 DYN"
    );
}

#[test]
fn validator_may_change_the_request() {
    let router = Router::<Handler, Check>::new().get("/hello", show_mark).validator(mark);
    assert_eq!(body_of(&answer(&router, "GET /hello HTTP/1.1")), "yes");
}

#[test]
fn rejection_precedes_every_route() {
    let router = Router::<Handler, Check>::new()
        .get("/hello", hello)
        .get("/:name", by_name)
        .default(HttpResponse::OK("fallback".to_string()))
        .validator(reject);
    assert!(matches!(answer(&router, "GET /hello HTTP/1.1"), HttpResponse::Unauthorized));
    assert!(matches!(answer(&router, "GET /alice HTTP/1.1"), HttpResponse::Unauthorized));
    assert!(matches!(answer(&router, "GET /a/b/c HTTP/1.1"), HttpResponse::Unauthorized));
    assert!(matches!(router.answer(None), HttpResponse::Unauthorized));
}

#[test]
fn handler_sees_method_path_parameters_and_headers() {
    let router = Router::<Handler, Check>::new().get("/search", echo_params);
    let res = answer(&router, "GET /search?q=rust HTTP/1.1\r\nHost: example.org\r\n\r\n");
    assert_eq!(body_of(&res), "GET /search q=rust h=example.org");
}

#[test]
fn dispatch_sets_url_parameters_only_on_a_dynamic_match() {
    let router = Router::<Handler, Check>::new().get("/:name", by_name);
    let mut request = Request::new("/alice", "GET", "GET /alice");
    let mut stale = StringMap::new();
    stale.insert("name", "stale");
    request.set_url_params(stale);
    assert_eq!(body_of(&router.dispatch(request)), "name=alice");
}

#[test]
fn request_setters_write_their_maps() {
    let mut request = Request::new("/p", "GET", "GET /p");
    assert_eq!(request.path, "/p");
    assert_eq!(request.method, "GET");
    assert_eq!(request.complete_req, "GET /p");
    request.add("a", "1");
    request.add_param("b", "2");
    request.add("a", "3");
    request.add_header("Host", "x");
    assert_eq!(request.params.len(), 2);
    assert_eq!(request.params.get("a").unwrap(), "3");
    assert_eq!(request.params.get("b").unwrap(), "2");
    assert_eq!(request.header.get("Host").unwrap(), "x");
    assert_eq!(request.url_params.len(), 0);
}

#[test]
fn router_is_shared_as_it_was_built() {
    let shared = Router::<Handler, Check>::new().get("/hello", hello).thradpool_size(4).okay();
    assert_eq!(shared.thradpool_size, 4);
    assert_eq!(body_of(&answer(&shared, "GET /hello HTTP/1.1")), "Hello");
}

#[test]
fn failed_read_drops_the_connection() {
    let router = Router::<Handler, Check>::new().get("/hello", hello);
    assert!(matches!(exchange(Reading::Failed, &router), Reply::Drop));
    match exchange(Reading::Received(b"GET /hello HTTP/1.1\r\n\r\n".to_vec()), &router) {
        Reply::Write(msg) => assert!(msg.ends_with("\r\n\r\nHello")),
        Reply::Drop => panic!("dropped"),
    }
    match exchange(Reading::Received(Vec::new()), &router) {
        Reply::Write(msg) => assert!(msg.starts_with("HTTP/1.1 404 Not Found\r\n")),
        Reply::Drop => panic!("dropped"),
    }
}

#[test]
fn escaped_path_reaches_its_route() {
    let router = Router::<Handler, Check>::new().get("/:name", by_name);
    let msg = respond_to_bytes(b"GET /%61lice HTTP/1.1\r\n\r\n", &router);
    assert!(msg.ends_with("\r\n\r\nname=alice"));
}

#[test]
fn route_writes_the_answer_with_the_default_headers() {
    let router = Router::<Handler, Check>::new().get("/hello", hello);
    let mut response = Response::new();
    response.header.insert("Server", "smallweb");
    let msg = route(parse_req("GET /hello HTTP/1.1").unwrap(), response, &router);
    assert_eq!(
        msg,
        "HTTP/1.1 200 OK\r\nContent-Type: text/html; charset=utf-8\r\nServer:smallweb\r\nContent-Length:5\r\n\r\nHello"
    );
}

fn length_of_k(r: Request) -> HttpResponse {
    HttpResponse::OK(r.params.get("k").unwrap().len().to_string())
}

#[test]
fn bytes_beyond_the_buffer_are_cut_off() {
    assert_eq!(REQUEST_BUFFER_SIZE, 16 * 1024);
    let router = Router::<Handler, Check>::new().get("/x", length_of_k);
    let mut raw = b"GET /x?k=".to_vec();
    raw.extend(std::iter::repeat(b'v').take(20000));
    match exchange(Reading::Received(raw), &router) {
        Reply::Write(msg) => assert!(msg.ends_with("\r\n\r\n16375")),
        Reply::Drop => panic!("dropped"),
    }
    let mut raw = b"GET /x?k=".to_vec();
    raw.extend(std::iter::repeat(b'v').take(100));
    match exchange(Reading::Received(raw), &router) {
        Reply::Write(msg) => assert!(msg.ends_with("\r\n\r\n100")),
        Reply::Drop => panic!("dropped"),
    }
}

#[test]
fn colon_without_a_name_is_registered_as_literal() {
    let router = Router::<Handler, Check>::new().get("/:-", first).get("/:name", by_name);
    assert_eq!(router.paths.len(), 2);
    assert!(!router.paths[0].dynamic);
    assert_eq!(router.dyn_paths.len(), 1);
    assert_eq!(router.dyn_paths[0].template, "/:name");
    assert_eq!(body_of(&answer(&router, "GET /:- HTTP/1.1")), "first");
    assert_eq!(body_of(&answer(&router, "GET /alice HTTP/1.1")), "name=alice");
    let router = Router::<Handler, Check>::new().get("/::", first).get("/:.", second);
    assert_eq!(router.dyn_paths.len(), 0);
    assert!(matches!(answer(&router, "GET /alice HTTP/1.1"), HttpResponse::NotFound));
}

#[test]
fn request_with_spaces_before_the_verb_is_routed() {
    let router = Router::<Handler, Check>::new().get("/hello", hello);
    let msg = respond_to_bytes(b" GET /hello HTTP/1.1\r\n\r\n", &router);
    assert!(msg.starts_with("HTTP/1.1 200 OK\r\n"));
    assert!(msg.ends_with("\r\n\r\nHello"));
    let msg = respond_to_bytes(b" \r\n", &router);
    assert!(msg.starts_with("HTTP/1.1 404 Not Found\r\n"));
}
