use smallweb::params::StringMap;
use smallweb::response::{decimal_text, header_to_string, HttpResponse, Response};

#[test]
fn page_is_sent_with_type_and_length() {
    let msg = Response::new().send(HttpResponse::OK("Hello".to_string()));
    assert_eq!(
        msg,
        "HTTP/1.1 200 OK\r\nContent-Type: text/html; charset=utf-8\r\nContent-Length:5\r\n\r\nHello"
    );
}

#[test]
fn empty_page_has_length_zero() {
    let msg = Response::new().send(HttpResponse::OK(String::new()));
    assert_eq!(
        msg,
        "HTTP/1.1 200 OK\r\nContent-Type: text/html; charset=utf-8\r\nContent-Length:0\r\n\r\n"
    );
}

#[test]
fn default_headers_go_with_a_plain_page() {
    let mut response = Response::new();
    response.header.insert("Server", "smallweb");
    response.header.insert("X-B", "2");
    let msg = response.send(HttpResponse::OK("ok".to_string()));
    assert_eq!(
        msg,
        "HTTP/1.1 200 OK\r\nContent-Type: text/html; charset=utf-8\r\nServer:smallweb\r\nX-B:2\r\nContent-Length:2\r\n\r\nok"
    );
}

#[test]
fn page_with_headers_is_sent_with_its_own() {
    let mut response = Response::new();
    response.header.insert("Server", "smallweb");
    let mut headers = StringMap::new();
    headers.insert("Content-Type", "application/json");
    headers.insert("X-A", "1");
    let msg = response.send(HttpResponse::OKWithHeader("{}".to_string(), headers));
    assert_eq!(
        msg,
        "HTTP/1.1 200 OK\r\nContent-Type:application/json\r\nX-A:1\r\nContent-Length:2\r\n\r\n{}"
    );
}

#[test]
fn redirect_names_the_location() {
    let msg = Response::new().send(HttpResponse::Redirect("/elsewhere".to_string()));
    assert_eq!(msg, "HTTP/1.1 308 Permanent Redirect\r\nLocation:/elsewhere\r\n\r\n");
}

#[test]
fn unauthorized_has_neither_headers_nor_body() {
    let msg = Response::new().send(HttpResponse::Unauthorized);
    assert_eq!(msg, "HTTP/1.1 401 Unauthorized\r\n\r\n");
}

#[test]
fn not_found_has_a_fixed_body() {
    let msg = Response::new().send(HttpResponse::NotFound);
    assert_eq!(
        msg,
        "HTTP/1.1 404 Not Found\r\nContent-Type: text/html; charset=utf-8\r\nContent-Length:13\r\n\r\n404 NOT FOUND"
    );
}

#[test]
fn length_is_counted_in_bytes() {
    let body = "\u{e9}\u{4e16}\u{1f600}a";
    assert_eq!(body.chars().count(), 4);
    let msg = Response::new().send(HttpResponse::OK(body.to_string()));
    assert!(msg.ends_with(&format!("Content-Length:10\r\n\r\n{}", body)));
}

#[test]
fn numbers_are_written_in_decimal() {
    assert_eq!(decimal_text(0), "0");
    assert_eq!(decimal_text(7), "7");
    assert_eq!(decimal_text(10), "10");
    assert_eq!(decimal_text(13), "13");
    assert_eq!(decimal_text(16384), "16384");
    assert_eq!(decimal_text(9876543210), "9876543210");
    assert_eq!(decimal_text(usize::MAX), usize::MAX.to_string());
}

#[test]
fn header_lines_follow_the_order_of_the_entries() {
    assert_eq!(header_to_string(StringMap::new()), "");
    let mut headers = StringMap::new();
    headers.insert("B", "2");
    headers.insert("A", "1");
    headers.insert("B", "3");
    assert_eq!(header_to_string(headers), "B:3\r\nA:1\r\n");
}

#[test]
fn response_text_can_be_set() {
    let mut response = Response::new();
    assert_eq!(response.response_text, "");
    response.set_resp("HTTP/1.1 200 OK\r\n\r\n");
    assert_eq!(response.response_text, "HTTP/1.1 200 OK\r\n\r\n");
    assert_eq!(response.header.len(), 0);
}

#[test]
fn answers_can_be_copied() {
    let mut headers = StringMap::new();
    headers.insert("X-A", "1");
    let answer = HttpResponse::OKWithHeader("body".to_string(), headers);
    match answer.clone() {
        HttpResponse::OKWithHeader(body, headers) => {
            assert_eq!(body, "body");
            assert_eq!(headers.get("X-A").unwrap(), "1");
        }
        other => panic!("not a page with headers: {:?}", other),
    }
    assert!(matches!(HttpResponse::NotFound.clone(), HttpResponse::NotFound));
    assert!(matches!(HttpResponse::Redirect("/x".to_string()).clone(), HttpResponse::Redirect(l) if l == "/x"));
}
