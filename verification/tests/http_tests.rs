use hello::acceptor::{on_connection, AcceptorAction, AcceptorState};
use hello::http::{build_response, decimal_string, file_name, needs_delay, route, status_line, RouteKind};

#[test]
fn routes_match_exactly() {
    assert_eq!(route("GET / HTTP/1.1"), RouteKind::Root);
    assert_eq!(route("GET /sleep HTTP/1.1"), RouteKind::Sleep);
    assert_eq!(route("GET /missing HTTP/1.1"), RouteKind::NotFound);
    assert_eq!(route(""), RouteKind::NotFound);
    assert_eq!(route("GET / HTTP/1.0"), RouteKind::NotFound);
    assert_eq!(route("get / http/1.1"), RouteKind::NotFound);
}

#[test]
fn route_decides_status_file_and_delay() {
    assert_eq!(status_line(RouteKind::Root), "HTTP/1.1 200 OK");
    assert_eq!(status_line(RouteKind::Sleep), "HTTP/1.1 200 OK");
    assert_eq!(status_line(RouteKind::NotFound), "HTTP/1.1 404 Not Found");
    assert_eq!(file_name(RouteKind::Root), "hello.html");
    assert_eq!(file_name(RouteKind::Sleep), "hello.html");
    assert_eq!(file_name(RouteKind::NotFound), "404.html");
    assert!(needs_delay(RouteKind::Sleep));
    assert!(!needs_delay(RouteKind::Root));
    assert!(!needs_delay(RouteKind::NotFound));
}

#[test]
fn decimal_rendering_is_exact() {
    assert_eq!(decimal_string(0), "0");
    assert_eq!(decimal_string(7), "7");
    assert_eq!(decimal_string(10), "10");
    assert_eq!(decimal_string(105), "105");
    assert_eq!(decimal_string(98765), "98765");
}

#[test]
fn response_has_status_length_and_body() {
    let r = build_response("HTTP/1.1 200 OK", "hello there");
    assert_eq!(r, "HTTP/1.1 200 OK\r\nContent-Length: 11\r\n\r\nhello there");
    let empty = build_response("HTTP/1.1 404 Not Found", "");
    assert_eq!(empty, "HTTP/1.1 404 Not Found\r\nContent-Length: 0\r\n\r\n");
    // Content-Length counts bytes of the encoding, not characters.
    let wide = build_response("HTTP/1.1 200 OK", "héllo");
    assert_eq!(wide, "HTTP/1.1 200 OK\r\nContent-Length: 6\r\n\r\nhéllo");
}

#[test]
fn acceptor_dispatches_until_notified() {
    assert_eq!(
        on_connection(AcceptorState::Listening, false),
        (AcceptorState::Listening, AcceptorAction::Dispatch)
    );
    // The notification is checked before the connection in hand is
    // submitted: the wake-up connection itself is discarded.
    assert_eq!(
        on_connection(AcceptorState::Listening, true),
        (AcceptorState::Draining, AcceptorAction::Discard)
    );
}
