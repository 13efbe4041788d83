use codecrafters_http_server::connection::{accept_step, closes_connection, AcceptEvent, AcceptStep, ConnAction, Connection};
use codecrafters_http_server::http::ParseError;
use codecrafters_http_server::{HttpRequest, Router, ServerConfig};

fn serve(connection: &mut Connection) -> HttpRequest {
    match connection.next_action() {
        ConnAction::Serve(request) => request,
        other => panic!("expected a request, got {:?}", other),
    }
}

#[test]
fn echo_request_is_answered_and_closes() {
    let router = Router::new(ServerConfig::new(None));
    let mut connection = Connection::new();
    connection.received(b"GET /echo/hi HTTP/1.1\r\nHost: x\r\nConnection: close\r\n\r\n");
    let request = serve(&mut connection);
    let closes = closes_connection(&request);
    let bytes = router.handle(request).to_bytes();
    assert!(bytes.starts_with(b"HTTP/1.1 200 OK\r\n"));
    assert!(bytes.ends_with(b"\r\n\r\nhi"));
    assert!(closes);
}

#[test]
fn back_to_back_requests_are_served_in_order() {
    let router = Router::new(ServerConfig::new(None));
    let mut connection = Connection::new();
    connection.received(b"GET /echo/one HTTP/1.1\r\n\r\nGET /echo/two HTTP/1.1\r\nConnection: Close\r\n\r\n");
    let first = serve(&mut connection);
    assert!(!closes_connection(&first));
    assert_eq!(router.handle(first).body, b"one");
    let second = serve(&mut connection);
    assert!(closes_connection(&second));
    assert_eq!(router.handle(second).body, b"two");
    assert!(matches!(connection.next_action(), ConnAction::Read));
    connection.peer_closed();
    assert!(matches!(connection.next_action(), ConnAction::Finish));
}

#[test]
fn connection_stays_open_between_requests() {
    let mut connection = Connection::new();
    connection.received(b"GET / HTTP/1.1\r\n\r\n");
    let first = serve(&mut connection);
    assert!(!closes_connection(&first));
    assert!(matches!(connection.next_action(), ConnAction::Read));
    connection.received(b"GET /user-agent HTTP/1.1\r\nUser-Agent: t\r\n");
    assert!(matches!(connection.next_action(), ConnAction::Read));
    connection.received(b"\r\n");
    let second = serve(&mut connection);
    assert_eq!(second.uri, "/user-agent");
}

#[test]
fn interleaved_connections_do_not_mix() {
    let router = Router::new(ServerConfig::new(None));
    let mut connections: Vec<Connection> = (0..8).map(|_| Connection::new()).collect();
    let requests: Vec<String> = (0..8).map(|i| format!("GET /echo/n{} HTTP/1.1\r\nConnection: close\r\n\r\n", i)).collect();
    let mut offset = 0;
    while offset < requests[0].len() {
        for (i, connection) in connections.iter_mut().enumerate() {
            let bytes = requests[i].as_bytes();
            let end = (offset + 3).min(bytes.len());
            if offset < end {
                connection.received(&bytes[offset..end]);
            }
        }
        offset += 3;
    }
    for (i, connection) in connections.iter_mut().enumerate().rev() {
        let request = serve(connection);
        assert_eq!(router.handle(request).body, format!("n{}", i).into_bytes());
    }
}

#[test]
fn malformed_request_drops_the_connection() {
    let mut connection = Connection::new();
    connection.received(b"FETCH / HTTP/1.1\r\n\r\n");
    assert!(matches!(connection.next_action(), ConnAction::Fail(ParseError::InvalidMethod)));
    let mut closed = Connection::new();
    closed.received(b"GET / HTTP/1.1\r\nContent-Length: 4\r\n\r\nab");
    closed.peer_closed();
    assert!(matches!(closed.next_action(), ConnAction::Fail(ParseError::TruncatedBody)));
}

#[test]
fn accept_loop_rules() {
    assert_eq!(accept_step(false, AcceptEvent::Accepted), AcceptStep::Serve);
    assert_eq!(accept_step(false, AcceptEvent::WouldBlock), AcceptStep::Wait);
    assert_eq!(accept_step(false, AcceptEvent::Failed), AcceptStep::Stop);
    assert_eq!(accept_step(true, AcceptEvent::Accepted), AcceptStep::Stop);
    assert_eq!(accept_step(true, AcceptEvent::WouldBlock), AcceptStep::Stop);
}
