use codecrafters_http_server::handlers::{
    file_read_response, file_write_response, handle_echo, handle_file, handle_root, handle_user_agent, FileAction,
};
use codecrafters_http_server::{HttpHeaders, HttpMethod, HttpRequest, Router, ServerConfig};

fn request(method: HttpMethod, uri: &str, headers: HttpHeaders, body: Vec<u8>) -> HttpRequest {
    HttpRequest::new(method, uri.to_string(), "HTTP/1.1".to_string(), headers, body)
}

#[test]
fn test_router_root() {
    let config = ServerConfig::new(None);
    let router = Router::new(config);
    let request = HttpRequest::new(
        HttpMethod::Get,
        "/".to_string(),
        "HTTP/1.1".to_string(),
        HttpHeaders::new(),
        Vec::new(),
    );
    let response = router.handle(request);
    assert_eq!(response.status, 200);
}

#[test]
fn test_router_not_found() {
    let config = ServerConfig::new(None);
    let router = Router::new(config);
    let request = HttpRequest::new(
        HttpMethod::Get,
        "/unknown".to_string(),
        "HTTP/1.1".to_string(),
        HttpHeaders::new(),
        Vec::new(),
    );
    let response = router.handle(request);
    assert_eq!(response.status, 404);
}

#[test]
fn test_handle_echo_simple() {
    let request = HttpRequest::new(
        HttpMethod::Get,
        "/echo/hello".to_string(),
        "HTTP/1.1".to_string(),
        HttpHeaders::new(),
        Vec::new(),
    );
    let response = handle_echo(&request);
    assert_eq!(response.status, 200);
    assert_eq!(response.body, b"hello");
    assert_eq!(response.headers.get("Content-Type"), Some("text/plain"));
}

#[test]
fn test_handle_echo_with_gzip() {
    let mut headers = HttpHeaders::new();
    headers.insert("Accept-Encoding", "gzip");
    let request = HttpRequest::new(
        HttpMethod::Get,
        "/echo/hello".to_string(),
        "HTTP/1.1".to_string(),
        headers,
        Vec::new(),
    );
    let response = handle_echo(&request);
    assert_eq!(response.status, 200);
    assert_eq!(response.headers.get("Content-Encoding"), Some("gzip"));
    assert_ne!(response.body, b"hello");
}

#[test]
fn test_handle_echo_empty_path() {
    let request = HttpRequest::new(
        HttpMethod::Get,
        "/echo/".to_string(),
        "HTTP/1.1".to_string(),
        HttpHeaders::new(),
        Vec::new(),
    );
    let response = handle_echo(&request);
    assert_eq!(response.status, 200);
    assert_eq!(response.body, b"");
}

#[test]
fn test_handle_file_no_server_directory() {
    let config = ServerConfig::new(None);
    let request = HttpRequest::new(
        HttpMethod::Get,
        "/files/test.txt".to_string(),
        "HTTP/1.1".to_string(),
        HttpHeaders::new(),
        Vec::new(),
    );
    let FileAction::Respond(response) = handle_file(&request, &config) else {
        panic!("a request without a directory needs no file");
    };
    assert_eq!(response.status, 404);
}

#[test]
fn test_handle_root() {
    let request = HttpRequest::new(
        HttpMethod::Get,
        "/".to_string(),
        "HTTP/1.1".to_string(),
        HttpHeaders::new(),
        Vec::new(),
    );
    let response = handle_root(&request);
    assert_eq!(response.status, 200);
    assert_eq!(response.body, Vec::new());
}

#[test]
fn test_handle_user_agent_present() {
    let mut headers = HttpHeaders::new();
    headers.insert("User-Agent", "Mozilla/5.0");
    let request = HttpRequest::new(
        HttpMethod::Get,
        "/user-agent".to_string(),
        "HTTP/1.1".to_string(),
        headers,
        Vec::new(),
    );
    let response = handle_user_agent(&request);
    assert_eq!(response.status, 200);
    assert_eq!(response.body, b"Mozilla/5.0");
}

#[test]
fn test_handle_user_agent_missing() {
    let request = HttpRequest::new(
        HttpMethod::Get,
        "/user-agent".to_string(),
        "HTTP/1.1".to_string(),
        HttpHeaders::new(),
        Vec::new(),
    );
    let response = handle_user_agent(&request);
    assert_eq!(response.status, 200);
    assert_eq!(response.body, b"Unknown");
}

#[test]
fn file_requests_with_a_directory_name_the_file() {
    let config = ServerConfig::new(Some("/srv/data".to_string()));
    let get = request(HttpMethod::Get, "/files/a/b.txt", HttpHeaders::new(), Vec::new());
    match handle_file(&get, &config) {
        FileAction::Read(path) => assert_eq!(path, "/srv/data/a/b.txt"),
        _ => panic!("GET reads the file"),
    }
    let post = request(HttpMethod::Post, "/files/new.bin", HttpHeaders::new(), vec![1, 2, 255]);
    match handle_file(&post, &config) {
        FileAction::Write(path, body) => {
            assert_eq!(path, "/srv/data/new.bin");
            assert_eq!(body, vec![1, 2, 255]);
        }
        _ => panic!("POST writes the file"),
    }
    let put = request(HttpMethod::Put, "/files/x", HttpHeaders::new(), Vec::new());
    match handle_file(&put, &config) {
        FileAction::Respond(response) => assert_eq!(response.status, 404),
        _ => panic!("PUT is not served"),
    }
    let router = Router::new(ServerConfig::new(Some("/srv".to_string())));
    assert!(matches!(router.route(&get), FileAction::Read(_)));
}

#[test]
fn file_answers() {
    let found = file_read_response(Some(b"abc".to_vec()));
    assert_eq!(found.status, 200);
    assert_eq!(found.body, b"abc");
    assert_eq!(found.headers.get("Content-Type"), Some("application/octet-stream"));
    assert_eq!(found.headers.get("Content-Length"), Some("3"));
    let missing = file_read_response(None);
    assert_eq!(missing.status, 404);
    let written = file_write_response(true);
    assert_eq!(written.status, 201);
    assert_eq!(written.reason_phrase, "Created");
    assert_eq!(written.body, b"Uploaded successfully");
    assert_eq!(written.headers.get("content-length"), Some("21"));
    assert_eq!(file_write_response(false).status, 404);
}

#[test]
fn gzip_is_chosen_among_listed_encodings() {
    let mut headers = HttpHeaders::new();
    headers.insert("Accept-Encoding", "deflate,  gzip , br");
    let response = handle_echo(&request(HttpMethod::Get, "/echo/abc", headers, Vec::new()));
    assert_eq!(response.headers.get("content-encoding"), Some("gzip"));
    assert_eq!(response.body[0], 0x1f);
    assert_eq!(response.headers.get("content-length"), Some(response.body.len().to_string().as_str()));
    let mut headers = HttpHeaders::new();
    headers.insert("Accept-Encoding", "gzipx, deflate");
    let response = handle_echo(&request(HttpMethod::Get, "/echo/abc", headers, Vec::new()));
    assert_eq!(response.headers.get("content-encoding"), None);
    assert_eq!(response.body, b"abc");
}

#[test]
fn echo_keeps_non_ascii_text() {
    let response = handle_echo(&request(HttpMethod::Get, "/echo/héllo", HttpHeaders::new(), Vec::new()));
    assert_eq!(response.body, "héllo".as_bytes());
    assert_eq!(response.headers.get("Content-Length"), Some("6"));
}
