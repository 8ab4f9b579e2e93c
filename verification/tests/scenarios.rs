use prefork_http::conn::Conn;
use prefork_http::static_files::{DocRoot, FileEntry};

fn file(path: &[u8], content: &[u8]) -> FileEntry {
    FileEntry {
        path: path.to_vec(),
        is_file: true,
        size: content.len(),
        content: Some(content.to_vec()),
    }
}

fn fixture() -> DocRoot {
    DocRoot {
        entries: vec![
            file(b"index.html", b"<html>home</html>"),
            file(b"style.css", &[b'c'; 512]),
        ],
    }
}

/// Runs one request through a fresh connection and returns the response bytes.
fn serve(root: &DocRoot, request: &[u8]) -> Vec<u8> {
    let mut c = Conn::new(64);
    let computed = c.on_read(request, root);
    assert!(computed);
    assert!(c.has_pending_write());
    c.write_buf.clone()
}

fn split_at_blank_line(resp: &[u8]) -> (Vec<u8>, Vec<u8>) {
    let pos = resp
        .windows(4)
        .position(|w| w == b"\r\n\r\n")
        .expect("no blank line");
    (resp[..pos + 4].to_vec(), resp[pos + 4..].to_vec())
}

#[test]
fn get_existing_file_is_200_with_exact_length() {
    let root = fixture();
    let resp = serve(&root, b"GET /index.html HTTP/1.1\r\nHost: x\r\n\r\n");
    let expected = b"HTTP/1.1 200 OK\r\nContent-Type: text/html; charset=utf-8\r\nContent-Length: 17\r\nConnection: close\r\n\r\n<html>home</html>";
    assert_eq!(resp, expected.to_vec());
}

#[test]
fn get_root_resolves_default_document() {
    let root = fixture();
    let on_slash = serve(&root, b"GET / HTTP/1.1\r\n\r\n");
    let on_name = serve(&root, b"GET /index.html HTTP/1.1\r\n\r\n");
    assert_eq!(on_slash, on_name);
    assert!(on_slash.starts_with(b"HTTP/1.1 200 OK\r\n"));
}

#[test]
fn get_traversal_is_403() {
    let root = fixture();
    let resp = serve(&root, b"GET /../secret HTTP/1.1\r\n\r\n");
    assert!(resp.starts_with(b"HTTP/1.1 403 Forbidden\r\n"));
}

#[test]
fn get_missing_is_404() {
    let root = fixture();
    let resp = serve(&root, b"GET /missing.txt HTTP/1.1\r\n\r\n");
    assert!(resp.starts_with(b"HTTP/1.1 404 Not Found\r\n"));
}

#[test]
fn delete_is_405_with_allow() {
    let root = fixture();
    let resp = serve(&root, b"DELETE /index.html HTTP/1.1\r\n\r\n");
    assert!(resp.starts_with(b"HTTP/1.1 405 Method Not Allowed\r\n"));
    assert!(resp.windows(18).any(|w| w == b"Allow: GET, HEAD\r\n"));
}

#[test]
fn head_css_declares_512_over_empty_body() {
    let root = fixture();
    let resp = serve(&root, b"HEAD /style.css HTTP/1.1\r\n\r\n");
    let expected = b"HTTP/1.1 200 OK\r\nContent-Type: text/css; charset=utf-8\r\nContent-Length: 512\r\nConnection: close\r\n\r\n";
    assert_eq!(resp, expected.to_vec());
}

#[test]
fn head_headers_match_get_headers() {
    let root = fixture();
    let get = serve(&root, b"GET /style.css HTTP/1.1\r\n\r\n");
    let head = serve(&root, b"HEAD /style.css HTTP/1.1\r\n\r\n");
    let (get_headers, get_body) = split_at_blank_line(&get);
    let (head_headers, head_body) = split_at_blank_line(&head);
    assert_eq!(get_headers, head_headers);
    assert_eq!(get_body.len(), 512);
    assert!(head_body.is_empty());
}

#[test]
fn repeated_identical_gets_are_byte_identical() {
    let root = fixture();
    let first = serve(&root, b"GET /index.html HTTP/1.1\r\n\r\n");
    let second = serve(&root, b"GET /index.html HTTP/1.1\r\n\r\n");
    assert_eq!(first, second);
}

#[test]
fn malformed_request_line_is_400() {
    let root = fixture();
    let resp = serve(&root, b"GET\r\n\r\n");
    assert!(resp.starts_with(b"HTTP/1.1 400 Bad Request\r\n"));
    assert!(resp.ends_with(b"\r\n\r\nmissing target"));
}

#[test]
fn every_scenario_response_has_connection_close() {
    let root = fixture();
    for req in [
        &b"GET /index.html HTTP/1.1\r\n\r\n"[..],
        b"GET /../x HTTP/1.1\r\n\r\n",
        b"GET /nope HTTP/1.1\r\n\r\n",
        b"DELETE / HTTP/1.1\r\n\r\n",
        b"HEAD /style.css HTTP/1.1\r\n\r\n",
        b"junk\r\n\r\n",
    ] {
        let resp = serve(&root, req);
        assert!(resp.windows(19).any(|w| w == b"Connection: close\r\n"));
    }
}

#[test]
fn query_suffix_is_stripped_before_resolution() {
    let root = fixture();
    let with_query = serve(&root, b"GET /index.html?version=1&x=y HTTP/1.1\r\n\r\n");
    let plain = serve(&root, b"GET /index.html HTTP/1.1\r\n\r\n");
    assert_eq!(with_query, plain);
}

#[test]
fn non_escaping_traversal_is_still_403() {
    let root = fixture();
    let resp = serve(&root, b"GET /style.css/../index.html HTTP/1.1\r\n\r\n");
    assert!(resp.starts_with(b"HTTP/1.1 403 Forbidden\r\n"));
}
