use prefork_http::static_files::{
    guess_content_type, load_get, load_head, sanitize_target, DocRoot, FileEntry, StaticError,
};

fn file(path: &[u8], content: &[u8]) -> FileEntry {
    FileEntry {
        path: path.to_vec(),
        is_file: true,
        size: content.len(),
        content: Some(content.to_vec()),
    }
}

fn fixture() -> DocRoot {
    DocRoot {
        entries: vec![
            file(b"index.html", b"<html>home</html>"),
            file(b"style.css", &[b'c'; 512]),
            file(b"sub/page.htm", b"<p>hi</p>"),
            FileEntry { path: b"sub".to_vec(), is_file: false, size: 0, content: None },
            FileEntry {
                path: b"locked.txt".to_vec(),
                is_file: true,
                size: 4,
                content: None,
            },
        ],
    }
}

#[test]
fn sanitize_rejects_dotdot_anywhere() {
    // even a non-escaping `..` is rejected
    for t in [
        &b"/../secret"[..],
        b"/a/../b",
        b"/a/b/..",
        b"/..",
        b"/../../etc/passwd",
    ] {
        assert_eq!(sanitize_target(t).unwrap_err(), StaticError::Forbidden);
    }
}

#[test]
fn sanitize_keeps_ordinary_components() {
    assert_eq!(sanitize_target(b"/a/b/c").unwrap(), b"a/b/c".to_vec());
}

#[test]
fn sanitize_drops_empty_and_curdir_components() {
    assert_eq!(sanitize_target(b"//a/./b//c/").unwrap(), b"a/b/c".to_vec());
    assert_eq!(sanitize_target(b"/./").unwrap(), b"".to_vec());
}

#[test]
fn sanitize_root_is_empty() {
    assert_eq!(sanitize_target(b"/").unwrap(), b"".to_vec());
}

#[test]
fn content_type_table() {
    assert_eq!(guess_content_type(b"index.html"), "text/html; charset=utf-8");
    assert_eq!(guess_content_type(b"a.htm"), "text/html; charset=utf-8");
    assert_eq!(guess_content_type(b"style.css"), "text/css; charset=utf-8");
    assert_eq!(guess_content_type(b"app.js"), "application/javascript; charset=utf-8");
    assert_eq!(guess_content_type(b"d.json"), "application/json; charset=utf-8");
    assert_eq!(guess_content_type(b"t.txt"), "text/plain; charset=utf-8");
    assert_eq!(guess_content_type(b"p.png"), "image/png");
    assert_eq!(guess_content_type(b"j.jpg"), "image/jpeg");
    assert_eq!(guess_content_type(b"j.jpeg"), "image/jpeg");
    assert_eq!(guess_content_type(b"g.gif"), "image/gif");
    assert_eq!(guess_content_type(b"s.svg"), "image/svg+xml");
    assert_eq!(guess_content_type(b"noext"), "application/octet-stream");
    assert_eq!(guess_content_type(b"a.tar.bin"), "application/octet-stream");
}

#[test]
fn content_type_uses_file_name_only() {
    assert_eq!(guess_content_type(b"sub.css/readme"), "application/octet-stream");
    assert_eq!(guess_content_type(b"sub/page.htm"), "text/html; charset=utf-8");
}

#[test]
fn hidden_file_has_no_extension() {
    assert_eq!(guess_content_type(b".html"), "application/octet-stream");
}

#[test]
fn get_serves_file_bytes() {
    let root = fixture();
    let a = load_get(&root, b"/index.html").unwrap();
    assert_eq!(a.body, b"<html>home</html>".to_vec());
    assert_eq!(a.declared_len, 17);
    assert_eq!(a.content_type, "text/html; charset=utf-8");
}

#[test]
fn get_root_serves_default_document() {
    let root = fixture();
    let a = load_get(&root, b"/").unwrap();
    assert_eq!(a.body, b"<html>home</html>".to_vec());
    assert_eq!(a.content_type, "text/html; charset=utf-8");
}

#[test]
fn head_is_empty_body_same_length() {
    let root = fixture();
    let a = load_head(&root, b"/style.css").unwrap();
    assert_eq!(a.declared_len, 512);
    assert!(a.body.is_empty());
    assert_eq!(a.content_type, "text/css; charset=utf-8");
}

#[test]
fn missing_entry_is_not_found() {
    let root = fixture();
    assert_eq!(load_get(&root, b"/missing.txt").unwrap_err(), StaticError::NotFound);
}

#[test]
fn traversal_is_forbidden() {
    let root = fixture();
    assert_eq!(load_get(&root, b"/../secret").unwrap_err(), StaticError::Forbidden);
    assert_eq!(load_head(&root, b"/../secret").unwrap_err(), StaticError::Forbidden);
}

#[test]
fn directory_is_forbidden() {
    let root = fixture();
    assert_eq!(load_get(&root, b"/sub").unwrap_err(), StaticError::Forbidden);
}

#[test]
fn unreadable_file_is_io_on_get_only() {
    let root = fixture();
    assert_eq!(load_get(&root, b"/locked.txt").unwrap_err(), StaticError::Io);
    // HEAD never opens the file, so it still succeeds
    let a = load_head(&root, b"/locked.txt").unwrap();
    assert_eq!(a.declared_len, 4);
}

#[test]
fn read_is_bounded_by_declared_size() {
    // a file that grew after its metadata was read: only the declared size is served
    let root = DocRoot {
        entries: vec![FileEntry {
            path: b"grew.txt".to_vec(),
            is_file: true,
            size: 3,
            content: Some(b"hello".to_vec()),
        }],
    };
    let a = load_get(&root, b"/grew.txt").unwrap();
    assert_eq!(a.body, b"hel".to_vec());
    assert_eq!(a.declared_len, 3);
}

#[test]
fn shrunken_file_is_served_best_effort() {
    let root = DocRoot {
        entries: vec![FileEntry {
            path: b"shrank.txt".to_vec(),
            is_file: true,
            size: 10,
            content: Some(b"hi".to_vec()),
        }],
    };
    let a = load_get(&root, b"/shrank.txt").unwrap();
    assert_eq!(a.body, b"hi".to_vec());
    assert_eq!(a.declared_len, 10);
}
