use prefork_http::config::Settings;

#[test]
fn settings_carry_their_fields() {
    let s = Settings {
        addr: "127.0.0.1:8080".to_string(),
        workers: 4,
        poll_timeout_ms: 250,
        read_chunk: 4096,
        doc_root: "/srv/www".to_string(),
    };
    let copy = s.clone();
    assert_eq!(copy.addr, "127.0.0.1:8080");
    assert_eq!(copy.workers, 4);
    assert_eq!(copy.poll_timeout_ms, 250);
    assert_eq!(copy.read_chunk, 4096);
    assert_eq!(copy.doc_root, "/srv/www");
}
