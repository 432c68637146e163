use simadmin_ims::http::{read_path, request_path, respond, route, serve, Route};
use simadmin_ims::state::State;

#[test]
fn path_of_a_request() {
    assert_eq!(request_path("GET /api/ims/status HTTP/1.1\r\nHost: x\r\n\r\n"), "/api/ims/status");
    assert_eq!(request_path("GET /x?a=b?c HTTP/1.1"), "/x");
    assert_eq!(request_path("GET"), "/");
    assert_eq!(request_path(""), "/");
    assert_eq!(request_path("\r\nGET /x HTTP/1.1"), "/");
    assert_eq!(request_path("GET ?q HTTP/1.1"), "");
    assert_eq!(read_path(b"POST /api/ims/register?now=\xff HTTP/1.1\r\n"), "/api/ims/register");
    assert_eq!(read_path(b"GET /\xff HTTP/1.1\r\n"), "/\u{fffd}");
}

#[test]
fn routes_of_paths() {
    assert_eq!(route("/api/ims/status"), Route::Status);
    assert_eq!(route("/api/ims/register"), Route::Register);
    assert_eq!(route("/api/ims/unregister"), Route::Unregister);
    assert_eq!(route("/api/ims/status/"), Route::Page);
    assert_eq!(route("/"), Route::Page);
}

#[test]
fn answers_of_the_api() {
    assert_eq!(
        respond("/api/ims/status", "{\"é\":1}", "page"),
        "HTTP/1.1 200\r\ncontent-type: application/json\r\ncontent-length: 8\r\n\r\n{\"é\":1}"
    );
    assert_eq!(
        respond("/api/ims/register", "s", "p"),
        "HTTP/1.1 200\r\ncontent-type: application/json\r\ncontent-length: 31\r\n\r\n{\"ok\":true,\"msg\":\"registering\"}"
    );
    assert_eq!(
        respond("/api/ims/unregister", "s", "p"),
        "HTTP/1.1 200\r\ncontent-type: application/json\r\ncontent-length: 11\r\n\r\n{\"ok\":true}"
    );
}

#[test]
fn answers_with_the_page() {
    assert_eq!(
        respond("/", "s", "<html>"),
        "HTTP/1.1 200\r\ncontent-type: text/html; charset=utf-8\r\ncontent-length: 6\r\n\r\n<html>"
    );
    assert_eq!(
        respond("/app.js", "s", "<html>"),
        "HTTP/1.1 200\r\ncontent-type: application/javascript\r\ncontent-length: 6\r\n\r\n<html>"
    );
}

#[test]
fn query_does_not_count() {
    for p in ["/api/ims/status", "/", "/x.js"] {
        let plain = request_path(&format!("GET {} HTTP/1.1\r\n", p));
        let asked = request_path(&format!("GET {}?a=1 HTTP/1.1\r\n", p));
        assert_eq!(plain, asked);
        assert_eq!(plain, p);
    }
}

#[test]
fn answers_end_with_their_body() {
    let body = "日本語";
    let r = respond("/", "", body);
    assert!(r.starts_with("HTTP/1.1 200\r\n"));
    assert!(r.ends_with(&format!("\r\ncontent-length: {}\r\n\r\n{}", body.len(), body)));
}

#[test]
fn only_unregister_changes_the_state() {
    for (req, path, asked) in [
        ("GET /api/ims/status HTTP/1.1\r\n", "/api/ims/status", Route::Status),
        ("GET /api/ims/register HTTP/1.1\r\n", "/api/ims/register", Route::Register),
        ("GET /x HTTP/1.1\r\n", "/x", Route::Page),
        ("GET /api/ims/unregister HTTP/1.1\r\n", "/api/ims/unregister", Route::Unregister),
    ] {
        let mut st = State::new();
        st.settle(Ok(true));
        let (p, r) = serve(&mut st, req.as_bytes());
        assert_eq!(p, path);
        assert_eq!(r, asked);
        assert_eq!(st.registered, asked != Route::Unregister);
        let log = if st.registered { "REGISTER done registered=true" } else { "unregister" };
        assert_eq!(st.log, log);
        assert_eq!(st.registering_step, "registered");
    }
}

#[test]
fn only_the_path_counts() {
    for req in [
        &b"GET /api/ims/unregister HTTP/1.1\r\n\r\n"[..],
        &b"POST /api/ims/unregister?x=1 HTTP/1.0\r\nHost: h\r\n\r\nbody"[..],
        &b" \tX  /api/ims/unregister"[..],
        &b"DELETE /api/ims/unregister\n\xff\xfe"[..],
        &b"PUT /api/ims/unregister? \xc3\r\n"[..],
    ] {
        let mut st = State::new();
        st.settle(Ok(true));
        let (p, r) = serve(&mut st, req);
        assert_eq!(p, "/api/ims/unregister");
        assert_eq!(r, Route::Unregister);
        assert!(!st.registered);
    }
}
