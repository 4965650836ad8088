use xx_url::error::UrlError;
use xx_url::http::headers::Headers;
use xx_url::request::{RequestBase, UrlParts};
use xx_url::ws::errors::WebSocketError;
use xx_url::ws::handshake::{
    add_upgrade_fields, check_client_request, check_server_response, parse_request_line,
    read_upgrade_request, accept_for, client_accept,
    write_upgrade_response, Key,
};
use xx_url::http::error::Version;

#[test]
fn rfc_sample_key_accept() {
    let key = Key::from(b"dGhlIHNhbXBsZSBub25jZQ==").unwrap();
    assert_eq!(key.data, *b"the sample nonce");
    assert_eq!(key.encode(), b"dGhlIHNhbXBsZSBub25jZQ==".to_vec());
    assert_eq!(key.accept(), b"s3pPLMBiTxaQ9kYGzzhZRbK+xOo=".to_vec());
}

#[test]
fn keys_must_be_sixteen_bytes() {
    assert_eq!(Key::from(b"AAAA").unwrap_err(), WebSocketError::InvalidKey);
    assert_eq!(Key::from(b"not base64!").unwrap_err(), WebSocketError::InvalidKey);
    let k = Key::new();
    assert_eq!(k.encode().len(), 24);
    assert_eq!(Key::from(&k.encode()).unwrap().data, k.data);
}

#[test]
fn client_and_server_agree() {
    let key = Key::from(b"dGhlIHNhbXBsZSBub25jZQ==").unwrap();
    let mut request = Headers::new();
    add_upgrade_fields(&mut request, &key.encode()).unwrap();
    let got = check_client_request(&request).unwrap();
    assert_eq!(got.data, key.data);
    let accept = got.accept();
    let response = write_upgrade_response(&accept);
    assert_eq!(
        response,
        b"HTTP/1.1 101 Switching Protocols\r\nConnection: Upgrade\r\nUpgrade: websocket\r\nSec-WebSocket-Accept: s3pPLMBiTxaQ9kYGzzhZRbK+xOo=\r\n\r\n".to_vec()
    );
    let mut h = Headers::new();
    h.insert(b"Connection", b"upgrade").unwrap();
    h.insert(b"Upgrade", b"WebSocket").unwrap();
    h.insert(b"Sec-WebSocket-Accept", &key.accept()).unwrap();
    assert!(check_server_response(101, &h, &key.accept()).is_ok());
    assert_eq!(check_server_response(200, &h, &key.accept()), Err(WebSocketError::ServerRejected));
    assert_eq!(check_server_response(101, &h, b"other"), Err(WebSocketError::ServerRejected));
}

#[test]
fn client_request_errors() {
    let mut h = Headers::new();
    h.insert(b"Connection", b"Upgrade").unwrap();
    h.insert(b"Upgrade", b"websocket").unwrap();
    assert!(matches!(check_client_request(&h), Err(WebSocketError::InvalidClientRequest)));
    h.insert(b"Sec-WebSocket-Version", b"13").unwrap();
    assert!(matches!(check_client_request(&h), Err(WebSocketError::InvalidClientRequest)));
    h.insert(b"Sec-WebSocket-Key", b"AAAA").unwrap();
    assert!(matches!(check_client_request(&h), Err(WebSocketError::InvalidKey)));
}

#[test]
fn request_line() {
    let line = b"GET /chat HTTP/1.1";
    let (v, p) = parse_request_line(line, 0, line.len()).unwrap();
    assert_eq!(v, Version::Http11);
    assert_eq!(p, b"/chat".to_vec());
    let bad = b"POST /chat HTTP/1.1";
    assert!(parse_request_line(bad, 0, bad.len()).is_none());
}

#[test]
fn request_base_urls() {
    let mut r = RequestBase::new("wss://example.com:8443/chat?x=1", &["ws", "wss"]);
    let u = r.url().unwrap();
    assert_eq!(u.scheme, "wss");
    assert_eq!(u.host.as_deref(), Some("example.com"));
    assert_eq!(u.port, Some(8443));
    assert_eq!(u.path, "/chat?x=1");
    assert!(r.finalize().is_ok());
    let bad = RequestBase::new("http://example.com/", &["ws", "wss"]);
    assert_eq!(bad.url.unwrap_err(), UrlError::InvalidScheme("http".to_string()));
    let mut broken = RequestBase::new("not a url", &["http"]);
    assert_eq!(broken.finalize().unwrap_err(), UrlError::InvalidUrl);
    assert_eq!(broken.finalize().unwrap_err(), UrlError::InvalidRequest);
    r.fail(UrlError::PartialFile);
    assert!(r.url().is_none());
}

#[test]
fn redirect_targets() {
    let base = RequestBase::new("http://a.test/x/y", &["http"]);
    let cur = base.url().unwrap();
    let next = RequestBase::redirect_target(cur, &"http".to_string(), "../z").unwrap();
    assert_eq!(next.text, "http://a.test/z");
    let err = RequestBase::redirect_target(cur, &"http".to_string(), "https://b.test/").unwrap_err();
    assert_eq!(err, UrlError::RedirectForbidden("https".to_string()));
}

#[test]
fn upgrade_request_head() {
    let req = b"GET /chat HTTP/1.1\r\nHost: a\r\nConnection: Upgrade\r\nUpgrade: websocket\r\nSec-WebSocket-Version: 13\r\nSec-WebSocket-Key: dGhlIHNhbXBsZSBub25jZQ==\r\n\r\n";
    let (path, headers, n) = read_upgrade_request(req, false, 8192).unwrap().unwrap();
    assert_eq!(path, b"/chat".to_vec());
    assert_eq!(n, req.len());
    let key = check_client_request(&headers).unwrap();
    assert_eq!(key.accept(), b"s3pPLMBiTxaQ9kYGzzhZRbK+xOo=".to_vec());
    assert!(read_upgrade_request(&req[..10], false, 8192).unwrap().is_none());
    assert!(read_upgrade_request(b"GET /chat HTTP/1.0\r\n\r\n", false, 8192).is_err());
}

fn parts(scheme: &str) -> UrlParts {
    UrlParts {
        text: format!("{scheme}://h/"),
        scheme: scheme.to_string(),
        host: Some("h".to_string()),
        port: None,
        path: "/".to_string(),
    }
}

#[test]
fn scheme_checks_on_given_urls() {
    assert!(RequestBase::check_scheme(parts("ws"), &["ws", "wss"]).is_ok());
    assert_eq!(
        RequestBase::check_scheme(parts("ftp"), &["ws", "wss"]).unwrap_err(),
        UrlError::InvalidScheme("ftp".to_string())
    );
    assert!(RequestBase::keep_scheme(parts("http"), &"http".to_string()).is_ok());
    assert_eq!(
        RequestBase::keep_scheme(parts("https"), &"http".to_string()).unwrap_err(),
        UrlError::RedirectForbidden("https".to_string())
    );
}

#[test]
fn accept_from_sent_key_text() {
    assert_eq!(accept_for(b"dGhlIHNhbXBsZSBub25jZQ=="), b"s3pPLMBiTxaQ9kYGzzhZRbK+xOo=".to_vec());
    let mut h = Headers::new();
    add_upgrade_fields(&mut h, b"dGhlIHNhbXBsZSBub25jZQ==").unwrap();
    assert_eq!(client_accept(&h).unwrap(), b"s3pPLMBiTxaQ9kYGzzhZRbK+xOo=".to_vec());
}
