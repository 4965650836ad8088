use xx_url::http::body::{has_chunked, parse_decimal, Body, ChunkedState, Transfer};
use xx_url::http::error::{HttpError, Version};
use xx_url::http::head::{parse_response, scan_line, HeadLimits};
use xx_url::http::headers::Headers;
use xx_url::http::transfer::{add_host, should_follow, write_request_head, Method, Redirects};

fn chunked() -> Body {
    Body::new(false, 200, Some(b"chunked"), None, None)
}

#[test]
fn chunked_body_yields_hello_world() {
    let mut body = chunked();
    let input = b"5\r\nhello\r\n6\r\n world\r\n0\r\n\r\n";
    let (n, out) = body.read(input, false).unwrap();
    assert_eq!(out, b"hello world".to_vec());
    assert_eq!(out.len(), 11);
    assert_eq!(body.transfer, Transfer::Trailers);
    assert_eq!(n, input.len() - 2);
    let (n2, out2) = body.read(&input[n..], false).unwrap();
    assert_eq!((n2, out2.len()), (0, 0));
}

#[test]
fn chunked_body_in_pieces() {
    let mut body = chunked();
    let input = b"5\r\nhello\r\n6\r\n world\r\n0\r\n\r\n";
    let mut out = Vec::new();
    let mut pending: Vec<u8> = Vec::new();
    for b in input.iter() {
        pending.push(*b);
        let (n, data) = body.read(&pending, false).unwrap();
        out.extend_from_slice(&data);
        pending.drain(..n);
    }
    assert_eq!(out, b"hello world".to_vec());
    assert_eq!(body.transfer, Transfer::Trailers);
}

#[test]
fn chunk_size_at_u64_max_is_accepted() {
    let mut body = chunked();
    let (n, out) = body.read(b"ffffffffffffffff\r\nab", false).unwrap();
    assert_eq!(n, 20);
    assert_eq!(out, b"ab".to_vec());
    assert_eq!(body.transfer, Transfer::Chunks(ChunkedState::Data(u64::MAX - 2)));
}

#[test]
fn chunk_size_past_u64_max_is_too_large() {
    let mut body = chunked();
    assert_eq!(body.read(b"10000000000000000\r\n", false), Err(HttpError::ChunkTooLarge));
    let mut body = chunked();
    assert_eq!(body.read(b"\r\n", false), Err(HttpError::ChunkTooLarge));
    let mut body = chunked();
    let long = vec![b'0'; 40];
    assert_eq!(body.read(&long, false), Err(HttpError::ChunkTooLarge));
}

#[test]
fn chunked_cut_short_is_partial() {
    let mut body = chunked();
    assert_eq!(body.read(b"5\r\nhel", true), Err(HttpError::PartialFile));
}

#[test]
fn length_body() {
    let mut body = Body::new(false, 200, None, Some(b"3"), None);
    assert_eq!(body.remaining(), Some(3));
    let (n, out) = body.read(b"abc", false).unwrap();
    assert_eq!((n, out), (3, b"abc".to_vec()));
    assert_eq!(body.remaining(), Some(0));
    let (n, out) = body.read(b"", true).unwrap();
    assert_eq!((n, out.len()), (0, 0));
}

#[test]
fn length_body_cut_short() {
    let mut body = Body::new(false, 200, None, Some(b"3"), None);
    let (n, _) = body.read(b"ab", false).unwrap();
    assert_eq!(n, 2);
    assert_eq!(body.read(b"", true), Err(HttpError::PartialFile));
}

#[test]
fn connection_body() {
    let mut body = Body::new(false, 200, None, None, Some(b"Keep-Alive"));
    assert!(body.reusable);
    assert_eq!(body.remaining(), None);
    let (n, out) = body.read(b"xyz", false).unwrap();
    assert_eq!((n, out), (3, b"xyz".to_vec()));
    body.read(b"", true).unwrap();
    assert_eq!(body.transfer, Transfer::Empty);
}

#[test]
fn body_modes() {
    assert_eq!(Body::new(true, 200, Some(b"chunked"), None, None).transfer, Transfer::Empty);
    assert_eq!(Body::new(false, 204, None, Some(b"5"), None).transfer, Transfer::Empty);
    assert_eq!(Body::new(false, 304, None, None, None).transfer, Transfer::Empty);
    assert_eq!(Body::new(false, 101, None, None, None).transfer, Transfer::Empty);
    assert_eq!(
        Body::new(false, 200, Some(b"gzip, Chunked "), Some(b"5"), None).transfer,
        Transfer::Chunks(ChunkedState::Size)
    );
    assert_eq!(Body::new(false, 200, Some(b"gzip"), Some(b"+5"), None).transfer, Transfer::Length(5));
    assert_eq!(Body::new(false, 200, None, None, None).transfer, Transfer::Connection);
    assert_eq!(Body::new(false, 200, None, Some(b"x1"), None).transfer, Transfer::Connection);
    assert_eq!(Body::new(false, 200, None, Some(b"18446744073709551616"), None).transfer, Transfer::Connection);
}

#[test]
fn number_readers() {
    assert!(has_chunked(b"a,b, chunked"));
    assert!(!has_chunked(b"chunkedx"));
    assert_eq!(parse_decimal(b"18446744073709551615"), Some(u64::MAX));
    assert_eq!(parse_decimal(b"18446744073709551616"), None);
    assert_eq!(parse_decimal(b"+"), None);
    assert_eq!(parse_decimal(b""), None);
}

fn limits(line: usize, total: usize) -> HeadLimits {
    let mut l = HeadLimits::new();
    l.line_capacity = line;
    l.maximum_header_size = total;
    l
}

#[test]
fn response_head() {
    let buf = b"HTTP/1.1 200 OK\r\nContent-Length: 3\r\nX-Thing:  v \r\n\r\nabc";
    let (head, n) = parse_response(buf, false, &HeadLimits::new()).unwrap().unwrap();
    assert_eq!(head.version, Version::Http11);
    assert_eq!(head.status, 200);
    assert_eq!(head.headers.get(b"content-length"), Some(&b"3".to_vec()));
    assert_eq!(head.headers.get(b"X-THING"), Some(&b"v ".to_vec()));
    assert_eq!(&buf[n..], b"abc");
    assert_eq!(head.head_bytes, n - 2);
}

#[test]
fn response_head_needs_more() {
    assert!(parse_response(b"HTT", false, &HeadLimits::new()).unwrap().is_none());
    assert!(parse_response(b"HTTP/1.1 200 OK\r\nA: b\r\n", false, &HeadLimits::new()).unwrap().is_none());
    assert!(matches!(parse_response(b"HTT", true, &HeadLimits::new()), Err(HttpError::UnexpectedEof)));
}

#[test]
fn http09_response() {
    let mut l = HeadLimits::new();
    assert!(matches!(parse_response(b"hello", false, &l), Err(HttpError::UnexpectedVersion(Version::Http09))));
    l.min_version = Version::Http09;
    let (head, n) = parse_response(b"hello", false, &l).unwrap().unwrap();
    assert_eq!((head.version, head.status, n), (Version::Http09, 200, 0));
}

#[test]
fn status_line_at_capacity() {
    let line = b"HTTP/1.1 200 OK\r\n";
    let cap = line.len();
    let mut buf = line.to_vec();
    buf.extend_from_slice(b"\r\n");
    assert!(parse_response(&buf, false, &limits(cap, 1000)).unwrap().is_some());
    assert!(matches!(parse_response(&buf, false, &limits(cap - 1, 1000)), Err(HttpError::HeadersTooLong)));
    assert_eq!(scan_line(line, 0, cap, false), Ok(Some(cap)));
    assert_eq!(scan_line(line, 0, cap - 1, false), Err(HttpError::HeadersTooLong));
}

#[test]
fn header_budget() {
    let buf = b"HTTP/1.1 200 OK\r\nA: b\r\n\r\n";
    assert!(parse_response(buf, false, &limits(100, 23)).unwrap().is_some());
    assert!(matches!(parse_response(buf, false, &limits(100, 22)), Err(HttpError::HeadersTooLong)));
    assert!(matches!(parse_response(buf, false, &limits(100, 10)), Err(HttpError::HeadersTooLong)));
}

#[test]
fn head_errors() {
    let l = HeadLimits::new();
    assert!(matches!(parse_response(b"HTTP/1.1 2000 OK\r\n\r\n", false, &l), Err(HttpError::InvalidStatusLine(_))));
    assert!(matches!(parse_response(b"HTTP/2.0 200 OK\r\n\r\n", false, &l), Err(HttpError::UnexpectedVersion(Version::Http20))));
    assert!(matches!(parse_response(b"HTTP/1.1 200 OK\r\nBad Name: x\r\n\r\n", false, &l), Err(HttpError::InvalidHeaderName(_))));
    assert!(matches!(parse_response(b"HTTP/1.1 200 OK\r\nA: \x01\r\n\r\n", false, &l), Err(HttpError::InvalidHeaderValue(_))));
    let (head, _) = parse_response(b"HTTP/1.0 404 Not Found\r\nNoColon\r\n\r\n", false, &l).unwrap().unwrap();
    assert_eq!(head.status, 404);
    assert_eq!(head.headers.get(b"nocolon"), Some(&Vec::new()));
}

#[test]
fn request_head_round_trip() {
    let mut h = Headers::new();
    h.insert(b"Accept", b"*/*").unwrap();
    h.insert(b"X-Custom", b"a b").unwrap();
    add_host(&mut h, Version::Http11, b"example.com").unwrap();
    let bytes = write_request_head(Method::Get, b"/p?q=1", Version::Http11, &h);
    assert_eq!(
        bytes,
        b"GET /p?q=1 HTTP/1.1\r\naccept: */*\r\nx-custom: a b\r\nhost: example.com\r\n\r\n".to_vec()
    );
    let mut response = b"HTTP/1.1 200 OK\r\n".to_vec();
    let start = bytes.iter().position(|b| *b == b'\n').unwrap() + 1;
    response.extend_from_slice(&bytes[start..]);
    let (head, _) = parse_response(&response, false, &HeadLimits::new()).unwrap().unwrap();
    assert_eq!(head.headers.entries, h.entries);
}

#[test]
fn headers_insert_replaces() {
    let mut h = Headers::new();
    h.insert(b"A", b"1").unwrap();
    h.insert(b"a", b"2").unwrap();
    assert_eq!(h.len(), 1);
    assert_eq!(h.get(b"A"), Some(&b"2".to_vec()));
    assert!(h.contains_key(b"a"));
    assert!(matches!(h.insert(b"", b"x"), Err(HttpError::InvalidHeaderName(_))));
    assert!(matches!(h.insert(b"b", b"\n"), Err(HttpError::InvalidHeaderValue(_))));
    add_host(&mut h, Version::Http11, b"x").unwrap();
    add_host(&mut h, Version::Http11, b"y").unwrap();
    assert_eq!(h.get(b"host"), Some(&b"x".to_vec()));
}

#[test]
fn redirect_limit() {
    let mut remaining = 2u32;
    let mut followed = 0;
    loop {
        if should_follow(302, remaining, true) {
            remaining -= 1;
            followed += 1;
        } else {
            break;
        }
    }
    assert_eq!(followed, 2);
    assert!(!should_follow(200, 5, true));
    assert!(!should_follow(301, 5, false));
    assert!(should_follow(399, 1, true));
}

#[test]
fn headers_remove() {
    let mut h = Headers::new();
    h.insert(b"A", b"1").unwrap();
    h.insert(b"B", b"2").unwrap();
    assert_eq!(h.remove(b"a"), Some(b"1".to_vec()));
    assert_eq!(h.remove(b"a"), None);
    assert_eq!(h.len(), 1);
    assert_eq!(h.get(b"b"), Some(&b"2".to_vec()));
}

#[test]
fn redirect_steps() {
    let mut r = Redirects::new(2);
    assert!(r.on_response(301, true));
    assert!(!r.on_response(200, true));
    assert!(r.on_response(307, true));
    assert!(!r.on_response(302, true));
    assert_eq!(r.remaining, 0);
}

#[test]
fn head_errors_are_named() {
    let buf = b"HTTP/1.1 200 OK\r\nA: \xff\r\n\r\n";
    assert!(matches!(parse_response(buf, false, &HeadLimits::new()), Err(HttpError::InvalidUtf8)));
    assert!(matches!(parse_response(b"HTTP/1.1 200 OK\r\nA: b", true, &HeadLimits::new()), Err(HttpError::UnexpectedEof)));
}
