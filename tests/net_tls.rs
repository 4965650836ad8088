use xx_url::dns::records::{IpAddress, RData, Record, CLASS_IN, TYPE_A, TYPE_AAAA};
use xx_url::dns::resolver::LookupIp;
use xx_url::http::body::{Body, Transfer};
use xx_url::http::error::HttpError;
use xx_url::net::{candidates, has_peer_hungup, ConnectOptions, Dial, DialError, IpStrategy};
use xx_url::tls::{after_read, after_write, interrupted_write, poll_interest, HandshakeStep};

fn both() -> LookupIp {
    let mut ips = LookupIp::new();
    let records = vec![
        Record { name: b"h".to_vec(), class: CLASS_IN, rtype: TYPE_A, ttl: 0, data: RData::A(1) },
        Record { name: b"h".to_vec(), class: CLASS_IN, rtype: TYPE_AAAA, ttl: 0, data: RData::Aaaa(2) },
        Record { name: b"h".to_vec(), class: CLASS_IN, rtype: TYPE_A, ttl: 0, data: RData::A(3) },
    ];
    ips.push_records(&records);
    ips
}

#[test]
fn dial_orders() {
    let ips = both();
    assert_eq!(ips.v4(), &vec![1, 3]);
    assert_eq!(ips.v6(), &vec![2]);
    let v4a = IpAddress::V4(1);
    let v4b = IpAddress::V4(3);
    let v6 = IpAddress::V6(2);
    assert_eq!(candidates(&ips, IpStrategy::Default), vec![v6, v4a, v4b]);
    assert_eq!(candidates(&ips, IpStrategy::PreferIpv6), vec![v6, v4a, v4b]);
    assert_eq!(candidates(&ips, IpStrategy::PreferIpv4), vec![v4a, v4b, v6]);
    assert_eq!(candidates(&ips, IpStrategy::Ipv4Only), vec![v4a, v4b]);
    assert_eq!(candidates(&ips, IpStrategy::Ipv6Only), vec![v6]);
}

#[test]
fn connect_options() {
    let mut o = ConnectOptions::new("example.com".to_string(), 0);
    assert_eq!(o.effective_port(true), 443);
    assert_eq!(o.effective_port(false), 80);
    o.set_port(8080);
    o.set_strategy(IpStrategy::PreferIpv4);
    o.set_tcp_nodelay(true);
    o.set_tcp_keepalive(60);
    o.set_recvbuf_size(4096);
    o.set_sendbuf_size(2048);
    o.set_timeout(Some(1000));
    assert_eq!(o.effective_port(true), 8080);
    assert_eq!(o.host(), "example.com");
    assert_eq!(o.port(), 8080);
    assert_eq!(o.strategy, IpStrategy::PreferIpv4);
}

#[test]
fn dial_errors() {
    let mut d = Dial::new(0);
    assert_eq!(d.next_attempt(), None);
    assert_eq!(d.exhausted(), DialError::NoAddresses);
    let mut d = Dial::new(2);
    assert_eq!(d.next_attempt(), Some(0));
    d.failed(111);
    assert_eq!(d.next_attempt(), Some(1));
    d.failed(113);
    assert_eq!(d.next_attempt(), None);
    assert_eq!(d.exhausted(), DialError::Failed(113));
    assert!(has_peer_hungup(0x2000));
    assert!(!has_peer_hungup(0x001));
}

#[test]
fn tls_handshake_decisions() {
    let i = poll_interest(true, false);
    assert!(i.readable && !i.writable);
    assert!(after_write(false, false));
    assert!(!after_write(true, false));
    assert_eq!(after_read(true, false, false, true, false), HandshakeStep::Continue);
    assert_eq!(after_read(true, false, false, false, false), HandshakeStep::Done);
    assert_eq!(after_read(true, false, true, false, true), HandshakeStep::UnexpectedEof);
    assert_eq!(after_read(true, false, true, false, false), HandshakeStep::Continue);
    assert_eq!(after_read(true, true, true, false, false), HandshakeStep::FlushAlertThenFail);
    assert_eq!(interrupted_write(0), None);
    assert_eq!(interrupted_write(5), Some(5));
}

#[test]
fn trailers_after_chunked_body() {
    let mut body = Body::new(false, 200, Some(b"chunked"), None, None);
    let input = b"1\r\na\r\n0\r\nX-Sum: 1\r\n\r\n";
    let (n, out) = body.read(input, false).unwrap();
    assert_eq!(out, b"a".to_vec());
    assert_eq!(body.transfer, Transfer::Trailers);
    let (h, m) = body.read_trailers(&input[n..], false, 8192).unwrap().unwrap();
    assert_eq!(h.get(b"x-sum"), Some(&b"1".to_vec()));
    assert_eq!(n + m, input.len());
    assert_eq!(body.transfer, Transfer::Empty);
    assert!(matches!(HttpError::ChunkTooLarge, HttpError::ChunkTooLarge));
}
