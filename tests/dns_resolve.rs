use xx_url::dns::hosts::{hosts_line_tokens, Hosts};
use xx_url::dns::name_server::NameServer;
use xx_url::dns::records::{
    Answer, DnsError, DnsMessage, IpAddress, Query, RData, Record, CLASS_IN, TYPE_A, TYPE_AAAA,
};
use xx_url::dns::resolver::{query_name, Config, LookupIp, ResolveStep, Resolution, Resolver};
use xx_url::env::{hosts_path, resolver_conf_path, root_certs_path};

fn query(name: &str, qtype: u16) -> Query {
    Query { name: name.as_bytes().to_vec(), qtype, qclass: CLASS_IN }
}

fn record(name: &str, rtype: u16, data: RData) -> Record {
    Record { name: name.as_bytes().to_vec(), class: CLASS_IN, rtype, ttl: 60, data }
}

fn message(id: u16, rcode: u16, answers: Vec<Record>, authority: Vec<Record>) -> DnsMessage {
    DnsMessage {
        id,
        rcode,
        questions: vec![query("foo.test", TYPE_A)],
        answers,
        name_servers: authority,
        additional_records: Vec::new(),
    }
}

fn v4(a: u8, b: u8, c: u8, d: u8) -> u32 {
    u32::from_be_bytes([a, b, c, d])
}

#[test]
fn literal_address_bypasses_lookup() {
    let ips = LookupIp::from_ip(IpAddress::V4(v4(127, 0, 0, 1)));
    assert_eq!(ips.v4(), &vec![v4(127, 0, 0, 1)]);
    assert!(ips.v6().is_empty());
    assert!(!ips.is_empty());
    assert!(LookupIp::new().is_empty());
}

#[test]
fn hosts_override() {
    let mut hosts = Hosts::new();
    let tokens = hosts_line_tokens(b"10.0.0.1 foo.test   # a comment");
    assert_eq!(tokens, vec![b"10.0.0.1".to_vec(), b"foo.test".to_vec()]);
    hosts.add_line(IpAddress::V4(v4(10, 0, 0, 1)), &tokens[1..]);
    let a = hosts.lookup(&query("foo.test", TYPE_A)).unwrap();
    let mut ips = LookupIp::new();
    ips.push_records(&a.records);
    assert_eq!(ips.v4(), &vec![v4(10, 0, 0, 1)]);
    assert!(ips.v6().is_empty());
    assert_eq!(a.records[0].ttl, 0);
}

#[test]
fn hosts_types() {
    let mut hosts = Hosts::new();
    assert!(hosts.insert(b"Only4.Test", IpAddress::V4(1)));
    assert!(hosts.insert(b"both.test", IpAddress::V4(2)));
    assert!(hosts.insert(b"both.test", IpAddress::V6(3)));
    let long_label = format!("{}.test", "a".repeat(64));
    assert!(!hosts.insert(long_label.as_bytes(), IpAddress::V4(4)));
    assert!(!hosts.insert(&[0xff, 0x61], IpAddress::V4(4)));
    assert!(hosts.insert("ÄBC.test".as_bytes(), IpAddress::V4(5)));
    assert_eq!(hosts.lookup(&query("äbc.test", TYPE_A)).unwrap().records.len(), 1);
    assert!(matches!(hosts.lookup(&query("only4.test", TYPE_AAAA)), Err(DnsError::NoData)));
    assert_eq!(hosts.lookup(&query("only4.test", TYPE_A)).unwrap().records.len(), 1);
    let a = hosts.lookup(&query("both.test", TYPE_A)).unwrap();
    let aaaa = hosts.lookup(&query("both.test", TYPE_AAAA)).unwrap();
    assert_eq!(a.records[0].data, RData::A(2));
    assert_eq!(aaaa.records[0].data, RData::Aaaa(3));
    assert!(matches!(hosts.lookup(&query("absent.test", TYPE_A)), Err(DnsError::NoData)));
    assert!(matches!(hosts.lookup(&query("both.test", 16)), Err(DnsError::NoData)));
}

#[test]
fn name_server_answers() {
    let ns = NameServer::new(IpAddress::V4(v4(8, 8, 8, 8)));
    let q = query("foo.test", TYPE_A);
    let m = message(7, 0, vec![record("foo.test", TYPE_A, RData::A(5)), record("bar.test", TYPE_A, RData::A(6))], Vec::new());
    assert!(ns.accepts(7, &m));
    assert!(!ns.accepts(8, &m));
    let a = ns.answer(&q, m).unwrap();
    assert_eq!(a.records.len(), 1);
    assert_eq!(a.records[0].data, RData::A(5));
    let m = message(7, 0, vec![record("foo.test", TYPE_AAAA, RData::Aaaa(1))], Vec::new());
    assert!(matches!(ns.answer(&q, m), Err(DnsError::NoData)));
    let soa = record("test", 6, RData::Other);
    let m = message(7, 3, Vec::new(), vec![soa]);
    match ns.answer(&q, m) {
        Err(DnsError::NoRecords { queries, soa, response_code }) => {
            assert_eq!(response_code, 3);
            assert_eq!(queries.len(), 1);
            assert_eq!(soa.unwrap().rtype, 6);
        },
        _ => panic!("expected no records"),
    }
}

#[test]
fn resolution_rounds() {
    let (mut r, step) = Resolution::start(2);
    assert!(matches!(step, ResolveStep::Ask(0)));
    let mut asked = 1;
    loop {
        match r.on_answers(Err(DnsError::NoData), Err(DnsError::TimedOut)) {
            ResolveStep::Ask(_) => asked += 1,
            ResolveStep::Failed(e) => {
                assert!(matches!(e, DnsError::TimedOut));
                break;
            },
            ResolveStep::Done(_) => panic!("nothing succeeded"),
        }
    }
    assert_eq!(asked, 6);
}

#[test]
fn resolution_success_shadows_error() {
    let (mut r, _) = Resolution::start(1);
    let answer = Answer::new(query("foo.test", TYPE_A), vec![record("foo.test", TYPE_A, RData::A(9))], None);
    match r.on_answers(Ok(answer), Err(DnsError::NoData)) {
        ResolveStep::Done(ips) => {
            assert_eq!(ips.v4(), &vec![9]);
            assert!(ips.v6().is_empty());
        },
        _ => panic!("expected success"),
    }
}

#[test]
fn resolver_providers_and_paths() {
    let config = Config { name_servers: vec![NameServer::new(IpAddress::V4(1))], ndots: 1, attempts: 2, rotate: false, timeout: 5 };
    let resolver = Resolver::new(Hosts::new(), config);
    assert_eq!(resolver.providers(), 2);
    assert_eq!(resolver_conf_path(), "/etc/resolv.conf");
    assert_eq!(hosts_path(), "/etc/hosts");
    assert_eq!(root_certs_path(), "/etc/ssl/certs");
}

#[test]
fn datagrams_with_other_ids_are_dropped() {
    let ns = NameServer::new(IpAddress::V4(1));
    let q = query("foo.test", TYPE_A);
    assert!(ns.on_datagram(7, &q, None).is_none());
    let m = message(8, 0, vec![record("foo.test", TYPE_A, RData::A(5))], Vec::new());
    assert!(ns.on_datagram(7, &q, Some(m)).is_none());
    let m = message(7, 0, vec![record("foo.test", TYPE_A, RData::A(5))], Vec::new());
    assert_eq!(ns.on_datagram(7, &q, Some(m)).unwrap().unwrap().records[0].data, RData::A(5));
}

#[test]
fn query_bytes_and_names() {
    let ns = NameServer::new(IpAddress::V4(1));
    let bytes = ns.query_bytes(0x1234, &query("example.com", TYPE_A)).unwrap();
    assert_eq!(&bytes[..2], &[0x12, 0x34]);
    assert_eq!(bytes[2] & 0x01, 0x01);
    assert_eq!(query_name(b"WWW.Example.COM."), Some(b"www.example.com".to_vec()));
    let long_label = format!("{}.test", "a".repeat(64));
    assert_eq!(query_name(long_label.as_bytes()), None);
}
