//! The connect path: which addresses are dialled, in what order, with what
//! socket options, and what a failed dial reports.

use vstd::prelude::*;

use crate::dns::records::IpAddress;
use crate::dns::resolver::LookupIp;

verus! {

/// Which address families are dialled, and in what order.
#[derive(Debug, Clone, Copy, PartialEq, Eq, Structural)]
pub enum IpStrategy {
    /// IPv6 addresses, then IPv4.
    Default,
    Ipv4Only,
    Ipv6Only,
    PreferIpv4,
    PreferIpv6,
}

pub open spec fn v4_addrs(s: Seq<u32>) -> Seq<IpAddress> {
    s.map_values(|a: u32| IpAddress::V4(a))
}

pub open spec fn v6_addrs(s: Seq<u128>) -> Seq<IpAddress> {
    s.map_values(|a: u128| IpAddress::V6(a))
}

/// The addresses to dial, in order, for a strategy.
pub open spec fn dial_order(v4: Seq<u32>, v6: Seq<u128>, strategy: IpStrategy) -> Seq<IpAddress> {
    match strategy {
        IpStrategy::Ipv4Only => v4_addrs(v4),
        IpStrategy::Ipv6Only => v6_addrs(v6),
        IpStrategy::PreferIpv4 => v4_addrs(v4) + v6_addrs(v6),
        IpStrategy::Default | IpStrategy::PreferIpv6 => v6_addrs(v6) + v4_addrs(v4),
    }
}

fn push_v4(out: &mut Vec<IpAddress>, s: &Vec<u32>)
    ensures
        final(out)@ == old(out)@ + v4_addrs(s@),
{
    let mut i: usize = 0;
    while i < s.len()
        invariant
            i <= s@.len(),
            out@ == old(out)@ + v4_addrs(s@.subrange(0, i as int)),
        decreases s@.len() - i,
    {
        out.push(IpAddress::V4(s[i]));
        i = i + 1;
        assert(out@ =~= old(out)@ + v4_addrs(s@.subrange(0, i as int)));
    }
    assert(s@.subrange(0, s@.len() as int) =~= s@);
}

fn push_v6(out: &mut Vec<IpAddress>, s: &Vec<u128>)
    ensures
        final(out)@ == old(out)@ + v6_addrs(s@),
{
    let mut i: usize = 0;
    while i < s.len()
        invariant
            i <= s@.len(),
            out@ == old(out)@ + v6_addrs(s@.subrange(0, i as int)),
        decreases s@.len() - i,
    {
        out.push(IpAddress::V6(s[i]));
        i = i + 1;
        assert(out@ =~= old(out)@ + v6_addrs(s@.subrange(0, i as int)));
    }
    assert(s@.subrange(0, s@.len() as int) =~= s@);
}

/// The addresses to dial, in order: both families, the preferred first,
/// or one family only.
pub fn candidates(ips: &LookupIp, strategy: IpStrategy) -> (r: Vec<IpAddress>)
    ensures
        r@ == dial_order(ips.spec_v4(), ips.spec_v6(), strategy),
{
    let mut out: Vec<IpAddress> = Vec::new();
    match strategy {
        IpStrategy::Ipv4Only => push_v4(&mut out, ips.v4()),
        IpStrategy::Ipv6Only => push_v6(&mut out, ips.v6()),
        IpStrategy::PreferIpv4 => {
            push_v4(&mut out, ips.v4());
            push_v6(&mut out, ips.v6());
        },
        IpStrategy::Default | IpStrategy::PreferIpv6 => {
            push_v6(&mut out, ips.v6());
            push_v4(&mut out, ips.v4());
        },
    }
    assert(out@ =~= dial_order(ips.spec_v4(), ips.spec_v6(), strategy));
    out
}

/// The port a URL without one is dialled on: 443 with TLS, else 80.
pub fn default_port(secure: bool) -> (r: u16)
    ensures
        r == (if secure { 443u16 } else { 80u16 }),
{
    if secure {
        443
    } else {
        80
    }
}

/// What a dial is given: host, port (0 for the scheme's default), address
/// strategy, overall timeout in milliseconds, and socket options.
#[derive(Debug)]
pub struct ConnectOptions {
    pub host: String,
    pub port: u16,
    pub strategy: IpStrategy,
    pub timeout_ms: Option<u64>,
    pub recvbuf_size: Option<i32>,
    pub sendbuf_size: Option<i32>,
    pub tcp_nodelay: bool,
    /// Seconds of idleness before keepalive probes.
    pub tcp_keepalive: Option<i32>,
}

impl ConnectOptions {
    pub fn new(host: String, port: u16) -> (r: ConnectOptions)
        ensures
            r.host@ == host@,
            r.port == port,
            r.strategy == IpStrategy::Default,
            r.timeout_ms is None,
            r.recvbuf_size is None,
            r.sendbuf_size is None,
            !r.tcp_nodelay,
            r.tcp_keepalive is None,
    {
        ConnectOptions {
            host,
            port,
            strategy: IpStrategy::Default,
            timeout_ms: None,
            recvbuf_size: None,
            sendbuf_size: None,
            tcp_nodelay: false,
            tcp_keepalive: None,
        }
    }

    pub fn host(&self) -> (r: &String)
        ensures
            r@ == self.host@,
    {
        &self.host
    }

    pub fn port(&self) -> (r: u16)
        ensures
            r == self.port,
    {
        self.port
    }

    pub fn set_port(&mut self, port: u16)
        ensures
            final(self).port == port,
            final(self).strategy == old(self).strategy,
    {
        self.port = port;
    }

    pub fn set_strategy(&mut self, strategy: IpStrategy)
        ensures
            final(self).strategy == strategy,
            final(self).port == old(self).port,
    {
        self.strategy = strategy;
    }

    pub fn set_timeout(&mut self, timeout_ms: Option<u64>)
        ensures
            final(self).timeout_ms == timeout_ms,
    {
        self.timeout_ms = timeout_ms;
    }

    pub fn set_recvbuf_size(&mut self, size: i32)
        ensures
            final(self).recvbuf_size == Some(size),
    {
        self.recvbuf_size = Some(size);
    }

    pub fn set_sendbuf_size(&mut self, size: i32)
        ensures
            final(self).sendbuf_size == Some(size),
    {
        self.sendbuf_size = Some(size);
    }

    pub fn set_tcp_nodelay(&mut self, enable: bool)
        ensures
            final(self).tcp_nodelay == enable,
    {
        self.tcp_nodelay = enable;
    }

    pub fn set_tcp_keepalive(&mut self, idle_secs: i32)
        ensures
            final(self).tcp_keepalive == Some(idle_secs),
    {
        self.tcp_keepalive = Some(idle_secs);
    }

    /// The port to dial: the one set, or the scheme's default for 0.
    pub fn effective_port(&self, secure: bool) -> (r: u16)
        ensures
            r == (if self.port != 0 {
                self.port
            } else if secure {
                443u16
            } else {
                80u16
            }),
    {
        if self.port != 0 {
            self.port
        } else {
            default_port(secure)
        }
    }
}

/// How a dial over a list of addresses ended badly.
#[derive(Debug, Clone, Copy, PartialEq, Eq, Structural)]
pub enum DialError {
    /// There was no address to dial.
    NoAddresses,
    /// Every address failed; the OS error code of the last attempt.
    Failed(i32),
}

/// A dial over a list of candidate addresses: the next to try and the last
/// error met.
#[derive(Debug, Clone, Copy)]
pub struct Dial {
    pub count: usize,
    pub next: usize,
    pub last_error: Option<i32>,
}

impl Dial {
    pub fn new(count: usize) -> (r: Dial)
        ensures
            r.count == count,
            r.next == 0,
            r.last_error is None,
    {
        Dial { count, next: 0, last_error: None }
    }

    /// The index of the next address to try, if any remain.
    pub fn next_attempt(&mut self) -> (r: Option<usize>)
        requires
            old(self).next <= old(self).count,
        ensures
            final(self).next <= final(self).count,
            final(self).count == old(self).count,
            final(self).last_error == old(self).last_error,
            old(self).next < old(self).count ==> r == Some(old(self).next) && final(self).next == old(self).next + 1,
            old(self).next == old(self).count ==> r is None && final(self).next == old(self).next,
    {
        if self.next < self.count {
            let i = self.next;
            self.next = self.next + 1;
            Some(i)
        } else {
            None
        }
    }

    /// Records that an attempt failed with the OS error `code`.
    pub fn failed(&mut self, code: i32)
        ensures
            final(self).last_error == Some(code),
            final(self).next == old(self).next,
            final(self).count == old(self).count,
    {
        self.last_error = Some(code);
    }

    /// The error of a dial whose addresses are all spent: the last attempt's,
    /// or `NoAddresses` when there was none.
    pub fn exhausted(&self) -> (r: DialError)
        ensures
            r == match self.last_error {
                Some(c) => DialError::Failed(c),
                None => DialError::NoAddresses,
            },
    {
        match self.last_error {
            Some(c) => DialError::Failed(c),
            None => DialError::NoAddresses,
        }
    }
}

/// `poll(2)` event bits that mean the peer has gone: error, hang-up, and
/// read hang-up.
pub const POLL_ERR: u32 = 0x008;
pub const POLL_HUP: u32 = 0x010;
pub const POLL_RDHUP: u32 = 0x2000;

/// Whether returned poll events show that the peer has hung up.
pub fn has_peer_hungup(revents: u32) -> (r: bool)
    ensures
        r == (revents & (POLL_ERR | POLL_HUP | POLL_RDHUP) != 0),
{
    revents & (POLL_ERR | POLL_HUP | POLL_RDHUP) != 0
}

} // verus!
