use vstd::prelude::*;

use crate::dns::hosts::{
    a_records, hosts_answer, lemma_hosts_types, lower_name, takes_name, unicode_lower, EntryView, Hosts,
};
use crate::dns::name_server::NameServer;
use crate::dns::records::{
    records_view, Answer, DnsError, IpAddress, RData, Record, RecordView, TYPE_A, TYPE_AAAA,
};

verus! {

/// How many times the providers are tried in turn.
pub const ROUNDS: u32 = 3;

/// The IPv4 addresses among `s`, in order.
pub open spec fn v4_of(s: Seq<RecordView>) -> Seq<u32>
    decreases s.len(),
{
    if s.len() == 0 {
        seq![]
    } else {
        match s.last().data {
            RData::A(a) => v4_of(s.drop_last()).push(a),
            _ => v4_of(s.drop_last()),
        }
    }
}

/// The IPv6 addresses among `s`, in order.
pub open spec fn v6_of(s: Seq<RecordView>) -> Seq<u128>
    decreases s.len(),
{
    if s.len() == 0 {
        seq![]
    } else {
        match s.last().data {
            RData::Aaaa(a) => v6_of(s.drop_last()).push(a),
            _ => v6_of(s.drop_last()),
        }
    }
}

/// The addresses found for a name: IPv4 and IPv6, each in the order met,
/// duplicates kept.
#[derive(Debug, Default)]
pub struct LookupIp {
    v4: Vec<u32>,
    v6: Vec<u128>,
}

impl LookupIp {
    pub closed spec fn spec_v4(&self) -> Seq<u32> {
        self.v4@
    }

    pub closed spec fn spec_v6(&self) -> Seq<u128> {
        self.v6@
    }

    /// No addresses.
    pub fn new() -> (r: LookupIp)
        ensures
            r.spec_v4() == Seq::<u32>::empty(),
            r.spec_v6() == Seq::<u128>::empty(),
    {
        LookupIp { v4: Vec::new(), v6: Vec::new() }
    }

    /// The one address of an IP literal.
    pub fn from_ip(ip: IpAddress) -> (r: LookupIp)
        ensures
            r.spec_v4() == (match ip {
                IpAddress::V4(a) => seq![a],
                IpAddress::V6(_) => Seq::<u32>::empty(),
            }),
            r.spec_v6() == (match ip {
                IpAddress::V4(_) => Seq::<u128>::empty(),
                IpAddress::V6(a) => seq![a],
            }),
    {
        let mut r = LookupIp::new();
        match ip {
            IpAddress::V4(a) => r.v4.push(a),
            IpAddress::V6(a) => r.v6.push(a),
        }
        assert(r.v4@ =~= (match ip {
            IpAddress::V4(a) => seq![a],
            IpAddress::V6(_) => Seq::<u32>::empty(),
        }));
        assert(r.v6@ =~= (match ip {
            IpAddress::V4(_) => Seq::<u128>::empty(),
            IpAddress::V6(a) => seq![a],
        }));
        r
    }

    /// Appends the addresses of the A and AAAA records among `records`.
    pub fn push_records(&mut self, records: &Vec<Record>)
        ensures
            final(self).spec_v4() == old(self).spec_v4() + v4_of(records_view(records@)),
            final(self).spec_v6() == old(self).spec_v6() + v6_of(records_view(records@)),
    {
        let ghost rv = records_view(records@);
        let mut i: usize = 0;
        while i < records.len()
            invariant
                i <= records@.len(),
                rv == records_view(records@),
                self.v4@ == old(self).v4@ + v4_of(rv.subrange(0, i as int)),
                self.v6@ == old(self).v6@ + v6_of(rv.subrange(0, i as int)),
            decreases records@.len() - i,
        {
            let ghost p = rv.subrange(0, i + 1);
            assert(p.drop_last() =~= rv.subrange(0, i as int));
            match records[i].data {
                RData::A(a) => self.v4.push(a),
                RData::Aaaa(a) => self.v6.push(a),
                RData::Other => {},
            }
            i = i + 1;
            assert(self.v4@ =~= old(self).v4@ + v4_of(rv.subrange(0, i as int)));
            assert(self.v6@ =~= old(self).v6@ + v6_of(rv.subrange(0, i as int)));
        }
        assert(rv.subrange(0, records@.len() as int) =~= rv);
    }

    pub fn v4(&self) -> (r: &Vec<u32>)
        ensures
            r@ == self.spec_v4(),
    {
        &self.v4
    }

    pub fn v6(&self) -> (r: &Vec<u128>)
        ensures
            r@ == self.spec_v6(),
    {
        &self.v6
    }

    pub fn is_empty(&self) -> (r: bool)
        ensures
            r == (self.spec_v4().len() == 0 && self.spec_v6().len() == 0),
    {
        self.v4.len() == 0 && self.v6.len() == 0
    }
}

/// What the resolver does next.
#[derive(Debug)]
pub enum ResolveStep {
    /// Ask provider `i` both questions (A and AAAA).
    Ask(usize),
    /// Resolution succeeded.
    Done(LookupIp),
    /// Every round failed; the last error.
    Failed(DnsError),
}

/// A resolution in progress: which round and provider it has reached, and
/// the last error met.
#[derive(Debug)]
pub struct Resolution {
    pub providers: usize,
    pub round: u32,
    pub next: usize,
    pub error: Option<DnsError>,
}

impl Resolution {
    pub open spec fn wf(&self) -> bool {
        &&& self.providers > 0
        &&& self.round < ROUNDS
        &&& self.next < self.providers
    }

    /// Starts a resolution over `providers` lookup providers (the hosts
    /// table first, then the name servers): provider 0 is asked first.
    pub fn start(providers: usize) -> (r: (Resolution, ResolveStep))
        requires
            providers > 0,
        ensures
            r.0.wf(),
            r.0.providers == providers,
            r.0.round == 0,
            r.0.next == 0,
            r.1 matches ResolveStep::Ask(0),
    {
        (Resolution { providers, round: 0, next: 0, error: None }, ResolveStep::Ask(0))
    }

    /// Takes the outcome of both questions put to the current provider.
    /// If either succeeded, their records make the result (the other's error
    /// is dropped). Else the AAAA error is kept and the next provider is
    /// asked, starting a new round after the last one; after the last round
    /// the resolution fails with that error.
    pub fn on_answers(&mut self, a: Result<Answer, DnsError>, aaaa: Result<Answer, DnsError>) -> (r: ResolveStep)
        requires
            old(self).wf(),
        ensures
            (a is Ok || aaaa is Ok) ==> (r matches ResolveStep::Done(ips) && ips.spec_v4() == (match a {
                Ok(x) => v4_of(records_view(x.records@)),
                Err(_) => seq![],
            }) + (match aaaa {
                Ok(x) => v4_of(records_view(x.records@)),
                Err(_) => seq![],
            }) && ips.spec_v6() == (match a {
                Ok(x) => v6_of(records_view(x.records@)),
                Err(_) => seq![],
            }) + (match aaaa {
                Ok(x) => v6_of(records_view(x.records@)),
                Err(_) => seq![],
            })),
            !(a is Ok || aaaa is Ok) ==> {
                let last = old(self).next + 1 == old(self).providers;
                if last && old(self).round + 1 == ROUNDS {
                    r matches ResolveStep::Failed(e) && aaaa == Err::<Answer, DnsError>(e)
                } else {
                    &&& final(self).wf()
                    &&& final(self).providers == old(self).providers
                    &&& final(self).next == (if last { 0 } else { old(self).next + 1 })
                    &&& final(self).round == (if last { old(self).round + 1 } else { old(self).round as int })
                    &&& r matches ResolveStep::Ask(i) && i == final(self).next
                    &&& aaaa matches Err(e) && final(self).error == Some(e)
                }
            },
    {
        let mut result = LookupIp::new();
        let mut success = false;
        match a {
            Ok(x) => {
                result.push_records(&x.records);
                success = true;
            },
            Err(e) => {
                self.error = Some(e);
            },
        }
        match aaaa {
            Ok(x) => {
                result.push_records(&x.records);
                success = true;
            },
            Err(e) => {
                self.error = Some(e);
            },
        }
        if success {
            return ResolveStep::Done(result);
        }
        if self.next + 1 == self.providers {
            if self.round + 1 == ROUNDS {
                return match self.error.take() {
                    Some(e) => ResolveStep::Failed(e),
                    None => ResolveStep::Failed(DnsError::TimedOut),
                };
            }
            self.round = self.round + 1;
            self.next = 0;
        } else {
            self.next = self.next + 1;
        }
        ResolveStep::Ask(self.next)
    }
}

/// The resolver configuration read from `resolv.conf`.
#[derive(Debug)]
pub struct Config {
    pub name_servers: Vec<NameServer>,
    pub ndots: u32,
    pub attempts: u32,
    pub rotate: bool,
    /// Seconds.
    pub timeout: u32,
}

/// The lookup providers, in the order they are asked: the hosts table,
/// then the name servers in configuration order.
#[derive(Debug)]
pub struct Resolver {
    pub hosts: Hosts,
    pub name_servers: Vec<NameServer>,
}

impl Resolver {
    pub fn new(hosts: Hosts, config: Config) -> (r: Resolver)
        ensures
            r.hosts@ == hosts@,
            r.name_servers@ == config.name_servers@,
    {
        Resolver { hosts, name_servers: config.name_servers }
    }

    /// The number of lookup providers.
    pub fn providers(&self) -> (r: usize)
        requires
            self.name_servers@.len() < usize::MAX,
        ensures
            r == 1 + self.name_servers@.len(),
    {
        1 + self.name_servers.len()
    }
}

/// `s` without one trailing dot.
pub open spec fn without_root_dot(s: Seq<u8>) -> Seq<u8> {
    if s.len() > 0 && s.last() == 0x2e {
        s.drop_last()
    } else {
        s
    }
}

/// The name a host is looked up under: its lower-case form without the
/// trailing root dot, when that is a domain name; `None` otherwise.
pub fn query_name(host: &[u8]) -> (r: Option<Vec<u8>>)
    ensures
        r is Some <==> takes_name(host@),
        r matches Some(n) ==> n@ == without_root_dot(unicode_lower(host@)),
{
    let lower = match lower_name(host) {
        None => return None,
        Some(l) => l,
    };
    let mut out = lower;
    if out.len() > 0 && out[out.len() - 1] == 0x2e {
        let ghost before = out@;
        out.pop();
        assert(out@ =~= before.drop_last());
    }
    Some(out)
}

/// A hosts table that gives a name one IPv4 address `a` and no IPv6
/// address answers on its own: the A question gets `a`, the AAAA question no
/// data, so the first provider ends the resolution with IPv4 `[a]` and IPv6
/// `[]`.
pub proof fn lemma_hosts_override(h: Seq<EntryView>, i: int, a: u32)
    requires
        0 <= i < h.len(),
        forall|x: int, y: int| 0 <= x < y < h.len() ==> #[trigger] h[x].name != #[trigger] h[y].name,
        h[i].a == seq![a],
        h[i].aaaa == Seq::<u128>::empty(),
    ensures
        hosts_answer(h, h[i].name, TYPE_A) == Some(a_records(h[i].name, seq![a])),
        hosts_answer(h, h[i].name, TYPE_AAAA) is None,
        v4_of(a_records(h[i].name, seq![a])) == seq![a],
        v6_of(a_records(h[i].name, seq![a])) == Seq::<u128>::empty(),
{
    lemma_hosts_types(h, i);
    let r = a_records(h[i].name, seq![a]);
    assert(r.drop_last() =~= Seq::<RecordView>::empty());
    assert(v4_of(r.drop_last()) == Seq::<u32>::empty());
    assert(v6_of(r.drop_last()) == Seq::<u128>::empty());
    assert(v4_of(r) =~= seq![a]);
}

} // verus!
