use vstd::prelude::*;

use crate::dns::records::{
    records_view, Answer, DnsError, DnsMessage, IpAddress, Query, QueryView, Record, RecordView,
    CLASS_IN, RCODE_NO_ERROR,
};
use crate::http::headers::bytes_eq;

verus! {

/// The UDP port name servers listen on.
pub const DNS_PORT: u16 = 53;

/// The largest DNS message sent or received.
pub const MAX_PACKET_LENGTH: usize = 900;

/// How long one name-server transaction may take, in milliseconds.
pub const TRANSACTION_TIMEOUT_MS: u64 = 5000;

/// A record answers a question when class, type and owner name all match.
pub open spec fn record_matches(r: RecordView, q: QueryView) -> bool {
    r.class == q.qclass && r.rtype == q.qtype && r.name == q.name
}

/// The records of `s` that answer `q`, in order.
pub open spec fn matching(s: Seq<RecordView>, q: QueryView) -> Seq<RecordView>
    decreases s.len(),
{
    if s.len() == 0 {
        seq![]
    } else if record_matches(s.last(), q) {
        matching(s.drop_last(), q).push(s.last())
    } else {
        matching(s.drop_last(), q)
    }
}

/// Some record of `s` is owned by the name asked about.
pub open spec fn touches(s: Seq<RecordView>, q: QueryView) -> bool {
    exists|i: int| 0 <= i < s.len() && s[i].name == q.name
}

/// The answer, authority and additional sections of a message, in order.
pub open spec fn all_records(m: &DnsMessage) -> Seq<RecordView> {
    records_view(m.answers@) + records_view(m.name_servers@) + records_view(m.additional_records@)
}

/// `r` is the answer that `response` gives to the question `query`.
pub open spec fn answers(query: QueryView, response: &DnsMessage, r: Result<Answer, DnsError>) -> bool {
    let all = all_records(&response);
    let found = matching(all, query);
    if response.rcode == RCODE_NO_ERROR && found.len() > 0 {
        r matches Ok(a) && a.query@ == query && records_view(a.records@) == found
            && a.valid_until is None
    } else if response.rcode == RCODE_NO_ERROR && touches(all, query) {
        r matches Err(DnsError::NoData)
    } else {
        r matches Err(DnsError::NoRecords { queries, soa, response_code }) && response_code
            == response.rcode && queries@.len() == response.questions@.len() && (forall|i: int|
            0 <= i < queries@.len() ==> #[trigger] queries@[i]@ == response.questions@[i]@)
            && (if response.name_servers@.len() > 0 {
            soa matches Some(s) && s@ == response.name_servers@[0]@
        } else {
            soa is None
        })
    }
}

/// The bytes simple_dns builds for a one-question query with this id, flag
/// word, name, type and class, or `None` when it refuses the name or the
/// class: a function of the five alone.
pub uninterp spec fn query_packet(id: u16, flags: u16, name: Seq<u8>, qtype: u16, qclass: u16) -> Option<Seq<u8>>;

/// Relies on simple_dns `Name::new`, `CLASS::try_from`, `Question::new`,
/// `Packet::new_query`, `Packet::set_flags` and `Packet::build_bytes_vec`:
/// the wire bytes of a query with one question.
#[verifier::external_body]
fn build_query_packet(id: u16, flags: u16, name: &[u8], qtype: u16, qclass: u16) -> (r: Option<Vec<u8>>)
    ensures
        r is Some <==> query_packet(id, flags, name@, qtype, qclass) is Some,
        r matches Some(b) ==> query_packet(id, flags, name@, qtype, qclass) == Some(b@),
{
    let name = simple_dns::Name::new(std::str::from_utf8(name).ok()?).ok()?;
    let qtype = simple_dns::QTYPE::TYPE(simple_dns::TYPE::from(qtype));
    let qclass = simple_dns::QCLASS::CLASS(simple_dns::CLASS::try_from(qclass).ok()?);
    let mut packet = simple_dns::Packet::new_query(id);
    packet.set_flags(simple_dns::PacketFlag::from_bits_truncate(flags));
    packet.questions.push(simple_dns::Question::new(name, qtype, qclass, false));
    packet.build_bytes_vec().ok()
}

/// The header flag bit asking the server to recurse.
pub const RECURSION_DESIRED: u16 = 0x0100;

/// A name server that questions are sent to.
#[derive(Debug, Clone, Copy)]
pub struct NameServer {
    pub ip: IpAddress,
}

fn collect(s: &Vec<Record>, q: &Query, out: &mut Vec<Record>, touched: &mut bool)
    ensures
        records_view(final(out)@) == records_view(old(out)@) + matching(records_view(s@), q@),
        *final(touched) == (*old(touched) || touches(records_view(s@), q@)),
{
    let ghost sv = records_view(s@);
    let mut i: usize = 0;
    while i < s.len()
        invariant
            i <= s@.len(),
            sv == records_view(s@),
            records_view(out@) == records_view(old(out)@) + matching(sv.subrange(0, i as int), q@),
            *touched == (*old(touched) || touches(sv.subrange(0, i as int), q@)),
        decreases s@.len() - i,
    {
        let r = &s[i];
        let ghost p = sv.subrange(0, i + 1);
        assert(p.drop_last() =~= sv.subrange(0, i as int));
        assert(p.last() == r@);
        let same_name = bytes_eq(r.name.as_slice(), q.name.as_slice());
        if same_name {
            *touched = true;
        }
        proof {
            if same_name {
                assert(p[i as int].name == q@.name);
            }
            if touches(p, q@) && !touches(sv.subrange(0, i as int), q@) {
                let j = choose|j: int| 0 <= j < p.len() && p[j].name == q@.name;
                if j < i {
                    assert(sv.subrange(0, i as int)[j] == p[j]);
                }
            }
            if touches(sv.subrange(0, i as int), q@) {
                let j = choose|j: int| 0 <= j < i && sv.subrange(0, i as int)[j].name == q@.name;
                assert(p[j] == sv.subrange(0, i as int)[j]);
            }
        }
        if r.class == q.qclass && r.rtype == q.qtype && same_name {
            let ghost before = out@;
            out.push(r.copy());
            assert(records_view(out@) =~= records_view(before).push(r@));
        }
        i = i + 1;
    }
    assert(sv.subrange(0, s@.len() as int) =~= sv);
}

impl NameServer {
    pub fn new(ip: IpAddress) -> (r: NameServer)
        ensures
            r.ip == ip,
    {
        NameServer { ip }
    }

    /// Whether a response belongs to the query sent with id `query_id`; one
    /// with another id is discarded and the wait goes on.
    pub fn accepts(&self, query_id: u16, response: &DnsMessage) -> (r: bool)
        ensures
            r == (response.id == query_id),
    {
        response.id == query_id
    }

    /// The datagram that asks `query` with id `query_id`, recursion desired:
    /// only class IN is asked, and a query over `MAX_PACKET_LENGTH` bytes is
    /// not sent.
    pub fn query_bytes(&self, query_id: u16, query: &Query) -> (r: Option<Vec<u8>>)
        ensures
            r matches Some(b) ==> query.qclass == CLASS_IN && query_packet(query_id, RECURSION_DESIRED, query.name@, query.qtype, query.qclass) == Some(b@)
                && b@.len() <= MAX_PACKET_LENGTH,
            r is None ==> query.qclass != CLASS_IN || (match query_packet(query_id, RECURSION_DESIRED, query.name@, query.qtype, query.qclass) {
                Some(b) => b.len() > MAX_PACKET_LENGTH,
                None => true,
            }),
    {
        if query.qclass != CLASS_IN {
            return None;
        }
        match build_query_packet(query_id, RECURSION_DESIRED, query.name.as_slice(), query.qtype, query.qclass) {
            Some(b) => if b.len() <= MAX_PACKET_LENGTH {
                Some(b)
            } else {
                None
            },
            None => None,
        }
    }

    /// What a datagram received for the query with id `query_id` gives:
    /// `None` (drop it and keep waiting) when it did not parse or carries
    /// another id, else the answer it gives.
    pub fn on_datagram(&self, query_id: u16, query: &Query, message: Option<DnsMessage>) -> (r: Option<Result<Answer, DnsError>>)
        ensures
            r is Some <==> (message matches Some(m) && m.id == query_id),
            r matches Some(a) ==> (message matches Some(m) && answers(query@, &m, a)),
    {
        match message {
            None => None,
            Some(m) => {
                if !self.accepts(query_id, &m) {
                    return None;
                }
                Some(self.answer(query, m))
            },
        }
    }

    /// The answer that a response gives to `query`: on NoError, the records
    /// of all three sections that match the question, if any; else `NoData`
    /// if some record is owned by the name asked about; else, and on any
    /// other response code, `NoRecords` with the response's questions, its
    /// first authority record and its code.
    pub fn answer(&self, query: &Query, response: DnsMessage) -> (r: Result<Answer, DnsError>)
        ensures
            answers(query@, &response, r),
    {
        let ghost all = all_records(&response);
        if response.rcode == RCODE_NO_ERROR {
            let mut records: Vec<Record> = Vec::new();
            let mut touched = false;
            collect(&response.answers, query, &mut records, &mut touched);
            collect(&response.name_servers, query, &mut records, &mut touched);
            collect(&response.additional_records, query, &mut records, &mut touched);
            proof {
                lemma_matching_append(records_view(response.answers@), records_view(response.name_servers@), query@);
                lemma_matching_append(records_view(response.answers@) + records_view(response.name_servers@), records_view(response.additional_records@), query@);
                lemma_touches_append(records_view(response.answers@), records_view(response.name_servers@), query@);
                lemma_touches_append(records_view(response.answers@) + records_view(response.name_servers@), records_view(response.additional_records@), query@);
                assert(records_view(records@) =~= matching(all, query@));
            }
            if records.len() > 0 {
                return Ok(Answer::new(query.copy(), records, None));
            } else if touched {
                return Err(DnsError::NoData);
            }
        }
        let soa = if response.name_servers.len() > 0 {
            Some(response.name_servers[0].copy())
        } else {
            None
        };
        Err(DnsError::NoRecords { queries: response.questions, soa, response_code: response.rcode })
    }
}

proof fn lemma_matching_append(a: Seq<RecordView>, b: Seq<RecordView>, q: QueryView)
    ensures
        matching(a + b, q) == matching(a, q) + matching(b, q),
    decreases b.len(),
{
    if b.len() == 0 {
        assert(a + b =~= a);
        assert(matching(a, q) + matching(b, q) =~= matching(a, q));
    } else {
        lemma_matching_append(a, b.drop_last(), q);
        assert((a + b).drop_last() =~= a + b.drop_last());
        assert((a + b).last() == b.last());
        if record_matches(b.last(), q) {
            assert(matching(a, q) + matching(b.drop_last(), q).push(b.last()) =~= (matching(a, q)
                + matching(b.drop_last(), q)).push(b.last()));
        }
    }
}

proof fn lemma_touches_append(a: Seq<RecordView>, b: Seq<RecordView>, q: QueryView)
    ensures
        touches(a + b, q) == (touches(a, q) || touches(b, q)),
{
    if touches(a + b, q) {
        let j = choose|j: int| 0 <= j < (a + b).len() && (a + b)[j].name == q.name;
        if j >= a.len() {
            assert(b[j - a.len()] == (a + b)[j]);
        }
    }
    if touches(a, q) {
        let j = choose|j: int| 0 <= j < a.len() && a[j].name == q.name;
        assert((a + b)[j] == a[j]);
    }
    if touches(b, q) {
        let j = choose|j: int| 0 <= j < b.len() && b[j].name == q.name;
        assert((a + b)[a.len() + j] == b[j]);
    }
}

} // verus!
