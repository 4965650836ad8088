use vstd::prelude::*;

verus! {

/// Resource record type A: an IPv4 address.
pub const TYPE_A: u16 = 1;

/// Resource record type AAAA: an IPv6 address.
pub const TYPE_AAAA: u16 = 28;

/// Resource record class IN.
pub const CLASS_IN: u16 = 1;

/// Response code NoError.
pub const RCODE_NO_ERROR: u16 = 0;

/// An IP address as its number.
#[derive(Debug, Clone, Copy, PartialEq, Eq, Structural)]
pub enum IpAddress {
    V4(u32),
    V6(u128),
}

/// The data of a resource record, as far as resolution reads it.
#[derive(Debug, Clone, Copy, PartialEq, Eq, Structural)]
pub enum RData {
    A(u32),
    Aaaa(u128),
    Other,
}

/// A resource record: owner name (its labels joined by dots), class, type,
/// time to live and data.
#[derive(Debug)]
pub struct Record {
    pub name: Vec<u8>,
    pub class: u16,
    pub rtype: u16,
    pub ttl: u32,
    pub data: RData,
}

pub struct RecordView {
    pub name: Seq<u8>,
    pub class: u16,
    pub rtype: u16,
    pub ttl: u32,
    pub data: RData,
}

impl View for Record {
    type V = RecordView;

    open spec fn view(&self) -> RecordView {
        RecordView { name: self.name@, class: self.class, rtype: self.rtype, ttl: self.ttl, data: self.data }
    }
}

/// A question: name, type and class.
#[derive(Debug)]
pub struct Query {
    pub name: Vec<u8>,
    pub qtype: u16,
    pub qclass: u16,
}

pub struct QueryView {
    pub name: Seq<u8>,
    pub qtype: u16,
    pub qclass: u16,
}

impl View for Query {
    type V = QueryView;

    open spec fn view(&self) -> QueryView {
        QueryView { name: self.name@, qtype: self.qtype, qclass: self.qclass }
    }
}

pub fn copy_bytes(s: &Vec<u8>) -> (r: Vec<u8>)
    ensures
        r@ == s@,
{
    let mut r: Vec<u8> = Vec::new();
    let mut i: usize = 0;
    while i < s.len()
        invariant
            i <= s@.len(),
            r@ == s@.subrange(0, i as int),
        decreases s@.len() - i,
    {
        r.push(s[i]);
        i = i + 1;
        assert(r@ =~= s@.subrange(0, i as int));
    }
    assert(s@.subrange(0, s@.len() as int) =~= s@);
    r
}

impl Record {
    pub fn copy(&self) -> (r: Record)
        ensures
            r@ == self@,
    {
        Record { name: copy_bytes(&self.name), class: self.class, rtype: self.rtype, ttl: self.ttl, data: self.data }
    }
}

impl Query {
    pub fn copy(&self) -> (r: Query)
        ensures
            r@ == self@,
    {
        Query { name: copy_bytes(&self.name), qtype: self.qtype, qclass: self.qclass }
    }
}

/// The records of `v`, as values.
pub open spec fn records_view(v: Seq<Record>) -> Seq<RecordView> {
    v.map_values(|r: Record| r@)
}

/// A parsed DNS response message.
#[derive(Debug)]
pub struct DnsMessage {
    pub id: u16,
    pub rcode: u16,
    pub questions: Vec<Query>,
    pub answers: Vec<Record>,
    pub name_servers: Vec<Record>,
    pub additional_records: Vec<Record>,
}

/// The answer of one lookup provider to one question.
#[derive(Debug)]
pub struct Answer {
    pub query: Query,
    pub records: Vec<Record>,
    /// When the answer stops being valid, in milliseconds on a clock of the
    /// caller's choice.
    pub valid_until: Option<u64>,
}

impl Answer {
    pub fn new(query: Query, records: Vec<Record>, valid_until: Option<u64>) -> (r: Answer)
        ensures
            r.query@ == query@,
            records_view(r.records@) == records_view(records@),
            r.valid_until == valid_until,
    {
        Answer { query, records, valid_until }
    }
}

/// The ways a lookup can fail.
#[derive(Debug)]
pub enum DnsError {
    /// The name exists but has no records of the type asked for.
    NoData,
    /// The name does not exist.
    NoRecords { queries: Vec<Query>, soa: Option<Record>, response_code: u16 },
    /// No response came in time.
    TimedOut,
    /// A message could not be built or read.
    Malformed,
    /// The socket failed; the OS error code, 0 when there is none.
    Transport(i32),
}

} // verus!
