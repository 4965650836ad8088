use vstd::prelude::*;
use vstd::string::StringSliceAdditionalSpecFns;
use vstd::utf8::valid_utf8;

use crate::dns::records::{
    copy_bytes, records_view, Answer, DnsError, IpAddress, Query, RData, Record, RecordView,
    CLASS_IN, TYPE_A, TYPE_AAAA,
};
use crate::http::head::first_index;
use crate::http::headers::bytes_eq;
use crate::http::text::{is_space, space};

verus! {

/// The addresses a hosts file gives one name.
#[derive(Debug)]
pub struct HostEntry {
    pub name: Vec<u8>,
    pub a: Vec<u32>,
    pub aaaa: Vec<u128>,
}

/// The hosts table: lower-case names, each with its IPv4 and IPv6
/// addresses in file order.
#[derive(Debug)]
pub struct Hosts {
    pub entries: Vec<HostEntry>,
}

pub struct EntryView {
    pub name: Seq<u8>,
    pub a: Seq<u32>,
    pub aaaa: Seq<u128>,
}

impl View for Hosts {
    type V = Seq<EntryView>;

    open spec fn view(&self) -> Seq<EntryView> {
        self.entries@.map_values(|e: HostEntry| EntryView { name: e.name@, a: e.a@, aaaa: e.aaaa@ })
    }
}

/// The records for a list of addresses, owned by `name`, class IN, with a
/// zero time to live.
pub open spec fn a_records(name: Seq<u8>, a: Seq<u32>) -> Seq<RecordView> {
    Seq::new(a.len(), |i: int| RecordView { name, class: CLASS_IN, rtype: TYPE_A, ttl: 0, data: RData::A(a[i]) })
}

pub open spec fn aaaa_records(name: Seq<u8>, a: Seq<u128>) -> Seq<RecordView> {
    Seq::new(a.len(), |i: int| RecordView { name, class: CLASS_IN, rtype: TYPE_AAAA, ttl: 0, data: RData::Aaaa(a[i]) })
}

/// The index of the entry for `name`, if any.
pub open spec fn entry_index(h: Seq<EntryView>, name: Seq<u8>) -> Option<int> {
    if exists|i: int| 0 <= i < h.len() && h[i].name == name {
        Some(choose|i: int| 0 <= i < h.len() && h[i].name == name)
    } else {
        None
    }
}

/// What the hosts table answers: the records of the type asked for, or
/// `None` (no data) when the name is absent, the type is neither A nor
/// AAAA, or the name has no address of that type.
pub open spec fn hosts_answer(h: Seq<EntryView>, name: Seq<u8>, qtype: u16) -> Option<Seq<RecordView>> {
    match entry_index(h, name) {
        None => None,
        Some(i) => if qtype == TYPE_A && h[i].a.len() > 0 {
            Some(a_records(h[i].name, h[i].a))
        } else if qtype == TYPE_AAAA && h[i].aaaa.len() > 0 {
            Some(aaaa_records(h[i].name, h[i].aaaa))
        } else {
            None
        },
    }
}

/// The Unicode lower-case form of a UTF-8 text, as `str::to_lowercase`
/// gives it.
pub uninterp spec fn unicode_lower(text: Seq<u8>) -> Seq<u8>;

/// Whether `simple_dns::Name::new` accepts the text as a domain name.
pub uninterp spec fn dns_name_ok(text: Seq<u8>) -> bool;

/// Relies on `str::to_lowercase`: the lower-case form of the text, a
/// function of the text alone, and (being a `String`) UTF-8.
#[verifier::external_body]
pub(crate) fn to_lowercase(t: &str) -> (r: Vec<u8>)
    ensures
        r@ == unicode_lower(t.spec_bytes()),
        valid_utf8(r@),
{
    t.to_lowercase().into_bytes()
}

/// Relies on `simple_dns::Name::new`: whether it accepts the text (labels of
/// at most 63 bytes, at most 255 bytes encoded).
#[verifier::external_body]
pub(crate) fn dns_name_valid(t: &str) -> (r: bool)
    ensures
        r == dns_name_ok(t.spec_bytes()),
{
    simple_dns::Name::new(t).is_ok()
}

/// The lower-case form of `name` when it is UTF-8 text whose lower-case
/// form is a domain name.
pub(crate) fn lower_name(name: &[u8]) -> (r: Option<Vec<u8>>)
    ensures
        r is Some <==> takes_name(name@),
        r matches Some(l) ==> l@ == unicode_lower(name@),
{
    let text = match crate::http::head::utf8_text(name) {
        None => return None,
        Some(t) => t,
    };
    let lower = to_lowercase(text);
    match crate::http::head::utf8_text(lower.as_slice()) {
        None => None,
        Some(l) => if dns_name_valid(l) {
            Some(lower)
        } else {
            None
        },
    }
}

/// The table after adding `ip` to the addresses of the (already lower-case)
/// name `name`.
pub open spec fn inserted(h: Seq<EntryView>, name: Seq<u8>, ip: IpAddress) -> Seq<EntryView> {
    match entry_index(h, name) {
        Some(i) => h.update(i, match ip {
            IpAddress::V4(v) => EntryView { a: h[i].a.push(v), ..h[i] },
            IpAddress::V6(v) => EntryView { aaaa: h[i].aaaa.push(v), ..h[i] },
        }),
        None => h.push(match ip {
            IpAddress::V4(v) => EntryView { name, a: seq![v], aaaa: seq![] },
            IpAddress::V6(v) => EntryView { name, a: seq![], aaaa: seq![v] },
        }),
    }
}

/// A host name the table takes: UTF-8 text whose lower-case form is a
/// domain name.
pub open spec fn takes_name(name: Seq<u8>) -> bool {
    valid_utf8(name) && dns_name_ok(unicode_lower(name))
}

/// The table after a hosts line gives `ip` to each of `names` in turn; names
/// it does not take are skipped.
pub open spec fn added(h: Seq<EntryView>, ip: IpAddress, names: Seq<Seq<u8>>) -> Seq<EntryView>
    decreases names.len(),
{
    if names.len() == 0 {
        h
    } else {
        let before = added(h, ip, names.drop_last());
        if takes_name(names.last()) {
            inserted(before, unicode_lower(names.last()), ip)
        } else {
            before
        }
    }
}

impl Hosts {
    /// Names are distinct.
    pub open spec fn wf(&self) -> bool {
        forall|i: int, j: int| 0 <= i < j < self@.len() ==> #[trigger] self@[i].name != #[trigger] self@[j].name
    }

    pub fn new() -> (r: Hosts)
        ensures
            r.wf(),
            r@.len() == 0,
    {
        Hosts { entries: Vec::new() }
    }

    fn find(&self, name: &[u8]) -> (r: Option<usize>)
        requires
            self.wf(),
        ensures
            r matches Some(i) ==> entry_index(self@, name@) == Some(i as int),
            r is None ==> entry_index(self@, name@) is None,
    {
        let mut i: usize = 0;
        while i < self.entries.len()
            invariant
                i <= self@.len(),
                self.wf(),
                forall|j: int| 0 <= j < i ==> self@[j].name != name@,
            decreases self@.len() - i,
        {
            if bytes_eq(self.entries[i].name.as_slice(), name) {
                assert(self@[i as int].name == name@);
                let ghost k = choose|k: int| 0 <= k < self@.len() && self@[k].name == name@;
                proof {
                    if k > i {
                        assert(self@[i as int].name != self@[k].name);
                    }
                }
                return Some(i);
            }
            i = i + 1;
        }
        None
    }

    /// Adds `ip` to the addresses of `name`, lower-cased. A name the table
    /// does not take is skipped, and `false` returned.
    pub fn insert(&mut self, name: &[u8], ip: IpAddress) -> (r: bool)
        requires
            old(self).wf(),
        ensures
            final(self).wf(),
            r == takes_name(name@),
            !r ==> final(self)@ == old(self)@,
            r ==> final(self)@ == inserted(old(self)@, unicode_lower(name@), ip),
    {
        let lname = match lower_name(name) {
            None => return false,
            Some(l) => l,
        };
        let ghost before = self@;
        match self.find(lname.as_slice()) {
            Some(i) => {
                let mut e = self.entries.remove(i);
                match ip {
                    IpAddress::V4(v) => e.a.push(v),
                    IpAddress::V6(v) => e.aaaa.push(v),
                }
                self.entries.insert(i, e);
                assert(self@ =~= before.update(i as int, match ip {
                    IpAddress::V4(v) => EntryView { a: before[i as int].a.push(v), ..before[i as int] },
                    IpAddress::V6(v) => EntryView { aaaa: before[i as int].aaaa.push(v), ..before[i as int] },
                }));
            },
            None => {
                let e = match ip {
                    IpAddress::V4(v) => {
                        let mut a: Vec<u32> = Vec::new();
                        a.push(v);
                        assert(a@ =~= seq![v]);
                        HostEntry { name: lname, a, aaaa: Vec::new() }
                    },
                    IpAddress::V6(v) => {
                        let mut aaaa: Vec<u128> = Vec::new();
                        aaaa.push(v);
                        assert(aaaa@ =~= seq![v]);
                        HostEntry { name: lname, a: Vec::new(), aaaa }
                    },
                };
                self.entries.push(e);
                assert(self@ =~= before.push(match ip {
                    IpAddress::V4(v) => EntryView { name: lname@, a: seq![v], aaaa: seq![] },
                    IpAddress::V6(v) => EntryView { name: lname@, a: seq![], aaaa: seq![v] },
                }));
            },
        }
        true
    }

    /// Gives `ip` to each of `names` in turn, the names after the address on
    /// one hosts line; names the table does not take are skipped.
    pub fn add_line(&mut self, ip: IpAddress, names: &[Vec<u8>])
        requires
            old(self).wf(),
        ensures
            final(self).wf(),
            final(self)@ == added(old(self)@, ip, names@.map_values(|n: Vec<u8>| n@)),
    {
        let ghost all = names@.map_values(|n: Vec<u8>| n@);
        let mut i: usize = 0;
        while i < names.len()
            invariant
                i <= names@.len(),
                all == names@.map_values(|n: Vec<u8>| n@),
                self.wf(),
                self@ == added(old(self)@, ip, all.subrange(0, i as int)),
            decreases names@.len() - i,
        {
            let ghost before = self@;
            self.insert(names[i].as_slice(), ip);
            proof {
                let p = all.subrange(0, i + 1);
                assert(p.drop_last() =~= all.subrange(0, i as int));
                assert(p.last() == names@[i as int]@);
            }
            i = i + 1;
        }
        assert(all.subrange(0, names@.len() as int) =~= all);
    }

    /// The records the table holds for a question: those of its type when
    /// the name has any, else `NoData`.
    pub fn lookup(&self, query: &Query) -> (r: Result<Answer, DnsError>)
        requires
            self.wf(),
        ensures
            match hosts_answer(self@, query@.name, query@.qtype) {
                Some(rs) => r matches Ok(a) && a.query@ == query@ && records_view(a.records@) == rs
                    && a.valid_until is None,
                None => r matches Err(DnsError::NoData),
            },
    {
        let i = match self.find(query.name.as_slice()) {
            None => return Err(DnsError::NoData),
            Some(i) => i,
        };
        let e = &self.entries[i];
        let mut records: Vec<Record> = Vec::new();
        if query.qtype == TYPE_A && e.a.len() > 0 {
            let mut k: usize = 0;
            while k < e.a.len()
                invariant
                    k <= e.a@.len(),
                    records_view(records@) == a_records(e.name@, e.a@.subrange(0, k as int)),
                decreases e.a@.len() - k,
            {
                let ghost before = records@;
                let rec = Record { name: copy_bytes(&e.name), class: CLASS_IN, rtype: TYPE_A, ttl: 0, data: RData::A(e.a[k]) };
                records.push(rec);
                assert(records_view(records@) =~= records_view(before).push(rec@));
                k = k + 1;
                assert(records_view(records@) =~= a_records(e.name@, e.a@.subrange(0, k as int)));
            }
            assert(e.a@.subrange(0, e.a@.len() as int) =~= e.a@);
        } else if query.qtype == TYPE_AAAA && e.aaaa.len() > 0 {
            let mut k: usize = 0;
            while k < e.aaaa.len()
                invariant
                    k <= e.aaaa@.len(),
                    records_view(records@) == aaaa_records(e.name@, e.aaaa@.subrange(0, k as int)),
                decreases e.aaaa@.len() - k,
            {
                let ghost before = records@;
                let rec = Record { name: copy_bytes(&e.name), class: CLASS_IN, rtype: TYPE_AAAA, ttl: 0, data: RData::Aaaa(e.aaaa[k]) };
                records.push(rec);
                assert(records_view(records@) =~= records_view(before).push(rec@));
                k = k + 1;
                assert(records_view(records@) =~= aaaa_records(e.name@, e.aaaa@.subrange(0, k as int)));
            }
            assert(e.aaaa@.subrange(0, e.aaaa@.len() as int) =~= e.aaaa@);
        } else {
            return Err(DnsError::NoData);
        }
        Ok(Answer::new(query.copy(), records, None))
    }
}

/// For a name with IPv4 addresses only, an AAAA question gets no data and
/// an A question gets its addresses; for a name with both, each question
/// gets the addresses of its own type.
pub proof fn lemma_hosts_types(h: Seq<EntryView>, i: int)
    requires
        0 <= i < h.len(),
        forall|x: int, y: int| 0 <= x < y < h.len() ==> #[trigger] h[x].name != #[trigger] h[y].name,
    ensures
        h[i].a.len() > 0 ==> hosts_answer(h, h[i].name, TYPE_A) == Some(a_records(h[i].name, h[i].a)),
        h[i].aaaa.len() == 0 ==> hosts_answer(h, h[i].name, TYPE_AAAA) is None,
        h[i].aaaa.len() > 0 ==> hosts_answer(h, h[i].name, TYPE_AAAA) == Some(
            aaaa_records(h[i].name, h[i].aaaa),
        ),
{
    let k = choose|k: int| 0 <= k < h.len() && h[k].name == h[i].name;
    assert(k == i);
}

/// The length of the run of non-whitespace bytes at the front of `s`.
pub open spec fn run_len(s: Seq<u8>) -> int
    decreases s.len(),
{
    if s.len() == 0 || is_space(s[0]) {
        0
    } else {
        1 + run_len(s.drop_first())
    }
}

/// The whitespace-separated tokens of `s`, in order.
pub open spec fn tokens(s: Seq<u8>) -> Seq<Seq<u8>>
    decreases s.len(),
{
    if s.len() == 0 {
        seq![]
    } else if is_space(s[0]) {
        tokens(s.drop_first())
    } else {
        let k = if 0 < run_len(s) <= s.len() {
            run_len(s)
        } else {
            1
        };
        seq![s.subrange(0, k)] + tokens(s.subrange(k, s.len() as int))
    }
}

proof fn lemma_run_len(s: Seq<u8>, k: int)
    requires
        0 <= k <= s.len(),
        k < s.len() ==> is_space(s[k]),
        forall|j: int| 0 <= j < k ==> !is_space(s[j]),
    ensures
        run_len(s) == k,
    decreases s.len(),
{
    if k > 0 {
        lemma_run_len(s.drop_first(), k - 1);
    }
}

/// The tokens of a hosts file line, its comment (from `#`) left out: an
/// address, then the names given it.
pub fn hosts_line_tokens(line: &[u8]) -> (r: Vec<Vec<u8>>)
    ensures
        r@.map_values(|t: Vec<u8>| t@) == tokens(line@.subrange(0, first_index(line@, 0x23))),
{
    let end = crate::http::head::first_index_in(line, 0, line.len(), 0x23);
    assert(line@.subrange(0, line@.len() as int) =~= line@);
    let ghost all = line@.subrange(0, end as int);
    let mut out: Vec<Vec<u8>> = Vec::new();
    let mut pos: usize = 0;
    while pos < end
        invariant
            pos <= end <= line@.len(),
            all == line@.subrange(0, end as int),
            tokens(all) == out@.map_values(|t: Vec<u8>| t@) + tokens(line@.subrange(pos as int, end as int)),
        decreases end - pos,
    {
        let ghost rest = line@.subrange(pos as int, end as int);
        if space(line[pos]) {
            assert(rest.drop_first() =~= line@.subrange(pos + 1, end as int));
            pos = pos + 1;
        } else {
            let mut k = pos;
            while k < end && !space(line[k])
                invariant
                    pos <= k <= end <= line@.len(),
                    forall|j: int| pos <= j < k ==> !is_space(line@[j]),
                decreases end - k,
            {
                k = k + 1;
            }
            proof {
                lemma_run_len(rest, k - pos);
                assert(rest.subrange(0, k - pos) =~= line@.subrange(pos as int, k as int));
                assert(rest.subrange(k - pos, rest.len() as int) =~= line@.subrange(k as int, end as int));
            }
            let mut t: Vec<u8> = Vec::new();
            let mut i = pos;
            while i < k
                invariant
                    pos <= i <= k <= line@.len(),
                    t@ == line@.subrange(pos as int, i as int),
                decreases k - i,
            {
                t.push(line[i]);
                i = i + 1;
                assert(t@ =~= line@.subrange(pos as int, i as int));
            }
            let ghost before = out@;
            out.push(t);
            assert(out@.map_values(|t: Vec<u8>| t@) =~= before.map_values(|t: Vec<u8>| t@).push(line@.subrange(pos as int, k as int)));
            assert(seq![line@.subrange(pos as int, k as int)] + tokens(line@.subrange(k as int, end as int)) == tokens(rest));
            assert(before.map_values(|t: Vec<u8>| t@).push(line@.subrange(pos as int, k as int)) + tokens(line@.subrange(k as int, end as int))
                =~= before.map_values(|t: Vec<u8>| t@) + (seq![line@.subrange(pos as int, k as int)] + tokens(line@.subrange(k as int, end as int))));
            pos = k;
        }
    }
    assert(out@.map_values(|t: Vec<u8>| t@) + tokens(line@.subrange(pos as int, end as int)) =~= out@.map_values(|t: Vec<u8>| t@));
    out
}

} // verus!
