use vstd::prelude::*;
use vstd::utf8::{pop_first_scalar, valid_first_scalar, valid_utf8};

use crate::http::error::{Version, HttpError};
use crate::http::head::{after_fields, fields_from, first_index, header_parts, line_content, line_end, FieldsOutcome, LineEnd};
use crate::http::headers::{Headers, valid_name, valid_value, is_token_byte};
use crate::http::text::{is_space, lower_seq, trim, trim_back, trim_front};

verus! {

/// How many redirects a request follows unless told otherwise.
pub const DEFAULT_FOLLOW_REDIRECT: u32 = 5;

/// A request method.
#[derive(Debug, Clone, Copy, PartialEq, Eq, Structural)]
pub enum Method {
    Get,
    Head,
    Post,
    Put,
    Delete,
    Options,
    Patch,
    Connect,
    Trace,
}

pub open spec fn method_text(m: Method) -> Seq<u8> {
    match m {
        Method::Get => seq![0x47u8, 0x45, 0x54],
        Method::Head => seq![0x48u8, 0x45, 0x41, 0x44],
        Method::Post => seq![0x50u8, 0x4f, 0x53, 0x54],
        Method::Put => seq![0x50u8, 0x55, 0x54],
        Method::Delete => seq![0x44u8, 0x45, 0x4c, 0x45, 0x54, 0x45],
        Method::Options => seq![0x4fu8, 0x50, 0x54, 0x49, 0x4f, 0x4e, 0x53],
        Method::Patch => seq![0x50u8, 0x41, 0x54, 0x43, 0x48],
        Method::Connect => seq![0x43u8, 0x4f, 0x4e, 0x4e, 0x45, 0x43, 0x54],
        Method::Trace => seq![0x54u8, 0x52, 0x41, 0x43, 0x45],
    }
}

pub open spec fn version_text(v: Version) -> Seq<u8> {
    let (a, b): (u8, u8) = match v {
        Version::Http09 => (0x30, 0x39),
        Version::Http10 => (0x31, 0x30),
        Version::Http11 => (0x31, 0x31),
        Version::Http20 => (0x32, 0x30),
        Version::Http30 => (0x33, 0x30),
    };
    seq![0x48u8, 0x54, 0x54, 0x50, 0x2f, a, 0x2e, b]
}

/// `\r\n`
pub open spec fn crlf() -> Seq<u8> {
    seq![0x0du8, 0x0a]
}

/// One serialized header line: `name: value\r\n`.
pub open spec fn field_line(name: Seq<u8>, value: Seq<u8>) -> Seq<u8> {
    name + seq![0x3au8, 0x20] + value + crlf()
}

/// The serialized header lines of `e`, in order.
pub open spec fn field_lines(e: Seq<(Seq<u8>, Seq<u8>)>) -> Seq<u8>
    decreases e.len(),
{
    if e.len() == 0 {
        seq![]
    } else {
        field_lines(e.drop_last()) + field_line(e.last().0, e.last().1)
    }
}

/// The head of a request: request line, header lines, empty line. HTTP/0.9
/// has no version on the request line.
pub open spec fn request_head(m: Method, path: Seq<u8>, v: Version, e: Seq<(Seq<u8>, Seq<u8>)>) -> Seq<u8> {
    let line = if v == Version::Http09 {
        method_text(m) + seq![0x20u8] + path
    } else {
        method_text(m) + seq![0x20u8] + path + seq![0x20u8] + version_text(v)
    };
    line + crlf() + field_lines(e) + crlf()
}

fn push_all(out: &mut Vec<u8>, s: &[u8])
    ensures
        final(out)@ == old(out)@ + s@,
{
    let mut i: usize = 0;
    while i < s.len()
        invariant
            i <= s@.len(),
            out@ == old(out)@ + s@.subrange(0, i as int),
        decreases s@.len() - i,
    {
        out.push(s[i]);
        i = i + 1;
        assert(out@ =~= old(out)@ + s@.subrange(0, i as int));
    }
    assert(s@.subrange(0, s@.len() as int) =~= s@);
}

impl Method {
    /// The method's name on the wire.
    pub fn push_text(self, out: &mut Vec<u8>)
        ensures
            final(out)@ == old(out)@ + method_text(self),
    {
        let t: &[u8] = match self {
            Method::Get => &[0x47u8, 0x45, 0x54],
            Method::Head => &[0x48u8, 0x45, 0x41, 0x44],
            Method::Post => &[0x50u8, 0x4f, 0x53, 0x54],
            Method::Put => &[0x50u8, 0x55, 0x54],
            Method::Delete => &[0x44u8, 0x45, 0x4c, 0x45, 0x54, 0x45],
            Method::Options => &[0x4fu8, 0x50, 0x54, 0x49, 0x4f, 0x4e, 0x53],
            Method::Patch => &[0x50u8, 0x41, 0x54, 0x43, 0x48],
            Method::Connect => &[0x43u8, 0x4f, 0x4e, 0x4e, 0x45, 0x43, 0x54],
            Method::Trace => &[0x54u8, 0x52, 0x41, 0x43, 0x45],
        };
        assert(t@ =~= method_text(self));
        push_all(out, t);
    }
}

fn push_version(out: &mut Vec<u8>, v: Version)
    ensures
        final(out)@ == old(out)@ + version_text(v),
{
    let (a, b): (u8, u8) = match v {
        Version::Http09 => (0x30, 0x39),
        Version::Http10 => (0x31, 0x30),
        Version::Http11 => (0x31, 0x31),
        Version::Http20 => (0x32, 0x30),
        Version::Http30 => (0x33, 0x30),
    };
    let t: [u8; 8] = [0x48u8, 0x54, 0x54, 0x50, 0x2f, a, 0x2e, b];
    assert(t@ =~= version_text(v));
    push_all(out, &t);
}

/// The bytes of a request head: `METHOD path VERSION\r\n`, then
/// `Name: Value\r\n` for each header field in order, then `\r\n`.
pub fn write_request_head(method: Method, path: &[u8], version: Version, headers: &Headers) -> (r: Vec<u8>)
    ensures
        r@ == request_head(method, path@, version, headers@),
{
    let mut out: Vec<u8> = Vec::new();
    method.push_text(&mut out);
    out.push(0x20);
    push_all(&mut out, path);
    if version != Version::Http09 {
        out.push(0x20);
        push_version(&mut out, version);
    }
    out.push(0x0d);
    out.push(0x0a);
    let ghost line_part = out@;
    let mut i: usize = 0;
    while i < headers.entries.len()
        invariant
            i <= headers@.len(),
            out@ == line_part + field_lines(headers@.subrange(0, i as int)),
        decreases headers@.len() - i,
    {
        let ghost before = out@;
        push_all(&mut out, headers.entries[i].0.as_slice());
        out.push(0x3a);
        out.push(0x20);
        push_all(&mut out, headers.entries[i].1.as_slice());
        out.push(0x0d);
        out.push(0x0a);
        proof {
            let e = headers@.subrange(0, i + 1);
            assert(e.drop_last() =~= headers@.subrange(0, i as int));
            assert(out@ =~= before + field_line(headers@[i as int].0, headers@[i as int].1));
        }
        i = i + 1;
    }
    assert(headers@.subrange(0, headers@.len() as int) =~= headers@);
    out.push(0x0d);
    out.push(0x0a);
    assert(out@ =~= request_head(method, path@, version, headers@));
    out
}

/// `host`
pub open spec fn host_name() -> Seq<u8> {
    seq![0x68u8, 0x6f, 0x73, 0x74]
}

/// Adds a `Host` field naming `host` when the request, of version 1.1 or
/// earlier, has none.
pub fn add_host(headers: &mut Headers, version: Version, host: &[u8]) -> (r: Result<(), HttpError>)
    requires
        old(headers).wf(),
    ensures
        final(headers).wf(),
        (version == Version::Http20 || version == Version::Http30 || old(headers).map().contains_key(
            host_name(),
        )) ==> r is Ok && *final(headers) == *old(headers),
        !(version == Version::Http20 || version == Version::Http30 || old(headers).map().contains_key(
            host_name(),
        )) ==> (r is Ok <==> valid_value(host@)) && (r is Ok ==> final(headers).map() == old(
            headers,
        ).map().insert(host_name(), host@)),
{
    let name: [u8; 4] = [0x68u8, 0x6f, 0x73, 0x74];
    assert(lower_seq(name@) =~= host_name());
    assert(valid_name(name@));
    if version == Version::Http20 || version == Version::Http30 || headers.contains_key(&name) {
        return Ok(());
    }
    headers.insert(&name, host)
}

/// Whether a response is a redirect to follow: a 3xx status with a
/// `Location` field, while redirects remain.
pub open spec fn follows(status: u16, remaining: u32, has_location: bool) -> bool {
    remaining > 0 && 300 <= status < 400 && has_location
}

/// Whether a response is a redirect to follow: a 3xx status with a
/// `Location` field, while redirects remain.
pub fn should_follow(status: u16, remaining: u32, has_location: bool) -> (r: bool)
    ensures
        r == follows(status, remaining, has_location),
{
    remaining > 0 && 300 <= status && status < 400 && has_location
}

/// The redirects a request may still follow.
#[derive(Debug, Clone, Copy, PartialEq, Eq, Structural)]
pub struct Redirects {
    pub remaining: u32,
}

impl Redirects {
    /// Up to `limit` redirects.
    pub fn new(limit: u32) -> (r: Redirects)
        ensures
            r.remaining == limit,
    {
        Redirects { remaining: limit }
    }

    /// Whether to follow a response: a 3xx status with a `Location` field
    /// while redirects remain. Following one uses it up; a response not
    /// followed is the one returned.
    pub fn on_response(&mut self, status: u16, has_location: bool) -> (r: bool)
        ensures
            r == follows(status, old(self).remaining, has_location),
            final(self).remaining == (if r {
                (old(self).remaining - 1) as u32
            } else {
                old(self).remaining
            }),
    {
        if should_follow(status, self.remaining, has_location) {
            self.remaining = self.remaining - 1;
            true
        } else {
            false
        }
    }
}

/// How many of `k` responses in a row, each of status `status` with a
/// `Location`, are followed with `n` redirects allowed: each one followed
/// uses one up, and the first not followed is returned.
pub open spec fn redirects_followed(n: u32, k: nat, status: u16) -> nat
    decreases k,
{
    if k == 0 {
        0
    } else if follows(status, n, true) {
        1 + redirects_followed((n - 1) as u32, (k - 1) as nat, status)
    } else {
        0
    }
}

/// With `n` redirects allowed and a server that keeps answering with a 3xx
/// status and a `Location`, exactly `n` redirects are followed and the
/// response after them, a 3xx itself, is returned. `redirects_followed`
/// counts the steps of `Redirects::on_response`, whose contract it follows.
pub proof fn lemma_redirect_limit(n: u32, k: nat, status: u16)
    requires
        k > n,
        300 <= status < 400,
    ensures
        redirects_followed(n, k, status) == n,
        !follows(status, 0, true),
    decreases n,
{
    if n > 0 {
        lemma_redirect_limit((n - 1) as u32, (k - 1) as nat, status);
    }
}

/// The serialized line of a valid field, read back as a header line, gives
/// the same name and value, when the value does not start with whitespace.
pub proof fn lemma_field_line_round_trip(name: Seq<u8>, value: Seq<u8>)
    requires
        valid_name(name),
        valid_value(value),
        value.len() > 0 ==> !is_space(value[0]),
    ensures
        header_parts(line_content(field_line(name, value))) == (name, value),
{
    let line = field_line(name, value);
    let c = name + seq![0x3au8, 0x20] + value;
    assert(line.drop_last() =~= c + seq![0x0du8]);
    assert((c + seq![0x0du8]).drop_last() =~= c);
    assert(line_content(line) == c);
    assert forall|j: int| 0 <= j < name.len() implies c[j] != 0x3a by {
        assert(is_token_byte(name[j]));
    }
    lemma_first_index(c, 0x3a, name.len() as int);
    assert(c.subrange(0, name.len() as int) =~= name);
    lemma_trim_token(name);
    let rest = c.subrange(name.len() as int + 1, c.len() as int);
    assert(rest.drop_first() =~= value);
    assert(rest[0] == 0x20);
    if value.len() > 0 {
        assert(trim_front(value) == value);
    } else {
        assert(trim_front(value) == value);
    }
}

proof fn lemma_first_index(s: Seq<u8>, b: u8, e: int)
    requires
        0 <= e < s.len(),
        s[e] == b,
        forall|j: int| 0 <= j < e ==> s[j] != b,
    ensures
        first_index(s, b) == e,
    decreases s.len(),
{
    if s[0] != b {
        lemma_first_index(s.drop_first(), b, e - 1);
    }
}

proof fn lemma_trim_token(name: Seq<u8>)
    requires
        valid_name(name),
    ensures
        trim(name) == name,
{
    assert(!is_space(name[0])) by {
        assert(is_token_byte(name[0]));
    }
    assert(trim_front(name) == name);
    assert(!is_space(name.last())) by {
        assert(is_token_byte(name[name.len() - 1]));
    }
    assert(trim_back(name) == name);
}

/// A field whose line reads back as itself: a valid name, and a valid value
/// that does not start with whitespace.
pub open spec fn plain_field(f: (Seq<u8>, Seq<u8>)) -> bool {
    valid_name(f.0) && valid_value(f.1) && (f.1.len() > 0 ==> !is_space(f.1[0]))
}

proof fn lemma_field_lines_front(e: Seq<(Seq<u8>, Seq<u8>)>)
    requires
        e.len() > 0,
    ensures
        field_lines(e) == field_line(e[0].0, e[0].1) + field_lines(e.drop_first()),
    decreases e.len(),
{
    if e.len() == 1 {
        assert(e.drop_last().len() == 0);
        assert(e.drop_first().len() == 0);
        assert(field_lines(e.drop_last()) == Seq::<u8>::empty());
        assert(field_lines(e.drop_first()) == Seq::<u8>::empty());
        assert(e.last() == e[0]);
        assert(field_lines(e) =~= field_line(e[0].0, e[0].1));
    } else {
        lemma_field_lines_front(e.drop_last());
        assert(e.drop_last().drop_first() =~= e.drop_first().drop_last());
        assert(e.drop_first().last() == e.last());
        assert(e.drop_last()[0] == e[0]);
        assert(field_lines(e) =~= field_line(e[0].0, e[0].1) + field_lines(e.drop_first()));
    }
}

/// Bytes below 0x80 only.
pub open spec fn ascii(s: Seq<u8>) -> bool {
    forall|i: int| 0 <= i < s.len() ==> #[trigger] s[i] < 0x80
}

proof fn lemma_ascii_utf8(s: Seq<u8>)
    requires
        ascii(s),
    ensures
        valid_utf8(s),
    decreases s.len(),
{
    if s.len() > 0 {
        assert(s[0] < 0x80);
        assert(valid_first_scalar(s));
        assert(pop_first_scalar(s) =~= s.drop_first());
        lemma_ascii_utf8(s.drop_first());
    }
}

proof fn lemma_field_line_utf8(name: Seq<u8>, value: Seq<u8>)
    requires
        valid_name(name),
        valid_utf8(value),
    ensures
        valid_utf8(field_line(name, value)),
{
    let head = name + seq![0x3au8, 0x20];
    assert forall|j: int| 0 <= j < head.len() implies #[trigger] head[j] < 0x80 by {
        if j < name.len() {
            assert(is_token_byte(name[j]));
        }
    }
    lemma_ascii_utf8(head);
    assert forall|j: int| 0 <= j < crlf().len() implies #[trigger] crlf()[j] < 0x80 by {}
    lemma_ascii_utf8(crlf());
    vstd::utf8::valid_utf8_concat(head, value);
    vstd::utf8::valid_utf8_concat(head + value, crlf());
    assert(field_line(name, value) =~= head + value + crlf());
}

/// A field that a reader gives back as it is: plain, with a lower-case name
/// and a UTF-8 value.
pub open spec fn readable_field(f: (Seq<u8>, Seq<u8>)) -> bool {
    plain_field(f) && lower_seq(f.0) == f.0 && valid_utf8(f.1)
}

proof fn lemma_empty_line_done(b: Seq<u8>, pos: int, cap: int, left: int, eof: bool)
    requires
        0 <= pos,
        pos + 2 <= b.len(),
        b[pos] == 0x0d,
        b[pos + 1] == 0x0a,
        2 <= cap,
    ensures
        fields_from(b, pos, cap, left, eof) == FieldsOutcome::Done(seq![], pos, pos + 2),
{
    let avail = b.len() - pos;
    let w = if avail < cap {
        avail
    } else {
        cap
    };
    let win = b.subrange(pos, pos + w);
    assert(win[1] == 0x0a && win[0] != 0x0a);
    lemma_first_index(win, 0x0a, 1);
    assert(line_end(b, pos, cap, eof) == LineEnd::At(pos + 2));
    let line = b.subrange(pos, pos + 2);
    assert(line =~= crlf());
    lemma_ascii_utf8(line);
    assert(crlf().drop_last() =~= seq![0x0du8]);
    assert(seq![0x0du8].drop_last() =~= Seq::<u8>::empty());
    assert(line_content(line).len() == 0);
}

proof fn lemma_field_step(b: Seq<u8>, pos: int, f: (Seq<u8>, Seq<u8>), cap: int, left: int, eof: bool)
    requires
        0 <= pos,
        pos + field_line(f.0, f.1).len() <= b.len(),
        b.subrange(pos, pos + field_line(f.0, f.1).len()) == field_line(f.0, f.1),
        readable_field(f),
        field_line(f.0, f.1).len() <= cap,
        field_line(f.0, f.1).len() <= left,
    ensures
        fields_from(b, pos, cap, left, eof) == after_fields(
            seq![f],
            fields_from(b, pos + field_line(f.0, f.1).len(), cap, left - field_line(f.0, f.1).len(), eof),
        ),
{
    let fl = field_line(f.0, f.1);
    let avail = b.len() - pos;
    let w = if avail < cap {
        avail
    } else {
        cap
    };
    let win = b.subrange(pos, pos + w);
    assert forall|j: int| 0 <= j < fl.len() implies win[j] == fl[j] by {
        assert(b.subrange(pos, pos + fl.len())[j] == b[pos + j]);
    }
    assert forall|j: int| 0 <= j < fl.len() - 1 implies win[j] != 0x0a by {
        if j < f.0.len() {
            assert(is_token_byte(f.0[j]));
        } else if j >= f.0.len() + 2 && j < f.0.len() + 2 + f.1.len() {
            assert(crate::http::headers::is_value_byte(f.1[j - f.0.len() - 2]));
        }
    }
    lemma_first_index(win, 0x0a, fl.len() - 1);
    assert(line_end(b, pos, cap, eof) == LineEnd::At(pos + fl.len()));
    let line = b.subrange(pos, pos + fl.len());
    lemma_field_line_utf8(f.0, f.1);
    assert(line =~= fl);
    lemma_field_line_round_trip(f.0, f.1);
    assert(line_content(line).len() > 0) by {
        assert(fl.drop_last() =~= f.0 + seq![0x3au8, 0x20] + f.1 + seq![0x0du8]);
        assert((f.0 + seq![0x3au8, 0x20] + f.1 + seq![0x0du8]).drop_last() =~= f.0 + seq![0x3au8, 0x20] + f.1);
    }
    match fields_from(b, pos + fl.len(), cap, left - fl.len(), eof) {
        FieldsOutcome::Done(fs, fe, end) => {
            assert(seq![(lower_seq(f.0), f.1)] + fs == seq![f] + fs);
        },
        _ => {},
    }
}

/// Serialized header lines, followed by the empty line, read back as the
/// same fields in the same order, when each line fits in `cap` bytes and
/// all of them in `left`, whatever came before and comes after them.
pub proof fn lemma_fields_read_back(
    pre: Seq<u8>,
    e: Seq<(Seq<u8>, Seq<u8>)>,
    rest: Seq<u8>,
    cap: int,
    left: int,
    eof: bool,
)
    requires
        forall|i: int| 0 <= i < e.len() ==> readable_field(#[trigger] e[i]),
        forall|i: int| 0 <= i < e.len() ==> field_line(e[i].0, e[i].1).len() <= cap,
        2 <= cap,
        field_lines(e).len() <= left,
    ensures
        fields_from(pre + field_lines(e) + crlf() + rest, pre.len() as int, cap, left, eof) == FieldsOutcome::Done(
            e,
            (pre.len() + field_lines(e).len()) as int,
            (pre.len() + field_lines(e).len() + 2) as int,
        ),
    decreases e.len(),
{
    let b = pre + field_lines(e) + crlf() + rest;
    let pos = pre.len() as int;
    if e.len() == 0 {
        assert(field_lines(e) == Seq::<u8>::empty());
        assert(b =~= pre + (crlf() + rest));
        assert(b[pos] == 0x0d && b[pos + 1] == 0x0a);
        lemma_empty_line_done(b, pos, cap, left, eof);
        assert(e =~= Seq::<(Seq<u8>, Seq<u8>)>::empty());
    } else {
        let t = e.drop_first();
        let f = e[0];
        let fl = field_line(f.0, f.1);
        lemma_field_lines_front(e);
        assert forall|i: int| 0 <= i < t.len() implies readable_field(#[trigger] t[i]) by {
            assert(t[i] == e[i + 1]);
        }
        assert forall|i: int| 0 <= i < t.len() implies field_line(t[i].0, t[i].1).len() <= cap by {
            assert(t[i] == e[i + 1]);
        }
        let pre2 = pre + fl;
        assert(b =~= pre2 + field_lines(t) + crlf() + rest);
        lemma_fields_read_back(pre2, t, rest, cap, left - fl.len(), eof);
        assert(b.subrange(pos, pos + fl.len()) =~= fl);
        lemma_field_step(b, pos, f, cap, left, eof);
        assert(seq![f] + t =~= e);
        assert(field_lines(e).len() == fl.len() + field_lines(t).len());
        assert(pre2.len() == pos + fl.len());
        let inner = fields_from(b, pos + fl.len(), cap, left - fl.len(), eof);
        assert(inner == FieldsOutcome::Done(
            t,
            (pre2.len() + field_lines(t).len()) as int,
            (pre2.len() + field_lines(t).len() + 2) as int,
        ));
        assert(after_fields(seq![f], inner) == FieldsOutcome::Done(
            seq![f] + t,
            (pre2.len() + field_lines(t).len()) as int,
            (pre2.len() + field_lines(t).len() + 2) as int,
        ));
    }
}

/// Reading back the serialized fields of a header set rebuilds the same
/// case-insensitive map. The values must be UTF-8 (the reader refuses any
/// line that is not) and must not start with whitespace (the reader drops
/// it); each line must fit the line bound and all of them the budget.
pub proof fn lemma_header_set_read_back(h: &Headers, pre: Seq<u8>, rest: Seq<u8>, cap: int, left: int, eof: bool)
    requires
        h.wf(),
        forall|i: int| 0 <= i < h@.len() ==> valid_utf8((#[trigger] h@[i]).1) && (h@[i].1.len() > 0 ==> !is_space(h@[i].1[0])),
        forall|i: int| 0 <= i < h@.len() ==> field_line(h@[i].0, h@[i].1).len() <= cap,
        2 <= cap,
        field_lines(h@).len() <= left,
    ensures
        fields_from(pre + field_lines(h@) + crlf() + rest, pre.len() as int, cap, left, eof) matches FieldsOutcome::Done(fs, _, _)
            && crate::http::headers::fields_map(fs) == h.map(),
{
    assert forall|i: int| 0 <= i < h@.len() implies readable_field(#[trigger] h@[i]) by {}
    lemma_fields_read_back(pre, h@, rest, cap, left, eof);
}

} // verus!
