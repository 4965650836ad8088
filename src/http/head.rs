use vstd::prelude::*;
use vstd::string::StringSliceAdditionalSpecFns;
use vstd::utf8::valid_utf8;

use crate::http::digits::is_digit;
use crate::http::error::{version_number, HttpError, Version};
use crate::http::headers::{check_name, check_value, valid_name, valid_value, Headers};
use crate::http::text::{find_byte, lower_seq, trim, trim_back_range, trim_front, trim_front_range};

verus! {

/// The read buffer's capacity: no head line may be longer.
pub const DEFAULT_LINE_CAPACITY: usize = 8192;

/// The default bound on the status line and header lines together.
pub const DEFAULT_MAXIMUM_HEADER_SIZE: usize = 128 * 1024;

/// The index of the first `b` in `s`, or the length of `s`.
pub open spec fn first_index(s: Seq<u8>, b: u8) -> int
    decreases s.len(),
{
    if s.len() == 0 {
        0
    } else if s[0] == b {
        0
    } else {
        1 + first_index(s.drop_first(), b)
    }
}

pub proof fn lemma_first_index_at(s: Seq<u8>, b: u8, e: int)
    requires
        0 <= e <= s.len(),
        e < s.len() ==> s[e] == b,
        forall|j: int| 0 <= j < e ==> s[j] != b,
    ensures
        first_index(s, b) == e,
    decreases s.len(),
{
    if s.len() > 0 && s[0] != b {
        lemma_first_index_at(s.drop_first(), b, e - 1);
    }
}

/// The first index of `b` in `s[start..end]`, or `end`, with its spec.
pub fn first_index_in(s: &[u8], start: usize, end: usize, b: u8) -> (r: usize)
    requires
        start <= end <= s@.len(),
    ensures
        start <= r <= end,
        r - start == first_index(s@.subrange(start as int, end as int), b),
{
    let r = match find_byte(s, start, end, b) {
        Some(i) => i,
        None => end,
    };
    proof {
        lemma_first_index_at(s@.subrange(start as int, end as int), b, r - start);
    }
    r
}

/// The end (just past its `\n`) of the line that starts at `start`: `None`
/// when more bytes are needed; `HeadersTooLong` when `capacity` bytes hold no
/// `\n`; `UnexpectedEof` when the connection has ended before one.
pub fn scan_line(buf: &[u8], start: usize, capacity: usize, eof: bool) -> (r: Result<Option<usize>, HttpError>)
    requires
        start <= buf@.len(),
    ensures
        r matches Ok(Some(e)) ==> start < e <= buf@.len() && e - start <= capacity && buf@[e - 1] == 0x0a
            && forall|j: int| start <= j < e - 1 ==> buf@[j] != 0x0a,
        r is Ok && r->Ok_0 is None ==> buf@.len() - start < capacity && !eof,
        r matches Err(e) ==> (e == HttpError::HeadersTooLong && buf@.len() - start >= capacity) || (
            e == HttpError::UnexpectedEof && buf@.len() - start < capacity && eof),
        (exists|j: int| start <= j < buf@.len() && j < start + capacity && buf@[j] == 0x0a) ==> r matches Ok(Some(_)),
{
    let avail = buf.len() - start;
    let w = if avail < capacity {
        avail
    } else {
        capacity
    };
    match find_byte(buf, start, start + w, 0x0a) {
        Some(j) => Ok(Some(j + 1)),
        None => {
            if avail >= capacity {
                Err(HttpError::HeadersTooLong)
            } else if eof {
                Err(HttpError::UnexpectedEof)
            } else {
                Ok(None)
            }
        },
    }
}

/// A line without its final `\n` and the `\r` before it, if any.
pub open spec fn line_content(line: Seq<u8>) -> Seq<u8> {
    let l = if line.len() > 0 && line.last() == 0x0a {
        line.drop_last()
    } else {
        line
    };
    if l.len() > 0 && l.last() == 0x0d {
        l.drop_last()
    } else {
        l
    }
}

/// The end of the content of the line `buf[start..end]`.
pub fn content_end(buf: &[u8], start: usize, end: usize) -> (r: usize)
    requires
        start <= end <= buf@.len(),
    ensures
        start <= r <= end,
        buf@.subrange(start as int, r as int) == line_content(buf@.subrange(start as int, end as int)),
{
    let ghost line = buf@.subrange(start as int, end as int);
    let mut e = end;
    if e > start && buf[e - 1] == 0x0a {
        e = e - 1;
        assert(line.drop_last() =~= buf@.subrange(start as int, e as int));
    }
    let ghost l = buf@.subrange(start as int, e as int);
    if e > start && buf[e - 1] == 0x0d {
        e = e - 1;
        assert(l.drop_last() =~= buf@.subrange(start as int, e as int));
    }
    e
}

/// Relies on `str::from_utf8`: it succeeds exactly on UTF-8 bytes, and the
/// text it gives is made of those bytes.
#[verifier::external_body]
pub(crate) fn utf8_text(b: &[u8]) -> (r: Option<&str>)
    ensures
        r is Some <==> valid_utf8(b@),
        r matches Some(t) ==> t.spec_bytes() == b@,
{
    std::str::from_utf8(b).ok()
}

/// `HTTP/`
pub open spec fn http_prefix() -> Seq<u8> {
    seq![0x48u8, 0x54, 0x54, 0x50, 0x2f]
}

/// The version written `HTTP/<d>.<d>`, if it is one of the known ones.
pub open spec fn version_of(v: Seq<u8>) -> Option<Version> {
    if v.len() == 8 && v.subrange(0, 5) == http_prefix() && is_digit(v[5], 10) && v[6] == 0x2e
        && is_digit(v[7], 10) {
        let n = (v[5] - 0x30) * 10 + (v[7] - 0x30);
        if n == 9 {
            Some(Version::Http09)
        } else if n == 10 {
            Some(Version::Http10)
        } else if n == 11 {
            Some(Version::Http11)
        } else if n == 20 {
            Some(Version::Http20)
        } else if n == 30 {
            Some(Version::Http30)
        } else {
            None
        }
    } else {
        None
    }
}

/// Reads a protocol version written `HTTP/<d>.<d>` from `s[start..end]`.
pub fn parse_version(s: &[u8], start: usize, end: usize) -> (r: Option<Version>)
    requires
        start <= end <= s@.len(),
    ensures
        r == version_of(s@.subrange(start as int, end as int)),
{
    let ghost v = s@.subrange(start as int, end as int);
    if end - start != 8 {
        return None;
    }
    let prefix = s[start] == 0x48 && s[start + 1] == 0x54 && s[start + 2] == 0x54 && s[start + 3] == 0x50
        && s[start + 4] == 0x2f;
    assert(prefix <==> v.subrange(0, 5) =~= http_prefix());
    let d5 = s[start + 5];
    let d7 = s[start + 7];
    if !prefix || !(0x30 <= d5 && d5 <= 0x39) || s[start + 6] != 0x2e || !(0x30 <= d7 && d7 <= 0x39) {
        return None;
    }
    let n: u32 = ((d5 - 0x30) as u32) * 10 + (d7 - 0x30) as u32;
    Version::from_number(n)
}

/// A status code as `http::StatusCode` reads it: three decimal digits from
/// 100 to 999.
pub open spec fn status_of(c: Seq<u8>) -> Option<u16> {
    if c.len() == 3 && is_digit(c[0], 10) && is_digit(c[1], 10) && is_digit(c[2], 10) && c[0]
        != 0x30 {
        Some(((c[0] - 0x30) * 100 + (c[1] - 0x30) * 10 + (c[2] - 0x30)) as u16)
    } else {
        None
    }
}

/// A status line `<version> <code>[ <reason>]`: its version and code.
pub open spec fn status_line_of(l: Seq<u8>) -> Option<(Version, u16)> {
    let i = first_index(l, 0x20);
    if i >= l.len() {
        None
    } else {
        let rest = l.subrange(i + 1, l.len() as int);
        let j = first_index(rest, 0x20);
        match (version_of(l.subrange(0, i)), status_of(rest.subrange(0, j))) {
            (Some(v), Some(c)) => Some((v, c)),
            _ => None,
        }
    }
}

proof fn lemma_first_index_bounds(s: Seq<u8>, b: u8)
    ensures
        0 <= first_index(s, b) <= s.len(),
    decreases s.len(),
{
    if s.len() > 0 && s[0] != b {
        lemma_first_index_bounds(s.drop_first(), b);
    }
}

/// Reads the version and status code of the status line `s[start..end]`.
pub fn parse_status_line(s: &[u8], start: usize, end: usize) -> (r: Option<(Version, u16)>)
    requires
        start <= end <= s@.len(),
    ensures
        r == status_line_of(s@.subrange(start as int, end as int)),
{
    let ghost l = s@.subrange(start as int, end as int);
    let i = first_index_in(s, start, end, 0x20);
    if i >= end {
        return None;
    }
    let ghost rest = l.subrange(i - start + 1, l.len() as int);
    assert(rest =~= s@.subrange(i + 1, end as int));
    let j = first_index_in(s, i + 1, end, 0x20);
    assert(l.subrange(0, i - start) =~= s@.subrange(start as int, i as int));
    assert(rest.subrange(0, j - i - 1) =~= s@.subrange(i + 1, j as int));
    let v = parse_version(s, start, i);
    let code: Option<u16> = if j - i - 1 == 3 {
        let (c0, c1, c2) = (s[i + 1], s[i + 2], s[i + 3]);
        if 0x31 <= c0 && c0 <= 0x39 && 0x30 <= c1 && c1 <= 0x39 && 0x30 <= c2 && c2 <= 0x39 {
            Some(((c0 - 0x30) as u16) * 100 + ((c1 - 0x30) as u16) * 10 + (c2 - 0x30) as u16)
        } else {
            None
        }
    } else {
        None
    };
    match (v, code) {
        (Some(v), Some(c)) => Some((v, c)),
        _ => None,
    }
}

/// The name and value of a header line's content: split at the first `:`,
/// the name trimmed and the value trimmed at the front. A line without `:`
/// is all name, with an empty value.
pub open spec fn header_parts(c: Seq<u8>) -> (Seq<u8>, Seq<u8>) {
    let i = first_index(c, 0x3a);
    if i < c.len() {
        (trim(c.subrange(0, i)), trim_front(c.subrange(i + 1, c.len() as int)))
    } else {
        (trim(c), seq![])
    }
}

/// Splits the header line content `s[start..end]` into name and value, and
/// checks both.
pub fn parse_header_line(s: &[u8], start: usize, end: usize) -> (r: Result<(Vec<u8>, Vec<u8>), HttpError>)
    requires
        start <= end <= s@.len(),
    ensures
        ({
            let (n, v) = header_parts(s@.subrange(start as int, end as int));
            &&& r matches Ok((rn, rv)) ==> rn@ == n && rv@ == v && valid_name(n) && valid_value(v)
            &&& r is Ok <==> valid_name(n) && valid_value(v)
            &&& !valid_name(n) ==> (r matches Err(HttpError::InvalidHeaderName(e)) && e@ == n)
            &&& valid_name(n) && !valid_value(v) ==> (r matches Err(HttpError::InvalidHeaderValue(e)) && e@ == v)
        }),
{
    let ghost c = s@.subrange(start as int, end as int);
    let i = first_index_in(s, start, end, 0x3a);
    let (na, nb, va, vb) = if i < end {
        let a = trim_front_range(s, start, i);
        let b = trim_back_range(s, a, i);
        let va = trim_front_range(s, i + 1, end);
        assert(c.subrange(0, i - start) =~= s@.subrange(start as int, i as int));
        assert(c.subrange(i - start + 1, c.len() as int) =~= s@.subrange(i + 1, end as int));
        (a, b, va, end)
    } else {
        let a = trim_front_range(s, start, end);
        let b = trim_back_range(s, a, end);
        (a, b, end, end)
    };
    let name = copy_range(s, na, nb);
    let value = copy_range(s, va, vb);
    if !check_name(name.as_slice()) {
        return Err(HttpError::InvalidHeaderName(name));
    }
    if !check_value(value.as_slice()) {
        return Err(HttpError::InvalidHeaderValue(value));
    }
    Ok((name, value))
}

fn copy_range(s: &[u8], a: usize, b: usize) -> (r: Vec<u8>)
    requires
        a <= b <= s@.len(),
    ensures
        r@ == s@.subrange(a as int, b as int),
{
    let mut r: Vec<u8> = Vec::new();
    let mut i = a;
    while i < b
        invariant
            a <= i <= b <= s@.len(),
            r@ == s@.subrange(a as int, i as int),
        decreases b - i,
    {
        r.push(s[i]);
        i = i + 1;
        assert(r@ =~= s@.subrange(a as int, i as int));
    }
    r
}

/// The bounds a response head is read within.
#[derive(Debug, Clone, Copy, PartialEq, Eq, Structural)]
pub struct HeadLimits {
    /// The longest line accepted, its line end included.
    pub line_capacity: usize,
    /// The longest status line and header lines accepted together.
    pub maximum_header_size: usize,
    pub min_version: Version,
    pub max_version: Version,
}

impl HeadLimits {
    /// An 8 KiB line, a 128 KiB head, HTTP/1.0 to HTTP/1.1.
    pub fn new() -> (r: HeadLimits)
        ensures
            r.line_capacity == DEFAULT_LINE_CAPACITY,
            r.maximum_header_size == DEFAULT_MAXIMUM_HEADER_SIZE,
            r.min_version == Version::Http10,
            r.max_version == Version::Http11,
    {
        HeadLimits {
            line_capacity: DEFAULT_LINE_CAPACITY,
            maximum_header_size: DEFAULT_MAXIMUM_HEADER_SIZE,
            min_version: Version::Http10,
            max_version: Version::Http11,
        }
    }
}

/// The head of a response: version, status code, header fields, and the
/// bytes its status line and header lines took (the final empty line not
/// counted).
#[derive(Debug)]
pub struct ResponseHead {
    pub version: Version,
    pub status: u16,
    pub headers: Headers,
    pub head_bytes: usize,
}

pub open spec fn in_range(v: Version, l: HeadLimits) -> bool {
    version_number(l.min_version) <= version_number(v) <= version_number(l.max_version)
}

/// Reads a response head from the front of `buf`, the bytes received so
/// far; `eof` says the connection has ended after them. Returns the head and
/// the number of bytes it took, or `None` when more bytes are needed. A
/// response that does not start with `HTTP/` is taken as HTTP/0.9 with
/// status 200, no headers, and its body starting at once.
pub fn parse_response(buf: &[u8], eof: bool, limits: &HeadLimits) -> (r: Result<Option<(ResponseHead, usize)>, HttpError>)
    ensures
        buf@.len() < 5 ==> r == (if eof {
            Err::<Option<(ResponseHead, usize)>, HttpError>(HttpError::UnexpectedEof)
        } else {
            Ok(None)
        }),
        buf@.len() >= 5 && buf@.subrange(0, 5) != http_prefix() ==> (if in_range(Version::Http09, *limits) {
            r matches Ok(Some((h, n))) && n == 0 && h.version == Version::Http09 && h.status == 200
                && h.headers@.len() == 0 && h.head_bytes == 0
        } else {
            r matches Err(HttpError::UnexpectedVersion(Version::Http09))
        }),
        r matches Ok(Some((h, n))) ==> {
            &&& n <= buf@.len()
            &&& h.head_bytes <= n
            &&& h.head_bytes <= limits.maximum_header_size || (h.version == Version::Http09 && h.head_bytes == 0)
            &&& h.headers.wf()
            &&& in_range(h.version, *limits)
        },
        buf@.len() >= 5 && buf@.subrange(0, 5) == http_prefix() ==> match line_end(
            buf@,
            0,
            limits.line_capacity as int,
            eof,
        ) {
            LineEnd::TooLong => r == Err::<Option<(ResponseHead, usize)>, HttpError>(HttpError::HeadersTooLong),
            LineEnd::Eof => r == Err::<Option<(ResponseHead, usize)>, HttpError>(HttpError::UnexpectedEof),
            LineEnd::More => r matches Ok(None),
            LineEnd::At(e) => if !valid_utf8(buf@.subrange(0, e)) {
                r == Err::<Option<(ResponseHead, usize)>, HttpError>(HttpError::InvalidUtf8)
            } else {
                match status_line_of(line_content(buf@.subrange(0, e))) {
                    None => r matches Err(HttpError::InvalidStatusLine(_)),
                    Some((v, c)) => if !in_range(v, *limits) {
                        r == Err::<Option<(ResponseHead, usize)>, HttpError>(HttpError::UnexpectedVersion(v))
                    } else if e > limits.maximum_header_size {
                        r == Err::<Option<(ResponseHead, usize)>, HttpError>(HttpError::HeadersTooLong)
                    } else if v == Version::Http09 {
                        r matches Ok(Some((h, n))) && h.version == v && h.status == c && h.head_bytes == e
                            && n == e && h.headers@.len() == 0
                    } else {
                        match fields_from(buf@, e, limits.line_capacity as int, limits.maximum_header_size - e, eof) {
                            FieldsOutcome::Fail(f) => r matches Err(err) && fault_error(err, f),
                            FieldsOutcome::More => r matches Ok(None),
                            FieldsOutcome::Done(fs, fe, end) => r matches Ok(Some((h, n))) && h.version == v
                                && h.status == c && h.head_bytes == fe && n == end
                                && h.headers.map() == crate::http::headers::fields_map(fs),
                        }
                    },
                }
            },
        },
{
    if buf.len() < 5 {
        return if eof {
            Err(HttpError::UnexpectedEof)
        } else {
            Ok(None)
        };
    }
    let prefix = buf[0] == 0x48 && buf[1] == 0x54 && buf[2] == 0x54 && buf[3] == 0x50 && buf[4] == 0x2f;
    assert(prefix <==> buf@.subrange(0, 5) =~= http_prefix());
    let min = limits.min_version.number();
    let max = limits.max_version.number();
    if !prefix {
        if 9 < min || 9 > max {
            return Err(HttpError::UnexpectedVersion(Version::Http09));
        }
        return Ok(Some((ResponseHead { version: Version::Http09, status: 200, headers: Headers::new(), head_bytes: 0 }, 0)));
    }
    let sr = scan_line(buf, 0, limits.line_capacity, eof);
    proof {
        lemma_scan_matches(buf@, 0, limits.line_capacity as int, eof, sr);
    }
    let end = match sr {
        Err(e) => return Err(e),
        Ok(None) => return Ok(None),
        Ok(Some(e)) => e,
    };
    let ce = content_end(buf, 0, end);
    let line = copy_range(buf, 0, end);
    if utf8_text(line.as_slice()).is_none() {
        return Err(HttpError::InvalidUtf8);
    }
    let (version, status) = match parse_status_line(buf, 0, ce) {
        None => return Err(HttpError::InvalidStatusLine(copy_range(buf, 0, ce))),
        Some(p) => p,
    };
    let n = version.number();
    if n < min || n > max {
        return Err(HttpError::UnexpectedVersion(version));
    }
    if end > limits.maximum_header_size {
        return Err(HttpError::HeadersTooLong);
    }
    if n == 9 {
        return Ok(Some((ResponseHead { version, status, headers: Headers::new(), head_bytes: end }, end)));
    }
    let budget: usize = limits.maximum_header_size - end;
    match read_fields(buf, end, eof, limits.line_capacity, budget) {
        Err(e) => Err(e),
        Ok(None) => Ok(None),
        Ok(Some((headers, fields_end, n))) => Ok(Some((ResponseHead { version, status, headers, head_bytes: fields_end }, n))),
    }
}

/// Where the line that starts at `pos` ends.
pub enum LineEnd {
    /// Just past its `\n`.
    At(int),
    /// More bytes are needed.
    More,
    /// `cap` bytes hold no `\n`.
    TooLong,
    /// The connection ended first.
    Eof,
}

/// Where the line of `b` that starts at `pos` ends, lines being at most
/// `cap` bytes.
pub open spec fn line_end(b: Seq<u8>, pos: int, cap: int, eof: bool) -> LineEnd {
    let avail = b.len() - pos;
    let w = if avail < cap {
        avail
    } else {
        cap
    };
    let j = first_index(b.subrange(pos, pos + w), 0x0a);
    if j < w {
        LineEnd::At(pos + j + 1)
    } else if avail >= cap {
        LineEnd::TooLong
    } else if eof {
        LineEnd::Eof
    } else {
        LineEnd::More
    }
}

/// Why header lines are refused.
pub enum FieldFault {
    /// A line is longer than the line bound, or the lines together longer
    /// than the budget.
    TooLong,
    /// The connection ended inside the lines.
    Eof,
    /// A line is not UTF-8.
    Utf8,
    /// A name, as given, is not a token.
    Name(Seq<u8>),
    /// A value, as given, holds a control byte.
    Value(Seq<u8>),
}

/// `e` is the error that reports the fault `f`.
pub open spec fn fault_error(e: HttpError, f: FieldFault) -> bool {
    match f {
        FieldFault::TooLong => e == HttpError::HeadersTooLong,
        FieldFault::Eof => e == HttpError::UnexpectedEof,
        FieldFault::Utf8 => e == HttpError::InvalidUtf8,
        FieldFault::Name(n) => e matches HttpError::InvalidHeaderName(v) && v@ == n,
        FieldFault::Value(x) => e matches HttpError::InvalidHeaderValue(v) && v@ == x,
    }
}

/// How reading header lines ends: more bytes are needed, a line is refused,
/// or the fields (lower-case names, values), where their lines end and where
/// the empty line ends.
pub enum FieldsOutcome {
    More,
    Fail(FieldFault),
    Done(Seq<(Seq<u8>, Seq<u8>)>, int, int),
}

/// The header lines of `b` from `pos`, each at most `cap` bytes and together
/// at most `left` bytes, up to the empty line that ends them.
pub open spec fn fields_from(b: Seq<u8>, pos: int, cap: int, left: int, eof: bool) -> FieldsOutcome
    decreases b.len() - pos,
{
    if !(0 <= pos <= b.len()) {
        FieldsOutcome::Fail(FieldFault::TooLong)
    } else {
        match line_end(b, pos, cap, eof) {
            LineEnd::TooLong => FieldsOutcome::Fail(FieldFault::TooLong),
            LineEnd::Eof => FieldsOutcome::Fail(FieldFault::Eof),
            LineEnd::More => FieldsOutcome::More,
            LineEnd::At(e) => if !(pos < e <= b.len()) {
                FieldsOutcome::Fail(FieldFault::TooLong)
            } else {
                let line = b.subrange(pos, e);
                if !valid_utf8(line) {
                    FieldsOutcome::Fail(FieldFault::Utf8)
                } else if line_content(line).len() == 0 {
                    FieldsOutcome::Done(seq![], pos, e)
                } else {
                    let (n, v) = header_parts(line_content(line));
                    if !valid_name(n) {
                        FieldsOutcome::Fail(FieldFault::Name(n))
                    } else if !valid_value(v) {
                        FieldsOutcome::Fail(FieldFault::Value(v))
                    } else if e - pos > left {
                        FieldsOutcome::Fail(FieldFault::TooLong)
                    } else {
                        match fields_from(b, e, cap, left - (e - pos), eof) {
                            FieldsOutcome::Done(fs, fe, end) => FieldsOutcome::Done(
                                seq![(lower_seq(n), v)] + fs,
                                fe,
                                end,
                            ),
                            other => other,
                        }
                    }
                }
            },
        }
    }
}

/// `o` with the fields `acc` put in front of those it found.
pub open spec fn after_fields(acc: Seq<(Seq<u8>, Seq<u8>)>, o: FieldsOutcome) -> FieldsOutcome {
    match o {
        FieldsOutcome::Done(fs, fe, end) => FieldsOutcome::Done(acc + fs, fe, end),
        other => other,
    }
}

/// What `scan_line` returns is the line end that `line_end` describes.
pub proof fn lemma_scan_matches(buf: Seq<u8>, pos: int, cap: int, eof: bool, r: Result<Option<usize>, HttpError>)
    requires
        0 <= pos <= buf.len(),
        0 <= cap,
        r matches Ok(Some(e)) ==> pos < e <= buf.len() && e - pos <= cap && buf[e - 1] == 0x0a
            && forall|j: int| pos <= j < e - 1 ==> buf[j] != 0x0a,
        r is Ok && r->Ok_0 is None ==> buf.len() - pos < cap && !eof,
        r matches Err(e) ==> (e == HttpError::HeadersTooLong && buf.len() - pos >= cap) || (
            e == HttpError::UnexpectedEof && buf.len() - pos < cap && eof),
        (exists|j: int| pos <= j < buf.len() && j < pos + cap && buf[j] == 0x0a) ==> r matches Ok(Some(_)),
    ensures
        r matches Ok(Some(e)) ==> line_end(buf, pos, cap, eof) == LineEnd::At(e as int),
        r is Ok && r->Ok_0 is None ==> line_end(buf, pos, cap, eof) == LineEnd::More,
        r == Err::<Option<usize>, HttpError>(HttpError::HeadersTooLong) ==> line_end(buf, pos, cap, eof) == LineEnd::TooLong,
        r == Err::<Option<usize>, HttpError>(HttpError::UnexpectedEof) ==> line_end(buf, pos, cap, eof) == LineEnd::Eof,
{
    let avail = buf.len() - pos;
    let w = if avail < cap {
        avail
    } else {
        cap
    };
    let win = buf.subrange(pos, pos + w);
    if let Ok(Some(e)) = r {
        assert forall|j: int| 0 <= j < e - 1 - pos implies win[j] != 0x0a by {
            assert(win[j] == buf[pos + j]);
        }
        lemma_first_index_at(win, 0x0a, e - 1 - pos);
    } else {
        assert forall|j: int| 0 <= j < w implies win[j] != 0x0a by {
            assert(win[j] == buf[pos + j]);
            if buf[pos + j] == 0x0a {
                assert(pos <= pos + j < buf.len() && pos + j < pos + cap);
            }
        }
        lemma_first_index_at(win, 0x0a, w);
    }
}

/// Reads header lines from `buf[start..]` up to the empty line that ends
/// them, each line at most `capacity` bytes and all of them together at
/// most `budget` bytes. Returns the fields, where their lines end, and
/// where the empty line ends; or `None` when more bytes are needed.
pub fn read_fields(buf: &[u8], start: usize, eof: bool, capacity: usize, budget: usize) -> (r: Result<Option<(Headers, usize, usize)>, HttpError>)
    requires
        start <= buf@.len(),
    ensures
        r is Err <==> fields_from(buf@, start as int, capacity as int, budget as int, eof) is Fail,
        r matches Err(err) ==> (fields_from(buf@, start as int, capacity as int, budget as int, eof) matches FieldsOutcome::Fail(f) && fault_error(err, f)),
        (r is Ok && r->Ok_0 is None) <==> fields_from(buf@, start as int, capacity as int, budget as int, eof) is More,
        r matches Ok(Some((h, fields_end, n))) ==> {
            &&& h.wf()
            &&& start <= fields_end < n <= buf@.len()
            &&& fields_end - start <= budget
            &&& line_content(buf@.subrange(fields_end as int, n as int)).len() == 0
            &&& fields_from(buf@, start as int, capacity as int, budget as int, eof) matches FieldsOutcome::Done(fs, fe, end)
                && fe == fields_end && end == n && h.map() == crate::http::headers::fields_map(fs)
        },
{
    let mut left: usize = budget;
    let mut headers = Headers::new();
    let mut pos = start;
    let ghost mut acc: Seq<(Seq<u8>, Seq<u8>)> = seq![];
    loop
        invariant
            start <= pos <= buf@.len(),
            left + (pos - start) == budget,
            headers.wf(),
            headers.map() == crate::http::headers::fields_map(acc),
            fields_from(buf@, start as int, capacity as int, budget as int, eof) == after_fields(
                acc,
                fields_from(buf@, pos as int, capacity as int, left as int, eof),
            ),
        decreases buf@.len() - pos,
    {
        let sr = scan_line(buf, pos, capacity, eof);
        proof {
            lemma_scan_matches(buf@, pos as int, capacity as int, eof, sr);
        }
        let e = match sr {
            Err(e) => return Err(e),
            Ok(None) => return Ok(None),
            Ok(Some(e)) => e,
        };
        let ce = content_end(buf, pos, e);
        let line = copy_range(buf, pos, e);
        if utf8_text(line.as_slice()).is_none() {
            return Err(HttpError::InvalidUtf8);
        }
        if ce == pos {
            proof {
                assert(acc + seq![] =~= acc);
            }
            return Ok(Some((headers, pos, e)));
        }
        let (name, value) = match parse_header_line(buf, pos, ce) {
            Err(err) => return Err(err),
            Ok(p) => p,
        };
        let len = e - pos;
        if len > left {
            return Err(HttpError::HeadersTooLong);
        }
        let ghost field = (lower_seq(name@), value@);
        left = left - len;
        match headers.insert(name.as_slice(), value.as_slice()) {
            Err(err) => return Err(err),
            Ok(()) => {},
        }
        proof {
            let next = fields_from(buf@, e as int, capacity as int, left as int, eof);
            let nacc = acc.push(field);
            assert(nacc.drop_last() =~= acc);
            match next {
                FieldsOutcome::Done(fs, fe, end) => {
                    assert(acc + (seq![field] + fs) =~= nacc + fs);
                },
                _ => {},
            }
            acc = nacc;
        }
        pos = e;
    }
}

} // verus!
