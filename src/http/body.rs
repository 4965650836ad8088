use vstd::prelude::*;

use crate::http::digits::{all_digits, check_digit, digit_value, digits_value, is_digit, parse_digits};
use crate::http::error::HttpError;
use crate::http::head::{fault_error, fields_from, first_index, read_fields, FieldsOutcome};
use crate::http::headers::Headers;
use crate::http::text::{eq_ignore_case, range_eq_ignore_case, trim, trim_back_range, trim_front_range};

verus! {

/// At most this many bytes are examined for the hex digits of a chunk size:
/// twice the size of a `u64`, doubled again for hex, and one more.
pub const MAX_HEX: usize = 33;

/// Where the chunked decoder stands.
#[derive(Debug, Clone, Copy, PartialEq, Eq, Structural)]
pub enum ChunkedState {
    /// Reading the hex digits of a chunk size.
    Size,
    /// Skipping the rest of a size line; the size read.
    Extension(u64),
    /// Handing out chunk data; the bytes left in the chunk.
    Data(u64),
    /// Skipping the line end after a chunk's data.
    Trailer,
}

/// How the end of a response body is found.
#[derive(Debug, Clone, Copy, PartialEq, Eq, Structural)]
pub enum Transfer {
    /// No more data.
    Empty,
    /// Data until the connection ends.
    Connection,
    /// A `Content-Length` body; the bytes left.
    Length(u64),
    /// A chunked body.
    Chunks(ChunkedState),
    /// The chunked body is over; trailer header lines follow.
    Trailers,
}

/// Chunk bytes announced but not yet handed out.
pub open spec fn pending(t: Transfer) -> nat {
    match t {
        Transfer::Chunks(ChunkedState::Extension(s)) => s as nat,
        Transfer::Chunks(ChunkedState::Data(r)) => r as nat,
        _ => 0,
    }
}

/// The decoder of one response body.
pub struct Body {
    pub transfer: Transfer,
    /// The response asked to keep the connection alive.
    pub reusable: bool,
    /// The sum of the chunk sizes read so far.
    pub announced: Ghost<nat>,
    /// The number of chunk data bytes handed out so far.
    pub yielded: Ghost<nat>,
}

/// A response to a HEAD request, or with status 204, 304 or 1xx, has no body.
pub open spec fn bodyless(is_head: bool, status: u16) -> bool {
    is_head || status == 204 || status == 304 || (100 <= status < 200)
}

pub open spec fn chunked_word() -> Seq<u8> {
    seq![0x63u8, 0x68, 0x75, 0x6e, 0x6b, 0x65, 0x64]
}

pub open spec fn keep_alive_word() -> Seq<u8> {
    seq![0x6bu8, 0x65, 0x65, 0x70, 0x2d, 0x61, 0x6c, 0x69, 0x76, 0x65]
}

/// The index of the first comma in `s`, or its length.
pub open spec fn comma_end(s: Seq<u8>) -> int
    decreases s.len(),
{
    if s.len() == 0 {
        0
    } else if s[0] == 0x2c {
        0
    } else {
        1 + comma_end(s.drop_first())
    }
}

/// One of the comma-separated items of `s`, trimmed, is `chunked` in any
/// ASCII case.
pub open spec fn lists_chunked(s: Seq<u8>) -> bool
    decreases s.len(),
{
    let e = if 0 <= comma_end(s) <= s.len() {
        comma_end(s)
    } else {
        s.len() as int
    };
    eq_ignore_case(trim(s.subrange(0, e)), chunked_word()) || (e < s.len() && lists_chunked(
        s.subrange(e + 1, s.len() as int),
    ))
}

/// What `str::parse::<u64>` makes of `s`: an optional `+`, then one or more
/// decimal digits whose value fits.
pub open spec fn decimal_u64(s: Seq<u8>) -> Option<u64> {
    let d = if s.len() > 0 && s[0] == 0x2b {
        s.drop_first()
    } else {
        s
    };
    if d.len() > 0 && all_digits(d, 10) && digits_value(d, 10) <= u64::MAX {
        Some(digits_value(d, 10) as u64)
    } else {
        None
    }
}

/// The transfer mode of a body, from the request method, the status, and the
/// `Transfer-Encoding` and `Content-Length` header values.
pub open spec fn transfer_for(is_head: bool, status: u16, te: Option<Seq<u8>>, cl: Option<Seq<u8>>) -> Transfer {
    if bodyless(is_head, status) {
        Transfer::Empty
    } else if te matches Some(t) && lists_chunked(t) {
        Transfer::Chunks(ChunkedState::Size)
    } else {
        match cl {
            Some(c) => match decimal_u64(c) {
                Some(n) => Transfer::Length(n),
                None => Transfer::Connection,
            },
            None => Transfer::Connection,
        }
    }
}

proof fn lemma_comma_end(s: Seq<u8>)
    ensures
        0 <= comma_end(s) <= s.len(),
        comma_end(s) < s.len() ==> s[comma_end(s)] == 0x2c,
        forall|j: int| 0 <= j < comma_end(s) ==> s[j] != 0x2c,
    decreases s.len(),
{
    if s.len() > 0 && s[0] != 0x2c {
        lemma_comma_end(s.drop_first());
        assert forall|j: int| 0 <= j < comma_end(s) implies s[j] != 0x2c by {
            if j > 0 {
                assert(s[j] == s.drop_first()[j - 1]);
            }
        }
    }
}

proof fn lemma_comma_end_at(s: Seq<u8>, e: int)
    requires
        0 <= e <= s.len(),
        e < s.len() ==> s[e] == 0x2c,
        forall|j: int| 0 <= j < e ==> s[j] != 0x2c,
    ensures
        comma_end(s) == e,
    decreases s.len(),
{
    if s.len() > 0 && s[0] != 0x2c {
        lemma_comma_end_at(s.drop_first(), e - 1);
    }
}

/// Whether the header value `v` lists `chunked` among its comma-separated
/// items.
pub fn has_chunked(v: &[u8]) -> (r: bool)
    ensures
        r == lists_chunked(v@),
{
    let word: [u8; 7] = [0x63u8, 0x68, 0x75, 0x6e, 0x6b, 0x65, 0x64];
    assert(word@ == chunked_word());
    let mut start: usize = 0;
    assert(v@.subrange(0, v@.len() as int) =~= v@);
    loop
        invariant
            start <= v@.len(),
            word@ == chunked_word(),
            lists_chunked(v@) == lists_chunked(v@.subrange(start as int, v@.len() as int)),
        decreases v@.len() - start,
    {
        let ghost rest = v@.subrange(start as int, v@.len() as int);
        let end = match crate::http::text::find_byte(v, start, v.len(), 0x2c) {
            Some(i) => i,
            None => v.len(),
        };
        proof {
            lemma_comma_end_at(rest, end - start);
            assert(rest.subrange(0, end - start) =~= v@.subrange(start as int, end as int));
        }
        let a = trim_front_range(v, start, end);
        let b = trim_back_range(v, a, end);
        if range_eq_ignore_case(v, a, b, &word) {
            return true;
        }
        if end == v.len() {
            return false;
        }
        assert(rest.subrange(end - start + 1, rest.len() as int) =~= v@.subrange(end + 1, v@.len() as int));
        start = end + 1;
    }
}

/// The value of a `Content-Length` header as `str::parse::<u64>` reads it.
pub fn parse_decimal(s: &[u8]) -> (r: Option<u64>)
    ensures
        r == decimal_u64(s@),
{
    let start: usize = if s.len() > 0 && s[0] == 0x2b {
        1
    } else {
        0
    };
    let ghost d = s@.subrange(start as int, s@.len() as int);
    assert(d =~= (if s@.len() > 0 && s@[0] == 0x2b {
        s@.drop_first()
    } else {
        s@
    }));
    if start == s.len() {
        return None;
    }
    let mut i = start;
    while i < s.len()
        invariant
            start <= i <= s@.len(),
            d == s@.subrange(start as int, s@.len() as int),
            d == (if s@.len() > 0 && s@[0] == 0x2b {
                s@.drop_first()
            } else {
                s@
            }),
            d.len() > 0,
            forall|j: int| start <= j < i ==> is_digit(#[trigger] s@[j], 10),
        decreases s@.len() - i,
    {
        if !check_digit(s[i], 10) {
            assert(!is_digit(d[i - start], 10));
            assert(!all_digits(d, 10));
            return None;
        }
        i = i + 1;
    }
    assert(all_digits(d, 10)) by {
        assert forall|j: int| 0 <= j < d.len() implies is_digit(#[trigger] d[j], 10) by {
            assert(d[j] == s@[start + j]);
        }
    }
    parse_digits(s, start, s.len(), 10)
}

/// The bytes of an optional header value.
pub open spec fn opt_view(o: Option<&[u8]>) -> Option<Seq<u8>> {
    match o {
        Some(v) => Some(v@),
        None => None,
    }
}

impl Body {
    /// The chunk bytes announced but not yet handed out are the difference of
    /// the two counters, and a chunk being handed out has bytes left.
    pub open spec fn wf(&self) -> bool {
        &&& self.announced@ == self.yielded@ + pending(self.transfer)
        &&& self.transfer != Transfer::Chunks(ChunkedState::Data(0))
    }

    /// The body decoder for a response: empty for HEAD, 204, 304 and 1xx;
    /// chunked when `Transfer-Encoding` lists `chunked`; counted when
    /// `Content-Length` is a `u64`; else read until the connection ends.
    pub fn new(
        is_head: bool,
        status: u16,
        transfer_encoding: Option<&[u8]>,
        content_length: Option<&[u8]>,
        connection: Option<&[u8]>,
    ) -> (r: Body)
        ensures
            r.wf(),
            r.transfer == transfer_for(is_head, status, opt_view(transfer_encoding), opt_view(content_length)),
            r.reusable == (connection matches Some(c) && eq_ignore_case(c@, keep_alive_word())),
    {
        let transfer = if is_head || status == 204 || status == 304 || (100 <= status && status < 200) {
            Transfer::Empty
        } else if transfer_encoding.is_some() && has_chunked(transfer_encoding.unwrap()) {
            Transfer::Chunks(ChunkedState::Size)
        } else {
            match content_length {
                Some(c) => match parse_decimal(c) {
                    Some(n) => Transfer::Length(n),
                    None => Transfer::Connection,
                },
                None => Transfer::Connection,
            }
        };
        let word: [u8; 10] = [0x6bu8, 0x65, 0x65, 0x70, 0x2d, 0x61, 0x6c, 0x69, 0x76, 0x65];
        assert(word@ == keep_alive_word());
        let reusable = match connection {
            Some(c) => range_eq_ignore_case(c, 0, c.len(), &word),
            None => false,
        };
        proof {
            if let Some(c) = connection {
                assert(c@.subrange(0, c@.len() as int) =~= c@);
            }
        }
        Body { transfer, reusable, announced: Ghost(0), yielded: Ghost(0) }
    }
}

/// The index of the first byte of `s[start..end]` that is not a hex digit,
/// if any.
fn find_non_hex(s: &[u8], start: usize, end: usize) -> (r: Option<usize>)
    requires
        start <= end <= s@.len(),
    ensures
        r matches Some(i) ==> start <= i < end && !is_digit(s@[i as int], 16),
        forall|j: int| start <= j < (if let Some(i) = r { i as int } else { end as int }) ==> is_digit(#[trigger] s@[j], 16),
{
    let mut i = start;
    while i < end
        invariant
            start <= i <= end <= s@.len(),
            forall|j: int| start <= j < i ==> is_digit(#[trigger] s@[j], 16),
        decreases end - i,
    {
        if !check_digit(s[i], 16) {
            return Some(i);
        }
        i = i + 1;
    }
    None
}

fn push_range(out: &mut Vec<u8>, s: &[u8], start: usize, end: usize)
    requires
        start <= end <= s@.len(),
    ensures
        final(out)@ == old(out)@ + s@.subrange(start as int, end as int),
{
    let mut i = start;
    while i < end
        invariant
            start <= i <= end <= s@.len(),
            out@ == old(out)@ + s@.subrange(start as int, i as int),
        decreases end - i,
    {
        out.push(s[i]);
        i = i + 1;
        assert(out@ =~= old(out)@ + s@.subrange(start as int, i as int));
    }
}

/// The index of the first byte of `s` that is not a hex digit, or the
/// length of `s`.
pub open spec fn first_non_hex(s: Seq<u8>) -> int
    decreases s.len(),
{
    if s.len() == 0 {
        0
    } else if !is_digit(s[0], 16) {
        0
    } else {
        1 + first_non_hex(s.drop_first())
    }
}

proof fn lemma_first_non_hex_at(s: Seq<u8>, k: int)
    requires
        0 <= k <= s.len(),
        k < s.len() ==> !is_digit(s[k], 16),
        forall|j: int| 0 <= j < k ==> is_digit(#[trigger] s[j], 16),
    ensures
        first_non_hex(s) == k,
    decreases s.len(),
{
    if s.len() > 0 && is_digit(s[0], 16) {
        assert forall|j: int| 0 <= j < k - 1 implies is_digit(#[trigger] s.drop_first()[j], 16) by {
            assert(s.drop_first()[j] == s[j + 1]);
        }
        lemma_first_non_hex_at(s.drop_first(), k - 1);
    }
}

/// One step of the chunked decoder at offset `pos` of `b`.
pub enum ChunkStep {
    /// The body is refused.
    Fail(HttpError),
    /// More bytes are needed; the bytes from `pos` are kept.
    Wait,
    /// More bytes are needed; the bytes from `pos` are all consumed.
    WaitAll,
    /// The step consumed up to the offset given, handed out the data given,
    /// and left the decoder in the state given.
    Next(int, Seq<u8>, Transfer),
}

/// One step of the chunked decoder in state `t` at offset `pos` of `b`.
pub open spec fn chunk_step(t: Transfer, b: Seq<u8>, pos: int, eof: bool) -> ChunkStep {
    let avail = b.len() - pos;
    match t {
        Transfer::Chunks(ChunkedState::Size) => {
            let w = if avail < MAX_HEX {
                avail
            } else {
                MAX_HEX as int
            };
            let k = first_non_hex(b.subrange(pos, pos + w));
            if k >= w {
                if w >= MAX_HEX {
                    ChunkStep::Fail(HttpError::ChunkTooLarge)
                } else if eof {
                    ChunkStep::Fail(HttpError::PartialFile)
                } else {
                    ChunkStep::Wait
                }
            } else if k == 0 || digits_value(b.subrange(pos, pos + k), 16) > u64::MAX {
                ChunkStep::Fail(HttpError::ChunkTooLarge)
            } else {
                ChunkStep::Next(
                    pos + k,
                    seq![],
                    Transfer::Chunks(ChunkedState::Extension(digits_value(b.subrange(pos, pos + k), 16) as u64)),
                )
            }
        },
        Transfer::Chunks(ChunkedState::Extension(size)) => {
            let j = first_index(b.subrange(pos, b.len() as int), 0x0a);
            if j >= avail {
                if eof {
                    ChunkStep::Fail(HttpError::PartialFile)
                } else {
                    ChunkStep::WaitAll
                }
            } else {
                ChunkStep::Next(pos + j + 1, seq![], if size == 0 {
                    Transfer::Trailers
                } else {
                    Transfer::Chunks(ChunkedState::Data(size))
                })
            }
        },
        Transfer::Chunks(ChunkedState::Trailer) => {
            let j = first_index(b.subrange(pos, b.len() as int), 0x0a);
            if j >= avail {
                if eof {
                    ChunkStep::Fail(HttpError::PartialFile)
                } else {
                    ChunkStep::WaitAll
                }
            } else {
                ChunkStep::Next(pos + j + 1, seq![], Transfer::Chunks(ChunkedState::Size))
            }
        },
        Transfer::Chunks(ChunkedState::Data(r)) => {
            if avail <= 0 {
                if eof {
                    ChunkStep::Fail(HttpError::PartialFile)
                } else {
                    ChunkStep::Wait
                }
            } else {
                let k = if r < avail {
                    r as int
                } else {
                    avail
                };
                ChunkStep::Next(pos + k, b.subrange(pos, pos + k), if r == k {
                    Transfer::Chunks(ChunkedState::Trailer)
                } else {
                    Transfer::Chunks(ChunkedState::Data((r - k) as u64))
                })
            }
        },
        _ => ChunkStep::Wait,
    }
}

/// The chunked decoder run over `b` from `pos` in state `t`: the offset it
/// consumed up to, the data it handed out, and its final state; or the
/// error that stops it.
pub open spec fn chunk_run(t: Transfer, b: Seq<u8>, pos: int, eof: bool) -> Result<(int, Seq<u8>, Transfer), HttpError>
    decreases b.len() - pos,
{
    match chunk_step(t, b, pos, eof) {
        ChunkStep::Fail(e) => Err(e),
        ChunkStep::Wait => Ok((pos, seq![], t)),
        ChunkStep::WaitAll => Ok((b.len() as int, seq![], t)),
        ChunkStep::Next(p, d, t2) => if p <= pos || p > b.len() {
            Ok((pos, seq![], t))
        } else {
            match chunk_run(t2, b, p, eof) {
                Ok((n, out, t3)) => Ok((n, d + out, t3)),
                Err(e) => Err(e),
            }
        },
    }
}

/// `r` with the data `d` put in front of what it handed out.
pub open spec fn after_data(d: Seq<u8>, r: Result<(int, Seq<u8>, Transfer), HttpError>) -> Result<(int, Seq<u8>, Transfer), HttpError> {
    match r {
        Ok((n, out, t)) => Ok((n, d + out, t)),
        Err(e) => Err(e),
    }
}

/// A chunk size line that starts with 1 to 32 hex digits `d`, then a byte
/// that is not one: the chunk is refused as too large exactly when the value
/// of `d` is over `u64::MAX`; otherwise the digits are consumed and the rest
/// of the line is skipped next, for a chunk of that size.
pub proof fn lemma_chunk_size_bounds(d: Seq<u8>, x: u8, rest: Seq<u8>, eof: bool)
    requires
        1 <= d.len() <= 32,
        all_digits(d, 16),
        !is_digit(x, 16),
    ensures
        digits_value(d, 16) > u64::MAX ==> chunk_step(
            Transfer::Chunks(ChunkedState::Size),
            d + seq![x] + rest,
            0,
            eof,
        ) == ChunkStep::Fail(HttpError::ChunkTooLarge),
        digits_value(d, 16) <= u64::MAX ==> chunk_step(
            Transfer::Chunks(ChunkedState::Size),
            d + seq![x] + rest,
            0,
            eof,
        ) == ChunkStep::Next(
            d.len() as int,
            seq![],
            Transfer::Chunks(ChunkedState::Extension(digits_value(d, 16) as u64)),
        ),
{
    let b = d + seq![x] + rest;
    let w = if b.len() < MAX_HEX {
        b.len() as int
    } else {
        MAX_HEX as int
    };
    let win = b.subrange(0, w);
    assert forall|j: int| 0 <= j < d.len() implies is_digit(#[trigger] win[j], 16) by {
        assert(win[j] == d[j]);
    }
    assert(win[d.len() as int] == x);
    lemma_first_non_hex_at(win, d.len() as int);
    assert(b.subrange(0, d.len() as int) =~= d);
}

impl Body {
    /// Bytes left to read, where that is known: zero for an empty body, the
    /// count left for a `Content-Length` body.
    pub fn remaining(&self) -> (r: Option<u64>)
        ensures
            r == match self.transfer {
                Transfer::Empty => Some(0u64),
                Transfer::Length(n) => Some(n),
                _ => None,
            },
    {
        match self.transfer {
            Transfer::Empty => Some(0),
            Transfer::Length(n) => Some(n),
            _ => None,
        }
    }

    /// Decodes body bytes from the front of `input`, the bytes received and
    /// not yet consumed; `eof` says the connection has ended after them.
    /// Returns how many bytes of `input` were consumed and the body data they
    /// held. Fewer bytes than given are consumed only where a chunk size line
    /// is incomplete, or where the body ends.
    pub fn read(&mut self, input: &[u8], eof: bool) -> (r: Result<(usize, Vec<u8>), HttpError>)
        requires
            old(self).wf(),
        ensures
            final(self).wf(),
            final(self).reusable == old(self).reusable,
            r matches Ok((n, out)) ==> n <= input@.len(),
            old(self).transfer is Chunks ==> (r matches Ok((n, out)) ==> final(self).yielded@ == old(
                self,
            ).yielded@ + out@.len()),
            old(self).transfer is Chunks ==> match chunk_run(old(self).transfer, input@, 0, eof) {
                Ok((n, out, t)) => r matches Ok((rn, rout)) && rn == n && rout@ == out && final(self).transfer == t,
                Err(e) => r == Err::<(usize, Vec<u8>), HttpError>(e),
            },
            old(self).transfer is Empty || old(self).transfer is Trailers ==> (r matches Ok((n, out))
                && n == 0 && out@.len() == 0 && *final(self) == *old(self)),
            old(self).transfer is Connection ==> (r matches Ok((n, out)) && n == input@.len()
                && out@ == input@ && final(self).transfer == (if input@.len() == 0 && eof {
                Transfer::Empty
            } else {
                Transfer::Connection
            })),
            old(self).transfer matches Transfer::Length(rem) ==> (if rem > 0 && input@.len() == 0
                && eof {
                r == Err::<(usize, Vec<u8>), HttpError>(HttpError::PartialFile)
            } else {
                r matches Ok((n, out)) && n == (if rem < input@.len() {
                    rem as int
                } else {
                    input@.len() as int
                }) && out@ == input@.subrange(0, n as int) && final(self).transfer == (if rem
                    == n {
                    Transfer::Empty
                } else {
                    Transfer::Length((rem - n) as u64)
                })
            }),
    {
        match self.transfer {
            Transfer::Empty | Transfer::Trailers => {
                return Ok((0, Vec::new()));
            },
            Transfer::Connection => {
                if input.len() == 0 && eof {
                    self.transfer = Transfer::Empty;
                }
                let out = crate::http::text::copy_bytes(input);
                return Ok((input.len(), out));
            },
            Transfer::Length(rem) => {
                if rem > 0 && input.len() == 0 && eof {
                    return Err(HttpError::PartialFile);
                }
                let n: usize = if rem < input.len() as u64 {
                    rem as usize
                } else {
                    input.len()
                };
                let mut out: Vec<u8> = Vec::new();
                push_range(&mut out, input, 0, n);
                self.transfer = if rem == n as u64 {
                    Transfer::Empty
                } else {
                    Transfer::Length(rem - n as u64)
                };
                return Ok((n, out));
            },
            Transfer::Chunks(_) => {},
        }
        let mut out: Vec<u8> = Vec::new();
        let mut pos: usize = 0;
        assert(after_data(out@, chunk_run(self.transfer, input@, 0, eof)) =~= chunk_run(self.transfer, input@, 0, eof)) by {
            match chunk_run(self.transfer, input@, 0, eof) {
                Ok((n, o, t)) => {
                    assert(out@ + o =~= o);
                },
                Err(_) => {},
            }
        }
        loop
            invariant
                pos <= input@.len(),
                self.wf(),
                self.reusable == old(self).reusable,
                self.transfer is Chunks || self.transfer is Trailers,
                old(self).transfer is Chunks,
                self.yielded@ == old(self).yielded@ + out@.len(),
                chunk_run(old(self).transfer, input@, 0, eof) == after_data(out@, chunk_run(self.transfer, input@, pos as int, eof)),
            decreases input@.len() - pos,
        {
            let ghost st = self.transfer;
            let ghost before = out@;
            let ghost p0 = pos as int;
            let len = input.len();
            assert(input@.len() == len as int);
            match self.chunk_step_exec(input, pos, eof, &mut out) {
                Err(e) => return Err(e),
                Ok(StepEnd::Stop(n)) => {
                    assert(before + seq![] =~= before);
                    return Ok((n, out));
                },
                Ok(StepEnd::Moved(p)) => {
                    proof {
                        let d = out@.subrange(before.len() as int, out@.len() as int);
                        assert(out@ =~= before + d);
                        match chunk_step(st, input@, p0, eof) {
                            ChunkStep::Next(pp, dd, tt) => {
                                assert(p0 < pp <= input@.len());
                                assert(pp == p as int);
                                assert(dd =~= d);
                                assert(tt == self.transfer);
                                assert(chunk_run(st, input@, p0, eof) == after_data(
                                    dd,
                                    chunk_run(tt, input@, pp, eof),
                                ));
                            },
                            _ => {},
                        }
                        match chunk_run(self.transfer, input@, p as int, eof) {
                            Ok((n, o, t)) => {
                                assert(before + (d + o) =~= out@ + o);
                            },
                            Err(_) => {},
                        }
                    }
                    pos = p;
                },
            }
        }
    }

    /// One step of the chunked decoder at offset `pos` of `input`, its data
    /// appended to `out`.
    #[verifier::rlimit(50)]
    fn chunk_step_exec(&mut self, input: &[u8], pos: usize, eof: bool, out: &mut Vec<u8>) -> (r: Result<StepEnd, HttpError>)
        requires
            pos <= input@.len(),
            old(self).wf(),
            old(self).transfer is Chunks || old(self).transfer is Trailers,
        ensures
            final(self).wf(),
            final(self).reusable == old(self).reusable,
            final(self).transfer is Chunks || final(self).transfer is Trailers,
            final(self).yielded@ == old(self).yielded@ + (final(out)@.len() - old(out)@.len()),
            match chunk_step(old(self).transfer, input@, pos as int, eof) {
                ChunkStep::Fail(e) => r == Err::<StepEnd, HttpError>(e),
                ChunkStep::Wait => r == Ok::<StepEnd, HttpError>(StepEnd::Stop(pos)) && final(out)@ == old(out)@ && final(self).transfer == old(self).transfer,
                ChunkStep::WaitAll => r == Ok::<StepEnd, HttpError>(StepEnd::Stop(input.len())) && final(out)@ == old(out)@ && final(self).transfer == old(self).transfer,
                ChunkStep::Next(p, d, t) => pos < p <= input@.len() && r == Ok::<StepEnd, HttpError>(StepEnd::Moved(p as usize))
                    && final(out)@ == old(out)@ + d && final(self).transfer == t,
            },
    {
        match self.transfer {
            Transfer::Chunks(ChunkedState::Size) => {
                let w: usize = if input.len() - pos < MAX_HEX {
                    input.len() - pos
                } else {
                    MAX_HEX
                };
                let ghost win = input@.subrange(pos as int, pos + w);
                match find_non_hex(input, pos, pos + w) {
                    None => {
                        proof {
                            assert forall|j: int| 0 <= j < w implies is_digit(#[trigger] win[j], 16) by {
                                assert(win[j] == input@[pos + j]);
                            }
                            lemma_first_non_hex_at(win, w as int);
                        }
                        if w >= MAX_HEX {
                            return Err(HttpError::ChunkTooLarge);
                        }
                        if eof {
                            return Err(HttpError::PartialFile);
                        }
                        Ok(StepEnd::Stop(pos))
                    },
                    Some(k) => {
                        proof {
                            assert forall|j: int| 0 <= j < k - pos implies is_digit(#[trigger] win[j], 16) by {
                                assert(win[j] == input@[pos + j]);
                            }
                            assert(win[k - pos] == input@[k as int]);
                            lemma_first_non_hex_at(win, k - pos);
                        }
                        if k == pos {
                            return Err(HttpError::ChunkTooLarge);
                        }
                        assert(all_digits(input@.subrange(pos as int, k as int), 16)) by {
                            assert forall|j: int| 0 <= j < k - pos implies is_digit(
                                #[trigger] input@.subrange(pos as int, k as int)[j],
                                16,
                            ) by {
                                assert(input@.subrange(pos as int, k as int)[j] == input@[pos + j]);
                            }
                        }
                        match parse_digits(input, pos, k, 16) {
                            None => Err(HttpError::ChunkTooLarge),
                            Some(v) => {
                                self.transfer = Transfer::Chunks(ChunkedState::Extension(v));
                                self.announced = Ghost(self.announced@ + v as nat);
                                assert(old(out)@ + seq![] =~= out@);
                                Ok(StepEnd::Moved(k))
                            },
                        }
                    },
                }
            },
            Transfer::Chunks(ChunkedState::Extension(size)) => {
                let found = crate::http::text::find_byte(input, pos, input.len(), 0x0a);
                proof {
                    let rest = input@.subrange(pos as int, input@.len() as int);
                    let e = match found {
                        Some(j) => j - pos,
                        None => input@.len() - pos,
                    };
                    assert forall|x: int| 0 <= x < e implies rest[x] != 0x0a by {
                        assert(rest[x] == input@[pos + x]);
                    }
                    if let Some(j) = found {
                        assert(rest[j - pos] == input@[j as int]);
                    }
                    crate::http::head::lemma_first_index_at(rest, 0x0a, e);
                    assert(old(out)@ + seq![] =~= out@);
                }
                match found {
                    None => {
                        if eof {
                            return Err(HttpError::PartialFile);
                        }
                        Ok(StepEnd::Stop(input.len()))
                    },
                    Some(j) => {
                        self.transfer = if size == 0 {
                            Transfer::Trailers
                        } else {
                            Transfer::Chunks(ChunkedState::Data(size))
                        };
                        Ok(StepEnd::Moved(j + 1))
                    },
                }
            },
            Transfer::Chunks(ChunkedState::Trailer) => {
                let found = crate::http::text::find_byte(input, pos, input.len(), 0x0a);
                proof {
                    let rest = input@.subrange(pos as int, input@.len() as int);
                    let e = match found {
                        Some(j) => j - pos,
                        None => input@.len() - pos,
                    };
                    assert forall|x: int| 0 <= x < e implies rest[x] != 0x0a by {
                        assert(rest[x] == input@[pos + x]);
                    }
                    if let Some(j) = found {
                        assert(rest[j - pos] == input@[j as int]);
                    }
                    crate::http::head::lemma_first_index_at(rest, 0x0a, e);
                    assert(old(out)@ + seq![] =~= out@);
                }
                match found {
                    None => {
                        if eof {
                            return Err(HttpError::PartialFile);
                        }
                        Ok(StepEnd::Stop(input.len()))
                    },
                    Some(j) => {
                        self.transfer = Transfer::Chunks(ChunkedState::Size);
                        Ok(StepEnd::Moved(j + 1))
                    },
                }
            },
            Transfer::Chunks(ChunkedState::Data(rem)) => {
                if pos == input.len() {
                    if eof {
                        return Err(HttpError::PartialFile);
                    }
                    return Ok(StepEnd::Stop(pos));
                }
                let k: usize = if rem < (input.len() - pos) as u64 {
                    rem as usize
                } else {
                    input.len() - pos
                };
                push_range(out, input, pos, pos + k);
                self.yielded = Ghost(self.yielded@ + k as nat);
                self.transfer = if rem == k as u64 {
                    Transfer::Chunks(ChunkedState::Trailer)
                } else {
                    Transfer::Chunks(ChunkedState::Data(rem - k as u64))
                };
                Ok(StepEnd::Moved(pos + k))
            },
            _ => Ok(StepEnd::Stop(pos)),
        }
    }
}

/// How one step of the chunked decoder ended.
pub enum StepEnd {
    /// The decoder stopped having consumed up to the offset given.
    Stop(usize),
    /// The decoder moved on to the offset given.
    Moved(usize),
}

impl Body {
    /// Reads the trailer header lines that follow a chunked body from the
    /// front of `input`, up to the empty line that ends them; each line may
    /// take at most `capacity` bytes. Returns the fields and the bytes
    /// consumed, or `None` when more bytes are needed. The body is then
    /// empty.
    pub fn read_trailers(&mut self, input: &[u8], eof: bool, capacity: usize) -> (r: Result<Option<(Headers, usize)>, HttpError>)
        requires
            old(self).wf(),
            old(self).transfer == Transfer::Trailers,
        ensures
            final(self).wf(),
            final(self).reusable == old(self).reusable,
            final(self).announced == old(self).announced,
            final(self).yielded == old(self).yielded,
            r matches Ok(Some((h, n))) ==> h.wf() && n <= input@.len() && final(self).transfer == Transfer::Empty,
            !(r matches Ok(Some(_))) ==> final(self).transfer == Transfer::Trailers,
            match fields_from(input@, 0, capacity as int, usize::MAX as int, eof) {
                FieldsOutcome::Fail(f) => r matches Err(err) && fault_error(err, f),
                FieldsOutcome::More => r matches Ok(None),
                FieldsOutcome::Done(fs, _, end) => r matches Ok(Some((h, n))) && n == end
                    && h.map() == crate::http::headers::fields_map(fs),
            },
    {
        match read_fields(input, 0, eof, capacity, usize::MAX) {
            Err(err) => Err(err),
            Ok(None) => Ok(None),
            Ok(Some((headers, _, n))) => {
                self.transfer = Transfer::Empty;
                Ok(Some((headers, n)))
            },
        }
    }
}

/// A chunk as it stands on the wire: its size written in hex digits `d`,
/// CRLF, its data, CRLF.
pub open spec fn chunk_bytes(d: Seq<u8>, data: Seq<u8>) -> Seq<u8> {
    d + seq![0x0du8, 0x0a] + data + seq![0x0du8, 0x0a]
}

/// A chunk whose size line is 1 to 32 hex digits giving its data's length,
/// which is not zero.
pub open spec fn good_chunk(c: (Seq<u8>, Seq<u8>)) -> bool {
    &&& 1 <= c.0.len() <= 32
    &&& all_digits(c.0, 16)
    &&& digits_value(c.0, 16) == c.1.len()
    &&& 0 < c.1.len() <= u64::MAX
}

/// The wire bytes of a list of chunks, in order.
pub open spec fn chunks_bytes(cs: Seq<(Seq<u8>, Seq<u8>)>) -> Seq<u8>
    decreases cs.len(),
{
    if cs.len() == 0 {
        seq![]
    } else {
        chunk_bytes(cs[0].0, cs[0].1) + chunks_bytes(cs.drop_first())
    }
}

/// The data of a list of chunks, one after another.
pub open spec fn chunks_data(cs: Seq<(Seq<u8>, Seq<u8>)>) -> Seq<u8>
    decreases cs.len(),
{
    if cs.len() == 0 {
        seq![]
    } else {
        cs[0].1 + chunks_data(cs.drop_first())
    }
}

/// The sum of the sizes that the chunks' size lines announce.
pub open spec fn chunks_announced(cs: Seq<(Seq<u8>, Seq<u8>)>) -> int
    decreases cs.len(),
{
    if cs.len() == 0 {
        0
    } else {
        digits_value(cs[0].0, 16) + chunks_announced(cs.drop_first())
    }
}

/// The last chunk: size 0, CRLF.
pub open spec fn last_chunk() -> Seq<u8> {
    seq![0x30u8, 0x0d, 0x0a]
}

proof fn lemma_after_data(x: Seq<u8>, y: Seq<u8>, r: Result<(int, Seq<u8>, Transfer), HttpError>)
    ensures
        after_data(x, after_data(y, r)) == after_data(x + y, r),
        after_data(seq![], r) == r,
{
    match r {
        Ok((n, o, t)) => {
            assert(x + (y + o) =~= (x + y) + o);
            assert(Seq::<u8>::empty() + o =~= o);
        },
        Err(_) => {},
    }
}

proof fn lemma_size_at(b: Seq<u8>, pos: int, d: Seq<u8>, eof: bool)
    requires
        0 <= pos,
        pos + d.len() + 1 <= b.len(),
        b.subrange(pos, pos + d.len()) == d,
        !is_digit(b[pos + d.len()], 16),
        1 <= d.len() <= 32,
        all_digits(d, 16),
        digits_value(d, 16) <= u64::MAX,
    ensures
        chunk_step(Transfer::Chunks(ChunkedState::Size), b, pos, eof) == ChunkStep::Next(
            pos + d.len(),
            seq![],
            Transfer::Chunks(ChunkedState::Extension(digits_value(d, 16) as u64)),
        ),
{
    let avail = b.len() - pos;
    let w = if avail < MAX_HEX {
        avail
    } else {
        MAX_HEX as int
    };
    let win = b.subrange(pos, pos + w);
    assert forall|j: int| 0 <= j < d.len() implies is_digit(#[trigger] win[j], 16) by {
        assert(win[j] == b.subrange(pos, pos + d.len())[j]);
    }
    assert(win[d.len() as int] == b[pos + d.len()]);
    lemma_first_non_hex_at(win, d.len() as int);
}

proof fn lemma_line_end_at(b: Seq<u8>, pos: int, t: Transfer, eof: bool)
    requires
        0 <= pos,
        pos + 2 <= b.len(),
        b[pos] == 0x0d,
        b[pos + 1] == 0x0a,
        t matches Transfer::Chunks(ChunkedState::Extension(_)) || t == Transfer::Chunks(ChunkedState::Trailer),
    ensures
        chunk_step(t, b, pos, eof) == ChunkStep::Next(pos + 2, seq![], match t {
            Transfer::Chunks(ChunkedState::Extension(size)) => if size == 0 {
                Transfer::Trailers
            } else {
                Transfer::Chunks(ChunkedState::Data(size))
            },
            _ => Transfer::Chunks(ChunkedState::Size),
        }),
{
    let rest = b.subrange(pos, b.len() as int);
    assert(rest[0] == 0x0d && rest[1] == 0x0a);
    crate::http::head::lemma_first_index_at(rest, 0x0a, 1);
}

proof fn lemma_one_chunk(b: Seq<u8>, pos: int, c: (Seq<u8>, Seq<u8>), eof: bool)
    requires
        0 <= pos,
        good_chunk(c),
        pos + chunk_bytes(c.0, c.1).len() <= b.len(),
        b.subrange(pos, pos + chunk_bytes(c.0, c.1).len()) == chunk_bytes(c.0, c.1),
    ensures
        chunk_run(Transfer::Chunks(ChunkedState::Size), b, pos, eof) == after_data(
            c.1,
            chunk_run(Transfer::Chunks(ChunkedState::Size), b, pos + chunk_bytes(c.0, c.1).len(), eof),
        ),
{
    let (d, data) = c;
    let cb = chunk_bytes(d, data);
    let v = digits_value(d, 16) as u64;
    let p1 = pos + d.len();
    let p2 = p1 + 2;
    let p3 = p2 + data.len();
    let p4 = p3 + 2;
    assert forall|j: int| 0 <= j < cb.len() implies b[pos + j] == #[trigger] cb[j] by {
        assert(b.subrange(pos, pos + cb.len())[j] == b[pos + j]);
    }
    assert(b.subrange(pos, pos + d.len()) =~= d) by {
        assert forall|j: int| 0 <= j < d.len() implies b.subrange(pos, pos + d.len())[j] == d[j] by {
            assert(cb[j] == d[j]);
        }
    }
    assert(cb[d.len() as int] == 0x0d);
    assert(b[p1] == 0x0d);
    assert(!is_digit(b[p1], 16));
    lemma_size_at(b, pos, d, eof);
    assert(cb[(d.len() + 1) as int] == 0x0a);
    lemma_line_end_at(b, p1, Transfer::Chunks(ChunkedState::Extension(v)), eof);
    assert(b.subrange(p2, p3) =~= data) by {
        assert forall|j: int| 0 <= j < data.len() implies b.subrange(p2, p3)[j] == data[j] by {
            assert(cb[(d.len() + 2 + j) as int] == data[j]);
            assert(b[(pos + d.len() + 2 + j) as int] == cb[(d.len() + 2 + j) as int]);
        }
    }
    assert(chunk_step(Transfer::Chunks(ChunkedState::Data(v)), b, p2, eof) == ChunkStep::Next(
        p3,
        data,
        Transfer::Chunks(ChunkedState::Trailer),
    ));
    assert(cb[(d.len() + 2 + data.len()) as int] == 0x0d);
    assert(cb[(d.len() + 3 + data.len()) as int] == 0x0a);
    assert(b[p3] == 0x0d && b[p3 + 1] == 0x0a);
    lemma_line_end_at(b, p3, Transfer::Chunks(ChunkedState::Trailer), eof);
    let r4 = chunk_run(Transfer::Chunks(ChunkedState::Size), b, p4, eof);
    let r3 = chunk_run(Transfer::Chunks(ChunkedState::Trailer), b, p3, eof);
    let r2 = chunk_run(Transfer::Chunks(ChunkedState::Data(v)), b, p2, eof);
    let r1 = chunk_run(Transfer::Chunks(ChunkedState::Extension(v)), b, p1, eof);
    lemma_after_data(seq![], seq![], r4);
    assert(r3 == after_data(seq![], r4));
    assert(r2 == after_data(data, r3));
    assert(r1 == after_data(seq![], r2));
    lemma_after_data(seq![], data, r3);
    lemma_after_data(data, seq![], r4);
    lemma_after_data(seq![], data, r4);
    assert(data + Seq::<u8>::empty() =~= data);
    assert(cb.len() == p4 - pos);
}

proof fn lemma_last_chunk(b: Seq<u8>, pos: int, eof: bool)
    requires
        0 <= pos,
        pos + 3 <= b.len(),
        b.subrange(pos, pos + 3) == last_chunk(),
    ensures
        chunk_run(Transfer::Chunks(ChunkedState::Size), b, pos, eof) == Ok::<(int, Seq<u8>, Transfer), HttpError>(
            (pos + 3, seq![], Transfer::Trailers),
        ),
{
    let z = seq![0x30u8];
    assert(b[pos] == b.subrange(pos, pos + 3)[0]);
    assert(b[pos + 1] == b.subrange(pos, pos + 3)[1]);
    assert(b[pos + 2] == b.subrange(pos, pos + 3)[2]);
    assert(b.subrange(pos, pos + 1) =~= z);
    assert(z.drop_last() =~= Seq::<u8>::empty());
    assert(digits_value(z.drop_last(), 16) == 0);
    assert(z.last() == 0x30u8);
    assert(digit_value(0x30u8) == 0);
    assert(digits_value(z, 16) == digits_value(z.drop_last(), 16) * 16 + digit_value(z.last()));
    assert(digits_value(z, 16) == 0);
    assert(all_digits(z, 16));
    lemma_size_at(b, pos, z, eof);
    lemma_line_end_at(b, pos + 1, Transfer::Chunks(ChunkedState::Extension(0)), eof);
    assert(chunk_step(Transfer::Trailers, b, pos + 3, eof) == ChunkStep::Wait);
    let r3 = chunk_run(Transfer::Trailers, b, pos + 3, eof);
    assert(r3 == Ok::<(int, Seq<u8>, Transfer), HttpError>((pos + 3, seq![], Transfer::Trailers)));
    lemma_after_data(seq![], seq![], r3);
    let r1 = chunk_run(Transfer::Chunks(ChunkedState::Extension(0)), b, pos + 1, eof);
    assert(r1 == after_data(seq![], r3));
    lemma_after_data(seq![], seq![], r1);
    assert(chunk_run(Transfer::Chunks(ChunkedState::Size), b, pos, eof) == after_data(seq![], r1));
}

/// Reading a well-formed chunked body (chunks of 1 to 32 hex digits giving
/// each chunk's length, then the last chunk) from the size of its first
/// chunk hands out exactly the chunks' data, in order, whose length is the
/// sum of the sizes announced, and stops at the trailers.
pub proof fn lemma_chunked_body(pre: Seq<u8>, cs: Seq<(Seq<u8>, Seq<u8>)>, rest: Seq<u8>, eof: bool)
    requires
        forall|i: int| 0 <= i < cs.len() ==> good_chunk(#[trigger] cs[i]),
    ensures
        chunk_run(
            Transfer::Chunks(ChunkedState::Size),
            pre + chunks_bytes(cs) + last_chunk() + rest,
            pre.len() as int,
            eof,
        ) == Ok::<(int, Seq<u8>, Transfer), HttpError>(
            ((pre.len() + chunks_bytes(cs).len() + 3) as int, chunks_data(cs), Transfer::Trailers),
        ),
        chunks_data(cs).len() == chunks_announced(cs),
    decreases cs.len(),
{
    let b = pre + chunks_bytes(cs) + last_chunk() + rest;
    if cs.len() == 0 {
        assert(b.subrange(pre.len() as int, (pre.len() + 3) as int) =~= last_chunk());
        lemma_last_chunk(b, pre.len() as int, eof);
    } else {
        let c = cs[0];
        let t = cs.drop_first();
        assert forall|i: int| 0 <= i < t.len() implies good_chunk(#[trigger] t[i]) by {
            assert(t[i] == cs[i + 1]);
        }
        let cb = chunk_bytes(c.0, c.1);
        let pre2 = pre + cb;
        assert(b =~= pre2 + chunks_bytes(t) + last_chunk() + rest);
        lemma_chunked_body(pre2, t, rest, eof);
        assert(b.subrange(pre.len() as int, (pre.len() + cb.len()) as int) =~= cb);
        lemma_one_chunk(b, pre.len() as int, c, eof);
        assert(chunks_data(cs) == c.1 + chunks_data(t));
    }
}

} // verus!
