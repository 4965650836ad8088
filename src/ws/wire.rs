use vstd::prelude::*;

use crate::ws::mask::{mask, masked, lemma_mask_involution};

verus! {

/// The opcode of a WebSocket frame.
#[derive(Debug, Clone, Copy, PartialEq, Eq, Structural)]
pub enum Op {
    Invalid,
    Continuation,
    Text,
    Binary,
    Close,
    Ping,
    Pong,
}

/// The opcode that the four-bit wire value `v` stands for.
pub open spec fn op_of_bits(v: u8) -> Op {
    if v == 0x0 {
        Op::Continuation
    } else if v == 0x1 {
        Op::Text
    } else if v == 0x2 {
        Op::Binary
    } else if v == 0x8 {
        Op::Close
    } else if v == 0x9 {
        Op::Ping
    } else if v == 0xa {
        Op::Pong
    } else {
        Op::Invalid
    }
}

/// The four-bit wire value of an opcode (`Invalid` has none and is given 0xf).
pub open spec fn bits_of_op(op: Op) -> u8 {
    match op {
        Op::Continuation => 0x0,
        Op::Text => 0x1,
        Op::Binary => 0x2,
        Op::Close => 0x8,
        Op::Ping => 0x9,
        Op::Pong => 0xa,
        Op::Invalid => 0xf,
    }
}

impl Op {
    pub open spec fn spec_is_control(self) -> bool {
        self == Op::Ping || self == Op::Pong || self == Op::Close
    }

    /// Ping, Pong and Close are control opcodes.
    #[verifier::when_used_as_spec(spec_is_control)]
    pub fn is_control(self) -> (r: bool)
        ensures
            r == self.spec_is_control(),
    {
        match self {
            Op::Ping | Op::Pong | Op::Close => true,
            _ => false,
        }
    }

    /// The opcode for a four-bit wire value; unknown values give `Invalid`.
    pub fn from_bits(v: u8) -> (r: Op)
        ensures
            r == op_of_bits(v),
    {
        match v {
            0x0 => Op::Continuation,
            0x1 => Op::Text,
            0x2 => Op::Binary,
            0x8 => Op::Close,
            0x9 => Op::Ping,
            0xa => Op::Pong,
            _ => Op::Invalid,
        }
    }

    /// The four-bit wire value of this opcode.
    pub fn to_bits(self) -> (r: u8)
        ensures
            r == bits_of_op(self),
            r < 16,
    {
        match self {
            Op::Continuation => 0x0,
            Op::Text => 0x1,
            Op::Binary => 0x2,
            Op::Close => 0x8,
            Op::Ping => 0x9,
            Op::Pong => 0xa,
            Op::Invalid => 0xf,
        }
    }
}


/// The header of one WebSocket frame: final flag, opcode, masking key and
/// payload length.
#[derive(Debug, Clone, Copy, PartialEq, Eq, Structural)]
pub struct FrameHeader {
    pub fin: bool,
    pub op: Op,
    pub mask: Option<u32>,
    pub len: u64,
}

pub open spec fn be16(v: u16) -> Seq<u8> {
    seq![(v >> 8u16) as u8, v as u8]
}

pub open spec fn be32(v: u32) -> Seq<u8> {
    seq![(v >> 24u32) as u8, (v >> 16u32) as u8, (v >> 8u32) as u8, v as u8]
}

pub open spec fn be64(v: u64) -> Seq<u8> {
    seq![
        (v >> 56u64) as u8,
        (v >> 48u64) as u8,
        (v >> 40u64) as u8,
        (v >> 32u64) as u8,
        (v >> 24u64) as u8,
        (v >> 16u64) as u8,
        (v >> 8u64) as u8,
        v as u8,
    ]
}

/// The big-endian `u16` that starts at offset `o` of `b`.
pub open spec fn be16_at(b: Seq<u8>, o: int) -> u16 {
    ((b[o] as u16) << 8u16) | (b[o + 1] as u16)
}

/// The big-endian `u32` that starts at offset `o` of `b`.
pub open spec fn be32_at(b: Seq<u8>, o: int) -> u32 {
    ((b[o] as u32) << 24u32) | ((b[o + 1] as u32) << 16u32) | ((b[o + 2] as u32) << 8u32) | (
    b[o + 3] as u32)
}

/// The big-endian `u64` that starts at offset `o` of `b`.
pub open spec fn be64_at(b: Seq<u8>, o: int) -> u64 {
    ((b[o] as u64) << 56u64) | ((b[o + 1] as u64) << 48u64) | ((b[o + 2] as u64) << 40u64) | ((
    b[o + 3] as u64) << 32u64) | ((b[o + 4] as u64) << 24u64) | ((b[o + 5] as u64) << 16u64) | ((
    b[o + 6] as u64) << 8u64) | (b[o + 7] as u64)
}

/// The seven-bit length code of the second header byte for a payload length.
pub open spec fn len_code(len: u64) -> u8 {
    if len < 126 {
        len as u8
    } else if len <= 0xffff {
        126
    } else {
        127
    }
}

/// The extended length bytes that follow the second header byte.
pub open spec fn len_ext(len: u64) -> Seq<u8> {
    if len < 126 {
        seq![]
    } else if len <= 0xffff {
        be16(len as u16)
    } else {
        be64(len)
    }
}

/// The wire bytes of a frame header.
pub open spec fn header_bytes(h: FrameHeader) -> Seq<u8> {
    let b0: u8 = (if h.fin { 0x80u8 } else { 0u8 }) | bits_of_op(h.op);
    let b1: u8 = (if h.mask.is_some() { 0x80u8 } else { 0u8 }) | len_code(h.len);
    let m = match h.mask {
        Some(k) => be32(k),
        None => seq![],
    };
    seq![b0, b1] + len_ext(h.len) + m
}

/// Reads a frame header from the front of `b`: the header and the number of
/// bytes it takes, or `None` when `b` does not yet hold all of it. The three
/// reserved bits are ignored.
pub open spec fn parse_header(b: Seq<u8>) -> Option<(FrameHeader, int)> {
    if b.len() < 2 {
        None
    } else {
        let code = b[1] & 0x7fu8;
        let masked = b[1] & 0x80u8 != 0;
        let ext: int = if code < 126 {
            0
        } else if code == 126 {
            2
        } else {
            8
        };
        let n: int = 2 + ext + if masked {
            4int
        } else {
            0int
        };
        if b.len() < n {
            None
        } else {
            let len: u64 = if code < 126 {
                code as u64
            } else if code == 126 {
                be16_at(b, 2) as u64
            } else {
                be64_at(b, 2)
            };
            let mask = if masked {
                Some(be32_at(b, 2 + ext))
            } else {
                None
            };
            Some((FrameHeader { fin: b[0] & 0x80u8 != 0, op: op_of_bits(b[0] & 0x0fu8), mask, len }, n))
        }
    }
}

proof fn lemma_be16(v: u16)
    ensures
        be16_at(be16(v), 0) == v,
{
    let b = be16(v);
    let (x0, x1) = (b[0], b[1]);
    assert(x0 == (v >> 8u16) as u8 && x1 == v as u8);
    assert(((((v >> 8u16) as u8) as u16) << 8u16) | ((v as u8) as u16) == v) by (bit_vector);
}

proof fn lemma_be32(v: u32)
    ensures
        be32_at(be32(v), 0) == v,
{
    assert(((((v >> 24u32) as u8) as u32) << 24u32) | ((((v >> 16u32) as u8) as u32) << 16u32) | ((
    ((v >> 8u32) as u8) as u32) << 8u32) | ((v as u8) as u32) == v) by (bit_vector);
}

proof fn lemma_be64(v: u64)
    ensures
        be64_at(be64(v), 0) == v,
{
    assert(((((v >> 56u64) as u8) as u64) << 56u64) | ((((v >> 48u64) as u8) as u64) << 48u64) | ((
    ((v >> 40u64) as u8) as u64) << 40u64) | ((((v >> 32u64) as u8) as u64) << 32u64) | ((((v
        >> 24u64) as u8) as u64) << 24u64) | ((((v >> 16u64) as u8) as u64) << 16u64) | ((((v
        >> 8u64) as u8) as u64) << 8u64) | ((v as u8) as u64) == v) by (bit_vector);
}

proof fn lemma_op_bits(op: Op)
    ensures
        op_of_bits(bits_of_op(op)) == op,
        bits_of_op(op) < 16,
{
}

proof fn lemma_flag_byte(flag: bool, low: u8, width: u8)
    requires
        width == 0x0f || width == 0x7f,
        low <= width,
    ensures
        ((if flag { 0x80u8 } else { 0u8 }) | low) & 0x80u8 != 0 <==> flag,
        ((if flag { 0x80u8 } else { 0u8 }) | low) & width == low,
{
    if flag {
        assert((0x80u8 | low) & 0x80u8 != 0) by (bit_vector);
        assert(width == 0x0f || width == 0x7f ==> low <= width ==> (0x80u8 | low) & width == low) by (bit_vector);
    } else {
        assert(low <= 0x7f ==> low & 0x80u8 == 0) by (bit_vector);
        assert(width == 0x0f || width == 0x7f ==> low <= width ==> (0u8 | low) & width == low) by (bit_vector);
        assert((0u8 | low) == low) by (bit_vector);
    }
}

/// A header read back from its own bytes, whatever follows them, is the
/// header that was written.
pub proof fn lemma_header_round_trip(h: FrameHeader, rest: Seq<u8>)
    ensures
        parse_header(header_bytes(h) + rest) == Some((h, header_bytes(h).len() as int)),
{
    let b = header_bytes(h) + rest;
    lemma_op_bits(h.op);
    lemma_flag_byte(h.fin, bits_of_op(h.op), 0x0f);
    lemma_flag_byte(h.mask.is_some(), len_code(h.len), 0x7f);
    let ext = len_ext(h.len);
    let m = match h.mask {
        Some(k) => be32(k),
        None => seq![],
    };
    assert(b[0] == header_bytes(h)[0]);
    assert(b[1] == header_bytes(h)[1]);
    let code = b[1] & 0x7fu8;
    assert(code == len_code(h.len));
    if h.len < 126 {
    } else if h.len <= 0xffff {
        lemma_be16(h.len as u16);
        assert(be16_at(b, 2) == be16_at(ext, 0));
    } else {
        lemma_be64(h.len);
        assert(be64_at(b, 2) == be64_at(ext, 0));
    }
    if let Some(k) = h.mask {
        lemma_be32(k);
        assert(be32_at(b, 2 + ext.len() as int) == be32_at(m, 0));
    }
    let parsed = parse_header(b);
    assert(parsed.unwrap().0 == h);
}


fn push_be16(out: &mut Vec<u8>, v: u16)
    ensures
        final(out)@ == old(out)@ + be16(v),
{
    out.push((v >> 8u16) as u8);
    out.push(v as u8);
    assert(out@ =~= old(out)@ + be16(v));
}

fn push_be32(out: &mut Vec<u8>, v: u32)
    ensures
        final(out)@ == old(out)@ + be32(v),
{
    out.push((v >> 24u32) as u8);
    out.push((v >> 16u32) as u8);
    out.push((v >> 8u32) as u8);
    out.push(v as u8);
    assert(out@ =~= old(out)@ + be32(v));
}

fn push_be64(out: &mut Vec<u8>, v: u64)
    ensures
        final(out)@ == old(out)@ + be64(v),
{
    out.push((v >> 56u64) as u8);
    out.push((v >> 48u64) as u8);
    out.push((v >> 40u64) as u8);
    out.push((v >> 32u64) as u8);
    out.push((v >> 24u64) as u8);
    out.push((v >> 16u64) as u8);
    out.push((v >> 8u64) as u8);
    out.push(v as u8);
    assert(out@ =~= old(out)@ + be64(v));
}

/// Appends the extended length bytes for `len` to `out` and returns the
/// seven-bit length code: the length itself below 126, 126 when a 16-bit
/// length follows, 127 when a 64-bit length follows.
pub fn encode_len(len: u64, out: &mut Vec<u8>) -> (r: u8)
    ensures
        r == len_code(len),
        final(out)@ == old(out)@ + len_ext(len),
{
    if len < 126 {
        assert(out@ =~= old(out)@ + len_ext(len));
        len as u8
    } else if len <= 0xffff {
        push_be16(out, len as u16);
        126
    } else {
        push_be64(out, len);
        127
    }
}

impl FrameHeader {
    /// Appends the wire bytes of this header to `out`.
    pub fn write(&self, out: &mut Vec<u8>)
        ensures
            final(out)@ == old(out)@ + header_bytes(*self),
    {
        let b0: u8 = (if self.fin { 0x80u8 } else { 0u8 }) | self.op.to_bits();
        out.push(b0);
        let at = out.len();
        out.push(0u8);
        let code = encode_len(self.len, out);
        let b1: u8 = (if self.mask.is_some() { 0x80u8 } else { 0u8 }) | code;
        out.set(at, b1);
        match self.mask {
            Some(k) => push_be32(out, k),
            None => {},
        }
        let ghost m = match self.mask {
            Some(k) => be32(k),
            None => seq![],
        };
        assert(out@ =~= old(out)@ + (seq![b0, b1] + len_ext(self.len) + m));
    }

    /// Reads a frame header from the front of `buf`: the header and the
    /// number of bytes it takes, or `None` when `buf` does not yet hold all
    /// of it.
    pub fn read(buf: &[u8]) -> (r: Option<(FrameHeader, usize)>)
        ensures
            r is None ==> parse_header(buf@) is None,
            r matches Some((h, n)) ==> parse_header(buf@) == Some((h, n as int)),
    {
        if buf.len() < 2 {
            return None;
        }
        let code = buf[1] & 0x7fu8;
        let is_masked = buf[1] & 0x80u8 != 0;
        let ext: usize = if code < 126 {
            0
        } else if code == 126 {
            2
        } else {
            8
        };
        let n: usize = 2 + ext + if is_masked {
            4usize
        } else {
            0usize
        };
        if buf.len() < n {
            return None;
        }
        let len: u64 = if code < 126 {
            code as u64
        } else if code == 126 {
            (((buf[2] as u16) << 8u16) | (buf[3] as u16)) as u64
        } else {
            ((buf[2] as u64) << 56u64) | ((buf[3] as u64) << 48u64) | ((buf[4] as u64) << 40u64)
                | ((buf[5] as u64) << 32u64) | ((buf[6] as u64) << 24u64) | ((buf[7] as u64)
                << 16u64) | ((buf[8] as u64) << 8u64) | (buf[9] as u64)
        };
        let mask = if is_masked {
            let o = 2 + ext;
            Some(
                ((buf[o] as u32) << 24u32) | ((buf[o + 1] as u32) << 16u32) | ((buf[o + 2] as u32)
                    << 8u32) | (buf[o + 3] as u32),
            )
        } else {
            None
        };
        let h = FrameHeader {
            fin: buf[0] & 0x80u8 != 0,
            op: Op::from_bits(buf[0] & 0x0fu8),
            mask,
            len,
        };
        Some((h, n))
    }
}


/// The payload as it stands on the wire: masked when the header has a key.
pub open spec fn wire_payload(h: FrameHeader, p: Seq<u8>) -> Seq<u8> {
    match h.mask {
        Some(k) => masked(p, k),
        None => p,
    }
}

/// The wire bytes of a whole frame.
pub open spec fn frame_bytes(h: FrameHeader, p: Seq<u8>) -> Seq<u8> {
    header_bytes(h) + wire_payload(h, p)
}

/// Reads a whole frame from the front of `b`: its header, its unmasked
/// payload and the number of bytes it takes, or `None` when `b` does not yet
/// hold all of it.
pub open spec fn parse_frame(b: Seq<u8>) -> Option<(FrameHeader, Seq<u8>, int)> {
    match parse_header(b) {
        None => None,
        Some((h, n)) => if b.len() - n < h.len {
            None
        } else {
            Some((h, wire_payload(h, b.subrange(n, n + h.len)), n + h.len))
        },
    }
}

/// Decoding the encoding of a frame gives back the frame, its payload
/// unmasked, whatever bytes follow it.
pub proof fn lemma_frame_round_trip(h: FrameHeader, p: Seq<u8>, rest: Seq<u8>)
    requires
        p.len() == h.len,
    ensures
        parse_frame(frame_bytes(h, p) + rest) == Some(
            (h, p, frame_bytes(h, p).len() as int),
        ),
{
    let hb = header_bytes(h);
    let w = wire_payload(h, p);
    let b = frame_bytes(h, p) + rest;
    assert(b == hb + (w + rest));
    lemma_header_round_trip(h, w + rest);
    let n = hb.len() as int;
    assert(b.subrange(n, n + h.len) =~= w);
    if let Some(k) = h.mask {
        lemma_mask_involution(p, k);
    }
}

fn copy_range(buf: &[u8], start: usize, end: usize) -> (r: Vec<u8>)
    requires
        start <= end <= buf@.len(),
    ensures
        r@ == buf@.subrange(start as int, end as int),
{
    let mut r: Vec<u8> = Vec::new();
    let mut i = start;
    while i < end
        invariant
            start <= i <= end <= buf@.len(),
            r@ == buf@.subrange(start as int, i as int),
        decreases end - i,
    {
        r.push(buf[i]);
        i = i + 1;
        assert(r@ =~= buf@.subrange(start as int, i as int));
    }
    r
}

/// The wire bytes of a frame whose header is `h` and whose payload is
/// `payload`, masked with the header's key if it has one.
pub fn encode_frame(h: &FrameHeader, payload: &[u8]) -> (r: Vec<u8>)
    requires
        payload@.len() == h.len,
    ensures
        r@ == frame_bytes(*h, payload@),
{
    let mut out: Vec<u8> = Vec::new();
    h.write(&mut out);
    let mut body = copy_range(payload, 0, payload.len());
    assert(payload@.subrange(0, payload@.len() as int) =~= payload@);
    match h.mask {
        Some(k) => mask(body.as_mut_slice(), k),
        None => {},
    }
    out.append(&mut body);
    out
}

/// Reads a whole frame from the front of `buf`: its header, its unmasked
/// payload and the number of bytes it takes, or `None` when `buf` does not
/// yet hold all of it.
pub fn decode_frame(buf: &[u8]) -> (r: Option<(FrameHeader, Vec<u8>, usize)>)
    ensures
        r is None ==> parse_frame(buf@) is None,
        r matches Some((h, p, n)) ==> parse_frame(buf@) == Some((h, p@, n as int)),
{
    match FrameHeader::read(buf) {
        None => None,
        Some((h, n)) => {
            if ((buf.len() - n) as u64) < h.len {
                None
            } else {
                let end = n + h.len as usize;
                let mut p = copy_range(buf, n, end);
                match h.mask {
                    Some(k) => mask(p.as_mut_slice(), k),
                    None => {},
                }
                Some((h, p, end))
            }
        },
    }
}

} // verus!
