use vstd::prelude::*;

verus! {

/// The largest payload that a frame can carry.
pub const MAX_PAYLOAD: usize = 0xffff_ffff;

/// The kinds of frame on a relay connection.
#[derive(PartialEq, Eq, Structural, Debug, Clone, Copy)]
pub enum FrameKind {
    /// A message, to be fanned out to the other participants.
    Message,
    /// A graceful close: the sender is leaving.
    Close,
}

pub open spec fn kind_tag(k: FrameKind) -> u8 {
    match k {
        FrameKind::Message => 1,
        FrameKind::Close => 2,
    }
}

pub open spec fn tag_kind(t: u8) -> Option<FrameKind> {
    if t == 1 {
        Some(FrameKind::Message)
    } else if t == 2 {
        Some(FrameKind::Close)
    } else {
        None
    }
}

/// The four big-endian bytes of `n`.
pub open spec fn be32(n: nat) -> Seq<u8> {
    seq![
        (n / 0x100_0000 % 0x100) as u8,
        (n / 0x1_0000 % 0x100) as u8,
        (n / 0x100 % 0x100) as u8,
        (n % 0x100) as u8,
    ]
}

/// The number that four big-endian bytes spell.
pub open spec fn be32_value(b: Seq<u8>) -> nat {
    (b[0] as nat) * 0x100_0000 + (b[1] as nat) * 0x1_0000 + (b[2] as nat) * 0x100 + (b[3] as nat)
}

/// The header length: a tag byte and a four-byte payload length.
pub open spec fn header_len() -> nat {
    5
}

/// The bytes of a frame: its kind's tag, the payload's length in four
/// big-endian bytes, then the payload.
pub open spec fn frame_bytes(k: FrameKind, payload: Seq<u8>) -> Seq<u8> {
    seq![kind_tag(k)] + be32(payload.len()) + payload
}

/// The outcome of reading a frame from the start of a buffer.
#[derive(Debug)]
pub enum Decoded {
    /// The buffer holds no complete frame yet.
    Incomplete,
    /// The buffer starts with an unknown tag.
    Invalid,
    /// A frame, and the number of bytes it took.
    Frame(FrameKind, Vec<u8>, usize),
}

/// What reading the start of `buf` gives, over plain values.
pub enum DecodedView {
    Incomplete,
    Invalid,
    Frame(FrameKind, Seq<u8>, nat),
}

pub open spec fn decode_spec(buf: Seq<u8>) -> DecodedView {
    if buf.len() == 0 {
        DecodedView::Incomplete
    } else {
        match tag_kind(buf[0]) {
            None => DecodedView::Invalid,
            Some(k) => if buf.len() < header_len() {
                DecodedView::Incomplete
            } else {
                let n = be32_value(buf.subrange(1, 5));
                if buf.len() < header_len() + n {
                    DecodedView::Incomplete
                } else {
                    DecodedView::Frame(k, buf.subrange(5, 5 + n as int), header_len() + n)
                }
            },
        }
    }
}

impl Decoded {
    pub open spec fn view(&self) -> DecodedView {
        match self {
            Decoded::Incomplete => DecodedView::Incomplete,
            Decoded::Invalid => DecodedView::Invalid,
            Decoded::Frame(k, p, n) => DecodedView::Frame(*k, p@, *n as nat),
        }
    }
}

/// The four big-endian bytes of `n` spell `n`.
pub proof fn lemma_be32_value(n: nat)
    requires
        n <= 0xffff_ffff,
    ensures
        be32_value(be32(n)) == n,
{
    let b = be32(n);
    assert(b[0] as nat == n / 0x100_0000 % 0x100);
    assert(b[1] as nat == n / 0x1_0000 % 0x100);
    assert(b[2] as nat == n / 0x100 % 0x100);
    assert(b[3] as nat == n % 0x100);
    assert((n / 0x100_0000 % 0x100) * 0x100_0000 + (n / 0x1_0000 % 0x100) * 0x1_0000
        + (n / 0x100 % 0x100) * 0x100 + n % 0x100 == n) by (nonlinear_arith)
        requires
            n <= 0xffff_ffff,
    {
        vstd::arithmetic::div_mod::lemma_fundamental_div_mod(n as int, 0x100);
        vstd::arithmetic::div_mod::lemma_div_denominator(n as int, 0x100, 0x100);
        vstd::arithmetic::div_mod::lemma_div_denominator(n as int, 0x1_0000, 0x100);
        vstd::arithmetic::div_mod::lemma_fundamental_div_mod(n as int / 0x100, 0x100);
        vstd::arithmetic::div_mod::lemma_fundamental_div_mod(n as int / 0x1_0000, 0x100);
        vstd::arithmetic::div_mod::lemma_small_mod((n / 0x100_0000) as nat, 0x100);
    }
}

/// Encodes a frame of the given kind around `payload`.
pub fn encode_frame(kind: FrameKind, payload: &[u8]) -> (r: Vec<u8>)
    requires
        payload@.len() <= MAX_PAYLOAD,
    ensures
        r@ == frame_bytes(kind, payload@),
{
    let n = payload.len();
    let tag: u8 = match kind {
        FrameKind::Message => 1,
        FrameKind::Close => 2,
    };
    let mut out: Vec<u8> = Vec::new();
    out.push(tag);
    out.push((n / 0x100_0000 % 0x100) as u8);
    out.push((n / 0x1_0000 % 0x100) as u8);
    out.push((n / 0x100 % 0x100) as u8);
    out.push((n % 0x100) as u8);
    let mut rest = vstd::slice::slice_to_vec(payload);
    out.append(&mut rest);
    proof {
        assert(out@ =~= frame_bytes(kind, payload@));
    }
    out
}

/// Reads the frame at the start of `buf`, if a complete one is there.
pub fn decode_frame(buf: &[u8]) -> (r: Decoded)
    ensures
        r.view() == decode_spec(buf@),
{
    if buf.len() == 0 {
        return Decoded::Incomplete;
    }
    let kind = if buf[0] == 1 {
        FrameKind::Message
    } else if buf[0] == 2 {
        FrameKind::Close
    } else {
        return Decoded::Invalid;
    };
    if buf.len() < 5 {
        return Decoded::Incomplete;
    }
    let n: u64 = (buf[1] as u64) * 0x100_0000 + (buf[2] as u64) * 0x1_0000 + (buf[3] as u64) * 0x100
        + (buf[4] as u64);
    proof {
        assert(buf@.subrange(1, 5)[0] == buf@[1]);
        assert(buf@.subrange(1, 5)[1] == buf@[2]);
        assert(buf@.subrange(1, 5)[2] == buf@[3]);
        assert(buf@.subrange(1, 5)[3] == buf@[4]);
    }
    if (buf.len() as u64) - 5 < n {
        return Decoded::Incomplete;
    }
    let end = 5 + n as usize;
    let payload = vstd::slice::slice_to_vec(vstd::slice::slice_subrange(buf, 5, end));
    Decoded::Frame(kind, payload, end)
}

/// Decoding the bytes of a frame, whatever follows them, gives back the
/// frame's kind and payload, and the number of bytes it took.
pub proof fn lemma_frame_round_trip(k: FrameKind, payload: Seq<u8>, rest: Seq<u8>)
    requires
        payload.len() <= MAX_PAYLOAD,
    ensures
        decode_spec(frame_bytes(k, payload) + rest) == DecodedView::Frame(
            k,
            payload,
            header_len() + payload.len(),
        ),
{
    let buf = frame_bytes(k, payload) + rest;
    lemma_be32_value(payload.len());
    assert(buf.subrange(1, 5) =~= be32(payload.len()));
    assert(buf.subrange(5, 5 + payload.len() as int) =~= payload);
}

} // verus!
