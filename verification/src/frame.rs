//! Length-prefixed framing of packets.
//!
//! A packet on a stream is a four-byte little-endian length followed by that
//! many bytes of body.

use vstd::prelude::*;

verus! {

/// Number of bytes in a frame header.
pub const HEADER_LEN: usize = 4;

/// The value of four bytes read as a little-endian unsigned integer.
pub open spec fn le_value(b0: u8, b1: u8, b2: u8, b3: u8) -> int {
    b0 + 256 * b1 + 65536 * b2 + 16777216 * b3
}

/// The little-endian bytes of a 32-bit value.
pub open spec fn le_bytes(n: u32) -> Seq<u8> {
    seq![
        (n % 256) as u8,
        ((n / 256) % 256) as u8,
        ((n / 65536) % 256) as u8,
        (n / 16777216) as u8,
    ]
}

/// Encodes a 32-bit length as the four header bytes, least significant first.
pub fn encode_header(n: u32) -> (h: [u8; 4])
    ensures
        h@ == le_bytes(n),
        le_value(h[0], h[1], h[2], h[3]) == n,
        h[0] == n % 256,
        h[1] == (n / 256) % 256,
        h[2] == (n / 65536) % 256,
        h[3] == n / 16777216,
        h[0] + 256 * h[1] + 65536 * h[2] + 16777216 * h[3] == n,
{
    let b0 = (n % 256) as u8;
    let b1 = ((n / 256) % 256) as u8;
    let b2 = ((n / 65536) % 256) as u8;
    let b3 = (n / 16777216) as u8;
    assert(b0 + 256 * b1 + 65536 * b2 + 16777216 * b3 == n) by (bit_vector)
        requires
            b0 == n % 256,
            b1 == (n / 256) % 256,
            b2 == (n / 65536) % 256,
            b3 == n / 16777216,
    ;
    let h = [b0, b1, b2, b3];
    assert(h@ =~= le_bytes(n));
    h
}

/// Reads the body length from the four header bytes.
pub fn decode_header(h: [u8; 4]) -> (n: u32)
    ensures
        n == le_value(h[0], h[1], h[2], h[3]),
        n == h[0] + 256 * h[1] + 65536 * h[2] + 16777216 * h[3],
{
    h[0] as u32 + 256 * (h[1] as u32) + 65536 * (h[2] as u32) + 16777216 * (h[3] as u32)
}


/// Why a buffer does not hold a whole frame.
#[derive(Debug, Clone, Copy, PartialEq, Eq, Structural)]
pub enum FrameError {
    /// The buffer ends before the header or before the end of the body.
    Incomplete,
}

/// The bytes of a frame carrying `body`: the header holds the body's length
/// taken modulo 2^32, as a 32-bit cast does.
pub open spec fn frame_bytes(body: Seq<u8>) -> Seq<u8> {
    le_bytes(body.len() as u32) + body
}

/// The body length announced by the header at the start of `buf`.
pub open spec fn announced_len(buf: Seq<u8>) -> int
    recommends
        buf.len() >= 4,
{
    le_value(buf[0], buf[1], buf[2], buf[3])
}

/// The first frame of `buf`: its body and the number of bytes it occupies,
/// or `None` where `buf` ends before the frame does.
pub open spec fn parse_frame(buf: Seq<u8>) -> Option<(Seq<u8>, int)> {
    if buf.len() < 4 {
        None
    } else if buf.len() < 4 + announced_len(buf) {
        None
    } else {
        Some((buf.subrange(4, 4 + announced_len(buf)), 4 + announced_len(buf)))
    }
}

/// Builds the frame that carries `body`: its length as a 32-bit
/// little-endian header, then the body.
pub fn encode_frame(body: &[u8]) -> (out: Vec<u8>)
    ensures
        out@ == frame_bytes(body@),
        out@.len() == 4 + body@.len(),
        out@.subrange(4, out@.len() as int) == body@,
        out@[0] + 256 * out@[1] + 65536 * out@[2] + 16777216 * out@[3] == body@.len() as u32,
        body@.len() <= u32::MAX ==> out@[0] + 256 * out@[1] + 65536 * out@[2] + 16777216
            * out@[3] == body@.len(),
{
    let h = encode_header(body.len() as u32);
    let mut out: Vec<u8> = Vec::new();
    out.push(h[0]);
    out.push(h[1]);
    out.push(h[2]);
    out.push(h[3]);
    assert(out@ =~= h@);
    let mut i: usize = 0;
    while i < body.len()
        invariant
            i <= body.len(),
            out@ =~= h@ + body@.subrange(0, i as int),
        decreases body.len() - i,
    {
        out.push(body[i]);
        i = i + 1;
    }
    assert(body@.subrange(0, body@.len() as int) =~= body@);
    proof {
        lemma_frame_layout(body@);
    }
    out
}

/// Reads the first frame of `buf`: its body and how many bytes of `buf` it
/// took, or `Incomplete` where `buf` ends before the frame does.
pub fn decode_frame(buf: &[u8]) -> (r: Result<(Vec<u8>, usize), FrameError>)
    ensures
        match parse_frame(buf@) {
            None => r == Err::<(Vec<u8>, usize), FrameError>(FrameError::Incomplete),
            Some((body, used)) => r matches Ok((b, n)) && b@ == body && n == used,
        },
        r is Ok <==> buf@.len() >= 4 && buf@.len() >= 4 + (buf@[0] + 256 * buf@[1] + 65536
            * buf@[2] + 16777216 * buf@[3]),
        r is Err ==> r == Err::<(Vec<u8>, usize), FrameError>(FrameError::Incomplete),
        r matches Ok((b, n)) ==> {
            &&& b@.len() == buf@[0] + 256 * buf@[1] + 65536 * buf@[2] + 16777216 * buf@[3]
            &&& n == 4 + b@.len()
            &&& b@ == buf@.subrange(4, n as int)
        },
{
    if buf.len() < HEADER_LEN {
        return Err(FrameError::Incomplete);
    }
    let n = decode_header([buf[0], buf[1], buf[2], buf[3]]) as usize;
    if buf.len() - HEADER_LEN < n {
        return Err(FrameError::Incomplete);
    }
    let mut body: Vec<u8> = Vec::new();
    let mut i: usize = 0;
    while i < n
        invariant
            i <= n,
            n + 4 <= buf.len(),
            body@ =~= buf@.subrange(4, 4 + i),
        decreases n - i,
    {
        body.push(buf[4 + i]);
        i = i + 1;
    }
    proof {
        lemma_parse_frame_exact(buf@);
    }
    Ok((body, n + HEADER_LEN))
}

/// A header gives back the length it was made from.
pub proof fn lemma_header_roundtrip(n: u32)
    ensures
        ({
            let h = le_bytes(n);
            le_value(h[0], h[1], h[2], h[3]) == n
        }),
{
    let b0 = (n % 256) as u8;
    let b1 = ((n / 256) % 256) as u8;
    let b2 = ((n / 65536) % 256) as u8;
    let b3 = (n / 16777216) as u8;
    assert(b0 + 256 * b1 + 65536 * b2 + 16777216 * b3 == n) by (bit_vector)
        requires
            b0 == n % 256,
            b1 == (n / 256) % 256,
            b2 == (n / 65536) % 256,
            b3 == n / 16777216,
    ;
}

/// Reading a frame back from a buffer that starts with it gives the body
/// that was framed and the frame's length, whatever follows it, for every
/// body whose length fits the 32-bit header.
pub proof fn lemma_frame_roundtrip(body: Seq<u8>, rest: Seq<u8>)
    requires
        body.len() <= u32::MAX,
    ensures
        parse_frame(frame_bytes(body) + rest) == Some((body, 4 + body.len() as int)),
{
    let n = body.len() as u32;
    lemma_header_roundtrip(n);
    let buf = frame_bytes(body) + rest;
    assert(buf[0] == le_bytes(n)[0]);
    assert(buf[1] == le_bytes(n)[1]);
    assert(buf[2] == le_bytes(n)[2]);
    assert(buf[3] == le_bytes(n)[3]);
    assert(announced_len(buf) == body.len());
    assert(buf.subrange(4, 4 + body.len() as int) =~= body);
}

/// The header is the base-256 representation of the length, least
/// significant byte first: four bytes, the first worth 1, the second 256,
/// the third 65536 and the last 16777216, each below 256, summing to `n`.
pub proof fn lemma_le_bytes_positional(n: u32)
    ensures
        le_bytes(n).len() == 4,
        le_bytes(n)[0] == n % 256,
        le_bytes(n)[1] == (n / 256) % 256,
        le_bytes(n)[2] == (n / 65536) % 256,
        le_bytes(n)[3] == n / 16777216,
        le_bytes(n)[0] + 256 * le_bytes(n)[1] + 65536 * le_bytes(n)[2] + 16777216 * le_bytes(
            n,
        )[3] == n,
{
    lemma_header_roundtrip(n);
}

/// Reading a header weighs its bytes 1, 256, 65536 and 16777216 in that
/// order, and every four bytes are the header of the value they read as.
pub proof fn lemma_le_value_positional(b0: u8, b1: u8, b2: u8, b3: u8)
    ensures
        le_value(b0, b1, b2, b3) == b0 + 256 * b1 + 65536 * b2 + 16777216 * b3,
        0 <= le_value(b0, b1, b2, b3) <= u32::MAX,
        le_bytes(le_value(b0, b1, b2, b3) as u32) == seq![b0, b1, b2, b3],
{
    let v = (b0 + 256 * b1 + 65536 * b2 + 16777216 * b3) as u32;
    assert(b0 + 256 * b1 + 65536 * b2 + 16777216 * b3 <= u32::MAX) by (bit_vector);
    assert(v % 256 == b0 && (v / 256) % 256 == b1 && (v / 65536) % 256 == b2 && v / 16777216
        == b3) by (bit_vector)
        requires
            v == b0 + 256 * b1 + 65536 * b2 + 16777216 * b3,
    ;
    assert(le_bytes(v) =~= seq![b0, b1, b2, b3]);
}

/// A frame is exactly four header bytes holding the body's length (modulo
/// 2^32) followed by the body, and nothing else.
pub proof fn lemma_frame_layout(body: Seq<u8>)
    ensures
        frame_bytes(body).len() == 4 + body.len(),
        frame_bytes(body).subrange(4, frame_bytes(body).len() as int) == body,
        forall|i: int| 0 <= i < body.len() ==> frame_bytes(body)[4 + i] == body[i],
        frame_bytes(body)[0] + 256 * frame_bytes(body)[1] + 65536 * frame_bytes(body)[2]
            + 16777216 * frame_bytes(body)[3] == body.len() as u32,
        body.len() <= u32::MAX ==> frame_bytes(body)[0] + 256 * frame_bytes(body)[1] + 65536
            * frame_bytes(body)[2] + 16777216 * frame_bytes(body)[3] == body.len(),
{
    let n = body.len() as u32;
    lemma_le_bytes_positional(n);
    let f = frame_bytes(body);
    assert(f[0] == le_bytes(n)[0]);
    assert(f[1] == le_bytes(n)[1]);
    assert(f[2] == le_bytes(n)[2]);
    assert(f[3] == le_bytes(n)[3]);
    assert(f.subrange(4, f.len() as int) =~= body);
}

/// A buffer holds a frame exactly when it has the four header bytes and at
/// least as many bytes after them as the header announces; the frame read
/// is then the announced number of bytes right after the header, and it
/// takes four bytes more than its body. A buffer cut short gives no frame.
pub proof fn lemma_parse_frame_exact(buf: Seq<u8>)
    ensures
        parse_frame(buf) is Some <==> buf.len() >= 4 && buf.len() >= 4 + (buf[0] + 256 * buf[1]
            + 65536 * buf[2] + 16777216 * buf[3]),
        parse_frame(buf) matches Some((body, used)) ==> {
            &&& body.len() == buf[0] + 256 * buf[1] + 65536 * buf[2] + 16777216 * buf[3]
            &&& used == 4 + body.len()
            &&& used <= buf.len()
            &&& body == buf.subrange(4, used)
        },
{
    if buf.len() >= 4 {
        lemma_le_value_positional(buf[0], buf[1], buf[2], buf[3]);
    }
}

} // verus!
