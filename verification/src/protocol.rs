//! Messages of the session protocol and the framing that carries them.
//!
//! A frame is a four-byte big-endian length followed by that many bytes of
//! payload. What the payload holds is the encoded message; this module
//! frames and unframes payloads and describes the messages themselves.

use vstd::prelude::*;
use vstd::slice::{slice_subrange, slice_to_vec};

verus! {

/// Major protocol version that both sides must speak.
pub const PROTOCOL_MAJOR: u16 = 1;

/// Minor protocol version; advisory.
pub const PROTOCOL_MINOR: u16 = 0;

/// Length of a frame's length prefix in bytes.
pub const FRAME_HEADER_LEN: usize = 4;

/// One entry of the catalog that a server announces.
#[derive(Debug, Clone)]
pub struct FileSummary {
    pub rel_path: String,
    pub size: u64,
    pub chunk_count: u64,
    pub root: [u8; 32],
}

/// The mathematical content of a [`FileSummary`].
pub struct FileSummaryView {
    pub rel_path: Seq<char>,
    pub size: nat,
    pub chunk_count: nat,
    pub root: Seq<u8>,
}

impl View for FileSummary {
    type V = FileSummaryView;

    open spec fn view(&self) -> FileSummaryView {
        FileSummaryView {
            rel_path: self.rel_path@,
            size: self.size as nat,
            chunk_count: self.chunk_count as nat,
            root: self.root@,
        }
    }
}

/// The messages of the protocol: a closed set.
#[derive(Debug, Clone)]
pub enum Msg {
    Version { major: u16, minor: u16 },
    Hello { folder: String },
    Summary { files: Vec<FileSummary> },
    RequestFile { rel_path: String },
    FileMeta { rel_path: String, size: u64, chunk_count: u64, root: [u8; 32], chunk_hashes: Vec<[u8; 32]> },
    RequestChunks { rel_path: String, indices: Vec<u64> },
    ChunkData { rel_path: String, index: u64, data: Vec<u8> },
    Done,
}

/// The byte sequences of a list of hashes, in order.
pub open spec fn hash_views(hashes: Seq<[u8; 32]>) -> Seq<Seq<u8>> {
    Seq::new(hashes.len(), |i: int| hashes[i]@)
}

/// The views of a list of summaries, in order.
pub open spec fn summary_views(files: Seq<FileSummary>) -> Seq<FileSummaryView> {
    Seq::new(files.len(), |i: int| files[i]@)
}

/// The four bytes of `len`, most significant first.
pub open spec fn be32(len: u32) -> Seq<u8> {
    seq![
        (len / 16777216) as u8,
        ((len / 65536) % 256) as u8,
        ((len / 256) % 256) as u8,
        (len % 256) as u8,
    ]
}

/// The number that four bytes spell, most significant first.
pub open spec fn from_be32(header: Seq<u8>) -> nat {
    (header[0] as nat) * 16777216 + (header[1] as nat) * 65536 + (header[2] as nat) * 256
        + (header[3] as nat)
}

/// The frame that carries `payload`.
pub open spec fn frame_of(payload: Seq<u8>) -> Seq<u8> {
    be32(payload.len() as u32) + payload
}

/// Why a payload cannot be framed.
#[derive(Debug, Clone, Copy, PartialEq, Eq, Structural)]
pub enum FrameError {
    /// The payload is longer than a frame's length prefix can say.
    PayloadTooLong,
}

/// What a receive buffer holds at its front.
#[derive(Debug, Clone)]
pub enum FrameStatus {
    /// Fewer bytes than one whole frame: `missing` more are needed at least.
    Incomplete { missing: usize },
    /// One whole frame: its payload, and how many bytes of the buffer it took.
    Complete { payload: Vec<u8>, consumed: usize },
}

/// The length prefix for a payload of `len` bytes.
pub fn frame_header(len: u32) -> (header: [u8; 4])
    ensures
        header@ == be32(len),
        from_be32(header@) == len,
{
    let header: [u8; 4] = [
        (len / 16777216) as u8,
        ((len / 65536) % 256) as u8,
        ((len / 256) % 256) as u8,
        (len % 256) as u8,
    ];
    assert(header@ =~= be32(len));
    header
}

/// The payload length that a length prefix announces.
pub fn frame_len(header: &[u8; 4]) -> (len: u32)
    ensures
        len == from_be32(header@),
        be32(len) == header@,
{
    let h0: u32 = header[0] as u32;
    let h1: u32 = header[1] as u32;
    let h2: u32 = header[2] as u32;
    let h3: u32 = header[3] as u32;
    let len: u32 = h0 * 16777216 + h1 * 65536 + h2 * 256 + h3;
    assert(len / 16777216 == h0 && (len / 65536) % 256 == h1 && (len / 256) % 256 == h2 && len
        % 256 == h3) by (bit_vector)
        requires
            h0 < 256,
            h1 < 256,
            h2 < 256,
            h3 < 256,
            len == h0 * 16777216 + h1 * 65536 + h2 * 256 + h3,
    ;
    assert(be32(len) =~= header@);
    len
}

/// Puts the length prefix in front of `payload`.
///
/// Fails exactly when the payload is longer than `u32::MAX` bytes; no length
/// is ever truncated to fit the prefix.
pub fn encode_frame(payload: &[u8]) -> (out: Result<Vec<u8>, FrameError>)
    ensures
        payload@.len() <= u32::MAX ==> out.is_ok() && out.unwrap()@ == frame_of(payload@),
        payload@.len() > u32::MAX ==> out == Err::<Vec<u8>, FrameError>(FrameError::PayloadTooLong),
{
    let n: usize = payload.len();
    if n > 0xffff_ffff {
        return Err(FrameError::PayloadTooLong);
    }
    let header = frame_header(n as u32);
    let mut out: Vec<u8> = Vec::new();
    out.push(header[0]);
    out.push(header[1]);
    out.push(header[2]);
    out.push(header[3]);
    assert(out@ =~= be32(n as u32));
    let mut i: usize = 0;
    while i < n
        invariant
            n == payload@.len(),
            i <= n,
            out@ == be32(n as u32) + payload@.take(i as int),
        decreases n - i,
    {
        out.push(payload[i]);
        i = i + 1;
        assert(out@ =~= be32(n as u32) + payload@.take(i as int));
    }
    assert(payload@.take(n as int) =~= payload@);
    Ok(out)
}

/// Whether `buf` starts with one whole frame.
pub open spec fn has_frame(buf: Seq<u8>) -> bool {
    buf.len() >= 4 && buf.len() - 4 >= from_be32(buf.take(4))
}

/// How many bytes `buf` lacks at least to start with one whole frame.
pub open spec fn frame_missing(buf: Seq<u8>) -> int {
    if buf.len() < 4 {
        4 - buf.len()
    } else {
        4 + from_be32(buf.take(4)) - buf.len()
    }
}

/// Looks for one whole frame at the front of `buf`.
///
/// With fewer than four bytes the prefix itself is incomplete. With the
/// prefix there, the frame is complete exactly when the announced number of
/// payload bytes follows it; the payload is then those bytes, and the frame
/// took four bytes more than the payload.
pub fn decode_frame(buf: &[u8]) -> (out: FrameStatus)
    ensures
        (match out {
            FrameStatus::Incomplete { missing } => !has_frame(buf@) && missing == frame_missing(
                buf@,
            ),
            FrameStatus::Complete { payload, consumed } => has_frame(buf@) && consumed == 4
                + from_be32(buf@.take(4)) && payload@ == buf@.subrange(4, consumed as int),
        }),
{
    let n: usize = buf.len();
    if n < 4 {
        return FrameStatus::Incomplete { missing: 4 - n };
    }
    let header: [u8; 4] = [buf[0], buf[1], buf[2], buf[3]];
    assert(header@ =~= buf@.take(4));
    let len: u32 = frame_len(&header);
    let have: usize = n - 4;
    if (have as u64) < (len as u64) {
        return FrameStatus::Incomplete { missing: ((len as u64) - (have as u64)) as usize };
    }
    let end: usize = 4 + len as usize;
    let payload = slice_to_vec(slice_subrange(buf, 4, end));
    FrameStatus::Complete { payload, consumed: end }
}

/// A frame read back gives the payload that was framed, and takes exactly
/// the frame's bytes, whatever follows it in the buffer.
pub proof fn lemma_frame_round_trip(payload: Seq<u8>, rest: Seq<u8>)
    requires
        payload.len() <= u32::MAX,
    ensures
        (frame_of(payload) + rest).take(4) == be32(payload.len() as u32),
        from_be32(be32(payload.len() as u32)) == payload.len(),
        (frame_of(payload) + rest).subrange(4, 4 + payload.len() as int) == payload,
{
    let buf = frame_of(payload) + rest;
    assert(buf.take(4) =~= be32(payload.len() as u32));
    assert(buf.subrange(4, 4 + payload.len() as int) =~= payload);
}

} // verus!
