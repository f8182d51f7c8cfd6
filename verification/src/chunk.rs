//! Fixed-size chunking of file contents and SHA-256 chunk hashes.
//!
//! A file is a byte string. It is cut at multiples of [`CHUNK_SIZE`]; every
//! chunk but the last is exactly that long, the last is between one byte and
//! a full chunk. An empty file has no chunks.

use vstd::prelude::*;
use vstd::slice::{slice_subrange, slice_to_vec};

verus! {

/// Size of every chunk but possibly the last one of a file, in bytes (1 MiB).
pub const CHUNK_SIZE: usize = 1048576;

/// One chunk of a file: where it lies, what it hashes to, how long it is.
#[derive(Debug, Clone, Copy)]
pub struct ChunkInfo {
    pub index: u64,
    pub hash: [u8; 32],
    pub size: u32,
}

/// The mathematical content of a [`ChunkInfo`].
pub struct ChunkInfoView {
    pub index: nat,
    pub hash: Seq<u8>,
    pub size: nat,
}

impl View for ChunkInfo {
    type V = ChunkInfoView;

    open spec fn view(&self) -> ChunkInfoView {
        ChunkInfoView { index: self.index as nat, hash: self.hash@, size: self.size as nat }
    }
}

/// The SHA-256 digest of a byte string, as computed by `sha2`.
pub uninterp spec fn sha256(data: Seq<u8>) -> Seq<u8>;

/// Number of chunks of a file of `len` bytes.
pub open spec fn chunk_count(len: nat) -> nat {
    (len + CHUNK_SIZE - 1) as nat / (CHUNK_SIZE as nat)
}

/// The bytes of chunk `index` of `data`: the window that starts at
/// `index * CHUNK_SIZE` and ends a chunk later or at the end of the data,
/// whichever comes first. Empty when the window starts at or past the end.
pub open spec fn chunk_window(data: Seq<u8>, index: nat) -> Seq<u8> {
    let start = index * CHUNK_SIZE;
    if start >= data.len() {
        Seq::<u8>::empty()
    } else if start + CHUNK_SIZE <= data.len() {
        data.subrange(start as int, start + CHUNK_SIZE)
    } else {
        data.subrange(start as int, data.len() as int)
    }
}

/// The description of chunk `index` of `data`.
pub open spec fn chunk_info_of(data: Seq<u8>, index: nat) -> ChunkInfoView {
    ChunkInfoView {
        index,
        hash: sha256(chunk_window(data, index)),
        size: chunk_window(data, index).len(),
    }
}

/// The chunk list of a file with contents `data`.
pub open spec fn chunks_of(data: Seq<u8>) -> Seq<ChunkInfoView> {
    Seq::new(chunk_count(data.len()), |i: int| chunk_info_of(data, i as nat))
}

/// The views of a list of chunks, in order.
pub open spec fn chunk_views(chunks: Seq<ChunkInfo>) -> Seq<ChunkInfoView> {
    Seq::new(chunks.len(), |i: int| chunks[i]@)
}

/// The hashes of a list of chunks, in order.
pub open spec fn chunk_hash_views(chunks: Seq<ChunkInfo>) -> Seq<Seq<u8>> {
    Seq::new(chunks.len(), |i: int| chunks[i].hash@)
}

/// The first `n` chunk windows of `data`, one after the other.
pub open spec fn concat_chunks(data: Seq<u8>, n: nat) -> Seq<u8>
    decreases n,
{
    if n == 0 {
        Seq::<u8>::empty()
    } else {
        concat_chunks(data, (n - 1) as nat) + chunk_window(data, (n - 1) as nat)
    }
}

/// Calls `<sha2::Sha256 as sha2::Digest>::digest` on `data`.
///
/// Trusted: the 32 bytes returned are the SHA-256 digest of `data`, a
/// function of the bytes of `data` alone.
#[verifier::external_body]
fn sha256_digest(data: &[u8]) -> (out: [u8; 32])
    ensures
        out@ == sha256(data@),
{
    <sha2::Sha256 as sha2::Digest>::digest(data).into()
}

/// SHA-256 of `data`.
pub fn hash_bytes(data: &[u8]) -> (out: [u8; 32])
    ensures
        out@ == sha256(data@),
{
    sha256_digest(data)
}

/// Byte offset at which chunk `index` starts, or `None` when that offset
/// does not fit in 64 bits.
pub fn chunk_offset(index: u64) -> (out: Option<u64>)
    ensures
        index * CHUNK_SIZE <= u64::MAX ==> out == Some((index * CHUNK_SIZE) as u64),
        index * CHUNK_SIZE > u64::MAX ==> out.is_none(),
{
    index.checked_mul(CHUNK_SIZE as u64)
}

/// Number of chunks of a file of `len` bytes.
pub fn count_chunks(len: usize) -> (out: usize)
    ensures
        out == chunk_count(len as nat),
{
    let full: usize = len / CHUNK_SIZE;
    if len % CHUNK_SIZE == 0 {
        full
    } else {
        full + 1
    }
}

/// Where the window of chunk `index` ends, given that it starts inside the
/// data.
fn window_end(len: usize, start: usize) -> (end: usize)
    requires
        start < len,
    ensures
        start < end <= len,
        start + CHUNK_SIZE <= len ==> end == start + CHUNK_SIZE,
        start + CHUNK_SIZE > len ==> end == len,
{
    if len - start >= CHUNK_SIZE {
        start + CHUNK_SIZE
    } else {
        len
    }
}

/// Splits the contents of a file into chunks and hashes each of them.
///
/// The result lists the chunks in index order: chunk `i` covers the window
/// that starts at `i * CHUNK_SIZE`, carries the SHA-256 of exactly that
/// window and its length. An empty file gives an empty list.
pub fn chunk_file(data: &[u8]) -> (chunks: Vec<ChunkInfo>)
    ensures
        chunk_views(chunks@) == chunks_of(data@),
        chunks@.len() == chunk_count(data@.len()),
{
    let len: usize = data.len();
    let total: usize = count_chunks(len);
    let mut chunks: Vec<ChunkInfo> = Vec::new();
    let mut index: usize = 0;
    while index < total
        invariant
            len == data@.len(),
            total == chunk_count(len as nat),
            index <= total,
            chunks@.len() == index,
            forall|i: int| 0 <= i < index ==> (#[trigger] chunks@[i])@ == chunk_info_of(data@, i as nat),
        decreases total - index,
    {
        let start: usize = index * CHUNK_SIZE;
        let end: usize = window_end(len, start);
        let window = slice_subrange(data, start, end);
        let hash = hash_bytes(window);
        chunks.push(ChunkInfo { index: index as u64, hash, size: (end - start) as u32 });
        index = index + 1;
    }
    assert(chunk_views(chunks@) =~= chunks_of(data@));
    chunks
}

/// The bytes of chunk `index` of a file with contents `data`: up to
/// `CHUNK_SIZE` bytes from offset `index * CHUNK_SIZE`, fewer at the end of
/// the file, none past it.
pub fn read_chunk(data: &[u8], index: u64) -> (out: Vec<u8>)
    ensures
        out@ == chunk_window(data@, index as nat),
{
    let len: usize = data.len();
    if index >= (len / CHUNK_SIZE + 1) as u64 {
        return Vec::new();
    }
    let start: usize = (index as usize) * CHUNK_SIZE;
    if start >= len {
        return Vec::new();
    }
    let end: usize = window_end(len, start);
    slice_to_vec(slice_subrange(data, start, end))
}

/// A chunk window never holds more than `CHUNK_SIZE` bytes, and holds at
/// least one byte when it is one of the file's chunks.
pub proof fn lemma_chunk_window_len(data: Seq<u8>, index: nat)
    ensures
        chunk_window(data, index).len() <= CHUNK_SIZE,
        index < chunk_count(data.len()) <==> chunk_window(data, index).len() >= 1,
        index + 1 < chunk_count(data.len()) ==> chunk_window(data, index).len() == CHUNK_SIZE,
{
}

/// The first `n` chunk windows, concatenated, are the first `n * CHUNK_SIZE`
/// bytes of the data, or all of it where it is shorter.
pub proof fn lemma_concat_chunks_prefix(data: Seq<u8>, n: nat)
    ensures
        n * CHUNK_SIZE <= data.len() ==> concat_chunks(data, n) == data.subrange(
            0,
            n * CHUNK_SIZE,
        ),
        n * CHUNK_SIZE > data.len() ==> concat_chunks(data, n) == data,
    decreases n,
{
    if n == 0 {
        assert(data.subrange(0, 0) =~= Seq::<u8>::empty());
    } else {
        let m = (n - 1) as nat;
        lemma_concat_chunks_prefix(data, m);
        if n * CHUNK_SIZE <= data.len() {
            assert(concat_chunks(data, n) =~= data.subrange(0, n * CHUNK_SIZE));
        } else if m * CHUNK_SIZE <= data.len() {
            assert(concat_chunks(data, n) =~= data);
        } else {
            assert(concat_chunks(data, n) =~= data);
        }
    }
}

/// Reading every chunk of a file in index order and concatenating what was
/// read gives back the file's bytes.
pub proof fn lemma_chunks_cover_file(data: Seq<u8>)
    ensures
        concat_chunks(data, chunk_count(data.len())) == data,
{
    let n = chunk_count(data.len());
    lemma_concat_chunks_prefix(data, n);
    if n * CHUNK_SIZE <= data.len() {
        assert(data.subrange(0, data.len() as int) =~= data);
    }
}

} // verus!
