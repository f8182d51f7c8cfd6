//! What staging does to the bytes of a staged file.
//!
//! A chunk is written in place at `index * CHUNK_SIZE`; the file grows with
//! zeros where the write starts past its end, and is never cut by a write.
//! Once all chunks are there the file is cut, or grown with zeros, to the
//! declared size. Chunks may arrive in any order.

use vstd::prelude::*;
use crate::chunk::{CHUNK_SIZE, chunk_count, chunk_window};

verus! {

/// Why a staged file could not be changed.
#[derive(Debug, Clone, Copy, PartialEq, Eq, Structural)]
pub enum StageError {
    /// The bytes would lie past what this machine can address.
    OutOfRange,
}

/// `n` zero bytes.
pub open spec fn zeros(n: nat) -> Seq<u8> {
    Seq::new(n, |i: int| 0u8)
}

/// Where chunk `index` starts.
pub open spec fn chunk_start(index: nat) -> int {
    index * CHUNK_SIZE
}

/// The bytes of a file after `data` was written at `offset`.
pub open spec fn written(file: Seq<u8>, offset: int, data: Seq<u8>) -> Seq<u8> {
    if data.len() == 0 {
        file
    } else {
        Seq::new(
            if file.len() < offset + data.len() {
                (offset + data.len()) as nat
            } else {
                file.len()
            },
            |i: int|
                if offset <= i < offset + data.len() {
                    data[i - offset]
                } else if i < file.len() {
                    file[i]
                } else {
                    0u8
                },
        )
    }
}

/// The bytes of a file after its length was set to `size`.
pub open spec fn resized(file: Seq<u8>, size: nat) -> Seq<u8> {
    if size <= file.len() {
        file.take(size as int)
    } else {
        file + zeros((size - file.len()) as nat)
    }
}

/// The bytes of a staged file after the chunks `indices` of a file with
/// contents `data` were written to it, one after the other.
pub open spec fn staged(file: Seq<u8>, data: Seq<u8>, indices: Seq<u64>) -> Seq<u8>
    decreases indices.len(),
{
    if indices.len() == 0 {
        file
    } else {
        written(
            staged(file, data, indices.drop_last()),
            chunk_start(indices.last() as nat),
            chunk_window(data, indices.last() as nat),
        )
    }
}

/// Whether `file` holds chunk `index` of `data` where that chunk belongs.
pub open spec fn holds_chunk(file: Seq<u8>, data: Seq<u8>, index: nat) -> bool {
    &&& chunk_window(data, index).len() > 0 ==> file.len() >= chunk_start(index) + chunk_window(
        data,
        index,
    ).len()
    &&& forall|p: int|
        chunk_start(index) <= p < chunk_start(index) + chunk_window(data, index).len()
            ==> #[trigger] file[p] == data[p]
}

/// Whether `indices` names chunk `index`.
pub open spec fn names_chunk(indices: Seq<u64>, index: nat) -> bool {
    exists|k: int| 0 <= k < indices.len() && #[trigger] indices[k] == index
}

/// Writes `data` into `file` at the place of chunk `index`.
///
/// The file is grown with zeros where the chunk starts past its end; bytes
/// outside the written range stay as they are; nothing is cut. Writing no
/// bytes changes nothing. Fails, leaving the file as it was, exactly when
/// the end of the written range cannot be addressed.
pub fn write_chunk(file: &mut Vec<u8>, index: u64, data: &[u8]) -> (out: Result<(), StageError>)
    ensures
        data@.len() == 0 || index * CHUNK_SIZE + data@.len() <= usize::MAX ==> out.is_ok()
            && final(file)@ == written(old(file)@, chunk_start(index as nat), data@),
        data@.len() > 0 && index * CHUNK_SIZE + data@.len() > usize::MAX ==> out == Err::<
            (),
            StageError,
        >(StageError::OutOfRange) && final(file)@ == old(file)@,
{
    let n: usize = data.len();
    if n == 0 {
        return Ok(());
    }
    if index > (usize::MAX / CHUNK_SIZE) as u64 {
        return Err(StageError::OutOfRange);
    }
    let start: usize = (index as usize) * CHUNK_SIZE;
    if n > usize::MAX - start {
        return Err(StageError::OutOfRange);
    }
    let end: usize = start + n;
    let ghost before = file@;
    while file.len() < end
        invariant
            before.len() <= file@.len(),
            file@.len() <= end || file@.len() == before.len(),
            forall|i: int| 0 <= i < before.len() ==> file@[i] == before[i],
            forall|i: int| before.len() <= i < file@.len() ==> file@[i] == 0u8,
        decreases end - file@.len(),
    {
        file.push(0u8);
    }
    let mut i: usize = 0;
    while i < n
        invariant
            n == data@.len(),
            end == start + n,
            end <= file@.len(),
            i <= n,
            file@.len() == (if before.len() < end {
                end as nat
            } else {
                before.len()
            }),
            forall|p: int| start <= p < start + i ==> file@[p] == data@[p - start],
            forall|p: int|
                0 <= p < file@.len() && !(start <= p < start + i) ==> file@[p] == (if p
                    < before.len() {
                    before[p]
                } else {
                    0u8
                }),
        decreases n - i,
    {
        file.set(start + i, data[i]);
        i = i + 1;
    }
    assert(file@ =~= written(before, chunk_start(index as nat), data@));
    Ok(())
}

/// Sets the length of `file` to `size`: bytes past `size` go, and a shorter
/// file grows with zeros. Fails, leaving the file as it was, exactly when
/// `size` cannot be addressed.
pub fn truncate_to_size(file: &mut Vec<u8>, size: u64) -> (out: Result<(), StageError>)
    ensures
        size <= usize::MAX ==> out.is_ok() && final(file)@ == resized(old(file)@, size as nat),
        size > usize::MAX ==> final(file)@ == old(file)@ && out == Err::<(), StageError>(
            StageError::OutOfRange,
        ),
{
    if size > usize::MAX as u64 {
        return Err(StageError::OutOfRange);
    }
    let want: usize = size as usize;
    let ghost before = file@;
    if want <= file.len() {
        file.truncate(want);
        assert(file@ =~= resized(before, size as nat));
    } else {
        while file.len() < want
            invariant
                before.len() <= file@.len() <= want,
                forall|i: int| 0 <= i < before.len() ==> file@[i] == before[i],
                forall|i: int| before.len() <= i < file@.len() ==> file@[i] == 0u8,
            decreases want - file@.len(),
        {
            file.push(0u8);
        }
        assert(file@ =~= resized(before, size as nat));
    }
    Ok(())
}

/// Writing a chunk of `data` puts that chunk in place and disturbs no other
/// chunk of `data` that was in place.
pub proof fn lemma_write_keeps_chunks(file: Seq<u8>, data: Seq<u8>, index: nat, other: nat)
    ensures
        holds_chunk(written(file, chunk_start(index), chunk_window(data, index)), data, index),
        holds_chunk(file, data, other) ==> holds_chunk(
            written(file, chunk_start(index), chunk_window(data, index)),
            data,
            other,
        ),
{
    let w = chunk_window(data, index);
    let after = written(file, chunk_start(index), w);
    assert forall|p: int| chunk_start(index) <= p < chunk_start(index) + w.len() implies #[trigger] after[p]
        == data[p] by {
        assert(w[p - chunk_start(index)] == data[p]);
    }
    if holds_chunk(file, data, other) {
        let v = chunk_window(data, other);
        assert forall|p: int| chunk_start(other) <= p < chunk_start(other) + v.len() implies #[trigger] after[p]
            == data[p] by {
            assert(file[p] == data[p]);
            if chunk_start(index) <= p < chunk_start(index) + w.len() {
                assert(w[p - chunk_start(index)] == data[p]);
            }
        }
    }
}

/// After the chunks `indices` were staged, every one of them is in place,
/// and so is every chunk that was in place before.
pub proof fn lemma_staged_holds(file: Seq<u8>, data: Seq<u8>, indices: Seq<u64>, index: nat)
    requires
        holds_chunk(file, data, index) || names_chunk(indices, index),
    ensures
        holds_chunk(staged(file, data, indices), data, index),
    decreases indices.len(),
{
    if indices.len() > 0 {
        let front = indices.drop_last();
        let last = indices.last() as nat;
        lemma_write_keeps_chunks(staged(file, data, front), data, last, index);
        if last != index {
            if !holds_chunk(file, data, index) {
                let k = choose|k: int| 0 <= k < indices.len() && #[trigger] indices[k] == index;
                assert(front[k] == index);
                assert(names_chunk(front, index));
            }
            lemma_staged_holds(file, data, front, index);
        }
    }
}

/// A file that holds every chunk of `data` in place is `data` once it is
/// cut to the size of `data`.
pub proof fn lemma_all_chunks_make_file(file: Seq<u8>, data: Seq<u8>)
    requires
        forall|i: nat| i < chunk_count(data.len()) ==> #[trigger] holds_chunk(file, data, i),
    ensures
        resized(file, data.len()) == data,
{
    assert forall|p: int| 0 <= p < data.len() implies p < file.len() && file[p] == data[p] by {
        let i = (p / (CHUNK_SIZE as int)) as nat;
        assert(i < chunk_count(data.len()));
        assert(holds_chunk(file, data, i));
        assert(chunk_start(i) <= p < chunk_start(i) + chunk_window(data, i).len());
    }
    assert(resized(file, data.len()) =~= data);
}

/// Whether chunk `index` of `data` is staged by `indices` or already in its
/// place in `file`.
pub open spec fn chunk_provided(file: Seq<u8>, data: Seq<u8>, indices: Seq<u64>, index: nat) -> bool {
    names_chunk(indices, index) || holds_chunk(file, data, index)
}

/// A transfer completes the file. If every chunk of `data` is either staged,
/// in whatever order and however often, or already in its place in the
/// staged file, then cutting the staged file to the size of `data` gives
/// exactly the bytes of `data`.
pub proof fn lemma_transfer_completes(file: Seq<u8>, data: Seq<u8>, indices: Seq<u64>)
    requires
        forall|i: nat|
            i < chunk_count(data.len()) ==> #[trigger] chunk_provided(file, data, indices, i),
    ensures
        resized(staged(file, data, indices), data.len()) == data,
{
    let end = staged(file, data, indices);
    assert forall|i: nat| i < chunk_count(data.len()) implies #[trigger] holds_chunk(
        end,
        data,
        i,
    ) by {
        assert(chunk_provided(file, data, indices, i));
        lemma_staged_holds(file, data, indices, i);
    }
    lemma_all_chunks_make_file(end, data);
}

/// Staging every chunk of a file and then cutting the staged file to the
/// size of that file gives exactly the file's bytes, whatever the staged
/// file held before.
pub proof fn lemma_full_transfer(file: Seq<u8>, data: Seq<u8>, indices: Seq<u64>)
    requires
        forall|i: nat| i < chunk_count(data.len()) ==> #[trigger] names_chunk(indices, i),
    ensures
        resized(staged(file, data, indices), data.len()) == data,
{
    assert forall|i: nat| i < chunk_count(data.len()) implies #[trigger] chunk_provided(
        file,
        data,
        indices,
        i,
    ) by {
        assert(names_chunk(indices, i));
    }
    lemma_transfer_completes(file, data, indices);
}

} // verus!
