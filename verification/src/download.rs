//! Planning and bookkeeping of one file's download: which chunks to ask
//! for, how they are spread over substreams, what a substream does with each
//! message, and whether the staged file may be finalized.

use vstd::prelude::*;
use crate::merkle::file_root;
use crate::protocol::Msg;
use crate::syncer::verify_staged;
use crate::text::str_eq;

verus! {

/// Fewest substreams that a download uses.
pub const MIN_STREAMS: usize = 1;

/// Most substreams that a download uses.
pub const MAX_STREAMS: usize = 16;

/// The configured stream count brought into `[MIN_STREAMS, MAX_STREAMS]`.
pub open spec fn clamped(streams: nat) -> nat {
    if streams < MIN_STREAMS {
        MIN_STREAMS as nat
    } else if streams > MAX_STREAMS {
        MAX_STREAMS as nat
    } else {
        streams
    }
}

/// Number of positions `i` below `n` with `i % s == k`.
pub open spec fn shard_len(n: nat, s: nat, k: nat) -> nat {
    if k < n && s > 0 {
        ((n - k + s - 1) / (s as int)) as nat
    } else {
        0
    }
}

/// Shard `k` of `need` over `s` shards: the entries at positions `k`,
/// `k + s`, `k + 2s`, and so on.
pub open spec fn shard(need: Seq<u64>, s: nat, k: nat) -> Seq<u64> {
    Seq::new(shard_len(need.len(), s, k), |j: int| need[k + j * s])
}

/// The entries of `missing` that `base` holds too, in the order of `missing`.
pub open spec fn kept(missing: Seq<u64>, base: Seq<u64>) -> Seq<u64>
    decreases missing.len(),
{
    if missing.len() == 0 {
        Seq::empty()
    } else if base.contains(missing.last()) {
        kept(missing.drop_last(), base).push(missing.last())
    } else {
        kept(missing.drop_last(), base)
    }
}

/// The chunks to ask for: what differs and is not yet staged where a current
/// resume entry exists, else all that differs.
pub open spec fn effective(base: Seq<u64>, resume: Option<Seq<u64>>) -> Seq<u64> {
    match resume {
        Some(missing) => kept(missing, base),
        None => base,
    }
}

/// What to do about one file.
#[derive(Debug, Clone)]
pub enum TransferPlan {
    /// Nothing differs: keep the local file, transfer nothing.
    UpToDate,
    /// Everything that differs is already staged: transfer nothing, but
    /// verify the staged file and finalize it if its root matches.
    VerifyStaged,
    /// Ask for these chunks.
    Fetch { indices: Vec<u64> },
}

/// The plan for a file whose differing chunks are `base`, given what a
/// current resume entry says is still missing.
pub open spec fn plan_matches(plan: TransferPlan, base: Seq<u64>, resume: Option<Seq<u64>>) -> bool {
    if base.len() == 0 {
        plan is UpToDate
    } else if effective(base, resume).len() == 0 {
        plan is VerifyStaged
    } else {
        plan matches TransferPlan::Fetch { indices } && indices@ == effective(base, resume)
    }
}

/// What became of a file after its chunks arrived.
#[derive(Debug, Clone, Copy, PartialEq, Eq, Structural)]
pub enum FileOutcome {
    /// The staged file hashes to the declared root: it takes the place of
    /// the local file, and the resume entry goes.
    Finalized,
    /// The staged file hashes to another root: it stays in staging, and the
    /// resume entry stays.
    MerkleMismatch,
}

/// What a substream does with a message.
#[derive(Debug, Clone, Copy, PartialEq, Eq, Structural)]
pub enum ShardStep {
    /// A chunk of the file: limit, stage, mark and count it.
    Store,
    /// The peer is done or the stream ended: stop reading.
    Finish,
    /// Anything else: read on.
    Skip,
}

/// What a substream that fetches `rel` does with `msg`; `None` stands for
/// the end of the stream.
pub open spec fn shard_step_of(rel: Seq<char>, msg: Option<Msg>) -> ShardStep {
    match msg {
        Some(Msg::ChunkData { rel_path, index, data }) => if rel_path@ == rel {
            ShardStep::Store
        } else {
            ShardStep::Skip
        },
        Some(Msg::Done) => ShardStep::Finish,
        Some(_) => ShardStep::Skip,
        None => ShardStep::Finish,
    }
}

/// What a download has received so far.
#[derive(Debug)]
pub struct Progress {
    /// The chunk indices received, in the order in which they arrived.
    pub received: Vec<u64>,
    /// The payload bytes received, counted modulo 2^64.
    pub bytes_received: u64,
}

/// The configured stream count brought into `[1, 16]`.
pub fn clamp_streams(streams: usize) -> (out: usize)
    ensures
        out == clamped(streams as nat),
        MIN_STREAMS <= out <= MAX_STREAMS,
{
    if streams < MIN_STREAMS {
        MIN_STREAMS
    } else if streams > MAX_STREAMS {
        MAX_STREAMS
    } else {
        streams
    }
}

/// Position in the whole list of entry `t` of shard `k` over `s` shards.
pub open spec fn slot(k: int, s: int, t: int) -> int {
    k + t * s
}

/// Whether `part` holds the first entries of shard `k` of `need`.
pub open spec fn is_shard_prefix(part: Seq<u64>, need: Seq<u64>, s: int, k: int) -> bool {
    forall|t: int| 0 <= t < part.len() ==> (#[trigger] part[t]) == need[slot(k, s, t)]
}

/// Shard `k` of `need` over `s` shards.
fn take_shard(need: &Vec<u64>, s: usize, k: usize) -> (part: Vec<u64>)
    requires
        0 < s <= MAX_STREAMS,
        k < need@.len(),
    ensures
        part@ == shard(need@, s as nat, k as nat),
{
    let n: usize = need.len();
    let mut part: Vec<u64> = Vec::new();
    let mut i: usize = k;
    let mut done: bool = false;
    assert(part@.len() * s == 0) by (nonlinear_arith)
        requires
            part@.len() == 0,
    ;
    while !done
        invariant
            n == need@.len(),
            0 < s <= MAX_STREAMS,
            k < n,
            !done ==> i < n && i == k + part@.len() * s,
            done ==> part@.len() == shard_len(n as nat, s as nat, k as nat),
            is_shard_prefix(part@, need@, s as int, k as int),
        decreases n - i + (if done { 0int } else { 1int }),
    {
        let ghost j = part@.len() as int;
        let ghost before = part@;
        part.push(need[i]);
        assert((j + 1) * s == j * s + s) by (nonlinear_arith);
        assert(slot(k as int, s as int, j) == i);
        assert(part@[j] == need@[i as int]);
        assert forall|t: int| 0 <= t < part@.len() implies (#[trigger] part@[t]) == need@[slot(
            k as int,
            s as int,
            t,
        )] by {
            if t < j {
                assert(before[t] == need@[slot(k as int, s as int, t)]);
                assert(part@[t] == before[t]);
            }
        }
        assert(is_shard_prefix(part@, need@, s as int, k as int));
        if n - i <= s {
            done = true;
            assert(part@.len() == shard_len(n as nat, s as nat, k as nat)) by {
                let len = j + 1;
                assert((n - k + s - 1) / (s as int) == len) by (nonlinear_arith)
                    requires
                        (len - 1) * s < n - k,
                        n - k <= len * s,
                        s > 0,
                ;
            }
        } else {
            i = i + s;
        }
    }
    assert(part@ =~= shard(need@, s as nat, k as nat));
    part
}

/// Spreads `need` round-robin over the substreams: entry `i` goes to shard
/// `i % s`, where `s` is the stream count brought into `[1, 16]`. Only the
/// shards that hold something are returned, so there are as many as there
/// are entries where those are fewer than `s`.
pub fn partition(need: &Vec<u64>, streams: usize) -> (parts: Vec<Vec<u64>>)
    ensures
        parts@.len() == if need@.len() < clamped(streams as nat) {
            need@.len()
        } else {
            clamped(streams as nat)
        },
        forall|k: int|
            0 <= k < parts@.len() ==> (#[trigger] parts@[k])@ == shard(
                need@,
                clamped(streams as nat),
                k as nat,
            ),
{
    let s: usize = clamp_streams(streams);
    let count: usize = if need.len() < s {
        need.len()
    } else {
        s
    };
    let mut parts: Vec<Vec<u64>> = Vec::new();
    let mut k: usize = 0;
    while k < count
        invariant
            s == clamped(streams as nat),
            0 < s <= MAX_STREAMS,
            count <= need@.len(),
            k <= count,
            parts@.len() == k,
            forall|t: int|
                0 <= t < k ==> (#[trigger] parts@[t])@ == shard(need@, s as nat, t as nat),
        decreases count - k,
    {
        let part = take_shard(need, s, k);
        parts.push(part);
        k = k + 1;
    }
    parts
}

/// Round-robin spreading loses nothing and invents nothing: entry `i` of
/// `need` is entry `i / s` of shard `i % s`, and every entry of a shard is
/// an entry of `need` at a position that belongs to that shard.
pub proof fn lemma_shards_cover(need: Seq<u64>, s: nat, i: int)
    requires
        s > 0,
        0 <= i < need.len(),
    ensures
        i / (s as int) < shard(need, s, (i % (s as int)) as nat).len(),
        shard(need, s, (i % (s as int)) as nat)[i / (s as int)] == need[i],
{
    let k = i % (s as int);
    let j = i / (s as int);
    let n = need.len() as int;
    assert(i == j * s + k && 0 <= k < s) by (nonlinear_arith)
        requires
            s > 0,
            i >= 0,
            k == i % (s as int),
            j == i / (s as int),
    ;
    assert(j < (n - k + s - 1) / (s as int)) by (nonlinear_arith)
        requires
            s > 0,
            j >= 0,
            j * s + k < n,
            0 <= k < s,
    ;
}

/// Whether `list` holds `x`.
fn holds(list: &Vec<u64>, x: u64) -> (found: bool)
    ensures
        found == list@.contains(x),
{
    let mut i: usize = 0;
    while i < list.len()
        invariant
            i <= list@.len(),
            forall|k: int| 0 <= k < i ==> list@[k] != x,
        decreases list@.len() - i,
    {
        if list[i] == x {
            return true;
        }
        i = i + 1;
    }
    false
}

/// The chunks to ask for: the differing chunks `need_base` where there is no
/// current resume entry, else those of the entry's missing chunks that
/// differ.
pub fn effective_need(need_base: Vec<u64>, resume_missing: Option<Vec<u64>>) -> (need: Vec<u64>)
    ensures
        need@ == effective(
            need_base@,
            match resume_missing {
                Some(m) => Some(m@),
                None => None,
            },
        ),
{
    match resume_missing {
        None => need_base,
        Some(missing) => {
            let mut need: Vec<u64> = Vec::new();
            let mut i: usize = 0;
            assert(missing@.take(0) =~= Seq::<u64>::empty());
            while i < missing.len()
                invariant
                    i <= missing@.len(),
                    need@ == kept(missing@.take(i as int), need_base@),
                decreases missing@.len() - i,
            {
                assert(missing@.take(i + 1).drop_last() =~= missing@.take(i as int));
                if holds(&need_base, missing[i]) {
                    need.push(missing[i]);
                }
                i = i + 1;
            }
            assert(missing@.take(i as int) =~= missing@);
            need
        },
    }
}

/// Decides what to do about one file.
///
/// Nothing differs: the file is up to date. Something differs but a current
/// resume entry says that none of it is missing: nothing is transferred, the
/// staged file is verified. Otherwise the chunks to ask for are fetched.
pub fn plan_transfer(need_base: Vec<u64>, resume_missing: Option<Vec<u64>>) -> (plan: TransferPlan)
    ensures
        plan_matches(
            plan,
            need_base@,
            match resume_missing {
                Some(m) => Some(m@),
                None => None,
            },
        ),
{
    if need_base.len() == 0 {
        return TransferPlan::UpToDate;
    }
    let need = effective_need(need_base, resume_missing);
    if need.len() == 0 {
        TransferPlan::VerifyStaged
    } else {
        TransferPlan::Fetch { indices: need }
    }
}

/// What is kept is exactly what both lists hold, in the order of `missing`.
pub proof fn lemma_kept(missing: Seq<u64>, base: Seq<u64>)
    ensures
        kept(missing, base).len() <= missing.len(),
        forall|x: u64| kept(missing, base).contains(x) <==> missing.contains(x) && base.contains(x),
        (forall|a: int, b: int| 0 <= a < b < missing.len() ==> missing[a] < missing[b]) ==> (
        forall|a: int, b: int|
            0 <= a < b < kept(missing, base).len() ==> kept(missing, base)[a] < kept(
                missing,
                base,
            )[b]),
    decreases missing.len(),
{
    if missing.len() > 0 {
        let front = missing.drop_last();
        let last = missing.last();
        lemma_kept(front, base);
        let rest = kept(front, base);
        let all = kept(missing, base);
        assert forall|x: u64| all.contains(x) <==> missing.contains(x) && base.contains(x) by {
            assert(rest.contains(x) <==> front.contains(x) && base.contains(x));
            if all.contains(x) {
                let w = choose|w: int| 0 <= w < all.len() && all[w] == x;
                assert(0 <= w < all.len() && all[w] == x);
                if w < rest.len() {
                    assert(rest[w] == x);
                    assert(rest.contains(x));
                    assert(front.contains(x));
                    let v = choose|v: int| 0 <= v < front.len() && front[v] == x;
                    assert(0 <= v < front.len() && front[v] == x);
                    assert(missing[v] == x);
                    assert(missing.contains(x));
                } else {
                    assert(missing[missing.len() - 1] == x);
                    assert(missing.contains(x));
                }
            }
            if missing.contains(x) && base.contains(x) {
                let v = choose|v: int| 0 <= v < missing.len() && missing[v] == x;
                assert(0 <= v < missing.len() && missing[v] == x);
                if v < front.len() {
                    assert(front[v] == x);
                    assert(front.contains(x));
                    assert(rest.contains(x));
                    let w = choose|w: int| 0 <= w < rest.len() && rest[w] == x;
                    assert(0 <= w < rest.len() && rest[w] == x);
                    assert(all[w] == x);
                    assert(all.contains(x));
                } else {
                    assert(all[rest.len() as int] == x);
                    assert(all.contains(x));
                }
            }
        }
        if forall|a: int, b: int| 0 <= a < b < missing.len() ==> missing[a] < missing[b] {
            assert forall|a: int, b: int| 0 <= a < b < front.len() implies front[a] < front[b] by {
                assert(front[a] == missing[a] && front[b] == missing[b]);
            }
            assert forall|a: int, b: int| 0 <= a < b < all.len() implies all[a] < all[b] by {
                if b >= rest.len() {
                    let x = rest[a];
                    assert(x == all[a]);
                    assert(rest.contains(x));
                    assert(rest.contains(x) <==> front.contains(x) && base.contains(x));
                    assert(front.contains(x));
                    let v = choose|v: int| 0 <= v < front.len() && front[v] == x;
                    assert(0 <= v < front.len() && front[v] == x);
                    assert(missing[v] == x);
                    assert(missing[v] < missing[missing.len() - 1]);
                } else {
                    assert(rest[a] < rest[b]);
                }
            }
        }
    }
}

/// What a substream that fetches `rel` does with `msg`; `None` stands for
/// the end of the stream. Only chunk data for `rel` itself is stored.
pub fn shard_step(rel: &str, msg: &Option<Msg>) -> (step: ShardStep)
    ensures
        step == shard_step_of(rel@, *msg),
{
    match msg {
        Some(Msg::ChunkData { rel_path, index, data }) => {
            if str_eq(rel_path.as_str(), rel) {
                ShardStep::Store
            } else {
                ShardStep::Skip
            }
        },
        Some(Msg::Done) => ShardStep::Finish,
        Some(_) => ShardStep::Skip,
        None => ShardStep::Finish,
    }
}

impl Progress {
    /// Nothing received yet.
    pub fn new() -> (out: Progress)
        ensures
            out.received@ == Seq::<u64>::empty(),
            out.bytes_received == 0,
    {
        Progress { received: Vec::new(), bytes_received: 0 }
    }

    /// Records that chunk `index` arrived with `len` bytes of payload, and
    /// returns the new byte count.
    pub fn record(&mut self, index: u64, len: usize) -> (total: u64)
        ensures
            final(self).received@ == old(self).received@.push(index),
            final(self).bytes_received == total,
            total as int == (old(self).bytes_received + len) % 0x1_0000_0000_0000_0000,
    {
        self.received.push(index);
        let total: u64 = self.bytes_received.wrapping_add(len as u64);
        self.bytes_received = total;
        total
    }
}

/// Decides what becomes of a file once its chunks are staged and the staged
/// file has been cut to the declared size: it is finalized if and only if
/// the staged contents hash to the declared root.
pub fn conclude(staged: &[u8], declared_root: &[u8; 32]) -> (out: FileOutcome)
    ensures
        (out == FileOutcome::Finalized) == (file_root(staged@) == declared_root@),
        (out == FileOutcome::MerkleMismatch) == (file_root(staged@) != declared_root@),
{
    if verify_staged(staged, declared_root) {
        FileOutcome::Finalized
    } else {
        FileOutcome::MerkleMismatch
    }
}

impl FileOutcome {
    /// Whether the file reached its final path.
    pub fn ok(&self) -> (out: bool)
        ensures
            out == (*self == FileOutcome::Finalized),
    {
        match self {
            FileOutcome::Finalized => true,
            FileOutcome::MerkleMismatch => false,
        }
    }

    /// Whether the staged file may be moved to its final path.
    pub fn may_finalize(&self) -> (out: bool)
        ensures
            out == (*self == FileOutcome::Finalized),
    {
        self.ok()
    }

    /// Whether the resume entry of the transfer is to be removed.
    pub fn clears_resume(&self) -> (out: bool)
        ensures
            out == (*self == FileOutcome::Finalized),
    {
        self.ok()
    }

    /// The word under which the outcome is reported.
    pub fn message(&self) -> (out: String)
        ensures
            *self == FileOutcome::Finalized ==> out@ == "finalized"@,
            *self == FileOutcome::MerkleMismatch ==> out@ == "merkle_mismatch"@,
    {
        match self {
            FileOutcome::Finalized => "finalized".to_owned(),
            FileOutcome::MerkleMismatch => "merkle_mismatch".to_owned(),
        }
    }
}

} // verus!
