//! Relative paths, the single-file filter, the ignore list, and where staged
//! and trashed files live.
//!
//! Relative paths travel with `/` as separator and without a leading `/`.
//! A staged file lives under `.leafsync_tmp/` and a file removed by mirroring
//! under `.leafsync_trash/<timestamp>/`, both mirroring the tree.

use vstd::prelude::*;
use crate::text::{
    to_chars, from_chars, append_chars, chars_eq, has_prefix, has_suffix, has_sub, starts_with,
    ends_with, contains_sub,
};
use crate::chunk::{
    ChunkInfo, CHUNK_SIZE, chunk_file, chunk_count, chunk_views, chunk_hash_views, chunks_of,
};
use crate::merkle::{
    file_root, hash_eq, indices_where, lemma_indices_where, lemma_file_hashes,
    merkle_root_from_chunks,
};
use crate::protocol::{FileSummary, FileSummaryView, hash_views, summary_views};

verus! {

/// `s` with every backslash turned into a forward slash.
pub open spec fn unslash(s: Seq<char>) -> Seq<char> {
    Seq::new(s.len(), |i: int| if s[i] == '\\' { '/' } else { s[i] })
}

/// Number of forward slashes that `s` begins with.
pub open spec fn leading_slashes(s: Seq<char>) -> nat
    decreases s.len(),
{
    if s.len() > 0 && s[0] == '/' {
        1 + leading_slashes(s.drop_first())
    } else {
        0
    }
}

/// The normal form of a relative path: forward slashes only, none leading.
pub open spec fn normalized(s: Seq<char>) -> Seq<char> {
    unslash(s).skip(leading_slashes(unslash(s)) as int)
}

/// The view of an optional string.
pub open spec fn opt_view(o: Option<String>) -> Option<Seq<char>> {
    match o {
        Some(s) => Some(s@),
        None => None,
    }
}

/// The views of a list of strings, in order.
pub open spec fn string_views(list: Seq<String>) -> Seq<Seq<char>> {
    Seq::new(list.len(), |i: int| list[i]@)
}

/// Whether the single-file filter lets `rel` through: no filter admits every
/// path, a filter admits the paths with its own normal form.
pub open spec fn filter_admits(rel: Seq<char>, filter: Option<Seq<char>>) -> bool {
    match filter {
        Some(f) => normalized(rel) == normalized(f),
        None => true,
    }
}

/// Whether mirroring leaves `rel` alone whatever the peer holds: staging
/// files, anything inside a `.git` directory, partial downloads, and
/// office lock files.
pub open spec fn ignored(rel: Seq<char>) -> bool {
    let r = unslash(rel);
    starts_with(r, ".leafsync_tmp/"@) || contains_sub(r, "/.git/"@) || ends_with(r, ".part"@)
        || starts_with(r, "~$"@) || contains_sub(r, "/~$"@)
}

/// `rel` below `root`: `rel` itself where it begins with a slash, else
/// `root`, a slash unless `root` is empty or already ends with one, and `rel`.
pub open spec fn joined(root: Seq<char>, rel: Seq<char>) -> Seq<char> {
    if rel.len() > 0 && rel[0] == '/' {
        rel
    } else if root.len() == 0 || root.last() == '/' {
        root + rel
    } else {
        root + seq!['/'] + rel
    }
}

/// Where the staged copy of `rel` lives below `root`.
pub open spec fn staged_at(root: Seq<char>, rel: Seq<char>) -> Seq<char> {
    joined(joined(root, ".leafsync_tmp"@), rel)
}

/// Where `rel` goes below `root` when mirroring removes it at `stamp`.
pub open spec fn trashed_at(root: Seq<char>, stamp: Seq<char>, rel: Seq<char>) -> Seq<char> {
    joined(joined(joined(root, ".leafsync_trash"@), stamp), rel)
}

/// A sequence that begins with exactly `k` slashes has `k` leading slashes.
pub proof fn lemma_leading_slashes(s: Seq<char>, k: nat)
    requires
        k <= s.len(),
        forall|j: int| 0 <= j < k ==> s[j] == '/',
        k == s.len() || s[k as int] != '/',
    ensures
        leading_slashes(s) == k,
    decreases k,
{
    if k > 0 {
        let t = s.drop_first();
        assert forall|j: int| 0 <= j < k - 1 implies t[j] == '/' by {
            assert(t[j] == s[j + 1]);
        }
        lemma_leading_slashes(t, (k - 1) as nat);
    }
}

/// The normal form of a relative path: every backslash becomes a forward
/// slash, then all leading forward slashes go.
pub fn normalize_rel(p: &str) -> (out: String)
    ensures
        out@ == normalized(p@),
{
    let norm = normalize_chars(p);
    from_chars(&norm)
}

/// The characters of the normal form of `p`.
pub fn normalize_chars(p: &str) -> (out: Vec<char>)
    ensures
        out@ == normalized(p@),
{
    let u = unslash_chars(p);
    let n: usize = u.len();
    let mut k: usize = 0;
    while k < n && u[k] == '/'
        invariant
            n == u@.len(),
            k <= n,
            forall|j: int| 0 <= j < k ==> u@[j] == '/',
        decreases n - k,
    {
        k = k + 1;
    }
    proof {
        lemma_leading_slashes(u@, k as nat);
    }
    let mut out: Vec<char> = Vec::new();
    let mut i: usize = k;
    while i < n
        invariant
            n == u@.len(),
            k <= i <= n,
            out@ == u@.subrange(k as int, i as int),
        decreases n - i,
    {
        out.push(u[i]);
        i = i + 1;
        assert(out@ =~= u@.subrange(k as int, i as int));
    }
    assert(out@ =~= u@.skip(k as int));
    out
}

/// The characters of `p` with every backslash turned into a forward slash.
pub fn unslash_chars(p: &str) -> (out: Vec<char>)
    ensures
        out@ == unslash(p@),
{
    let chars = to_chars(p);
    let mut out: Vec<char> = Vec::new();
    let mut i: usize = 0;
    while i < chars.len()
        invariant
            chars@ == p@,
            i <= chars@.len(),
            out@ == unslash(p@).take(i as int),
        decreases chars@.len() - i,
    {
        let c = chars[i];
        if c == '\\' {
            out.push('/');
        } else {
            out.push(c);
        }
        i = i + 1;
        assert(out@ =~= unslash(p@).take(i as int));
    }
    assert(out@ =~= unslash(p@));
    out
}

/// Whether the single-file filter lets `rel` through.
pub fn passes_filter(rel: &str, only_file: &Option<String>) -> (ok: bool)
    ensures
        ok == filter_admits(rel@, opt_view(*only_file)),
{
    match only_file {
        Some(f) => {
            let a = normalize_chars(rel);
            let b = normalize_chars(f.as_str());
            chars_eq(&a, &b)
        },
        None => true,
    }
}

/// Whether mirroring leaves `rel` alone whatever the peer holds.
pub fn is_ignored_rel(rel: &str) -> (skip: bool)
    ensures
        skip == ignored(rel@),
{
    let r = unslash_chars(rel);
    let tmp = to_chars(".leafsync_tmp/");
    let git = to_chars("/.git/");
    let part = to_chars(".part");
    let lock = to_chars("~$");
    let nested_lock = to_chars("/~$");
    has_prefix(&r, &tmp) || has_sub(&r, &git) || has_suffix(&r, &part) || has_prefix(&r, &lock)
        || has_sub(&r, &nested_lock)
}

/// `rel` below `root`, with `/` as separator. A `rel` that begins with a
/// slash stands for itself.
pub fn path_from_rel(root: &str, rel: &str) -> (out: String)
    ensures
        out@ == joined(root@, rel@),
{
    let r = to_chars(rel);
    if r.len() > 0 && r[0] == '/' {
        return from_chars(&r);
    }
    let mut out = to_chars(root);
    if out.len() > 0 && out[out.len() - 1] != '/' {
        out.push('/');
    }
    append_chars(&mut out, &r);
    assert(out@ =~= joined(root@, rel@));
    from_chars(&out)
}

/// Where the staged copy of `rel` lives below `root`:
/// `<root>/.leafsync_tmp/<rel>`.
pub fn staging_path(root: &str, rel: &str) -> (out: String)
    ensures
        out@ == staged_at(root@, rel@),
{
    let dir = path_from_rel(root, ".leafsync_tmp");
    path_from_rel(dir.as_str(), rel)
}

/// Where `rel` goes below `root` when mirroring removes it at `stamp`:
/// `<root>/.leafsync_trash/<stamp>/<rel>`.
pub fn trash_path(root: &str, stamp: &str, rel: &str) -> (out: String)
    ensures
        out@ == trashed_at(root@, stamp@, rel@),
{
    let trash = path_from_rel(root, ".leafsync_trash");
    let dir = path_from_rel(trash.as_str(), stamp);
    path_from_rel(dir.as_str(), rel)
}

/// Whether chunk `i` of the remote file has to be fetched: the local file
/// has no such chunk, or has another hash there.
pub open spec fn chunk_missing(local: Seq<Seq<u8>>, remote: Seq<Seq<u8>>, i: nat) -> bool {
    i >= local.len() || local[i as int] != remote[i as int]
}

/// The chunk indices that have to be fetched, ascending.
pub open spec fn needed_indices(local: Seq<Seq<u8>>, remote: Seq<Seq<u8>>) -> Seq<u64> {
    indices_where(remote.len(), |i: nat| chunk_missing(local, remote, i))
}

/// The chunk indices of the remote file that the local file lacks or holds
/// with another hash, ascending. Local chunks past the remote length are
/// never listed.
pub fn diff_needed_indices(local_chunks: &[ChunkInfo], remote_chunk_hashes: &[[u8; 32]]) -> (need:
    Vec<u64>)
    ensures
        need@ == needed_indices(chunk_hash_views(local_chunks@), hash_views(remote_chunk_hashes@)),
{
    let n: usize = remote_chunk_hashes.len();
    let have: usize = local_chunks.len();
    let ghost local = chunk_hash_views(local_chunks@);
    let ghost remote = hash_views(remote_chunk_hashes@);
    let ghost pick = |i: nat| chunk_missing(local, remote, i);
    let mut need: Vec<u64> = Vec::new();
    let mut i: usize = 0;
    while i < n
        invariant
            n == remote_chunk_hashes@.len(),
            have == local_chunks@.len(),
            local == chunk_hash_views(local_chunks@),
            remote == hash_views(remote_chunk_hashes@),
            pick == |i: nat| chunk_missing(local, remote, i),
            i <= n,
            need@ == indices_where(i as nat, pick),
        decreases n - i,
    {
        let miss: bool = if i < have {
            !hash_eq(&local_chunks[i].hash, &remote_chunk_hashes[i])
        } else {
            true
        };
        assert(miss == pick(i as nat));
        if miss {
            need.push(i as u64);
        }
        i = i + 1;
    }
    need
}

/// What the needed indices are: each lies below the remote chunk count, they
/// ascend strictly, and an index is listed exactly when the local file lacks
/// that chunk or holds it with another hash.
pub proof fn lemma_needed_indices(local: Seq<Seq<u8>>, remote: Seq<Seq<u8>>)
    requires
        remote.len() <= u64::MAX,
    ensures
        needed_indices(local, remote).len() <= remote.len(),
        forall|k: int|
            0 <= k < needed_indices(local, remote).len() ==> (#[trigger] needed_indices(
                local,
                remote,
            )[k]) < remote.len() && chunk_missing(
                local,
                remote,
                needed_indices(local, remote)[k] as nat,
            ),
        forall|j: int, k: int|
            0 <= j < k < needed_indices(local, remote).len() ==> needed_indices(local, remote)[j]
                < needed_indices(local, remote)[k],
        forall|i: u64|
            needed_indices(local, remote).contains(i) <==> (i < remote.len() && chunk_missing(
                local,
                remote,
                i as nat,
            )),
{
    lemma_indices_where(remote.len(), |i: nat| chunk_missing(local, remote, i));
}

/// The catalog entry of a file with path `rel` and contents `data`.
pub open spec fn summary_of(rel: Seq<char>, data: Seq<u8>) -> FileSummaryView {
    FileSummaryView {
        rel_path: rel,
        size: data.len(),
        chunk_count: chunk_count(data.len()),
        root: file_root(data),
    }
}

/// The catalog entry and the chunk list of a file with path `rel` and
/// contents `data`.
pub fn build_file_summary(rel: &str, data: &[u8]) -> (out: (FileSummary, Vec<ChunkInfo>))
    ensures
        out.0@ == summary_of(rel@, data@),
        chunk_views(out.1@) == chunks_of(data@),
{
    let chunks = chunk_file(data);
    proof {
        lemma_file_hashes(data@, chunks@);
    }
    let root = merkle_root_from_chunks(chunks.as_slice());
    let summary = FileSummary {
        rel_path: rel.to_owned(),
        size: data.len() as u64,
        chunk_count: chunks.len() as u64,
        root,
    };
    (summary, chunks)
}

/// The catalog of a folder, given each file's relative path and contents:
/// one entry per file, in the order given.
pub fn all_summaries(files: &Vec<(String, Vec<u8>)>) -> (out: Vec<(FileSummary, Vec<ChunkInfo>)>)
    ensures
        out@.len() == files@.len(),
        forall|i: int|
            0 <= i < files@.len() ==> (#[trigger] out@[i]).0@ == summary_of(
                files@[i].0@,
                files@[i].1@,
            ) && chunk_views(out@[i].1@) == chunks_of(files@[i].1@),
{
    let mut out: Vec<(FileSummary, Vec<ChunkInfo>)> = Vec::new();
    let mut i: usize = 0;
    while i < files.len()
        invariant
            i <= files@.len(),
            out@.len() == i,
            forall|k: int|
                0 <= k < i ==> (#[trigger] out@[k]).0@ == summary_of(files@[k].0@, files@[k].1@)
                    && chunk_views(out@[k].1@) == chunks_of(files@[k].1@),
        decreases files@.len() - i,
    {
        let entry = build_file_summary(files[i].0.as_str(), files[i].1.as_slice());
        out.push(entry);
        i = i + 1;
    }
    out
}

/// The entries of `files` that the filter admits, in order.
pub open spec fn admitted(files: Seq<FileSummaryView>, filter: Option<Seq<char>>) -> Seq<
    FileSummaryView,
>
    decreases files.len(),
{
    if files.len() == 0 {
        Seq::empty()
    } else if filter_admits(files.last().rel_path, filter) {
        admitted(files.drop_last(), filter).push(files.last())
    } else {
        admitted(files.drop_last(), filter)
    }
}

/// The catalog that a server announces: the entries whose path the
/// single-file filter admits, in order; all of them without a filter.
pub fn advertised_files(files: &Vec<FileSummary>, only_file: &Option<String>) -> (out: Vec<
    FileSummary,
>)
    ensures
        summary_views(out@) == admitted(summary_views(files@), opt_view(*only_file)),
{
    let ghost all = summary_views(files@);
    let ghost filter = opt_view(*only_file);
    let mut out: Vec<FileSummary> = Vec::new();
    let mut i: usize = 0;
    assert(all.take(0) =~= Seq::<FileSummaryView>::empty());
    assert(summary_views(out@) =~= admitted(all.take(0), filter));
    while i < files.len()
        invariant
            all == summary_views(files@),
            filter == opt_view(*only_file),
            i <= files@.len(),
            summary_views(out@) == admitted(all.take(i as int), filter),
        decreases files@.len() - i,
    {
        let f = &files[i];
        let ghost before = summary_views(out@);
        assert(all.take(i + 1).drop_last() =~= all.take(i as int));
        assert(all.take(i + 1).last() == f@);
        if passes_filter(f.rel_path.as_str(), only_file) {
            let copy = FileSummary {
                rel_path: f.rel_path.clone(),
                size: f.size,
                chunk_count: f.chunk_count,
                root: f.root,
            };
            out.push(copy);
            assert(summary_views(out@) =~= before.push(f@));
        }
        i = i + 1;
    }
    assert(all.take(files@.len() as int) =~= all);
    out
}

/// Whether the normal form `rel` of a local path is to be removed when
/// mirroring: the peer announces no file with that normal form, the
/// single-file filter names it if there is a filter, and it is not ignored.
pub open spec fn deletable(rel: Seq<char>, remote: Seq<Seq<char>>, filter: Option<
    Seq<char>,
>) -> bool {
    &&& forall|j: int| 0 <= j < remote.len() ==> normalized(#[trigger] remote[j]) != rel
    &&& (filter matches Some(f) ==> normalized(f) == rel)
    &&& !ignored(rel)
}

/// The normal forms of the local paths that mirroring removes, each once, in
/// the order in which the local paths first name them.
pub open spec fn to_delete(local: Seq<Seq<char>>, remote: Seq<Seq<char>>, filter: Option<
    Seq<char>,
>) -> Seq<Seq<char>>
    decreases local.len(),
{
    if local.len() == 0 {
        Seq::empty()
    } else {
        let rest = to_delete(local.drop_last(), remote, filter);
        let rel = normalized(local.last());
        if deletable(rel, remote, filter) && !rest.contains(rel) {
            rest.push(rel)
        } else {
            rest
        }
    }
}

/// Whether the list `list` holds the characters `item`.
fn list_has(list: &Vec<Vec<char>>, item: &Vec<char>) -> (found: bool)
    ensures
        found == (exists|j: int| 0 <= j < list@.len() && (#[trigger] list@[j])@ == item@),
{
    let mut j: usize = 0;
    while j < list.len()
        invariant
            j <= list@.len(),
            forall|k: int| 0 <= k < j ==> (#[trigger] list@[k])@ != item@,
        decreases list@.len() - j,
    {
        if chars_eq(&list[j], item) {
            return true;
        }
        j = j + 1;
    }
    false
}

/// The local files that mirroring moves to the trash: those whose normal
/// form the peer does not announce, that the single-file filter names if
/// there is one, and that are not ignored. Each is listed once, by its
/// normal form.
pub fn mirror_deletions(local: &Vec<String>, remote: &Vec<String>, only_file: &Option<String>) -> (out:
    Vec<String>)
    ensures
        string_views(out@) == to_delete(
            string_views(local@),
            string_views(remote@),
            opt_view(*only_file),
        ),
{
    let ghost locals = string_views(local@);
    let ghost remotes = string_views(remote@);
    let ghost filter = opt_view(*only_file);
    let mut remote_norm: Vec<Vec<char>> = Vec::new();
    let mut j: usize = 0;
    while j < remote.len()
        invariant
            remotes == string_views(remote@),
            j <= remote@.len(),
            remote_norm@.len() == j,
            forall|k: int| 0 <= k < j ==> (#[trigger] remote_norm@[k])@ == normalized(remotes[k]),
        decreases remote@.len() - j,
    {
        remote_norm.push(normalize_chars(remote[j].as_str()));
        j = j + 1;
    }
    let mut picked: Vec<Vec<char>> = Vec::new();
    let mut out: Vec<String> = Vec::new();
    let mut i: usize = 0;
    assert(locals.take(0) =~= Seq::<Seq<char>>::empty());
    assert(string_views(out@) =~= to_delete(locals.take(0), remotes, filter));
    while i < local.len()
        invariant
            locals == string_views(local@),
            remotes == string_views(remote@),
            filter == opt_view(*only_file),
            remote_norm@.len() == remote@.len(),
            forall|k: int|
                0 <= k < remote_norm@.len() ==> (#[trigger] remote_norm@[k])@ == normalized(
                    remotes[k],
                ),
            i <= local@.len(),
            picked@.len() == out@.len(),
            forall|k: int| 0 <= k < picked@.len() ==> (#[trigger] picked@[k])@ == out@[k]@,
            string_views(out@) == to_delete(locals.take(i as int), remotes, filter),
        decreases local@.len() - i,
    {
        let rel = normalize_chars(local[i].as_str());
        let ghost before = string_views(out@);
        assert(locals.take(i + 1).drop_last() =~= locals.take(i as int));
        assert(locals.take(i + 1).last() == local@[i as int]@);
        let announced = list_has(&remote_norm, &rel);
        let named = match only_file {
            Some(f) => {
                let want = normalize_chars(f.as_str());
                chars_eq(&want, &rel)
            },
            None => true,
        };
        let rel_text = from_chars(&rel);
        let skip = is_ignored_rel(rel_text.as_str());
        let seen = list_has(&picked, &rel);
        proof {
            if announced {
                let w = choose|w: int| 0 <= w < remote_norm@.len() && (#[trigger] remote_norm@[w])@ == rel@;
                assert(normalized(remotes[w]) == rel@);
            }
            assert(seen == before.contains(rel@)) by {
                if seen {
                    let w = choose|w: int| 0 <= w < picked@.len() && (#[trigger] picked@[w])@ == rel@;
                    assert(before[w] == rel@);
                }
                if before.contains(rel@) {
                    let w = choose|w: int| 0 <= w < before.len() && before[w] == rel@;
                    assert(picked@[w]@ == rel@);
                }
            }
            if !announced {
                assert forall|w: int| 0 <= w < remotes.len() implies normalized(
                    #[trigger] remotes[w],
                ) != rel@ by {
                    assert(remote_norm@[w]@ == normalized(remotes[w]));
                }
            }
            assert(named == (filter matches Some(f) ==> normalized(f) == rel@));
            assert(skip == ignored(rel@));
            assert(deletable(rel@, remotes, filter) == (!announced && named && !skip));
        }
        if !announced && named && !skip && !seen {
            picked.push(rel);
            out.push(rel_text);
            assert(string_views(out@) =~= before.push(rel_text@));
        }
        i = i + 1;
    }
    assert(locals.take(local@.len() as int) =~= locals);
    out
}

/// What mirroring removes: every listed path is the normal form of a local
/// path and deletable, none is listed twice, and every deletable normal form
/// of a local path is listed.
pub proof fn lemma_to_delete(local: Seq<Seq<char>>, remote: Seq<Seq<char>>, filter: Option<
    Seq<char>,
>)
    ensures
        forall|k: int|
            0 <= k < to_delete(local, remote, filter).len() ==> deletable(
                #[trigger] to_delete(local, remote, filter)[k],
                remote,
                filter,
            ) && exists|i: int|
                0 <= i < local.len() && normalized(#[trigger] local[i]) == to_delete(
                    local,
                    remote,
                    filter,
                )[k],
        forall|j: int, k: int|
            0 <= j < k < to_delete(local, remote, filter).len() ==> to_delete(
                local,
                remote,
                filter,
            )[j] != to_delete(local, remote, filter)[k],
        forall|i: int|
            0 <= i < local.len() && deletable(normalized(#[trigger] local[i]), remote, filter)
                ==> to_delete(local, remote, filter).contains(normalized(local[i])),
    decreases local.len(),
{
    if local.len() > 0 {
        let front = local.drop_last();
        lemma_to_delete(front, remote, filter);
        let rest = to_delete(front, remote, filter);
        let all = to_delete(local, remote, filter);
        let rel = normalized(local.last());
        assert forall|k: int| 0 <= k < all.len() implies deletable(
            #[trigger] all[k],
            remote,
            filter,
        ) && exists|i: int| 0 <= i < local.len() && normalized(#[trigger] local[i]) == all[k] by {
            if k < rest.len() {
                assert(all[k] == rest[k]);
                let i = choose|i: int| 0 <= i < front.len() && normalized(#[trigger] front[i]) == rest[k];
                assert(local[i] == front[i]);
            } else {
                assert(normalized(local[local.len() - 1]) == all[k]);
            }
        }
        assert forall|j: int, k: int| 0 <= j < k < all.len() implies all[j] != all[k] by {
            if k >= rest.len() {
                assert(rest[j] == all[j]);
                assert(!rest.contains(rel));
            }
        }
        assert forall|i: int|
            0 <= i < local.len() && deletable(
                normalized(#[trigger] local[i]),
                remote,
                filter,
            ) implies all.contains(normalized(local[i])) by {
            let want = normalized(local[i]);
            if i < front.len() {
                assert(front[i] == local[i]);
                assert(rest.contains(want));
                let w = choose|w: int| 0 <= w < rest.len() && rest[w] == want;
                assert(all[w] == want);
            } else if rest.contains(want) {
                let w = choose|w: int| 0 <= w < rest.len() && rest[w] == want;
                assert(all[w] == want);
            } else {
                assert(all[rest.len() as int] == want);
            }
        }
    }
}

/// Whether the staged contents `data` hash to the root that the peer
/// declared. Only then may the staged file take the place of the local one.
pub fn verify_staged(data: &[u8], declared_root: &[u8; 32]) -> (ok: bool)
    ensures
        ok == (file_root(data@) == declared_root@),
{
    let chunks = chunk_file(data);
    proof {
        lemma_file_hashes(data@, chunks@);
    }
    let root = merkle_root_from_chunks(chunks.as_slice());
    hash_eq(&root, declared_root)
}

/// Size in bytes of a file of `chunk_count` chunks whose last chunk holds
/// `last` bytes (a full chunk where `last` is `None`).
pub open spec fn size_of_chunks(chunk_count: nat, last: Option<usize>) -> nat {
    if chunk_count == 0 {
        0
    } else {
        match last {
            Some(l) => ((chunk_count - 1) * CHUNK_SIZE + l) as nat,
            None => (chunk_count * CHUNK_SIZE) as nat,
        }
    }
}

/// Size in bytes to which a file of `chunk_count` chunks is cut, or `None`
/// when that size does not fit in 64 bits.
pub fn expected_size(chunk_count: u64, last_chunk_size: Option<usize>) -> (out: Option<u64>)
    ensures
        size_of_chunks(chunk_count as nat, last_chunk_size) <= u64::MAX ==> out == Some(
            size_of_chunks(chunk_count as nat, last_chunk_size) as u64,
        ),
        size_of_chunks(chunk_count as nat, last_chunk_size) > u64::MAX ==> out.is_none(),
{
    if chunk_count == 0 {
        return Some(0);
    }
    let last: u64 = match last_chunk_size {
        Some(l) => l as u64,
        None => CHUNK_SIZE as u64,
    };
    match (chunk_count - 1).checked_mul(CHUNK_SIZE as u64) {
        Some(full) => full.checked_add(last),
        None => None,
    }
}

} // verus!
