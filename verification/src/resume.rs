//! Resume bookkeeping: which chunks of a file are already staged.
//!
//! An entry is kept per peer address, relative path and root. It records the
//! metadata it was made for and a bitmap with one bit per chunk. Bits are
//! only ever set; when the metadata of a transfer changes, the entry starts
//! over with an all-zero bitmap.

use vstd::prelude::*;
use crate::assoc::{StrMap, keys_distinct};
use crate::merkle::{hash_eq, indices_where};
use crate::syncer::path_from_rel;
use crate::text::{
    to_chars, from_chars, append_chars, to_hex, hex_of, hex_digit, trim_chars, trimmed, byte_len,
    byte_len_up_to, is_ascii_char, is_space, lemma_byte_len, lemma_leading_spaces,
    lemma_trailing_spaces,
};

verus! {

/// What is known of one interrupted transfer.
#[derive(Debug)]
pub struct ResumeEntry {
    pub size: u64,
    pub chunk_count: u64,
    pub root: [u8; 32],
    /// Bit `i % 8` of byte `i / 8` says that chunk `i` is staged.
    pub have: Vec<u8>,
}

/// The mathematical content of a [`ResumeEntry`].
pub struct ResumeEntryView {
    pub size: nat,
    pub chunk_count: nat,
    pub root: Seq<u8>,
    pub have: Seq<u8>,
}

impl View for ResumeEntry {
    type V = ResumeEntryView;

    open spec fn view(&self) -> ResumeEntryView {
        ResumeEntryView {
            size: self.size as nat,
            chunk_count: self.chunk_count as nat,
            root: self.root@,
            have: self.have@,
        }
    }
}

/// All resume entries, by key.
pub struct ResumeStore {
    pub entries: StrMap<ResumeEntry>,
}

/// Why a resume operation did nothing.
#[derive(Debug, Clone, Copy, PartialEq, Eq, Structural)]
pub enum ResumeError {
    /// The bitmap for that many chunks cannot be addressed on this machine.
    BitmapTooLarge,
}

/// Why a text is not the hexadecimal form of 32 bytes.
#[derive(Debug, Clone, Copy, PartialEq, Eq, Structural)]
pub enum HexError {
    /// The text, without surrounding white space, is not 64 bytes long.
    BadLength,
    /// The text has the right length but is not made of hexadecimal pairs.
    InvalidDigit,
}

/// The key of an entry, given the root in hexadecimal.
pub open spec fn key_of(addr: Seq<char>, rel_path: Seq<char>, root_hex: Seq<char>) -> Seq<char> {
    addr + seq!['|'] + rel_path + seq!['|'] + root_hex
}

/// The key of the entry for `rel_path` at `addr` with root `root`.
pub open spec fn entry_key(addr: Seq<char>, rel_path: Seq<char>, root: Seq<u8>) -> Seq<char> {
    key_of(addr, rel_path, hex_of(root))
}

/// Number of bitmap bytes for `chunk_count` chunks.
pub open spec fn bitmap_len(chunk_count: nat) -> nat {
    (chunk_count + 7) / 8
}

/// An all-zero bitmap of `n` bytes.
pub open spec fn zero_bits(n: nat) -> Seq<u8> {
    Seq::new(n, |i: int| 0u8)
}

/// Whether bit `i` of the bitmap is set. A bit past the bitmap is not.
pub open spec fn bit_set(have: Seq<u8>, i: nat) -> bool {
    i / 8 < have.len() && have[(i / 8) as int] & (1u8 << ((i % 8) as u8)) != 0
}

/// The bitmap with bit `i` set. A bit past the bitmap is ignored.
pub open spec fn with_bit(have: Seq<u8>, i: nat) -> Seq<u8> {
    if i / 8 < have.len() {
        have.update((i / 8) as int, have[(i / 8) as int] | (1u8 << ((i % 8) as u8)))
    } else {
        have
    }
}

/// The bitmap with the bits of all `indices` set.
pub open spec fn marked(have: Seq<u8>, indices: Seq<u64>) -> Seq<u8>
    decreases indices.len(),
{
    if indices.len() == 0 {
        have
    } else {
        with_bit(marked(have, indices.drop_last()), indices.last() as nat)
    }
}

/// Whether an entry was made for this size, chunk count and root.
pub open spec fn meta_matches(e: ResumeEntryView, size: nat, chunk_count: nat, root: Seq<u8>) -> bool {
    e.size == size && e.chunk_count == chunk_count && e.root == root
}

/// Whether the store holds an entry under `k` made for this metadata.
pub open spec fn has_current(
    entries: Map<Seq<char>, ResumeEntry>,
    k: Seq<char>,
    size: nat,
    chunk_count: nat,
    root: Seq<u8>,
) -> bool {
    entries.contains_key(k) && meta_matches(entries[k]@, size, chunk_count, root)
}

/// The bitmap that marking starts from: the stored one where the entry is
/// current, else all zeros.
pub open spec fn base_bits(
    entries: Map<Seq<char>, ResumeEntry>,
    k: Seq<char>,
    size: nat,
    chunk_count: nat,
    root: Seq<u8>,
) -> Seq<u8> {
    if has_current(entries, k, size, chunk_count, root) {
        entries[k].have@
    } else {
        zero_bits(bitmap_len(chunk_count))
    }
}

/// Whether `after` is `before` with the entry under `k` replaced by one with
/// content `e`, and nothing else touched.
pub open spec fn upserted(
    before: Map<Seq<char>, ResumeEntry>,
    after: Map<Seq<char>, ResumeEntry>,
    k: Seq<char>,
    e: ResumeEntryView,
) -> bool {
    &&& after.dom() == before.dom().insert(k)
    &&& after[k]@ == e
    &&& forall|other: Seq<char>|
        other != k && before.contains_key(other) ==> after[other] == before[other]
}

/// Whether `list` holds the content of every entry of `entries`, each once.
pub open spec fn lists_entries(
    list: Seq<(String, ResumeEntry)>,
    entries: Map<Seq<char>, ResumeEntry>,
) -> bool {
    &&& keys_distinct(list)
    &&& forall|i: int|
        0 <= i < list.len() ==> entries.contains_key((#[trigger] list[i]).0@)
            && entries[list[i].0@]@ == list[i].1@
    &&& forall|k: Seq<char>|
        entries.contains_key(k) ==> exists|i: int|
            0 <= i < list.len() && (#[trigger] list[i]).0@ == k
}

/// Setting one bit of a byte sets that bit and no other.
proof fn lemma_byte_bit(b: u8, k: u8, m: u8)
    requires
        k < 8,
        m < 8,
    ensures
        ((b | (1u8 << k)) & (1u8 << m) != 0) == ((b & (1u8 << m) != 0) || k == m),
        0u8 & (1u8 << m) == 0,
{
    assert(((b | (1u8 << k)) & (1u8 << m) != 0) == ((b & (1u8 << m) != 0) || k == m))
        by (bit_vector)
        requires
            k < 8,
            m < 8,
    ;
    assert(0u8 & (1u8 << m) == 0) by (bit_vector);
}

/// Setting bit `i` sets bit `i`, where the bitmap reaches that far, and
/// leaves every other bit and the length as they were.
pub proof fn lemma_with_bit(have: Seq<u8>, i: nat, j: nat)
    ensures
        with_bit(have, i).len() == have.len(),
        bit_set(with_bit(have, i), j) == (bit_set(have, j) || (j == i && i / 8 < have.len())),
{
    if i / 8 < have.len() && j / 8 < have.len() {
        let k = (i % 8) as u8;
        let m = (j % 8) as u8;
        lemma_byte_bit(have[(i / 8) as int], k, m);
        lemma_byte_bit(have[(j / 8) as int], k, m);
        if j / 8 == i / 8 {
            assert((j == i) == (k == m));
        }
    }
}

/// Marking only ever sets bits: a bit is set afterwards exactly when it was
/// set before or is one of the marked indices within the bitmap. The length
/// does not change.
pub proof fn lemma_marked(have: Seq<u8>, indices: Seq<u64>, j: nat)
    ensures
        marked(have, indices).len() == have.len(),
        bit_set(marked(have, indices), j) == (bit_set(have, j) || (j / 8 < have.len()
            && exists|k: int| 0 <= k < indices.len() && #[trigger] indices[k] == j)),
    decreases indices.len(),
{
    if indices.len() > 0 {
        let front = indices.drop_last();
        lemma_marked(have, front, j);
        lemma_with_bit(marked(have, front), indices.last() as nat, j);
        if j / 8 < have.len() {
            if exists|k: int| 0 <= k < front.len() && #[trigger] front[k] == j {
                let k = choose|k: int| 0 <= k < front.len() && #[trigger] front[k] == j;
                assert(indices[k] == j);
            }
            if indices.last() == j {
                assert(indices[indices.len() - 1] == j);
            }
            if exists|k: int| 0 <= k < indices.len() && #[trigger] indices[k] == j {
                let k = choose|k: int| 0 <= k < indices.len() && #[trigger] indices[k] == j;
                if k < front.len() {
                    assert(front[k] == j);
                }
            }
        }
    }
}

/// An all-zero bitmap has no bit set.
pub proof fn lemma_zero_bits(n: nat, j: nat)
    ensures
        !bit_set(zero_bits(n), j),
{
    lemma_byte_bit(0u8, 0u8, (j % 8) as u8);
}

/// Where the resume store is kept below the state directory.
pub fn resume_path(state_dir: &str) -> (out: String)
    ensures
        out@ == crate::syncer::joined(state_dir@, "resume.json"@),
{
    path_from_rel(state_dir, "resume.json")
}

/// The key of an entry: address, path and root in hexadecimal, separated by
/// vertical bars.
pub fn key(addr: &str, rel_path: &str, root_hex: &str) -> (out: String)
    ensures
        out@ == key_of(addr@, rel_path@, root_hex@),
{
    let mut out = to_chars(addr);
    out.push('|');
    let rel = to_chars(rel_path);
    append_chars(&mut out, &rel);
    out.push('|');
    let hex_chars = to_chars(root_hex);
    append_chars(&mut out, &hex_chars);
    assert(out@ =~= key_of(addr@, rel_path@, root_hex@));
    from_chars(&out)
}

/// Lower-case hexadecimal text of a root.
pub fn hex(bytes: &[u8; 32]) -> (out: String)
    ensures
        out@ == hex_of(bytes@),
        out@.len() == 64,
{
    to_hex(bytes.as_slice())
}

/// The key of the entry for `rel_path` at `addr` with root `root`.
fn key_for(addr: &str, rel_path: &str, root: &[u8; 32]) -> (out: String)
    ensures
        out@ == entry_key(addr@, rel_path@, root@),
{
    let root_hex = hex(root);
    key(addr, rel_path, root_hex.as_str())
}

/// Number of bitmap bytes for `chunk_count` chunks, or `None` where that
/// many bytes cannot be addressed.
pub fn bytes_len(chunk_count: u64) -> (out: Option<usize>)
    ensures
        bitmap_len(chunk_count as nat) <= usize::MAX ==> out == Some(
            bitmap_len(chunk_count as nat) as usize,
        ),
        bitmap_len(chunk_count as nat) > usize::MAX ==> out.is_none(),
{
    let full: u64 = chunk_count / 8;
    let n: u64 = if chunk_count % 8 == 0 {
        full
    } else {
        full + 1
    };
    if n > usize::MAX as u64 {
        None
    } else {
        Some(n as usize)
    }
}

/// Sets bit `index` of the bitmap; does nothing where the bitmap is shorter.
fn mark_bit(bits: &mut Vec<u8>, index: u64)
    ensures
        final(bits)@ == with_bit(old(bits)@, index as nat),
{
    let byte: u64 = index / 8;
    let bit: u8 = (index % 8) as u8;
    if byte < bits.len() as u64 {
        let at: usize = byte as usize;
        let b: u8 = bits[at];
        bits.set(at, b | (1u8 << bit));
    }
}

/// Whether bit `index` of the bitmap is set; a bit past the bitmap is not.
fn bit_at(bits: &Vec<u8>, index: u64) -> (out: bool)
    ensures
        out == bit_set(bits@, index as nat),
{
    let byte: u64 = index / 8;
    let bit: u8 = (index % 8) as u8;
    if byte >= bits.len() as u64 {
        return false;
    }
    (bits[byte as usize] & (1u8 << bit)) != 0
}

/// Sets bit `index` of the bitmap; does nothing where the bitmap is shorter.
pub fn set_bit(bits: &mut Vec<u8>, index: usize)
    ensures
        final(bits)@ == with_bit(old(bits)@, index as nat),
{
    mark_bit(bits, index as u64)
}

/// Whether bit `index` of the bitmap is set; a bit past the bitmap is not.
pub fn get_bit(bits: &Vec<u8>, index: usize) -> (out: bool)
    ensures
        out == bit_set(bits@, index as nat),
{
    bit_at(bits, index as u64)
}

/// A bitmap of `n` zero bytes.
fn zeroed(n: usize) -> (out: Vec<u8>)
    ensures
        out@ == zero_bits(n as nat),
{
    let mut out: Vec<u8> = Vec::new();
    let mut i: usize = 0;
    while i < n
        invariant
            i <= n,
            out@ == zero_bits(i as nat),
        decreases n - i,
    {
        out.push(0u8);
        i = i + 1;
        assert(out@ =~= zero_bits(i as nat));
    }
    out
}

/// A copy of the bitmap `bits`.
fn copy_bits(bits: &Vec<u8>) -> (out: Vec<u8>)
    ensures
        out@ == bits@,
{
    let mut out: Vec<u8> = Vec::new();
    let mut i: usize = 0;
    while i < bits.len()
        invariant
            i <= bits@.len(),
            out@ == bits@.take(i as int),
        decreases bits@.len() - i,
    {
        out.push(bits[i]);
        i = i + 1;
        assert(out@ =~= bits@.take(i as int));
    }
    assert(bits@.take(i as int) =~= bits@);
    out
}

impl ResumeEntry {
    /// A copy of this entry.
    pub fn duplicate(&self) -> (out: ResumeEntry)
        ensures
            out@ == self@,
    {
        ResumeEntry {
            size: self.size,
            chunk_count: self.chunk_count,
            root: self.root,
            have: copy_bits(&self.have),
        }
    }

    /// Whether this entry was made for this size, chunk count and root.
    pub fn matches(&self, size: u64, chunk_count: u64, root: &[u8; 32]) -> (out: bool)
        ensures
            out == meta_matches(self@, size as nat, chunk_count as nat, root@),
    {
        self.size == size && self.chunk_count == chunk_count && hash_eq(&self.root, root)
    }
}

impl ResumeStore {
    /// A store without entries.
    pub fn new() -> (out: ResumeStore)
        ensures
            out.entries@ == Map::<Seq<char>, ResumeEntry>::empty(),
    {
        ResumeStore { entries: StrMap::new() }
    }
}

impl Default for ResumeStore {
    /// A store without entries.
    fn default() -> (out: ResumeStore)
        ensures
            out.entries@ == Map::<Seq<char>, ResumeEntry>::empty(),
    {
        ResumeStore::new()
    }
}

/// The entry for `rel_path` at `addr` with root `root`, if the store has one.
pub fn get(store: &ResumeStore, addr: &str, rel_path: &str, root: &[u8; 32]) -> (out: Option<
    ResumeEntry,
>)
    ensures
        match out {
            Some(e) => store.entries@.contains_key(entry_key(addr@, rel_path@, root@)) && e@
                == store.entries@[entry_key(addr@, rel_path@, root@)]@,
            None => !store.entries@.contains_key(entry_key(addr@, rel_path@, root@)),
        },
{
    let k = key_for(addr, rel_path, root);
    match store.entries.get(k.as_str()) {
        Some(e) => Some(e.duplicate()),
        None => None,
    }
}

/// Records that chunk `index` of the transfer is staged.
pub fn upsert_mark(
    store: &mut ResumeStore,
    addr: &str,
    rel_path: &str,
    size: u64,
    chunk_count: u64,
    root: [u8; 32],
    index: u64,
) -> (out: Result<(), ResumeError>)
    ensures
        marking_done(
            old(store).entries@,
            final(store).entries@,
            entry_key(addr@, rel_path@, root@),
            size as nat,
            chunk_count as nat,
            root@,
            seq![index],
            out,
        ),
{
    let mut one: Vec<u64> = Vec::new();
    one.push(index);
    assert(one@ =~= seq![index]);
    upsert_mark_many(store, addr, rel_path, size, chunk_count, root, &one)
}

/// What [`upsert_mark_many`] does to the store and returns.
///
/// Where the store has no current entry for the transfer and the bitmap for
/// `chunk_count` chunks cannot be addressed, nothing changes and an error is
/// returned. Otherwise the entry for the transfer carries the given metadata
/// and the bitmap that results from setting the bits of `indices` in the
/// stored bitmap, where the entry was current, or in an all-zero bitmap of
/// the right length, where it was missing or made for other metadata. No
/// other entry changes.
pub open spec fn marking_done(
    before: Map<Seq<char>, ResumeEntry>,
    after: Map<Seq<char>, ResumeEntry>,
    k: Seq<char>,
    size: nat,
    chunk_count: nat,
    root: Seq<u8>,
    indices: Seq<u64>,
    out: Result<(), ResumeError>,
) -> bool {
    if !has_current(before, k, size, chunk_count, root) && bitmap_len(chunk_count) > usize::MAX {
        out == Err::<(), ResumeError>(ResumeError::BitmapTooLarge) && after == before
    } else {
        out.is_ok() && upserted(
            before,
            after,
            k,
            ResumeEntryView {
                size,
                chunk_count,
                root,
                have: marked(base_bits(before, k, size, chunk_count, root), indices),
            },
        )
    }
}

/// Records that the chunks `indices` of the transfer are staged.
///
/// The entry is made if it is missing and started over if it was made for
/// another size, chunk count or root; then each named bit is set. Indices
/// past the bitmap are ignored.
pub fn upsert_mark_many(
    store: &mut ResumeStore,
    addr: &str,
    rel_path: &str,
    size: u64,
    chunk_count: u64,
    root: [u8; 32],
    indices: &Vec<u64>,
) -> (out: Result<(), ResumeError>)
    ensures
        marking_done(
            old(store).entries@,
            final(store).entries@,
            entry_key(addr@, rel_path@, root@),
            size as nat,
            chunk_count as nat,
            root@,
            indices@,
            out,
        ),
{
    let k = key_for(addr, rel_path, &root);
    let ghost before = store.entries@;
    let ghost base = base_bits(before, k@, size as nat, chunk_count as nat, root@);
    let current: Option<Vec<u8>> = match store.entries.get(k.as_str()) {
        Some(e) => if e.matches(size, chunk_count, &root) {
            Some(copy_bits(&e.have))
        } else {
            None
        },
        None => None,
    };
    let mut have: Vec<u8> = match current {
        Some(bits) => bits,
        None => match bytes_len(chunk_count) {
            Some(n) => zeroed(n),
            None => {
                return Err(ResumeError::BitmapTooLarge);
            },
        },
    };
    assert(have@ == base);
    let mut i: usize = 0;
    assert(indices@.take(0) =~= Seq::<u64>::empty());
    while i < indices.len()
        invariant
            i <= indices@.len(),
            have@ == marked(base, indices@.take(i as int)),
        decreases indices@.len() - i,
    {
        assert(indices@.take(i + 1).drop_last() =~= indices@.take(i as int));
        mark_bit(&mut have, indices[i]);
        i = i + 1;
    }
    assert(indices@.take(i as int) =~= indices@);
    let entry = ResumeEntry { size, chunk_count, root, have };
    store.entries.insert(k, entry);
    assert(store.entries@.dom() =~= before.dom().insert(k@));
    Ok(())
}

/// The chunks of the transfer that are not yet staged, ascending, if the
/// store holds an entry made for exactly this size, chunk count and root;
/// `None` otherwise.
pub fn missing_indices_for(
    store: &ResumeStore,
    addr: &str,
    rel_path: &str,
    size: u64,
    chunk_count: u64,
    root: [u8; 32],
) -> (out: Option<Vec<u64>>)
    ensures
        match out {
            Some(need) => has_current(
                store.entries@,
                entry_key(addr@, rel_path@, root@),
                size as nat,
                chunk_count as nat,
                root@,
            ) && need@ == unmarked(
                store.entries@[entry_key(addr@, rel_path@, root@)].have@,
                chunk_count as nat,
            ),
            None => !has_current(
                store.entries@,
                entry_key(addr@, rel_path@, root@),
                size as nat,
                chunk_count as nat,
                root@,
            ),
        },
{
    let k = key_for(addr, rel_path, &root);
    match store.entries.get(k.as_str()) {
        Some(e) => {
            if !e.matches(size, chunk_count, &root) {
                return None;
            }
            let ghost pick = |i: nat| !bit_set(e.have@, i);
            let mut need: Vec<u64> = Vec::new();
            let mut i: u64 = 0;
            while i < chunk_count
                invariant
                    i <= chunk_count,
                    pick == |i: nat| !bit_set(e.have@, i),
                    need@ == indices_where(i as nat, pick),
                decreases chunk_count - i,
            {
                let staged = bit_at(&e.have, i);
                assert(!staged == pick(i as nat));
                if !staged {
                    need.push(i);
                }
                i = i + 1;
            }
            Some(need)
        },
        None => None,
    }
}

/// Within one metadata epoch bits only go from unset to set; an entry that
/// was missing or made for other metadata starts from an all-zero bitmap, so
/// that afterwards only bits of the marked indices are set.
pub proof fn lemma_resume_monotone(
    before: Map<Seq<char>, ResumeEntry>,
    after: Map<Seq<char>, ResumeEntry>,
    k: Seq<char>,
    size: nat,
    chunk_count: nat,
    root: Seq<u8>,
    indices: Seq<u64>,
    out: Result<(), ResumeError>,
    j: nat,
)
    requires
        marking_done(before, after, k, size, chunk_count, root, indices, out),
        out.is_ok(),
    ensures
        after.contains_key(k),
        meta_matches(after[k]@, size, chunk_count, root),
        has_current(before, k, size, chunk_count, root) ==> after[k].have@.len()
            == before[k].have@.len() && (bit_set(before[k].have@, j) ==> bit_set(
            after[k].have@,
            j,
        )),
        !has_current(before, k, size, chunk_count, root) ==> after[k].have@.len() == bitmap_len(
            chunk_count,
        ) && (bit_set(after[k].have@, j) ==> exists|i: int|
            0 <= i < indices.len() && #[trigger] indices[i] == j),
{
    let base = base_bits(before, k, size, chunk_count, root);
    lemma_marked(base, indices, j);
    lemma_zero_bits(bitmap_len(chunk_count), j);
    assert(after.dom().contains(k));
}

/// The value of a hexadecimal digit in either case, if `c` is one.
pub open spec fn hex_val(c: char) -> Option<u8> {
    if '0' <= c && c <= '9' {
        Some(((c as u32) - 48) as u8)
    } else if 'a' <= c && c <= 'f' {
        Some(((c as u32) - 87) as u8)
    } else if 'A' <= c && c <= 'F' {
        Some(((c as u32) - 55) as u8)
    } else {
        None
    }
}

/// The byte that two characters spell: two hexadecimal digits, or a plus
/// sign and one hexadecimal digit.
pub open spec fn pair_val(a: char, b: char) -> Option<u8> {
    if a == '+' {
        hex_val(b)
    } else {
        match (hex_val(a), hex_val(b)) {
            (Some(x), Some(y)) => Some((16 * x + y) as u8),
            _ => None,
        }
    }
}

/// Whether `t` is 64 characters that spell 32 bytes pair by pair.
pub open spec fn spells_hex32(t: Seq<char>) -> bool {
    t.len() == 64 && forall|i: int| 0 <= i < 32 ==> (#[trigger] pair_val(t[2 * i], t[2 * i + 1]))
        is Some
}

/// What a text without surrounding white space parses to.
pub open spec fn hex32_of(t: Seq<char>) -> Result<Seq<u8>, HexError> {
    if byte_len(t) != 64 {
        Err(HexError::BadLength)
    } else if spells_hex32(t) {
        Ok(Seq::new(32, |i: int| pair_val(t[2 * i], t[2 * i + 1]).unwrap()))
    } else {
        Err(HexError::InvalidDigit)
    }
}

/// The value of a hexadecimal digit in either case, if `c` is one.
fn hex_value(c: char) -> (out: Option<u8>)
    ensures
        out == hex_val(c),
{
    if '0' <= c && c <= '9' {
        Some(((c as u32) - 48) as u8)
    } else if 'a' <= c && c <= 'f' {
        Some(((c as u32) - 87) as u8)
    } else if 'A' <= c && c <= 'F' {
        Some(((c as u32) - 55) as u8)
    } else {
        None
    }
}

/// The byte that two characters spell, if they spell one.
fn pair_value(a: char, b: char) -> (out: Option<u8>)
    ensures
        out == pair_val(a, b),
{
    if a == '+' {
        return hex_value(b);
    }
    match hex_value(a) {
        Some(x) => match hex_value(b) {
            Some(y) => Some(16 * x + y),
            None => None,
        },
        None => None,
    }
}

/// Reads 32 bytes from their hexadecimal text.
///
/// White space at the two ends is skipped. What is left must be 64 bytes
/// long, else the length is reported; it must then consist of 32 pairs that
/// each spell a byte, else an invalid digit is reported.
pub fn parse_hex32(s: &str) -> (out: Result<[u8; 32], HexError>)
    ensures
        match out {
            Ok(bytes) => hex32_of(trimmed(s@)) == Ok::<Seq<u8>, HexError>(bytes@),
            Err(e) => hex32_of(trimmed(s@)) == Err::<Seq<u8>, HexError>(e),
        },
{
    let t = trim_chars(s);
    match byte_len_up_to(&t, 64) {
        Some(n) => {
            if n != 64 {
                return Err(HexError::BadLength);
            }
        },
        None => {
            return Err(HexError::BadLength);
        },
    }
    if t.len() != 64 {
        return Err(HexError::InvalidDigit);
    }
    let mut bytes: [u8; 32] = [0u8; 32];
    let mut i: usize = 0;
    while i < 32
        invariant
            i <= 32,
            t@ == trimmed(s@),
            t@.len() == 64,
            byte_len(t@) == 64,
            forall|k: int| 0 <= k < i ==> (#[trigger] pair_val(t@[2 * k], t@[2 * k + 1])) is Some,
            forall|k: int| 0 <= k < i ==> bytes@[k] == pair_val(t@[2 * k], t@[2 * k + 1]).unwrap(),
        decreases 32 - i,
    {
        match pair_value(t[2 * i], t[2 * i + 1]) {
            Some(b) => {
                bytes[i] = b;
            },
            None => {
                assert(!spells_hex32(t@)) by {
                    assert(pair_val(t@[2 * (i as int)], t@[2 * (i as int) + 1]) is None);
                }
                return Err(HexError::InvalidDigit);
            },
        }
        i = i + 1;
    }
    assert(bytes@ =~= Seq::new(32, |i: int| pair_val(t@[2 * i], t@[2 * i + 1]).unwrap()));
    Ok(bytes)
}

/// A hexadecimal digit spells its own value, is ASCII, and is neither a plus
/// sign nor white space.
pub proof fn lemma_hex_digit(n: u8)
    requires
        n < 16,
    ensures
        hex_val(hex_digit(n)) == Some(n),
        hex_digit(n) != '+',
        is_ascii_char(hex_digit(n)),
        !is_space(hex_digit(n)),
{
}

/// Reading back the hexadecimal text of 32 bytes gives those bytes.
pub proof fn lemma_hex_round_trip(bytes: Seq<u8>)
    requires
        bytes.len() == 32,
    ensures
        trimmed(hex_of(bytes)) == hex_of(bytes),
        hex32_of(trimmed(hex_of(bytes))) == Ok::<Seq<u8>, HexError>(bytes),
{
    let t = hex_of(bytes);
    assert forall|i: int| 0 <= i < t.len() implies is_ascii_char(#[trigger] t[i]) && !is_space(
        t[i],
    ) by {
        lemma_hex_digit(bytes[i / 2] / 16);
        lemma_hex_digit(bytes[i / 2] % 16);
    }
    lemma_leading_spaces(t, 0);
    assert(t.skip(0) =~= t);
    lemma_trailing_spaces(t, 0);
    assert(t.take(t.len() as int) =~= t);
    lemma_byte_len(t);
    assert forall|i: int| 0 <= i < 32 implies (#[trigger] pair_val(t[2 * i], t[2 * i + 1]))
        == Some(bytes[i]) by {
        let b = bytes[i];
        lemma_hex_digit(b / 16);
        lemma_hex_digit(b % 16);
        assert(t[2 * i] == hex_digit(b / 16));
        assert(t[2 * i + 1] == hex_digit(b % 16));
        assert(16 * (b / 16) + b % 16 == b);
    }
    assert(Seq::new(32, |i: int| pair_val(t[2 * i], t[2 * i + 1]).unwrap()) =~= bytes);
}

/// The chunk indices below `chunk_count` whose bit is not set, ascending.
pub open spec fn unmarked(have: Seq<u8>, chunk_count: nat) -> Seq<u64> {
    indices_where(chunk_count, |i: nat| !bit_set(have, i))
}

/// Forgets the entry for `rel_path` at `addr` with root `root`.
pub fn clear(store: &mut ResumeStore, addr: &str, rel_path: &str, root: [u8; 32])
    ensures
        final(store).entries@ == old(store).entries@.remove(entry_key(addr@, rel_path@, root@)),
{
    let k = key_for(addr, rel_path, &root);
    let _ = store.entries.remove(k.as_str());
}

/// Every entry of the store with its key, each once.
pub fn list_all(store: &ResumeStore) -> (out: Vec<(String, ResumeEntry)>)
    ensures
        lists_entries(out@, store.entries@),
{
    let all = store.entries.entries();
    let mut out: Vec<(String, ResumeEntry)> = Vec::new();
    let mut i: usize = 0;
    while i < all.len()
        invariant
            i <= all@.len(),
            out@.len() == i,
            forall|k: int|
                0 <= k < i ==> (#[trigger] out@[k]).0@ == all@[k].0@ && out@[k].1@ == all@[k].1@,
        decreases all@.len() - i,
    {
        out.push((all[i].0.clone(), all[i].1.duplicate()));
        i = i + 1;
    }
    assert(lists_entries(out@, store.entries@)) by {
        assert forall|a: int, b: int| 0 <= a < b < out@.len() implies (#[trigger] out@[a]).0@ != (
        #[trigger] out@[b]).0@ by {
            assert(all@[a].0@ != all@[b].0@);
        }
        assert forall|k: Seq<char>| store.entries@.contains_key(k) implies exists|i: int|
            0 <= i < out@.len() && (#[trigger] out@[i]).0@ == k by {
            let w = choose|w: int| 0 <= w < all@.len() && (#[trigger] all@[w]).0@ == k;
            assert(out@[w].0@ == k);
        }
        assert forall|i: int| 0 <= i < out@.len() implies store.entries@.contains_key(
            (#[trigger] out@[i]).0@,
        ) && store.entries@[out@[i].0@]@ == out@[i].1@ by {
            assert(all@[i].0@ == out@[i].0@);
        }
    }
    out
}

} // verus!
