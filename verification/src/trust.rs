//! Trust on first use: which certificate fingerprint each peer address is
//! pinned to, and the rule that admits or refuses a presented certificate.
//!
//! A fingerprint is the lower-case hexadecimal SHA-256 of a certificate's
//! DER encoding. Pinning is the only authentication there is.

use vstd::prelude::*;
use crate::assoc::{StrMap, keys_distinct};
use crate::chunk::{sha256, hash_bytes};
use crate::syncer::{path_from_rel, joined, opt_view};
use crate::text::{to_chars, from_chars, append_chars, to_hex, hex_of, eq_ignore_ascii_case, eq_ignoring_ascii_case};

verus! {

/// The pinned fingerprint of each known peer address.
pub struct TrustStore {
    pub servers: StrMap<String>,
}

/// Whether `after` is `before` with `addr` pinned to `fp` and nothing else
/// touched.
pub open spec fn pinned(
    before: Map<Seq<char>, String>,
    after: Map<Seq<char>, String>,
    addr: Seq<char>,
    fp: Seq<char>,
) -> bool {
    &&& after.dom() == before.dom().insert(addr)
    &&& after[addr]@ == fp
    &&& forall|other: Seq<char>|
        other != addr && before.contains_key(other) ==> after[other] == before[other]
}

/// Whether `list` holds every pin of `servers`, each once.
pub open spec fn lists_pins(list: Seq<(String, String)>, servers: Map<Seq<char>, String>) -> bool {
    &&& keys_distinct(list)
    &&& forall|i: int|
        0 <= i < list.len() ==> servers.contains_key((#[trigger] list[i]).0@)
            && servers[list[i].0@]@ == list[i].1@
    &&& forall|k: Seq<char>|
        servers.contains_key(k) ==> exists|i: int|
            0 <= i < list.len() && (#[trigger] list[i]).0@ == k
}

/// The fingerprint of a certificate with DER encoding `der`.
pub open spec fn fingerprint_of(der: Seq<u8>) -> Seq<char> {
    hex_of(sha256(der))
}

impl TrustStore {
    /// A store without pins.
    pub fn new() -> (out: TrustStore)
        ensures
            out.servers@ == Map::<Seq<char>, String>::empty(),
    {
        TrustStore { servers: StrMap::new() }
    }
}

impl Default for TrustStore {
    /// A store without pins.
    fn default() -> (out: TrustStore)
        ensures
            out.servers@ == Map::<Seq<char>, String>::empty(),
    {
        TrustStore::new()
    }
}

/// Where the trust store is kept below the state directory.
pub fn trust_path(state_dir: &str) -> (out: String)
    ensures
        out@ == joined(state_dir@, "trust.json"@),
{
    path_from_rel(state_dir, "trust.json")
}

/// The fingerprint that `addr` is pinned to, if it is pinned.
pub fn get(store: &TrustStore, addr: &str) -> (out: Option<String>)
    ensures
        match out {
            Some(fp) => store.servers@.contains_key(addr@) && fp@ == store.servers@[addr@]@,
            None => !store.servers@.contains_key(addr@),
        },
{
    match store.servers.get(addr) {
        Some(fp) => Some(fp.clone()),
        None => None,
    }
}

/// Pins `addr` to `fp_hex`, in place of an earlier pin.
pub fn set(store: &mut TrustStore, addr: &str, fp_hex: &str)
    ensures
        pinned(old(store).servers@, final(store).servers@, addr@, fp_hex@),
{
    let ghost before = store.servers@;
    store.servers.insert(addr.to_owned(), fp_hex.to_owned());
    assert(store.servers@.dom() =~= before.dom().insert(addr@));
}

/// Removes the pin of `addr`; says whether there was one.
pub fn remove(store: &mut TrustStore, addr: &str) -> (was_pinned: bool)
    ensures
        final(store).servers@ == old(store).servers@.remove(addr@),
        was_pinned == old(store).servers@.contains_key(addr@),
{
    store.servers.remove(addr).is_some()
}

/// Every pin of the store as address and fingerprint, each once.
pub fn list(store: &TrustStore) -> (out: Vec<(String, String)>)
    ensures
        lists_pins(out@, store.servers@),
{
    let all = store.servers.entries();
    let mut out: Vec<(String, String)> = Vec::new();
    let mut i: usize = 0;
    while i < all.len()
        invariant
            i <= all@.len(),
            out@.len() == i,
            forall|k: int|
                0 <= k < i ==> (#[trigger] out@[k]).0@ == all@[k].0@ && out@[k].1@ == all@[k].1@,
        decreases all@.len() - i,
    {
        out.push((all[i].0.clone(), all[i].1.clone()));
        i = i + 1;
    }
    assert(lists_pins(out@, store.servers@)) by {
        assert forall|a: int, b: int| 0 <= a < b < out@.len() implies (#[trigger] out@[a]).0@ != (
        #[trigger] out@[b]).0@ by {
            assert(all@[a].0@ != all@[b].0@);
        }
        assert forall|k: Seq<char>| store.servers@.contains_key(k) implies exists|i: int|
            0 <= i < out@.len() && (#[trigger] out@[i]).0@ == k by {
            let w = choose|w: int| 0 <= w < all@.len() && (#[trigger] all@[w]).0@ == k;
            assert(out@[w].0@ == k);
        }
        assert forall|i: int| 0 <= i < out@.len() implies store.servers@.contains_key(
            (#[trigger] out@[i]).0@,
        ) && store.servers@[out@[i].0@]@ == out@[i].1@ by {
            assert(all@[i].0@ == out@[i].0@);
        }
    }
    out
}

/// The fingerprint of a certificate: lower-case hexadecimal SHA-256 of its
/// DER encoding, 64 characters.
pub fn sha256_hex(bytes: &[u8]) -> (out: String)
    ensures
        out@ == fingerprint_of(bytes@),
        out@.len() == 64,
{
    let digest = hash_bytes(bytes);
    to_hex(digest.as_slice())
}

/// The fingerprint that a connection to `addr` expects: the one given for
/// this connection, else the one that `addr` is pinned to, else none.
pub fn expected_fingerprint(fingerprint: Option<String>, store: &TrustStore, addr: &str) -> (out:
    Option<String>)
    ensures
        fingerprint is Some ==> out == fingerprint,
        fingerprint is None ==> match out {
            Some(fp) => store.servers@.contains_key(addr@) && fp@ == store.servers@[addr@]@,
            None => !store.servers@.contains_key(addr@),
        },
{
    match fingerprint {
        Some(fp) => Some(fp),
        None => get(store, addr),
    }
}

/// What decides on a presented server certificate.
#[derive(Debug, Clone)]
pub struct PinVerifier {
    /// The peer address that the connection was opened to.
    pub addr: String,
    /// The fingerprint that the certificate must have, if one is known.
    pub expected: Option<String>,
    /// Whether an unknown certificate is accepted and pinned.
    pub accept_first: bool,
}

/// Why a certificate was refused.
#[derive(Debug, Clone)]
pub enum PinError {
    /// The certificate does not have the expected fingerprint.
    Mismatch { expected: String, got: String },
    /// No fingerprint is known for the peer and first use is not accepted.
    Untrusted { addr: String, fingerprint: String },
}

/// The four ways in which a certificate is judged.
pub enum PinVerdict {
    /// The fingerprint is the expected one.
    Accept,
    /// No fingerprint was expected and first use is accepted: pin it.
    AcceptAndPin,
    /// The fingerprint is not the expected one.
    Mismatch,
    /// No fingerprint was expected and first use is not accepted.
    Untrusted,
}

/// How a certificate with fingerprint `fp` is judged.
pub open spec fn pin_verdict(expected: Option<Seq<char>>, accept_first: bool, fp: Seq<char>) -> PinVerdict {
    match expected {
        Some(exp) => if eq_ignoring_ascii_case(exp, fp) {
            PinVerdict::Accept
        } else {
            PinVerdict::Mismatch
        },
        None => if accept_first {
            PinVerdict::AcceptAndPin
        } else {
            PinVerdict::Untrusted
        },
    }
}

/// The text of a mismatch: it names both fingerprints.
pub open spec fn mismatch_text(expected: Seq<char>, got: Seq<char>) -> Seq<char> {
    "fingerprint mismatch: expected "@ + expected + ", got "@ + got
}

/// The text of a refusal on first contact: it names the address, the
/// fingerprint, and the two flags that would admit the peer.
pub open spec fn untrusted_text(addr: Seq<char>, fp: Seq<char>) -> Seq<char> {
    "untrusted server "@ + addr + " with fingerprint "@ + fp
        + ". Re-run with --accept-first or --fingerprint "@ + fp
}

impl PinError {
    /// The text of this refusal.
    pub open spec fn text(self) -> Seq<char> {
        match self {
            PinError::Mismatch { expected, got } => mismatch_text(expected@, got@),
            PinError::Untrusted { addr, fingerprint } => untrusted_text(addr@, fingerprint@),
        }
    }

    /// The text of this refusal, for the user.
    pub fn message(&self) -> (out: String)
        ensures
            out@ == self.text(),
    {
        match self {
            PinError::Mismatch { expected, got } => {
                let mut out = to_chars("fingerprint mismatch: expected ");
                let e = to_chars(expected.as_str());
                append_chars(&mut out, &e);
                let mid = to_chars(", got ");
                append_chars(&mut out, &mid);
                let g = to_chars(got.as_str());
                append_chars(&mut out, &g);
                from_chars(&out)
            },
            PinError::Untrusted { addr, fingerprint } => {
                let mut out = to_chars("untrusted server ");
                let a = to_chars(addr.as_str());
                append_chars(&mut out, &a);
                let mid = to_chars(" with fingerprint ");
                append_chars(&mut out, &mid);
                let f = to_chars(fingerprint.as_str());
                append_chars(&mut out, &f);
                let tail = to_chars(". Re-run with --accept-first or --fingerprint ");
                append_chars(&mut out, &tail);
                append_chars(&mut out, &f);
                from_chars(&out)
            },
        }
    }
}

/// What [`PinVerifier::verify_server_cert`] returns and does to the store
/// for a certificate with fingerprint `fp`.
pub open spec fn pin_checked(
    addr: Seq<char>,
    expected: Option<Seq<char>>,
    accept_first: bool,
    fp: Seq<char>,
    before: Map<Seq<char>, String>,
    after: Map<Seq<char>, String>,
    out: Result<(), PinError>,
) -> bool {
    match pin_verdict(expected, accept_first, fp) {
        PinVerdict::Accept => out.is_ok() && after == before,
        PinVerdict::AcceptAndPin => out.is_ok() && pinned(before, after, addr, fp),
        PinVerdict::Mismatch => after == before && (out matches Err(
            PinError::Mismatch { expected: e, got },
        ) && Some(e@) == expected && got@ == fp),
        PinVerdict::Untrusted => after == before && (out matches Err(
            PinError::Untrusted { addr: a, fingerprint },
        ) && a@ == addr && fingerprint@ == fp),
    }
}

impl PinVerifier {
    /// Judges the certificate with DER encoding `leaf_der`.
    ///
    /// With an expected fingerprint the certificate is accepted exactly when
    /// its fingerprint equals the expected one up to letter case; the store
    /// is not touched. Without one it is accepted exactly when first use is
    /// accepted, and then the address is pinned to the fingerprint. A
    /// refusal carries the fingerprints that the user needs to act.
    pub fn verify_server_cert(&self, leaf_der: &[u8], store: &mut TrustStore) -> (out: Result<
        (),
        PinError,
    >)
        ensures
            pin_checked(
                self.addr@,
                opt_view(self.expected),
                self.accept_first,
                fingerprint_of(leaf_der@),
                old(store).servers@,
                final(store).servers@,
                out,
            ),
    {
        let fp = sha256_hex(leaf_der);
        match &self.expected {
            Some(exp) => {
                if eq_ignore_ascii_case(exp.as_str(), fp.as_str()) {
                    Ok(())
                } else {
                    Err(PinError::Mismatch { expected: exp.clone(), got: fp })
                }
            },
            None => {
                if self.accept_first {
                    set(store, self.addr.as_str(), fp.as_str());
                    Ok(())
                } else {
                    Err(PinError::Untrusted { addr: self.addr.clone(), fingerprint: fp })
                }
            },
        }
    }
}

/// The pinning rule. With an expected fingerprint, a certificate is accepted
/// if and only if its fingerprint equals the expected one up to letter case,
/// and nothing is stored. Without one, it is accepted if and only if first
/// use is accepted, and then exactly one pin is stored: that of the address,
/// to the fingerprint presented.
pub proof fn lemma_pinning(
    addr: Seq<char>,
    expected: Option<Seq<char>>,
    accept_first: bool,
    der: Seq<u8>,
    before: Map<Seq<char>, String>,
    after: Map<Seq<char>, String>,
    out: Result<(), PinError>,
)
    requires
        pin_checked(addr, expected, accept_first, fingerprint_of(der), before, after, out),
    ensures
        expected matches Some(exp) ==> (out.is_ok() <==> eq_ignoring_ascii_case(
            exp,
            hex_of(sha256(der)),
        )) && after == before,
        expected is None ==> (out.is_ok() <==> accept_first),
        expected is None && accept_first ==> after.dom() == before.dom().insert(addr)
            && after[addr]@ == hex_of(sha256(der)) && forall|other: Seq<char>|
            other != addr && before.contains_key(other) ==> after[other] == before[other],
        out.is_err() ==> after == before,
{
}

} // verus!
