use leafsync::trust::{
    expected_fingerprint, list, remove, sha256_hex, trust_path, PinError, PinVerifier, TrustStore,
};

const EMPTY_FP: &str = "e3b0c44298fc1c149afbf4c8996fb92427ae41e4649b934ca495991b7852b855";
const ABC_FP: &str = "ba7816bf8f01cfea414140de5dae2223b00361a396177a9cb410ff61f20015ad";
const ADDR: &str = "192.168.1.20:4455";

fn pin_check(expected: Option<&str>, accept_first: bool) -> PinVerifier {
    PinVerifier {
        addr: ADDR.to_string(),
        expected: expected.map(|s| s.to_string()),
        accept_first,
    }
}

#[test]
fn fingerprint_is_lower_case_hex_of_sha256() {
    assert_eq!(sha256_hex(b""), EMPTY_FP);
    assert_eq!(sha256_hex(b"abc"), ABC_FP);
    assert_eq!(sha256_hex(b"abc").len(), 64);
}

#[test]
fn trust_store_lives_in_the_state_directory() {
    assert_eq!(trust_path("/home/u/.local/share/leafsync"), "/home/u/.local/share/leafsync/trust.json");
}

#[test]
fn a_new_store_pins_nothing() {
    let store = TrustStore::new();
    assert_eq!(leafsync::trust::get(&store, ADDR), None);
    assert!(list(&store).is_empty());
    assert!(store.servers.is_empty());
}

#[test]
fn the_default_store_pins_nothing() {
    let store = TrustStore::default();
    assert!(list(&store).is_empty());
}

#[test]
fn set_then_get_gives_the_fingerprint() {
    let mut store = TrustStore::new();
    leafsync::trust::set(&mut store, ADDR, ABC_FP);
    assert_eq!(leafsync::trust::get(&store, ADDR), Some(ABC_FP.to_string()));
    assert_eq!(leafsync::trust::get(&store, "other:1"), None);
    assert!(!store.servers.is_empty());
}

#[test]
fn set_replaces_an_earlier_pin() {
    let mut store = TrustStore::new();
    leafsync::trust::set(&mut store, ADDR, ABC_FP);
    leafsync::trust::set(&mut store, "b:2", "11");
    leafsync::trust::set(&mut store, ADDR, EMPTY_FP);
    assert_eq!(leafsync::trust::get(&store, ADDR), Some(EMPTY_FP.to_string()));
    assert_eq!(leafsync::trust::get(&store, "b:2"), Some("11".to_string()));
    assert_eq!(list(&store).len(), 2);
}

#[test]
fn remove_says_whether_there_was_a_pin() {
    let mut store = TrustStore::new();
    leafsync::trust::set(&mut store, ADDR, ABC_FP);
    assert!(!remove(&mut store, "other:1"));
    assert!(remove(&mut store, ADDR));
    assert!(!remove(&mut store, ADDR));
    assert_eq!(leafsync::trust::get(&store, ADDR), None);
}

#[test]
fn list_gives_every_pin_once() {
    let mut store = TrustStore::new();
    leafsync::trust::set(&mut store, "c:3", "33");
    leafsync::trust::set(&mut store, "a:1", "11");
    leafsync::trust::set(&mut store, "b:2", "22");
    leafsync::trust::set(&mut store, "a:1", "44");
    let mut all = list(&store);
    all.sort();
    assert_eq!(
        all,
        vec![
            ("a:1".to_string(), "44".to_string()),
            ("b:2".to_string(), "22".to_string()),
            ("c:3".to_string(), "33".to_string()),
        ]
    );
}

#[test]
fn a_given_fingerprint_goes_before_the_pinned_one() {
    let mut store = TrustStore::new();
    leafsync::trust::set(&mut store, ADDR, ABC_FP);
    assert_eq!(expected_fingerprint(Some("ff".to_string()), &store, ADDR), Some("ff".to_string()));
    assert_eq!(expected_fingerprint(None, &store, ADDR), Some(ABC_FP.to_string()));
    assert_eq!(expected_fingerprint(None, &store, "other:1"), None);
}

#[test]
fn expected_fingerprint_accepts_the_matching_certificate() {
    let mut store = TrustStore::new();
    assert!(pin_check(Some(ABC_FP), false).verify_server_cert(b"abc", &mut store).is_ok());
    assert!(pin_check(Some(ABC_FP), true).verify_server_cert(b"abc", &mut store).is_ok());
    assert!(list(&store).is_empty());
}

#[test]
fn expected_fingerprint_is_compared_without_regard_to_case() {
    let mut store = TrustStore::new();
    let upper = ABC_FP.to_uppercase();
    assert!(pin_check(Some(&upper), false).verify_server_cert(b"abc", &mut store).is_ok());
    let mixed: String = ABC_FP
        .chars()
        .enumerate()
        .map(|(i, c)| if i % 2 == 0 { c.to_ascii_uppercase() } else { c })
        .collect();
    assert!(pin_check(Some(&mixed), false).verify_server_cert(b"abc", &mut store).is_ok());
}

#[test]
fn pin_mismatch_refuses_and_names_both_fingerprints() {
    let mut store = TrustStore::new();
    leafsync::trust::set(&mut store, ADDR, EMPTY_FP);
    let expected = expected_fingerprint(None, &store, ADDR);
    let v = PinVerifier { addr: ADDR.to_string(), expected, accept_first: true };
    match v.verify_server_cert(b"abc", &mut store) {
        Err(PinError::Mismatch { expected, got }) => {
            assert_eq!(expected, EMPTY_FP);
            assert_eq!(got, ABC_FP);
            let err = PinError::Mismatch { expected, got };
            assert_eq!(
                err.message(),
                format!("fingerprint mismatch: expected {}, got {}", EMPTY_FP, ABC_FP)
            );
        }
        _ => panic!("a certificate with another fingerprint must be refused"),
    }
    assert_eq!(leafsync::trust::get(&store, ADDR), Some(EMPTY_FP.to_string()));
    assert_eq!(list(&store).len(), 1);
}

#[test]
fn mismatch_is_not_cured_by_accept_first() {
    let mut store = TrustStore::new();
    assert!(pin_check(Some(EMPTY_FP), true).verify_server_cert(b"abc", &mut store).is_err());
    assert!(pin_check(Some(""), true).verify_server_cert(b"abc", &mut store).is_err());
    assert!(pin_check(Some(&ABC_FP[..63]), true).verify_server_cert(b"abc", &mut store).is_err());
    assert!(list(&store).is_empty());
}

#[test]
fn first_use_is_accepted_and_pinned_when_allowed() {
    let mut store = TrustStore::new();
    leafsync::trust::set(&mut store, "other:1", "11");
    assert!(pin_check(None, true).verify_server_cert(b"abc", &mut store).is_ok());
    assert_eq!(leafsync::trust::get(&store, ADDR), Some(ABC_FP.to_string()));
    assert_eq!(leafsync::trust::get(&store, "other:1"), Some("11".to_string()));
    assert_eq!(list(&store).len(), 2);
}

#[test]
fn first_use_is_refused_when_not_allowed() {
    let mut store = TrustStore::new();
    match pin_check(None, false).verify_server_cert(b"abc", &mut store) {
        Err(PinError::Untrusted { addr, fingerprint }) => {
            assert_eq!(addr, ADDR);
            assert_eq!(fingerprint, ABC_FP);
            let err = PinError::Untrusted { addr, fingerprint };
            assert_eq!(
                err.message(),
                format!(
                    "untrusted server {} with fingerprint {}. Re-run with --accept-first or --fingerprint {}",
                    ADDR, ABC_FP, ABC_FP
                )
            );
        }
        _ => panic!("an unknown certificate must be refused"),
    }
    assert!(list(&store).is_empty());
}

#[test]
fn after_first_use_the_pin_holds_the_peer_to_its_certificate() {
    let mut store = TrustStore::new();
    assert!(pin_check(None, true).verify_server_cert(b"abc", &mut store).is_ok());
    let expected = expected_fingerprint(None, &store, ADDR);
    assert_eq!(expected, Some(ABC_FP.to_string()));
    let v = PinVerifier { addr: ADDR.to_string(), expected, accept_first: false };
    assert!(v.verify_server_cert(b"abc", &mut store).is_ok());
    assert!(v.verify_server_cert(b"abd", &mut store).is_err());
    assert!(v.verify_server_cert(b"", &mut store).is_err());
}
