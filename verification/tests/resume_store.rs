use leafsync::resume::{
    bytes_len, clear, get_bit, hex, key, list_all, missing_indices_for, parse_hex32, resume_path,
    set_bit, upsert_mark, upsert_mark_many, HexError, ResumeEntry, ResumeStore,
};

const ADDR: &str = "10.0.0.7:4455";
const REL: &str = "dir/a.bin";

fn root(n: u8) -> [u8; 32] {
    [n; 32]
}

#[test]
fn key_joins_with_vertical_bars() {
    assert_eq!(key("h:1", "a/b", "00ff"), "h:1|a/b|00ff");
    assert_eq!(key("", "", ""), "||");
}

#[test]
fn hex_is_lower_case_two_digits_per_byte() {
    let mut r = [0u8; 32];
    r[0] = 0x00;
    r[1] = 0x0f;
    r[2] = 0xa0;
    r[31] = 0xff;
    let h = hex(&r);
    assert_eq!(h.len(), 64);
    assert_eq!(&h[..6], "000fa0");
    assert_eq!(&h[62..], "ff");
    assert_eq!(hex(&[0xab; 32]), "ab".repeat(32));
}

#[test]
fn resume_store_lives_in_the_state_directory() {
    assert_eq!(resume_path("/state"), "/state/resume.json");
}

#[test]
fn bytes_len_rounds_up_to_whole_bytes() {
    assert_eq!(bytes_len(0), Some(0));
    assert_eq!(bytes_len(1), Some(1));
    assert_eq!(bytes_len(8), Some(1));
    assert_eq!(bytes_len(9), Some(2));
    assert_eq!(bytes_len(16), Some(2));
    assert_eq!(bytes_len(17), Some(3));
    assert_eq!(bytes_len(u64::MAX), Some((u64::MAX / 8 + 1) as usize));
}

#[test]
fn set_bit_sets_the_bit_of_the_index() {
    let mut bits = vec![0u8; 2];
    set_bit(&mut bits, 0);
    assert_eq!(bits, vec![0b0000_0001, 0]);
    set_bit(&mut bits, 3);
    assert_eq!(bits, vec![0b0000_1001, 0]);
    set_bit(&mut bits, 15);
    assert_eq!(bits, vec![0b0000_1001, 0b1000_0000]);
    set_bit(&mut bits, 3);
    assert_eq!(bits, vec![0b0000_1001, 0b1000_0000]);
}

#[test]
fn set_bit_past_the_bitmap_does_nothing() {
    let mut bits = vec![0u8; 1];
    set_bit(&mut bits, 8);
    set_bit(&mut bits, 1000);
    assert_eq!(bits, vec![0]);
    let mut none: Vec<u8> = Vec::new();
    set_bit(&mut none, 0);
    assert!(none.is_empty());
}

#[test]
fn get_bit_reads_what_set_bit_wrote() {
    let mut bits = vec![0u8; 3];
    for i in [1usize, 8, 22] {
        set_bit(&mut bits, i);
    }
    for i in 0..24 {
        assert_eq!(get_bit(&bits, i), i == 1 || i == 8 || i == 22);
    }
    assert!(!get_bit(&bits, 24));
    assert!(!get_bit(&bits, usize::MAX));
}

#[test]
fn a_new_store_has_nothing() {
    let store = ResumeStore::new();
    assert!(leafsync::resume::get(&store, ADDR, REL, &root(1)).is_none());
    assert!(missing_indices_for(&store, ADDR, REL, 10, 3, root(1)).is_none());
    assert!(list_all(&store).is_empty());
}

#[test]
fn the_default_store_has_nothing() {
    let store = ResumeStore::default();
    assert!(list_all(&store).is_empty());
}

#[test]
fn first_mark_creates_the_entry() {
    let mut store = ResumeStore::new();
    assert!(upsert_mark(&mut store, ADDR, REL, 2621440, 3, root(1), 1).is_ok());
    let e = leafsync::resume::get(&store, ADDR, REL, &root(1)).unwrap();
    assert_eq!(e.size, 2621440);
    assert_eq!(e.chunk_count, 3);
    assert_eq!(e.root, root(1));
    assert_eq!(e.have, vec![0b0000_0010]);
}

#[test]
fn interrupted_pull_resumes_with_the_chunks_not_yet_staged() {
    let mut store = ResumeStore::new();
    upsert_mark(&mut store, ADDR, REL, 2621440, 3, root(1), 1).unwrap();
    let missing = missing_indices_for(&store, ADDR, REL, 2621440, 3, root(1));
    assert_eq!(missing, Some(vec![0, 2]));
}

#[test]
fn marks_accumulate_within_one_epoch() {
    let mut store = ResumeStore::new();
    upsert_mark_many(&mut store, ADDR, REL, 100, 20, root(1), &vec![0, 5]).unwrap();
    upsert_mark_many(&mut store, ADDR, REL, 100, 20, root(1), &vec![5, 19]).unwrap();
    let e = leafsync::resume::get(&store, ADDR, REL, &root(1)).unwrap();
    assert_eq!(e.have, vec![0b0010_0001, 0, 0b0000_1000]);
    let missing = missing_indices_for(&store, ADDR, REL, 100, 20, root(1)).unwrap();
    let want: Vec<u64> = (0..20).filter(|i| ![0, 5, 19].contains(i)).collect();
    assert_eq!(missing, want);
}

#[test]
fn bits_never_go_back_to_zero_within_one_epoch() {
    let mut store = ResumeStore::new();
    let mut seen: Vec<u64> = Vec::new();
    for batch in [vec![3u64], vec![], vec![0, 7], vec![3], vec![12, 1]] {
        upsert_mark_many(&mut store, ADDR, REL, 50, 13, root(4), &batch).unwrap();
        seen.extend(batch);
        let e = leafsync::resume::get(&store, ADDR, REL, &root(4)).unwrap();
        for i in 0..16usize {
            assert_eq!(get_bit(&e.have, i), seen.contains(&(i as u64)));
        }
    }
}

#[test]
fn changed_size_resets_the_bitmap() {
    let mut store = ResumeStore::new();
    upsert_mark_many(&mut store, ADDR, REL, 100, 10, root(1), &vec![0, 1, 2]).unwrap();
    upsert_mark_many(&mut store, ADDR, REL, 101, 10, root(1), &vec![9]).unwrap();
    let e = leafsync::resume::get(&store, ADDR, REL, &root(1)).unwrap();
    assert_eq!(e.size, 101);
    assert_eq!(e.have, vec![0, 0b0000_0010]);
}

#[test]
fn changed_chunk_count_resets_the_bitmap_to_the_new_length() {
    let mut store = ResumeStore::new();
    upsert_mark_many(&mut store, ADDR, REL, 100, 3, root(1), &vec![0, 1, 2]).unwrap();
    upsert_mark_many(&mut store, ADDR, REL, 100, 17, root(1), &vec![16]).unwrap();
    let e = leafsync::resume::get(&store, ADDR, REL, &root(1)).unwrap();
    assert_eq!(e.chunk_count, 17);
    assert_eq!(e.have, vec![0, 0, 1]);
}

#[test]
fn another_root_is_another_entry() {
    let mut store = ResumeStore::new();
    upsert_mark(&mut store, ADDR, REL, 100, 4, root(1), 0).unwrap();
    upsert_mark(&mut store, ADDR, REL, 100, 4, root(2), 3).unwrap();
    assert_eq!(leafsync::resume::get(&store, ADDR, REL, &root(1)).unwrap().have, vec![1]);
    assert_eq!(leafsync::resume::get(&store, ADDR, REL, &root(2)).unwrap().have, vec![8]);
    assert_eq!(list_all(&store).len(), 2);
}

#[test]
fn metadata_that_does_not_match_gives_no_missing_list() {
    let mut store = ResumeStore::new();
    upsert_mark(&mut store, ADDR, REL, 100, 4, root(1), 0).unwrap();
    assert!(missing_indices_for(&store, ADDR, REL, 100, 4, root(1)).is_some());
    assert!(missing_indices_for(&store, ADDR, REL, 99, 4, root(1)).is_none());
    assert!(missing_indices_for(&store, ADDR, REL, 100, 5, root(1)).is_none());
    assert!(missing_indices_for(&store, ADDR, REL, 100, 4, root(2)).is_none());
    assert!(missing_indices_for(&store, "other:1", REL, 100, 4, root(1)).is_none());
    assert!(missing_indices_for(&store, ADDR, "other", 100, 4, root(1)).is_none());
}

#[test]
fn indices_past_the_bitmap_are_ignored() {
    let mut store = ResumeStore::new();
    upsert_mark_many(&mut store, ADDR, REL, 100, 3, root(1), &vec![8, 100, u64::MAX]).unwrap();
    let e = leafsync::resume::get(&store, ADDR, REL, &root(1)).unwrap();
    assert_eq!(e.have, vec![0]);
    assert_eq!(missing_indices_for(&store, ADDR, REL, 100, 3, root(1)), Some(vec![0, 1, 2]));
}

#[test]
fn padding_bits_can_be_set_but_are_never_reported() {
    let mut store = ResumeStore::new();
    upsert_mark_many(&mut store, ADDR, REL, 100, 3, root(1), &vec![5]).unwrap();
    let e = leafsync::resume::get(&store, ADDR, REL, &root(1)).unwrap();
    assert_eq!(e.have, vec![0b0010_0000]);
    assert_eq!(missing_indices_for(&store, ADDR, REL, 100, 3, root(1)), Some(vec![0, 1, 2]));
}

#[test]
fn a_file_without_chunks_has_an_empty_bitmap() {
    let mut store = ResumeStore::new();
    upsert_mark_many(&mut store, ADDR, REL, 0, 0, root(0), &Vec::new()).unwrap();
    let e = leafsync::resume::get(&store, ADDR, REL, &root(0)).unwrap();
    assert!(e.have.is_empty());
    assert_eq!(missing_indices_for(&store, ADDR, REL, 0, 0, root(0)), Some(Vec::new()));
}

#[test]
fn complete_entry_has_nothing_missing() {
    let mut store = ResumeStore::new();
    upsert_mark_many(&mut store, ADDR, REL, 100, 3, root(1), &vec![2, 0, 1]).unwrap();
    assert_eq!(missing_indices_for(&store, ADDR, REL, 100, 3, root(1)), Some(Vec::new()));
}

#[test]
fn clear_removes_only_the_named_entry() {
    let mut store = ResumeStore::new();
    upsert_mark(&mut store, ADDR, REL, 100, 4, root(1), 0).unwrap();
    upsert_mark(&mut store, ADDR, "b.bin", 100, 4, root(1), 0).unwrap();
    clear(&mut store, ADDR, REL, root(1));
    assert!(leafsync::resume::get(&store, ADDR, REL, &root(1)).is_none());
    assert!(leafsync::resume::get(&store, ADDR, "b.bin", &root(1)).is_some());
    clear(&mut store, ADDR, "never-there", root(1));
    assert_eq!(list_all(&store).len(), 1);
}

#[test]
fn list_all_gives_every_entry_with_its_key() {
    let mut store = ResumeStore::new();
    upsert_mark(&mut store, "h:1", "a", 1, 1, root(0xab), 0).unwrap();
    upsert_mark(&mut store, "h:2", "b", 2, 9, root(0xcd), 8).unwrap();
    let mut all = list_all(&store);
    all.sort_by(|x, y| x.0.cmp(&y.0));
    assert_eq!(all.len(), 2);
    assert_eq!(all[0].0, format!("h:1|a|{}", "ab".repeat(32)));
    assert_eq!(all[0].1.have, vec![1]);
    assert_eq!(all[1].0, format!("h:2|b|{}", "cd".repeat(32)));
    assert_eq!(all[1].1.have, vec![0, 1]);
    assert_eq!(all[1].1.size, 2);
}

#[test]
fn entries_loaded_from_elsewhere_keep_their_bitmap() {
    let mut store = ResumeStore::new();
    let k = key(ADDR, REL, &hex(&root(1)));
    store.entries.insert(
        k,
        ResumeEntry { size: 100, chunk_count: 12, root: root(1), have: vec![0xff, 0x01] },
    );
    assert_eq!(missing_indices_for(&store, ADDR, REL, 100, 12, root(1)), Some(vec![9, 10, 11]));
    upsert_mark(&mut store, ADDR, REL, 100, 12, root(1), 10).unwrap();
    assert_eq!(missing_indices_for(&store, ADDR, REL, 100, 12, root(1)), Some(vec![9, 11]));
}

#[test]
fn entry_duplicate_and_matches() {
    let e = ResumeEntry { size: 5, chunk_count: 1, root: root(3), have: vec![1] };
    let d = e.duplicate();
    assert_eq!(d.size, 5);
    assert_eq!(d.chunk_count, 1);
    assert_eq!(d.root, root(3));
    assert_eq!(d.have, vec![1]);
    assert!(e.matches(5, 1, &root(3)));
    assert!(!e.matches(6, 1, &root(3)));
    assert!(!e.matches(5, 2, &root(3)));
    assert!(!e.matches(5, 1, &root(4)));
}

#[test]
fn parse_hex32_reads_lower_and_upper_case() {
    let lower = "0123456789abcdef".repeat(4);
    let upper = "0123456789ABCDEF".repeat(4);
    let want: Vec<u8> = [0x01u8, 0x23, 0x45, 0x67, 0x89, 0xab, 0xcd, 0xef].repeat(4);
    assert_eq!(parse_hex32(&lower).unwrap().to_vec(), want);
    assert_eq!(parse_hex32(&upper).unwrap().to_vec(), want);
}

#[test]
fn parse_hex32_skips_surrounding_white_space() {
    let text = format!("  \t{}\r\n", "ab".repeat(32));
    assert_eq!(parse_hex32(&text), Ok([0xab; 32]));
    let wide = format!("\u{3000}{}\u{a0}", "00".repeat(32));
    assert_eq!(parse_hex32(&wide), Ok([0; 32]));
}

#[test]
fn parse_hex32_inverts_hex() {
    let mut r = [0u8; 32];
    for (i, b) in r.iter_mut().enumerate() {
        *b = (i * 8 + 3) as u8;
    }
    assert_eq!(parse_hex32(&hex(&r)), Ok(r));
}

#[test]
fn parse_hex32_reports_a_bad_length() {
    assert_eq!(parse_hex32(""), Err(HexError::BadLength));
    assert_eq!(parse_hex32("   "), Err(HexError::BadLength));
    assert_eq!(parse_hex32(&"a".repeat(63)), Err(HexError::BadLength));
    assert_eq!(parse_hex32(&"a".repeat(65)), Err(HexError::BadLength));
    assert_eq!(parse_hex32(&"ü".repeat(64)), Err(HexError::BadLength));
    assert_eq!(parse_hex32(&format!("{} {}", "a".repeat(32), "a".repeat(32))), Err(HexError::BadLength));
}

#[test]
fn parse_hex32_reports_an_invalid_digit() {
    assert_eq!(parse_hex32(&"g".repeat(64)), Err(HexError::InvalidDigit));
    let mut text = "0".repeat(64);
    text.replace_range(63..64, "x");
    assert_eq!(parse_hex32(&text), Err(HexError::InvalidDigit));
    assert_eq!(parse_hex32(&"-1".repeat(32)), Err(HexError::InvalidDigit));
    assert_eq!(parse_hex32(&"ü".repeat(32)), Err(HexError::InvalidDigit));
    assert_eq!(parse_hex32(&"1+".repeat(32)), Err(HexError::InvalidDigit));
}

#[test]
fn parse_hex32_takes_a_plus_sign_for_a_leading_zero() {
    assert_eq!(parse_hex32(&"+f".repeat(32)), Ok([0x0f; 32]));
    assert_eq!(parse_hex32(&"++".repeat(32)), Err(HexError::InvalidDigit));
}
