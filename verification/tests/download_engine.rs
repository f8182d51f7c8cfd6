use leafsync::chunk::{chunk_file, read_chunk, CHUNK_SIZE};
use leafsync::download::{
    clamp_streams, conclude, effective_need, partition, plan_transfer, shard_step, FileOutcome,
    Progress, ShardStep, TransferPlan, MAX_STREAMS, MIN_STREAMS,
};
use leafsync::limiter::{RateLimiter, NANOS_PER_SEC};
use leafsync::merkle::{build_merkle, root_hash};
use leafsync::protocol::Msg;
use leafsync::staging::{truncate_to_size, write_chunk};

const MIB: u64 = 1024 * 1024;

#[test]
fn stream_count_is_clamped_to_one_through_sixteen() {
    assert_eq!(MIN_STREAMS, 1);
    assert_eq!(MAX_STREAMS, 16);
    assert_eq!(clamp_streams(0), 1);
    assert_eq!(clamp_streams(1), 1);
    assert_eq!(clamp_streams(4), 4);
    assert_eq!(clamp_streams(16), 16);
    assert_eq!(clamp_streams(17), 16);
    assert_eq!(clamp_streams(usize::MAX), 16);
}

#[test]
fn partition_deals_round_robin() {
    let need: Vec<u64> = vec![10, 11, 12, 13, 14, 15, 16];
    let parts = partition(&need, 3);
    assert_eq!(parts, vec![vec![10, 13, 16], vec![11, 14], vec![12, 15]]);
}

#[test]
fn partition_with_one_stream_keeps_the_list() {
    let need: Vec<u64> = vec![4, 2, 9];
    assert_eq!(partition(&need, 1), vec![vec![4, 2, 9]]);
    assert_eq!(partition(&need, 0), vec![vec![4, 2, 9]]);
}

#[test]
fn partition_returns_no_empty_shard() {
    let need: Vec<u64> = vec![1, 2, 3];
    let parts = partition(&need, 8);
    assert_eq!(parts, vec![vec![1], vec![2], vec![3]]);
    assert!(partition(&Vec::new(), 4).is_empty());
}

#[test]
fn partition_uses_at_most_sixteen_shards() {
    let need: Vec<u64> = (0..100).collect();
    let parts = partition(&need, 64);
    assert_eq!(parts.len(), 16);
    for (k, part) in parts.iter().enumerate() {
        let want: Vec<u64> = need.iter().copied().filter(|i| (*i as usize) % 16 == k).collect();
        assert_eq!(part, &want);
    }
}

#[test]
fn partition_loses_and_invents_nothing() {
    for streams in 1..=20usize {
        for n in [0usize, 1, 2, 15, 16, 17, 33] {
            let need: Vec<u64> = (0..n as u64).map(|i| i * 7 + 1).collect();
            let parts = partition(&need, streams);
            let s = clamp_streams(streams);
            assert_eq!(parts.len(), n.min(s));
            let mut all: Vec<u64> = parts.iter().flatten().copied().collect();
            all.sort();
            assert_eq!(all, need);
            for (i, x) in need.iter().enumerate() {
                assert_eq!(parts[i % s][i / s], *x);
            }
        }
    }
}

#[test]
fn without_a_resume_entry_all_that_differs_is_needed() {
    assert_eq!(effective_need(vec![0, 1, 2], None), vec![0, 1, 2]);
    assert_eq!(effective_need(Vec::new(), None), Vec::<u64>::new());
}

#[test]
fn with_a_resume_entry_only_what_differs_and_is_missing_is_needed() {
    assert_eq!(effective_need(vec![0, 1, 2], Some(vec![0, 2])), vec![0, 2]);
    assert_eq!(effective_need(vec![1, 2], Some(vec![0, 2, 3])), vec![2]);
    assert_eq!(effective_need(vec![1], Some(vec![0, 2])), Vec::<u64>::new());
    assert_eq!(effective_need(vec![0, 1, 2], Some(Vec::new())), Vec::<u64>::new());
}

#[test]
fn a_file_without_differences_is_up_to_date() {
    assert!(matches!(plan_transfer(Vec::new(), None), TransferPlan::UpToDate));
    assert!(matches!(plan_transfer(Vec::new(), Some(vec![0, 1])), TransferPlan::UpToDate));
}

#[test]
fn a_file_whose_differences_are_all_staged_is_only_verified() {
    assert!(matches!(plan_transfer(vec![0, 1, 2], Some(Vec::new())), TransferPlan::VerifyStaged));
    assert!(matches!(plan_transfer(vec![1], Some(vec![0])), TransferPlan::VerifyStaged));
}

#[test]
fn other_files_are_fetched() {
    match plan_transfer(vec![0, 1, 2], None) {
        TransferPlan::Fetch { indices } => assert_eq!(indices, vec![0, 1, 2]),
        _ => panic!("a cold pull fetches every chunk"),
    }
    match plan_transfer(vec![0, 1, 2], Some(vec![0, 2])) {
        TransferPlan::Fetch { indices } => assert_eq!(indices, vec![0, 2]),
        _ => panic!("a resumed pull fetches what is missing"),
    }
}

#[test]
fn substream_stores_only_chunks_of_its_file() {
    let own = Some(Msg::ChunkData { rel_path: "a.bin".to_string(), index: 1, data: vec![1] });
    let other = Some(Msg::ChunkData { rel_path: "b.bin".to_string(), index: 1, data: vec![1] });
    assert_eq!(shard_step("a.bin", &own), ShardStep::Store);
    assert_eq!(shard_step("a.bin", &other), ShardStep::Skip);
}

#[test]
fn substream_ends_on_done_and_on_the_end_of_the_stream() {
    assert_eq!(shard_step("a.bin", &Some(Msg::Done)), ShardStep::Finish);
    assert_eq!(shard_step("a.bin", &None), ShardStep::Finish);
}

#[test]
fn substream_skips_everything_else() {
    let msgs = vec![
        Msg::Version { major: 1, minor: 0 },
        Msg::Hello { folder: "f".to_string() },
        Msg::Summary { files: Vec::new() },
        Msg::RequestFile { rel_path: "a.bin".to_string() },
        Msg::RequestChunks { rel_path: "a.bin".to_string(), indices: vec![0] },
        Msg::FileMeta {
            rel_path: "a.bin".to_string(),
            size: 0,
            chunk_count: 0,
            root: [0; 32],
            chunk_hashes: Vec::new(),
        },
    ];
    for m in msgs {
        assert_eq!(shard_step("a.bin", &Some(m)), ShardStep::Skip);
    }
}

#[test]
fn progress_collects_indices_and_counts_bytes() {
    let mut p = Progress::new();
    assert!(p.received.is_empty());
    assert_eq!(p.bytes_received, 0);
    assert_eq!(p.record(2, 1048576), 1048576);
    assert_eq!(p.record(0, 524288), 1572864);
    assert_eq!(p.record(2, 0), 1572864);
    assert_eq!(p.received, vec![2, 0, 2]);
    assert_eq!(p.bytes_received, 1572864);
}

#[test]
fn progress_counts_modulo_two_to_the_sixty_four() {
    let mut p = Progress { received: Vec::new(), bytes_received: u64::MAX - 1 };
    assert_eq!(p.record(0, 3), 1);
}

#[test]
fn staged_file_is_finalized_only_on_a_matching_root() {
    let data = vec![3u8; CHUNK_SIZE / 2];
    let root = root_hash(&build_merkle(&chunk_file(&data)));
    assert_eq!(conclude(&data, &root), FileOutcome::Finalized);
    let mut bad = data.clone();
    bad[0] = 4;
    assert_eq!(conclude(&bad, &root), FileOutcome::MerkleMismatch);
    assert_eq!(conclude(&data, &[0u8; 32]), FileOutcome::MerkleMismatch);
}

#[test]
fn outcome_says_what_follows() {
    assert!(FileOutcome::Finalized.ok());
    assert!(FileOutcome::Finalized.may_finalize());
    assert!(FileOutcome::Finalized.clears_resume());
    assert_eq!(FileOutcome::Finalized.message(), "finalized");
    assert!(!FileOutcome::MerkleMismatch.ok());
    assert!(!FileOutcome::MerkleMismatch.may_finalize());
    assert!(!FileOutcome::MerkleMismatch.clears_resume());
    assert_eq!(FileOutcome::MerkleMismatch.message(), "merkle_mismatch");
}

#[test]
fn write_chunk_writes_in_place_without_cutting() {
    let mut file = vec![9u8; 10];
    assert!(write_chunk(&mut file, 0, &[1, 2, 3]).is_ok());
    assert_eq!(file, vec![1, 2, 3, 9, 9, 9, 9, 9, 9, 9]);
}

#[test]
fn write_chunk_past_the_end_grows_the_file_with_zeros() {
    let mut file = vec![7u8; 4];
    assert!(write_chunk(&mut file, 1, &[1, 2]).is_ok());
    assert_eq!(file.len(), CHUNK_SIZE + 2);
    assert_eq!(&file[..4], &[7, 7, 7, 7]);
    assert!(file[4..CHUNK_SIZE].iter().all(|b| *b == 0));
    assert_eq!(&file[CHUNK_SIZE..], &[1, 2]);
}

#[test]
fn write_chunk_of_nothing_changes_nothing() {
    let mut file = vec![7u8; 4];
    assert!(write_chunk(&mut file, 5, &[]).is_ok());
    assert_eq!(file, vec![7u8; 4]);
    assert!(write_chunk(&mut file, u64::MAX, &[]).is_ok());
    assert_eq!(file, vec![7u8; 4]);
}

#[test]
fn write_chunk_refuses_what_cannot_be_addressed() {
    let mut file = vec![7u8; 4];
    assert!(write_chunk(&mut file, u64::MAX, &[1]).is_err());
    assert!(write_chunk(&mut file, (u64::MAX >> 20) + 1, &[1; 2]).is_err());
    assert_eq!(file, vec![7u8; 4]);
}

#[test]
fn truncate_cuts_and_extends() {
    let mut file = vec![1u8, 2, 3, 4, 5];
    assert!(truncate_to_size(&mut file, 3).is_ok());
    assert_eq!(file, vec![1, 2, 3]);
    assert!(truncate_to_size(&mut file, 6).is_ok());
    assert_eq!(file, vec![1, 2, 3, 0, 0, 0]);
    assert!(truncate_to_size(&mut file, 6).is_ok());
    assert_eq!(file, vec![1, 2, 3, 0, 0, 0]);
    assert!(truncate_to_size(&mut file, 0).is_ok());
    assert!(file.is_empty());
}

#[test]
fn staging_all_chunks_in_any_order_rebuilds_the_file() {
    let mut data = Vec::new();
    for i in 0..(3 * CHUNK_SIZE + 1234) {
        data.push((i % 241) as u8);
    }
    let mut staged = vec![0xeeu8; 5 * CHUNK_SIZE];
    for index in [2u64, 0, 3, 1, 2] {
        assert!(write_chunk(&mut staged, index, &read_chunk(&data, index)).is_ok());
    }
    assert!(truncate_to_size(&mut staged, data.len() as u64).is_ok());
    assert_eq!(staged, data);
}

#[test]
fn unbounded_limiter_never_waits() {
    let mut l = RateLimiter::new(None, 0);
    assert_eq!(l.consume(0, u64::MAX), 0);
    assert_eq!(l.consume(5, 1), 0);
    assert_eq!(l.bytes_per_sec, None);
}

#[test]
fn limiter_starts_with_one_second_of_tokens() {
    let l = RateLimiter::new(Some(10 * MIB), 77);
    assert_eq!(l.available, (10 * MIB) as u128 * NANOS_PER_SEC as u128);
    assert_eq!(l.last, 77);
    assert_eq!(l.bytes_per_sec, Some(10 * MIB));
}

#[test]
fn limiter_pays_from_the_bucket_while_it_lasts() {
    let mut l = RateLimiter::new(Some(10 * MIB), 0);
    for _ in 0..10 {
        assert_eq!(l.consume(0, MIB), 0);
    }
    assert_eq!(l.available, 0);
}

#[test]
fn limiter_waits_for_the_deficit_at_the_rate() {
    let mut l = RateLimiter::new(Some(10 * MIB), 0);
    assert_eq!(l.consume(0, 10 * MIB), 0);
    assert_eq!(l.consume(0, MIB), NANOS_PER_SEC / 10);
    assert_eq!(l.available, 0);
    let mut small = RateLimiter::new(Some(3), 0);
    assert_eq!(small.consume(0, 3), 0);
    assert_eq!(small.consume(0, 1), 333333334);
    assert_eq!(small.consume(0, 0), 0);
}

#[test]
fn limiter_refills_with_time_up_to_its_capacity() {
    let mut l = RateLimiter::new(Some(1000), 0);
    assert_eq!(l.consume(0, 1000), 0);
    assert_eq!(l.consume(NANOS_PER_SEC / 2, 500), 0);
    assert_eq!(l.available, 0);
    assert_eq!(l.last, NANOS_PER_SEC / 2);
    assert_eq!(l.consume(100 * NANOS_PER_SEC, 1000), 0);
    assert_eq!(l.consume(100 * NANOS_PER_SEC, 1), 1000000);
}

#[test]
fn limiter_takes_a_part_payment_from_the_bucket() {
    let mut l = RateLimiter::new(Some(1000), 0);
    assert_eq!(l.consume(0, 600), 0);
    assert_eq!(l.consume(0, 900), NANOS_PER_SEC / 2);
    assert_eq!(l.available, 0);
}

#[test]
fn limiter_ignores_a_clock_that_runs_backwards() {
    let mut l = RateLimiter::new(Some(1000), 500);
    assert_eq!(l.consume(500, 1000), 0);
    assert_eq!(l.consume(100, 1), 1000000);
    assert_eq!(l.last, 500);
}

#[test]
fn limiter_at_rate_zero_waits_as_long_as_can_be_said() {
    let mut l = RateLimiter::new(Some(0), 0);
    assert_eq!(l.consume(0, 0), 0);
    assert_eq!(l.consume(0, 1), u64::MAX);
    assert_eq!(l.consume(u64::MAX, 1), u64::MAX);
}

#[test]
fn limiter_wait_saturates() {
    let mut l = RateLimiter::new(Some(1), 0);
    assert_eq!(l.consume(0, u64::MAX), u64::MAX);
}

#[test]
fn without_waiting_bytes_admitted_stay_within_rate_times_time_plus_the_start() {
    let rate = 4 * MIB;
    let mut l = RateLimiter::new(Some(rate), 0);
    l.available = MIB as u128 * NANOS_PER_SEC as u128;
    let mut admitted: u128 = 0;
    let mut now: u64 = 0;
    for step in 0..200u64 {
        now += 50_000_000;
        let n = 1 + (step * 7919) % 150_000;
        let probe = l;
        if { let mut p = probe; p.consume(now, n) } == 0 {
            assert_eq!(l.consume(now, n), 0);
            admitted += n as u128;
        }
        assert!(admitted * NANOS_PER_SEC as u128 <= (MIB as u128) * NANOS_PER_SEC as u128 + now as u128 * rate as u128);
    }
    assert!(admitted > 0);
}
