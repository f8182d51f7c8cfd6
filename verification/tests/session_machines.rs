use leafsync::chunk::{chunk_file, CHUNK_SIZE};
use leafsync::client::{
    accepts_version, client_step, hello_message, is_request_for, offer_message,
    request_chunks_message, request_file_message, summary_files, summary_paths, ClientAction,
    ClientEvent, ClientState, Session,
};
use leafsync::merkle::{build_merkle, root_hash};
use leafsync::protocol::{FileSummary, Msg};
use leafsync::server::{
    chunk_reply, file_meta_reply, missing_request, server_step, summary_reply, ServerAction,
    ServerState,
};
use leafsync::syncer::build_file_summary;

fn session(only_file: Option<&str>, mirror: bool) -> Session {
    Session {
        peer: "127.0.0.1:4455".to_string(),
        folder: "/data".to_string(),
        only_file: only_file.map(|s| s.to_string()),
        mirror,
        streams: 4,
        rate: None,
        version: None,
    }
}

fn names(list: &[&str]) -> Vec<String> {
    list.iter().map(|s| s.to_string()).collect()
}

fn offer(rel: &str) -> Msg {
    Msg::FileMeta {
        rel_path: rel.to_string(),
        size: 42,
        chunk_count: 1,
        root: [7; 32],
        chunk_hashes: vec![[1; 32]],
    }
}

fn chunk_data(rel: &str, index: u64) -> Msg {
    Msg::ChunkData { rel_path: rel.to_string(), index, data: vec![1, 2, 3] }
}

fn every_message() -> Vec<Msg> {
    vec![
        Msg::Version { major: 1, minor: 0 },
        Msg::Hello { folder: "f".to_string() },
        Msg::Summary { files: Vec::new() },
        Msg::RequestFile { rel_path: "a".to_string() },
        offer("a"),
        Msg::RequestChunks { rel_path: "a".to_string(), indices: vec![0] },
        chunk_data("a", 0),
        Msg::Done,
    ]
}

#[test]
fn server_accepts_only_major_version_one() {
    let (s, a) = server_step(ServerState::Init, &None, &Some(Msg::Version { major: 1, minor: 9 }));
    assert!(matches!(s, ServerState::AwaitHello));
    assert!(matches!(a, ServerAction::SendVersion));
    for major in [0u16, 2, 65535] {
        let (s, a) =
            server_step(ServerState::Init, &None, &Some(Msg::Version { major, minor: 0 }));
        assert!(matches!(s, ServerState::Closed));
        assert!(matches!(a, ServerAction::Close));
    }
}

#[test]
fn server_serves_a_substream_that_opens_with_a_chunk_request() {
    let first = Some(Msg::RequestChunks { rel_path: "a.bin".to_string(), indices: vec![2, 0] });
    let (s, a) = server_step(ServerState::Init, &None, &first);
    assert!(matches!(s, ServerState::Closed));
    assert!(matches!(a, ServerAction::StreamChunks));
}

#[test]
fn server_closes_on_any_other_first_message() {
    for m in every_message() {
        if matches!(m, Msg::Version { .. } | Msg::RequestChunks { .. }) {
            continue;
        }
        let (s, a) = server_step(ServerState::Init, &None, &Some(m));
        assert!(matches!(s, ServerState::Closed));
        assert!(matches!(a, ServerAction::Close));
    }
    let (s, a) = server_step(ServerState::Init, &None, &None);
    assert!(matches!(s, ServerState::Closed));
    assert!(matches!(a, ServerAction::Close));
}

#[test]
fn server_sends_the_catalog_after_the_greeting() {
    let hello = Some(Msg::Hello { folder: "whatever".to_string() });
    let (s, a) = server_step(ServerState::AwaitHello, &None, &hello);
    assert!(matches!(s, ServerState::Active));
    assert!(matches!(a, ServerAction::SendSummary));
}

#[test]
fn server_closes_when_the_greeting_does_not_come() {
    for m in every_message() {
        if matches!(m, Msg::Hello { .. }) {
            continue;
        }
        let (s, a) = server_step(ServerState::AwaitHello, &None, &Some(m));
        assert!(matches!(s, ServerState::Closed));
        assert!(matches!(a, ServerAction::Close));
    }
    let (s, _) = server_step(ServerState::AwaitHello, &None, &None);
    assert!(matches!(s, ServerState::Closed));
}

#[test]
fn active_server_answers_requests() {
    let req = Some(Msg::RequestFile { rel_path: "a.bin".to_string() });
    let (s, a) = server_step(ServerState::Active, &None, &req);
    assert!(matches!(s, ServerState::Active));
    assert!(matches!(a, ServerAction::SendFileMeta));
    let chunks = Some(Msg::RequestChunks { rel_path: "a.bin".to_string(), indices: vec![1] });
    let (s, a) = server_step(ServerState::Active, &None, &chunks);
    assert!(matches!(s, ServerState::Active));
    assert!(matches!(a, ServerAction::StreamChunks));
}

#[test]
fn active_server_ends_on_done_and_on_the_end_of_the_stream() {
    let (s, a) = server_step(ServerState::Active, &None, &Some(Msg::Done));
    assert!(matches!(s, ServerState::Closed));
    assert!(matches!(a, ServerAction::Close));
    let (s, a) = server_step(ServerState::Active, &None, &None);
    assert!(matches!(s, ServerState::Closed));
    assert!(matches!(a, ServerAction::Close));
}

#[test]
fn active_server_discards_chunk_data_out_of_context() {
    let (s, a) = server_step(ServerState::Active, &None, &Some(chunk_data("a.bin", 0)));
    assert!(matches!(s, ServerState::Active));
    assert!(matches!(a, ServerAction::Nothing));
    for m in [
        Msg::Version { major: 1, minor: 0 },
        Msg::Hello { folder: "f".to_string() },
        Msg::Summary { files: Vec::new() },
    ] {
        let (s, a) = server_step(ServerState::Active, &None, &Some(m));
        assert!(matches!(s, ServerState::Active));
        assert!(matches!(a, ServerAction::Nothing));
    }
}

#[test]
fn filter_mismatch_is_answered_with_done() {
    let only = Some("keep.bin".to_string());
    let req = Some(Msg::RequestFile { rel_path: "other.bin".to_string() });
    let (s, a) = server_step(ServerState::Active, &only, &req);
    assert!(matches!(s, ServerState::Active));
    assert!(matches!(a, ServerAction::SendDone));
    let (s, a) = server_step(ServerState::Active, &only, &Some(offer("other.bin")));
    assert!(matches!(s, ServerState::Active));
    assert!(matches!(a, ServerAction::SendDone));
    let ok = Some(Msg::RequestFile { rel_path: "/keep.bin".to_string() });
    let (_, a) = server_step(ServerState::Active, &only, &ok);
    assert!(matches!(a, ServerAction::SendFileMeta));
    let (s, a) = server_step(ServerState::Active, &only, &Some(offer("keep.bin")));
    assert!(matches!(s, ServerState::Receiving { .. }));
    assert!(matches!(a, ServerAction::RequestMissing));
}

#[test]
fn push_offer_opens_a_transaction_that_done_concludes() {
    let (s, a) = server_step(ServerState::Active, &None, &Some(offer("c.bin")));
    assert!(matches!(a, ServerAction::RequestMissing));
    match &s {
        ServerState::Receiving { rel_path, size, root } => {
            assert_eq!(rel_path, "c.bin");
            assert_eq!(*size, 42);
            assert_eq!(*root, [7; 32]);
        }
        _ => panic!("an offer starts a transaction"),
    }
    let (s, a) = server_step(s, &None, &Some(chunk_data("c.bin", 0)));
    assert!(matches!(s, ServerState::Receiving { .. }));
    assert!(matches!(a, ServerAction::StageChunk));
    let (s, a) = server_step(s, &None, &Some(chunk_data("other.bin", 0)));
    assert!(matches!(s, ServerState::Receiving { .. }));
    assert!(matches!(a, ServerAction::Nothing));
    let (s, a) = server_step(s, &None, &Some(Msg::RequestFile { rel_path: "x".to_string() }));
    assert!(matches!(s, ServerState::Receiving { .. }));
    assert!(matches!(a, ServerAction::Nothing));
    let (s, a) = server_step(s, &None, &Some(Msg::Done));
    assert!(matches!(s, ServerState::Active));
    match a {
        ServerAction::VerifyAndFinalize { rel_path, size, root } => {
            assert_eq!(rel_path, "c.bin");
            assert_eq!(size, 42);
            assert_eq!(root, [7; 32]);
        }
        _ => panic!("done concludes the transaction"),
    }
}

#[test]
fn transaction_ends_without_finalizing_when_the_stream_ends() {
    let (s, _) = server_step(ServerState::Active, &None, &Some(offer("c.bin")));
    let (s, a) = server_step(s, &None, &None);
    assert!(matches!(s, ServerState::Closed));
    assert!(matches!(a, ServerAction::Close));
}

#[test]
fn closed_server_stays_closed() {
    for m in every_message() {
        let (s, a) = server_step(ServerState::Closed, &None, &Some(m));
        assert!(matches!(s, ServerState::Closed));
        assert!(matches!(a, ServerAction::Nothing));
    }
    let (s, a) = server_step(ServerState::Closed, &None, &None);
    assert!(matches!(s, ServerState::Closed));
    assert!(matches!(a, ServerAction::Nothing));
}

#[test]
fn summary_reply_announces_what_the_filter_admits() {
    let files = vec![
        FileSummary { rel_path: "a".to_string(), size: 1, chunk_count: 1, root: [1; 32] },
        FileSummary { rel_path: "b".to_string(), size: 2, chunk_count: 1, root: [2; 32] },
    ];
    match summary_reply(&files, &None) {
        Msg::Summary { files } => assert_eq!(files.len(), 2),
        _ => panic!("the reply is a summary"),
    }
    match summary_reply(&files, &Some("b".to_string())) {
        Msg::Summary { files } => {
            assert_eq!(files.len(), 1);
            assert_eq!(files[0].rel_path, "b");
            assert_eq!(files[0].size, 2);
            assert_eq!(files[0].root, [2; 32]);
        }
        _ => panic!("the reply is a summary"),
    }
}

#[test]
fn file_meta_reply_describes_the_local_file() {
    let data = vec![8u8; CHUNK_SIZE + 9];
    let chunks = chunk_file(&data);
    match file_meta_reply("d/a.bin", &Some(data.clone())) {
        Msg::FileMeta { rel_path, size, chunk_count, root, chunk_hashes } => {
            assert_eq!(rel_path, "d/a.bin");
            assert_eq!(size, (CHUNK_SIZE + 9) as u64);
            assert_eq!(chunk_count, 2);
            assert_eq!(root, root_hash(&build_merkle(&chunks)));
            assert_eq!(chunk_hashes, vec![chunks[0].hash, chunks[1].hash]);
        }
        _ => panic!("the reply is file metadata"),
    }
}

#[test]
fn file_meta_reply_describes_a_missing_file_as_empty() {
    match file_meta_reply("gone.bin", &None) {
        Msg::FileMeta { rel_path, size, chunk_count, root, chunk_hashes } => {
            assert_eq!(rel_path, "gone.bin");
            assert_eq!(size, 0);
            assert_eq!(chunk_count, 0);
            assert_eq!(root, [0u8; 32]);
            assert!(chunk_hashes.is_empty());
        }
        _ => panic!("the reply is file metadata"),
    }
}

#[test]
fn missing_request_asks_for_what_the_local_copy_lacks() {
    let server = vec![1u8; 2 * CHUNK_SIZE];
    let client = vec![1u8; 3 * CHUNK_SIZE];
    let hashes: Vec<[u8; 32]> = chunk_file(&client).iter().map(|c| c.hash).collect();
    match missing_request("c.bin", &Some(server), &hashes) {
        Msg::RequestChunks { rel_path, indices } => {
            assert_eq!(rel_path, "c.bin");
            assert_eq!(indices, vec![2]);
        }
        _ => panic!("the reply asks for chunks"),
    }
    match missing_request("c.bin", &None, &hashes) {
        Msg::RequestChunks { indices, .. } => assert_eq!(indices, vec![0, 1, 2]),
        _ => panic!("the reply asks for chunks"),
    }
}

#[test]
fn chunk_reply_carries_the_chunk_or_nothing() {
    let data = vec![4u8; CHUNK_SIZE + 2];
    match chunk_reply("a.bin", &Some(data.clone()), 1) {
        Msg::ChunkData { rel_path, index, data } => {
            assert_eq!(rel_path, "a.bin");
            assert_eq!(index, 1);
            assert_eq!(data, vec![4u8, 4]);
        }
        _ => panic!("the reply carries chunk data"),
    }
    match chunk_reply("a.bin", &Some(data), 2) {
        Msg::ChunkData { index, data, .. } => {
            assert_eq!(index, 2);
            assert!(data.is_empty());
        }
        _ => panic!("the reply carries chunk data"),
    }
    match chunk_reply("a.bin", &None, 0) {
        Msg::ChunkData { data, .. } => assert!(data.is_empty()),
        _ => panic!("the reply carries chunk data"),
    }
}

#[test]
fn client_accepts_only_major_version_one() {
    assert!(accepts_version(&Some(Msg::Version { major: 1, minor: 0 })));
    assert!(accepts_version(&Some(Msg::Version { major: 1, minor: 65535 })));
    assert!(!accepts_version(&Some(Msg::Version { major: 2, minor: 0 })));
    assert!(!accepts_version(&Some(Msg::Version { major: 0, minor: 1 })));
    assert!(!accepts_version(&Some(Msg::Done)));
    assert!(!accepts_version(&None));
}

#[test]
fn peer_version_is_kept_only_when_accepted() {
    assert_eq!(leafsync::client::peer_version(&Some(Msg::Version { major: 1, minor: 7 })), Some((1, 7)));
    assert_eq!(leafsync::client::peer_version(&Some(Msg::Version { major: 2, minor: 0 })), None);
    assert_eq!(leafsync::client::peer_version(&Some(Msg::Done)), None);
    assert_eq!(leafsync::client::peer_version(&None), None);
}

#[test]
fn client_messages_carry_what_they_are_given() {
    assert!(matches!(
        leafsync::client::version_message(),
        Msg::Version { major: 1, minor: 0 }
    ));
    assert!(matches!(
        leafsync::server::version_message(),
        Msg::Version { major: 1, minor: 0 }
    ));
    match hello_message("/data") {
        Msg::Hello { folder } => assert_eq!(folder, "/data"),
        _ => panic!("a greeting"),
    }
    match request_file_message("a/b") {
        Msg::RequestFile { rel_path } => assert_eq!(rel_path, "a/b"),
        _ => panic!("a request"),
    }
    match request_chunks_message("a/b", vec![3, 1]) {
        Msg::RequestChunks { rel_path, indices } => {
            assert_eq!(rel_path, "a/b");
            assert_eq!(indices, vec![3, 1]);
        }
        _ => panic!("a request for chunks"),
    }
}

#[test]
fn offer_message_carries_the_summary_and_all_hashes() {
    let data = vec![2u8; 2 * CHUNK_SIZE + 1];
    let (summary, chunks) = build_file_summary("c.bin", &data);
    match offer_message(&summary, &chunks) {
        Msg::FileMeta { rel_path, size, chunk_count, root, chunk_hashes } => {
            assert_eq!(rel_path, "c.bin");
            assert_eq!(size, data.len() as u64);
            assert_eq!(chunk_count, 3);
            assert_eq!(root, summary.root);
            assert_eq!(chunk_hashes.len(), 3);
            for i in 0..3 {
                assert_eq!(chunk_hashes[i], chunks[i].hash);
            }
        }
        _ => panic!("an offer"),
    }
}

#[test]
fn only_a_summary_announces_files() {
    let files = vec![FileSummary { rel_path: "a".to_string(), size: 1, chunk_count: 1, root: [1; 32] }];
    let got = summary_files(Some(Msg::Summary { files }));
    assert_eq!(got.len(), 1);
    assert_eq!(summary_paths(&got), names(&["a"]));
    assert!(summary_files(Some(Msg::Done)).is_empty());
    assert!(summary_files(None).is_empty());
}

#[test]
fn client_handshake() {
    let s = session(None, false);
    let none = Vec::new();
    let (st, a) = client_step(ClientState::Start, &s, &none, &none, &ClientEvent::Begin);
    assert_eq!(st, ClientState::AwaitVersion);
    assert_eq!(a, ClientAction::SendVersion);
    let ok = ClientEvent::Received(Some(Msg::Version { major: 1, minor: 3 }));
    let (st, a) = client_step(st, &s, &none, &none, &ok);
    assert_eq!(st, ClientState::AwaitSummary);
    assert_eq!(a, ClientAction::SendHello);
}

#[test]
fn client_stops_on_a_failed_handshake() {
    let s = session(None, false);
    let none = Vec::new();
    for reply in [
        Some(Msg::Version { major: 2, minor: 0 }),
        Some(Msg::Done),
        Some(Msg::Hello { folder: "x".to_string() }),
        None,
    ] {
        let ev = ClientEvent::Received(reply);
        let (st, a) = client_step(ClientState::AwaitVersion, &s, &none, &none, &ev);
        assert_eq!(st, ClientState::Finished);
        assert_eq!(a, ClientAction::Stop);
    }
}

#[test]
fn client_mirrors_before_it_pulls_when_asked_to() {
    let none = Vec::new();
    let ev = ClientEvent::Received(Some(Msg::Summary { files: Vec::new() }));
    let plain = session(None, false);
    let (st, a) = client_step(ClientState::AwaitSummary, &plain, &none, &none, &ev);
    assert_eq!(st, ClientState::Pull { next: 0 });
    assert_eq!(a, ClientAction::Continue);
    let mirror = session(None, true);
    let (st, a) = client_step(ClientState::AwaitSummary, &mirror, &none, &none, &ev);
    assert_eq!(st, ClientState::MirrorScan);
    assert_eq!(a, ClientAction::ScanLocal);
    let (st, a) = client_step(st, &mirror, &none, &none, &ClientEvent::Scanned);
    assert_eq!(st, ClientState::Mirroring);
    assert_eq!(a, ClientAction::Trash);
    let (st, a) = client_step(st, &mirror, &none, &none, &ClientEvent::Ready);
    assert_eq!(st, ClientState::Pull { next: 0 });
    assert_eq!(a, ClientAction::Continue);
}

#[test]
fn client_pulls_every_announced_file_in_order() {
    let s = session(None, false);
    let remote = names(&["a.bin", "b.bin"]);
    let local = Vec::new();
    let (st, a) = client_step(ClientState::Pull { next: 0 }, &s, &remote, &local, &ClientEvent::Ready);
    assert_eq!(st, ClientState::AwaitMeta { index: 0 });
    assert_eq!(a, ClientAction::RequestFile { index: 0 });
    let (st, a) = client_step(st, &s, &remote, &local, &ClientEvent::Received(Some(offer("a.bin"))));
    assert_eq!(st, ClientState::Downloading { index: 0 });
    assert_eq!(a, ClientAction::Download { index: 0 });
    let (st, a) = client_step(st, &s, &remote, &local, &ClientEvent::Ready);
    assert_eq!(st, ClientState::Pull { next: 1 });
    assert_eq!(a, ClientAction::Continue);
    let (st, a) = client_step(st, &s, &remote, &local, &ClientEvent::Ready);
    assert_eq!(st, ClientState::AwaitMeta { index: 1 });
    assert_eq!(a, ClientAction::RequestFile { index: 1 });
    let (st, a) = client_step(st, &s, &remote, &local, &ClientEvent::Received(Some(Msg::Done)));
    assert_eq!(st, ClientState::Pull { next: 2 });
    assert_eq!(a, ClientAction::Continue);
    let (st, a) = client_step(st, &s, &remote, &local, &ClientEvent::Ready);
    assert_eq!(st, ClientState::PushScan);
    assert_eq!(a, ClientAction::ScanLocal);
}

#[test]
fn client_skips_announced_files_that_the_filter_does_not_admit() {
    let s = session(Some("dir/b.bin"), false);
    let remote = names(&["a.bin", "dir\\b.bin", "c.bin"]);
    let local = Vec::new();
    let (st, a) = client_step(ClientState::Pull { next: 0 }, &s, &remote, &local, &ClientEvent::Ready);
    assert_eq!(st, ClientState::AwaitMeta { index: 1 });
    assert_eq!(a, ClientAction::RequestFile { index: 1 });
    let (st, _) = client_step(ClientState::Pull { next: 2 }, &s, &remote, &local, &ClientEvent::Ready);
    assert_eq!(st, ClientState::PushScan);
}

#[test]
fn client_offers_every_local_file_and_then_says_done() {
    let s = session(None, false);
    let remote = Vec::new();
    let local = names(&["c.bin", "d.bin"]);
    let (st, a) = client_step(ClientState::PushScan, &s, &remote, &local, &ClientEvent::Scanned);
    assert_eq!(st, ClientState::Push { next: 0 });
    assert_eq!(a, ClientAction::Continue);
    let (st, a) = client_step(st, &s, &remote, &local, &ClientEvent::Ready);
    assert_eq!(st, ClientState::AwaitRequest { index: 0 });
    assert_eq!(a, ClientAction::Offer { index: 0 });
    let ask = Msg::RequestChunks { rel_path: "c.bin".to_string(), indices: vec![0, 1] };
    let (st, a) = client_step(st, &s, &remote, &local, &ClientEvent::Received(Some(ask)));
    assert_eq!(st, ClientState::Streaming { index: 0 });
    assert_eq!(a, ClientAction::Stream { index: 0 });
    let (st, a) = client_step(st, &s, &remote, &local, &ClientEvent::Ready);
    assert_eq!(st, ClientState::Push { next: 1 });
    assert_eq!(a, ClientAction::Continue);
    let (st, a) = client_step(st, &s, &remote, &local, &ClientEvent::Ready);
    assert_eq!(st, ClientState::AwaitRequest { index: 1 });
    assert_eq!(a, ClientAction::Offer { index: 1 });
    let (st, a) = client_step(st, &s, &remote, &local, &ClientEvent::Received(Some(Msg::Done)));
    assert_eq!(st, ClientState::Push { next: 2 });
    assert_eq!(a, ClientAction::Continue);
    let (st, a) = client_step(st, &s, &remote, &local, &ClientEvent::Ready);
    assert_eq!(st, ClientState::Finished);
    assert_eq!(a, ClientAction::SendDone);
}

#[test]
fn client_streams_only_for_a_request_that_names_the_offered_file() {
    let s = session(None, false);
    let remote = Vec::new();
    let local = names(&["c.bin", "d.bin"]);
    let wrong = Msg::RequestChunks { rel_path: "d.bin".to_string(), indices: vec![0] };
    let ev = ClientEvent::Received(Some(wrong));
    let (st, a) = client_step(ClientState::AwaitRequest { index: 0 }, &s, &remote, &local, &ev);
    assert_eq!(st, ClientState::Push { next: 1 });
    assert_eq!(a, ClientAction::Continue);
    let ev = ClientEvent::Received(None);
    let (st, a) = client_step(ClientState::AwaitRequest { index: 0 }, &s, &remote, &local, &ev);
    assert_eq!(st, ClientState::Push { next: 1 });
    assert_eq!(a, ClientAction::Continue);
    let right = Some(Msg::RequestChunks { rel_path: "d.bin".to_string(), indices: vec![] });
    assert!(is_request_for(&right, &local, 1));
    assert!(!is_request_for(&right, &local, 0));
    assert!(!is_request_for(&right, &local, 2));
    assert!(!is_request_for(&Some(Msg::Done), &local, 1));
}

#[test]
fn client_ignores_events_that_do_not_belong() {
    let s = session(None, true);
    let none = Vec::new();
    let states = [
        ClientState::Start,
        ClientState::AwaitVersion,
        ClientState::AwaitSummary,
        ClientState::MirrorScan,
        ClientState::Mirroring,
        ClientState::AwaitMeta { index: 0 },
        ClientState::Downloading { index: 0 },
        ClientState::PushScan,
        ClientState::AwaitRequest { index: 0 },
        ClientState::Streaming { index: 0 },
        ClientState::Finished,
    ];
    for st in states {
        let expects_begin = st == ClientState::Start;
        let expects_scan = st == ClientState::MirrorScan || st == ClientState::PushScan;
        let expects_ready = matches!(
            st,
            ClientState::Mirroring | ClientState::Downloading { .. } | ClientState::Streaming { .. }
        );
        if !expects_begin {
            let (to, a) = client_step(st, &s, &none, &none, &ClientEvent::Begin);
            assert_eq!((to, a), (st, ClientAction::Nothing));
        }
        if !expects_scan {
            let (to, a) = client_step(st, &s, &none, &none, &ClientEvent::Scanned);
            assert_eq!((to, a), (st, ClientAction::Nothing));
        }
        if !expects_ready {
            let (to, a) = client_step(st, &s, &none, &none, &ClientEvent::Ready);
            assert_eq!((to, a), (st, ClientAction::Nothing));
        }
    }
}

#[test]
fn finished_client_stays_finished() {
    let s = session(None, false);
    let none = Vec::new();
    for ev in [
        ClientEvent::Begin,
        ClientEvent::Received(Some(Msg::Done)),
        ClientEvent::Received(None),
        ClientEvent::Scanned,
        ClientEvent::Ready,
    ] {
        let (st, a) = client_step(ClientState::Finished, &s, &none, &none, &ev);
        assert_eq!(st, ClientState::Finished);
        assert_eq!(a, ClientAction::Nothing);
    }
}
