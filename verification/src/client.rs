//! The requester's side of the control stream, as a state machine.
//!
//! A session shakes hands, takes the peer's catalog, optionally mirrors
//! deletions, pulls every announced file that the single-file filter admits,
//! then offers every local file that the filter admits, and ends with
//! `Done`. Requests and answers are strictly paired. The machine says what
//! to do next; performing it is the caller's part, who reports back with an
//! event.

use vstd::prelude::*;
use crate::chunk::{ChunkInfo, chunk_hash_views};
use crate::protocol::{FileSummary, Msg, hash_views, PROTOCOL_MAJOR, PROTOCOL_MINOR};
use crate::syncer::{filter_admits, opt_view, passes_filter, string_views};
use crate::text::str_eq;

verus! {

/// What a session was started with and has negotiated.
#[derive(Debug, Clone)]
pub struct Session {
    /// Address of the peer.
    pub peer: String,
    /// Local folder that is synchronized.
    pub folder: String,
    /// The single file to which the session is restricted, if any.
    pub only_file: Option<String>,
    /// Whether local files that the peer does not announce are trashed.
    pub mirror: bool,
    /// Configured number of download substreams.
    pub streams: usize,
    /// Download rate limit in bytes per second, if any.
    pub rate: Option<u64>,
    /// Protocol version of the peer, once the handshake is through.
    pub version: Option<(u16, u16)>,
}

/// Where the requester stands on the control stream.
#[derive(Debug, Clone, Copy, PartialEq, Eq, Structural)]
pub enum ClientState {
    /// Nothing was sent yet.
    Start,
    /// The own version was sent; the peer's is awaited.
    AwaitVersion,
    /// The greeting was sent; the catalog is awaited.
    AwaitSummary,
    /// The local folder is being listed for mirroring.
    MirrorScan,
    /// Local files that the peer does not announce are being trashed.
    Mirroring,
    /// The announced files from `next` on are still to be pulled.
    Pull { next: usize },
    /// The metadata of announced file `index` was requested.
    AwaitMeta { index: usize },
    /// Announced file `index` is being downloaded.
    Downloading { index: usize },
    /// The local folder is being listed for the push phase.
    PushScan,
    /// The local files from `next` on are still to be offered.
    Push { next: usize },
    /// Local file `index` was offered; the peer's answer is awaited.
    AwaitRequest { index: usize },
    /// The chunks that the peer asked for of local file `index` are sent.
    Streaming { index: usize },
    /// The session is over.
    Finished,
}

/// What the caller reports to the machine.
#[derive(Debug, Clone)]
pub enum ClientEvent {
    /// The control stream is open.
    Begin,
    /// A message was read; `None` stands for the end of the stream.
    Received(Option<Msg>),
    /// The local folder was listed.
    Scanned,
    /// The work that the last action asked for is done.
    Ready,
}

/// What the requester does next.
#[derive(Debug, Clone, Copy, PartialEq, Eq, Structural)]
pub enum ClientAction {
    /// Nothing: the event does not belong here.
    Nothing,
    /// Report `Ready` at once.
    Continue,
    /// Send the own version and read the answer.
    SendVersion,
    /// Send the greeting and read the answer.
    SendHello,
    /// The handshake failed: leave without another word.
    Stop,
    /// List the local folder and report `Scanned`.
    ScanLocal,
    /// Move the local files that mirroring removes to the trash, then
    /// report `Ready`.
    Trash,
    /// Request the metadata of announced file `index` and read the answer.
    RequestFile { index: usize },
    /// Download announced file `index` as the metadata just read describes
    /// it, then report `Ready`.
    Download { index: usize },
    /// Offer local file `index` and read the answer.
    Offer { index: usize },
    /// Send the chunks that the answer just read asks for, then `Done`, then
    /// report `Ready`.
    Stream { index: usize },
    /// Send `Done`: the session is complete.
    SendDone,
}

/// The first position from `from` on whose path the filter admits.
pub open spec fn first_admitted(paths: Seq<Seq<char>>, filter: Option<Seq<char>>, from: nat) -> Option<
    nat,
>
    decreases paths.len() - from,
{
    if from >= paths.len() {
        None
    } else if filter_admits(paths[from as int], filter) {
        Some(from)
    } else {
        first_admitted(paths, filter, from + 1)
    }
}

/// The position after `index`, as far as positions go.
pub open spec fn after(index: usize) -> usize {
    if index < usize::MAX {
        (index + 1) as usize
    } else {
        index
    }
}

/// Pulling goes on with the next admitted announced file, or turns to the
/// push phase when there is none.
pub open spec fn pull_from(remote: Seq<Seq<char>>, filter: Option<Seq<char>>, from: usize) -> (
    ClientState,
    ClientAction,
) {
    match first_admitted(remote, filter, from as nat) {
        Some(j) => (
            ClientState::AwaitMeta { index: j as usize },
            ClientAction::RequestFile { index: j as usize },
        ),
        None => (ClientState::PushScan, ClientAction::ScanLocal),
    }
}

/// Pushing goes on with the next admitted local file, or ends the session
/// when there is none.
pub open spec fn push_from(local: Seq<Seq<char>>, filter: Option<Seq<char>>, from: usize) -> (
    ClientState,
    ClientAction,
) {
    match first_admitted(local, filter, from as nat) {
        Some(j) => (
            ClientState::AwaitRequest { index: j as usize },
            ClientAction::Offer { index: j as usize },
        ),
        None => (ClientState::Finished, ClientAction::SendDone),
    }
}

/// Whether `msg` is a version that the session accepts: major 1.
pub open spec fn version_accepted(msg: Option<Msg>) -> bool {
    msg matches Some(Msg::Version { major, minor }) && major == PROTOCOL_MAJOR
}

/// Whether `msg` asks for chunks of the file at `index` of `local`.
pub open spec fn asks_for(msg: Option<Msg>, local: Seq<Seq<char>>, index: usize) -> bool {
    msg matches Some(Msg::RequestChunks { rel_path, indices }) && index < local.len() && rel_path@
        == local[index as int]
}

/// The transition table of the requester. `remote` holds the paths of the
/// peer's catalog and `local` those of the local folder as last listed.
pub open spec fn client_next(
    state: ClientState,
    filter: Option<Seq<char>>,
    mirror: bool,
    remote: Seq<Seq<char>>,
    local: Seq<Seq<char>>,
    event: ClientEvent,
) -> (ClientState, ClientAction) {
    match (state, event) {
        (ClientState::Start, ClientEvent::Begin) => (
            ClientState::AwaitVersion,
            ClientAction::SendVersion,
        ),
        (ClientState::AwaitVersion, ClientEvent::Received(msg)) => if version_accepted(msg) {
            (ClientState::AwaitSummary, ClientAction::SendHello)
        } else {
            (ClientState::Finished, ClientAction::Stop)
        },
        (ClientState::AwaitSummary, ClientEvent::Received(msg)) => if mirror {
            (ClientState::MirrorScan, ClientAction::ScanLocal)
        } else {
            (ClientState::Pull { next: 0 }, ClientAction::Continue)
        },
        (ClientState::MirrorScan, ClientEvent::Scanned) => (
            ClientState::Mirroring,
            ClientAction::Trash,
        ),
        (ClientState::Mirroring, ClientEvent::Ready) => (
            ClientState::Pull { next: 0 },
            ClientAction::Continue,
        ),
        (ClientState::Pull { next }, ClientEvent::Ready) => pull_from(remote, filter, next),
        (ClientState::AwaitMeta { index }, ClientEvent::Received(msg)) => if msg matches Some(
            Msg::FileMeta { rel_path, size, chunk_count, root, chunk_hashes },
        ) {
            (ClientState::Downloading { index }, ClientAction::Download { index })
        } else {
            (ClientState::Pull { next: after(index) }, ClientAction::Continue)
        },
        (ClientState::Downloading { index }, ClientEvent::Ready) => (
            ClientState::Pull { next: after(index) },
            ClientAction::Continue,
        ),
        (ClientState::PushScan, ClientEvent::Scanned) => (
            ClientState::Push { next: 0 },
            ClientAction::Continue,
        ),
        (ClientState::Push { next }, ClientEvent::Ready) => push_from(local, filter, next),
        (ClientState::AwaitRequest { index }, ClientEvent::Received(msg)) => if asks_for(
            msg,
            local,
            index,
        ) {
            (ClientState::Streaming { index }, ClientAction::Stream { index })
        } else {
            (ClientState::Push { next: after(index) }, ClientAction::Continue)
        },
        (ClientState::Streaming { index }, ClientEvent::Ready) => (
            ClientState::Push { next: after(index) },
            ClientAction::Continue,
        ),
        _ => (state, ClientAction::Nothing),
    }
}

/// The first position from `from` on whose path the filter admits.
fn find_admitted(paths: &Vec<String>, only_file: &Option<String>, from: usize) -> (out: Option<
    usize,
>)
    ensures
        match out {
            Some(j) => first_admitted(string_views(paths@), opt_view(*only_file), from as nat)
                == Some(j as nat),
            None => first_admitted(string_views(paths@), opt_view(*only_file), from as nat)
                is None,
        },
{
    let ghost all = string_views(paths@);
    let ghost filter = opt_view(*only_file);
    let mut i: usize = from;
    while i < paths.len()
        invariant
            all == string_views(paths@),
            filter == opt_view(*only_file),
            from <= i,
            first_admitted(all, filter, from as nat) == first_admitted(all, filter, i as nat),
        decreases paths@.len() - i,
    {
        if passes_filter(paths[i].as_str(), only_file) {
            return Some(i);
        }
        i = i + 1;
    }
    None
}

/// The position after `index`, as far as positions go.
fn step_after(index: usize) -> (out: usize)
    ensures
        out == after(index),
{
    if index < usize::MAX {
        index + 1
    } else {
        index
    }
}

/// One step of the requester: the state after `event` and what to do next.
///
/// `remote` holds the paths of the peer's catalog, in the order announced,
/// and `local` those of the local folder as last listed.
pub fn client_step(
    state: ClientState,
    session: &Session,
    remote: &Vec<String>,
    local: &Vec<String>,
    event: &ClientEvent,
) -> (out: (ClientState, ClientAction))
    ensures
        out == client_next(
            state,
            opt_view(session.only_file),
            session.mirror,
            string_views(remote@),
            string_views(local@),
            *event,
        ),
{
    match state {
        ClientState::Start => match event {
            ClientEvent::Begin => (ClientState::AwaitVersion, ClientAction::SendVersion),
            _ => (state, ClientAction::Nothing),
        },
        ClientState::AwaitVersion => match event {
            ClientEvent::Received(msg) => {
                if accepts_version(msg) {
                    (ClientState::AwaitSummary, ClientAction::SendHello)
                } else {
                    (ClientState::Finished, ClientAction::Stop)
                }
            },
            _ => (state, ClientAction::Nothing),
        },
        ClientState::AwaitSummary => match event {
            ClientEvent::Received(msg) => {
                if session.mirror {
                    (ClientState::MirrorScan, ClientAction::ScanLocal)
                } else {
                    (ClientState::Pull { next: 0 }, ClientAction::Continue)
                }
            },
            _ => (state, ClientAction::Nothing),
        },
        ClientState::MirrorScan => match event {
            ClientEvent::Scanned => (ClientState::Mirroring, ClientAction::Trash),
            _ => (state, ClientAction::Nothing),
        },
        ClientState::Mirroring => match event {
            ClientEvent::Ready => (ClientState::Pull { next: 0 }, ClientAction::Continue),
            _ => (state, ClientAction::Nothing),
        },
        ClientState::Pull { next } => match event {
            ClientEvent::Ready => match find_admitted(remote, &session.only_file, next) {
                Some(j) => (
                    ClientState::AwaitMeta { index: j },
                    ClientAction::RequestFile { index: j },
                ),
                None => (ClientState::PushScan, ClientAction::ScanLocal),
            },
            _ => (state, ClientAction::Nothing),
        },
        ClientState::AwaitMeta { index } => match event {
            ClientEvent::Received(msg) => match msg {
                Some(Msg::FileMeta { rel_path, size, chunk_count, root, chunk_hashes }) => (
                    ClientState::Downloading { index },
                    ClientAction::Download { index },
                ),
                _ => (ClientState::Pull { next: step_after(index) }, ClientAction::Continue),
            },
            _ => (state, ClientAction::Nothing),
        },
        ClientState::Downloading { index } => match event {
            ClientEvent::Ready => (
                ClientState::Pull { next: step_after(index) },
                ClientAction::Continue,
            ),
            _ => (state, ClientAction::Nothing),
        },
        ClientState::PushScan => match event {
            ClientEvent::Scanned => (ClientState::Push { next: 0 }, ClientAction::Continue),
            _ => (state, ClientAction::Nothing),
        },
        ClientState::Push { next } => match event {
            ClientEvent::Ready => match find_admitted(local, &session.only_file, next) {
                Some(j) => (
                    ClientState::AwaitRequest { index: j },
                    ClientAction::Offer { index: j },
                ),
                None => (ClientState::Finished, ClientAction::SendDone),
            },
            _ => (state, ClientAction::Nothing),
        },
        ClientState::AwaitRequest { index } => match event {
            ClientEvent::Received(msg) => {
                if is_request_for(msg, local, index) {
                    (ClientState::Streaming { index }, ClientAction::Stream { index })
                } else {
                    (ClientState::Push { next: step_after(index) }, ClientAction::Continue)
                }
            },
            _ => (state, ClientAction::Nothing),
        },
        ClientState::Streaming { index } => match event {
            ClientEvent::Ready => (
                ClientState::Push { next: step_after(index) },
                ClientAction::Continue,
            ),
            _ => (state, ClientAction::Nothing),
        },
        ClientState::Finished => (state, ClientAction::Nothing),
    }
}

/// Whether `msg` is a version that the session accepts: major 1, any minor.
pub fn accepts_version(msg: &Option<Msg>) -> (ok: bool)
    ensures
        ok == version_accepted(*msg),
{
    match msg {
        Some(Msg::Version { major, minor }) => *major == PROTOCOL_MAJOR,
        _ => false,
    }
}

/// The version that the peer announced, if the session accepts it.
pub fn peer_version(msg: &Option<Msg>) -> (out: Option<(u16, u16)>)
    ensures
        match out {
            Some(v) => version_accepted(*msg) && *msg == Some(Msg::Version { major: v.0, minor: v.1 }),
            None => !version_accepted(*msg),
        },
{
    match msg {
        Some(Msg::Version { major, minor }) => {
            if *major == PROTOCOL_MAJOR {
                Some((*major, *minor))
            } else {
                None
            }
        },
        _ => None,
    }
}

/// Whether `msg` asks for chunks of the local file at `index`.
pub fn is_request_for(msg: &Option<Msg>, local: &Vec<String>, index: usize) -> (ok: bool)
    ensures
        ok == asks_for(*msg, string_views(local@), index),
{
    match msg {
        Some(Msg::RequestChunks { rel_path, indices }) => {
            if index < local.len() {
                str_eq(rel_path.as_str(), local[index].as_str())
            } else {
                false
            }
        },
        _ => false,
    }
}

/// The own version, as sent first on the control stream.
pub fn version_message() -> (out: Msg)
    ensures
        out matches Msg::Version { major, minor } && major == PROTOCOL_MAJOR && minor
            == PROTOCOL_MINOR,
{
    Msg::Version { major: PROTOCOL_MAJOR, minor: PROTOCOL_MINOR }
}

/// The greeting, which names the local folder.
pub fn hello_message(folder: &str) -> (out: Msg)
    ensures
        out matches Msg::Hello { folder: f } && f@ == folder@,
{
    Msg::Hello { folder: folder.to_owned() }
}

/// The request for the metadata of `rel_path`.
pub fn request_file_message(rel_path: &str) -> (out: Msg)
    ensures
        out matches Msg::RequestFile { rel_path: r } && r@ == rel_path@,
{
    Msg::RequestFile { rel_path: rel_path.to_owned() }
}

/// The request for the chunks `indices` of `rel_path`, as a substream opens
/// with.
pub fn request_chunks_message(rel_path: &str, indices: Vec<u64>) -> (out: Msg)
    ensures
        out matches Msg::RequestChunks { rel_path: r, indices: i } && r@ == rel_path@ && i
            == indices,
{
    Msg::RequestChunks { rel_path: rel_path.to_owned(), indices }
}

/// The push offer for a local file: its catalog entry and all its chunk
/// hashes, in order.
pub fn offer_message(summary: &FileSummary, chunks: &Vec<ChunkInfo>) -> (out: Msg)
    ensures
        out matches Msg::FileMeta { rel_path, size, chunk_count, root, chunk_hashes } && rel_path@
            == summary.rel_path@ && size == summary.size && chunk_count == summary.chunk_count
            && root == summary.root && hash_views(chunk_hashes@) == chunk_hash_views(chunks@),
{
    let mut chunk_hashes: Vec<[u8; 32]> = Vec::new();
    let mut i: usize = 0;
    while i < chunks.len()
        invariant
            i <= chunks@.len(),
            chunk_hashes@.len() == i,
            forall|k: int| 0 <= k < i ==> (#[trigger] chunk_hashes@[k])@ == chunks@[k].hash@,
        decreases chunks@.len() - i,
    {
        chunk_hashes.push(chunks[i].hash);
        i = i + 1;
    }
    assert(hash_views(chunk_hashes@) =~= chunk_hash_views(chunks@));
    Msg::FileMeta {
        rel_path: summary.rel_path.clone(),
        size: summary.size,
        chunk_count: summary.chunk_count,
        root: summary.root,
        chunk_hashes,
    }
}

/// The catalog that an answer to the greeting announces: the files of a
/// `Summary`, and none for any other answer or the end of the stream.
pub fn summary_files(reply: Option<Msg>) -> (out: Vec<FileSummary>)
    ensures
        match reply {
            Some(Msg::Summary { files }) => out == files,
            _ => out@.len() == 0,
        },
{
    match reply {
        Some(Msg::Summary { files }) => files,
        _ => Vec::new(),
    }
}

/// The paths of a catalog, in order.
pub fn summary_paths(files: &Vec<FileSummary>) -> (out: Vec<String>)
    ensures
        out@.len() == files@.len(),
        forall|i: int| 0 <= i < files@.len() ==> (#[trigger] out@[i])@ == files@[i].rel_path@,
{
    let mut out: Vec<String> = Vec::new();
    let mut i: usize = 0;
    while i < files.len()
        invariant
            i <= files@.len(),
            out@.len() == i,
            forall|k: int| 0 <= k < i ==> (#[trigger] out@[k])@ == files@[k].rel_path@,
        decreases files@.len() - i,
    {
        out.push(files[i].rel_path.clone());
        i = i + 1;
    }
    out
}

/// What `first_admitted` finds: a position at or after `from`, within the
/// list, whose path the filter admits, with no admitted path between `from`
/// and it; and nothing only if no path from `from` on is admitted.
pub proof fn lemma_first_admitted(paths: Seq<Seq<char>>, filter: Option<Seq<char>>, from: nat)
    ensures
        match first_admitted(paths, filter, from) {
            Some(j) => from <= j < paths.len() && filter_admits(paths[j as int], filter)
                && forall|i: int| from <= i < j ==> !filter_admits(#[trigger] paths[i], filter),
            None => forall|i: int|
                from <= i < paths.len() ==> !filter_admits(#[trigger] paths[i], filter),
        },
    decreases paths.len() - from,
{
    if from < paths.len() && !filter_admits(paths[from as int], filter) {
        lemma_first_admitted(paths, filter, from + 1);
    }
}

/// Once finished, a session stays finished and does nothing more.
pub proof fn lemma_finished_is_final(
    filter: Option<Seq<char>>,
    mirror: bool,
    remote: Seq<Seq<char>>,
    local: Seq<Seq<char>>,
    event: ClientEvent,
)
    ensures
        client_next(ClientState::Finished, filter, mirror, remote, local, event) == (
            ClientState::Finished,
            ClientAction::Nothing,
        ),
{
}

/// The handshake goes on only on a version of major 1; any other answer
/// ends the session without another word.
pub proof fn lemma_handshake(
    filter: Option<Seq<char>>,
    mirror: bool,
    remote: Seq<Seq<char>>,
    local: Seq<Seq<char>>,
    msg: Option<Msg>,
)
    ensures
        client_next(
            ClientState::AwaitVersion,
            filter,
            mirror,
            remote,
            local,
            ClientEvent::Received(msg),
        ) == (if msg matches Some(Msg::Version { major, minor }) && major == 1 {
            (ClientState::AwaitSummary, ClientAction::SendHello)
        } else {
            (ClientState::Finished, ClientAction::Stop)
        }),
{
}

/// Only files that the single-file filter admits are requested or offered,
/// each lies within its list, and the walk through either list only moves
/// forward.
pub proof fn lemma_requests_are_admitted(
    state: ClientState,
    filter: Option<Seq<char>>,
    mirror: bool,
    remote: Seq<Seq<char>>,
    local: Seq<Seq<char>>,
    event: ClientEvent,
)
    requires
        remote.len() <= usize::MAX,
        local.len() <= usize::MAX,
    ensures
        client_next(state, filter, mirror, remote, local, event).1 matches ClientAction::RequestFile {
            index,
        } ==> index < remote.len() && filter_admits(remote[index as int], filter) && (
        state matches ClientState::Pull { next } && next <= index),
        client_next(state, filter, mirror, remote, local, event).1 matches ClientAction::Offer {
            index,
        } ==> index < local.len() && filter_admits(local[index as int], filter) && (
        state matches ClientState::Push { next } && next <= index),
{
    match state {
        ClientState::Pull { next } => {
            lemma_first_admitted(remote, filter, next as nat);
        },
        ClientState::Push { next } => {
            lemma_first_admitted(local, filter, next as nat);
        },
        _ => {},
    }
}

/// A file is downloaded only upon its metadata, and chunks are streamed only
/// upon a request that names the file just offered: requests and answers
/// are strictly paired.
pub proof fn lemma_answers_are_paired(
    state: ClientState,
    filter: Option<Seq<char>>,
    mirror: bool,
    remote: Seq<Seq<char>>,
    local: Seq<Seq<char>>,
    event: ClientEvent,
)
    ensures
        client_next(state, filter, mirror, remote, local, event).1 matches ClientAction::Download {
            index,
        } ==> state == (ClientState::AwaitMeta { index }) && (event matches ClientEvent::Received(
            Some(Msg::FileMeta { rel_path, size, chunk_count, root, chunk_hashes }),
        )),
        client_next(state, filter, mirror, remote, local, event).1 matches ClientAction::Stream {
            index,
        } ==> state == (ClientState::AwaitRequest { index }) && index < local.len() && (
        event matches ClientEvent::Received(Some(Msg::RequestChunks { rel_path, indices }))
            && rel_path@ == local[index as int]),
{
    match state {
        ClientState::Pull { next } => {
            lemma_first_admitted(remote, filter, next as nat);
        },
        ClientState::Push { next } => {
            lemma_first_admitted(local, filter, next as nat);
        },
        _ => {},
    }
}

} // verus!
