//! The responder's side of a stream, as a state machine.
//!
//! A stream begins either with a version handshake, which makes it a control
//! stream, or with a single request for chunks, which makes it a substream.
//! The machine says, for each message read, what the responder does next;
//! performing it (reading files, writing to the stream) is the caller's part.

use vstd::prelude::*;
use crate::chunk::{chunk_file, chunk_hash_views, chunk_window, chunks_of, chunk_count, read_chunk};
use crate::merkle::{file_root, lemma_file_hashes, merkle_root_from_chunks};
use crate::protocol::{
    FileSummary, Msg, hash_views, summary_views, PROTOCOL_MAJOR, PROTOCOL_MINOR,
};
use crate::syncer::{
    advertised_files, admitted, diff_needed_indices, filter_admits, needed_indices, opt_view,
    passes_filter,
};
use crate::text::str_eq;

verus! {

/// Where a responder stands on one stream.
#[derive(Debug, Clone)]
pub enum ServerState {
    /// Nothing was read yet.
    Init,
    /// Versions were exchanged; the peer's greeting is awaited.
    AwaitHello,
    /// The catalog was sent; messages are dispatched one by one.
    Active,
    /// A push offer was answered; its chunks are being received.
    Receiving { rel_path: String, size: u64, root: [u8; 32] },
    /// The stream is over.
    Closed,
}

/// The mathematical content of a [`ServerState`].
pub enum ServerStateView {
    Init,
    AwaitHello,
    Active,
    Receiving { rel_path: Seq<char>, size: u64, root: Seq<u8> },
    Closed,
}

impl View for ServerState {
    type V = ServerStateView;

    open spec fn view(&self) -> ServerStateView {
        match *self {
            ServerState::Init => ServerStateView::Init,
            ServerState::AwaitHello => ServerStateView::AwaitHello,
            ServerState::Active => ServerStateView::Active,
            ServerState::Receiving { rel_path, size, root } => ServerStateView::Receiving {
                rel_path: rel_path@,
                size,
                root: root@,
            },
            ServerState::Closed => ServerStateView::Closed,
        }
    }
}

/// What the responder does about the message just read.
#[derive(Debug, Clone)]
pub enum ServerAction {
    /// Nothing: the message is ignored or discarded.
    Nothing,
    /// Stop reading; the stream is over.
    Close,
    /// Send the own version.
    SendVersion,
    /// Send the catalog of the folder, as the single-file filter admits it.
    SendSummary,
    /// Answer the request with the metadata of the local file.
    SendFileMeta,
    /// Send `Done`: the file asked for or offered is not available here.
    SendDone,
    /// Answer the push offer with the chunks that the local copy lacks.
    RequestMissing,
    /// Send each requested chunk in the order asked, then `Done`.
    StreamChunks,
    /// Write the chunk just read to the staged file.
    StageChunk,
    /// Cut the staged file to `size`, verify it against `root`, and finalize
    /// it only if the root matches.
    VerifyAndFinalize { rel_path: String, size: u64, root: [u8; 32] },
}

/// The mathematical content of a [`ServerAction`].
pub enum ServerActionView {
    Nothing,
    Close,
    SendVersion,
    SendSummary,
    SendFileMeta,
    SendDone,
    RequestMissing,
    StreamChunks,
    StageChunk,
    VerifyAndFinalize { rel_path: Seq<char>, size: u64, root: Seq<u8> },
}

impl View for ServerAction {
    type V = ServerActionView;

    open spec fn view(&self) -> ServerActionView {
        match *self {
            ServerAction::Nothing => ServerActionView::Nothing,
            ServerAction::Close => ServerActionView::Close,
            ServerAction::SendVersion => ServerActionView::SendVersion,
            ServerAction::SendSummary => ServerActionView::SendSummary,
            ServerAction::SendFileMeta => ServerActionView::SendFileMeta,
            ServerAction::SendDone => ServerActionView::SendDone,
            ServerAction::RequestMissing => ServerActionView::RequestMissing,
            ServerAction::StreamChunks => ServerActionView::StreamChunks,
            ServerAction::StageChunk => ServerActionView::StageChunk,
            ServerAction::VerifyAndFinalize { rel_path, size, root } => ServerActionView::VerifyAndFinalize {
                rel_path: rel_path@,
                size,
                root: root@,
            },
        }
    }
}

/// The first message of a stream decides what the stream is.
pub open spec fn from_init(event: Option<Msg>) -> (ServerStateView, ServerActionView) {
    match event {
        Some(Msg::Version { major, minor }) => if major == PROTOCOL_MAJOR {
            (ServerStateView::AwaitHello, ServerActionView::SendVersion)
        } else {
            (ServerStateView::Closed, ServerActionView::Close)
        },
        Some(Msg::RequestChunks { rel_path, indices }) => (
            ServerStateView::Closed,
            ServerActionView::StreamChunks,
        ),
        _ => (ServerStateView::Closed, ServerActionView::Close),
    }
}

/// After the versions, only a greeting keeps the stream open.
pub open spec fn from_await_hello(event: Option<Msg>) -> (ServerStateView, ServerActionView) {
    match event {
        Some(Msg::Hello { folder }) => (ServerStateView::Active, ServerActionView::SendSummary),
        _ => (ServerStateView::Closed, ServerActionView::Close),
    }
}

/// Dispatch of one message on an active control stream.
pub open spec fn from_active(filter: Option<Seq<char>>, event: Option<Msg>) -> (
    ServerStateView,
    ServerActionView,
) {
    match event {
        Some(Msg::RequestFile { rel_path }) => if filter_admits(rel_path@, filter) {
            (ServerStateView::Active, ServerActionView::SendFileMeta)
        } else {
            (ServerStateView::Active, ServerActionView::SendDone)
        },
        Some(Msg::FileMeta { rel_path, size, chunk_count, root, chunk_hashes }) => if filter_admits(
            rel_path@,
            filter,
        ) {
            (
                ServerStateView::Receiving { rel_path: rel_path@, size, root: root@ },
                ServerActionView::RequestMissing,
            )
        } else {
            (ServerStateView::Active, ServerActionView::SendDone)
        },
        Some(Msg::RequestChunks { rel_path, indices }) => (
            ServerStateView::Active,
            ServerActionView::StreamChunks,
        ),
        Some(Msg::Done) => (ServerStateView::Closed, ServerActionView::Close),
        Some(_) => (ServerStateView::Active, ServerActionView::Nothing),
        None => (ServerStateView::Closed, ServerActionView::Close),
    }
}

/// One message while the chunks of the push offer for `rel` are received.
pub open spec fn from_receiving(rel: Seq<char>, size: u64, root: Seq<u8>, event: Option<Msg>) -> (
    ServerStateView,
    ServerActionView,
) {
    let same = ServerStateView::Receiving { rel_path: rel, size, root };
    match event {
        Some(Msg::ChunkData { rel_path, index, data }) => if rel_path@ == rel {
            (same, ServerActionView::StageChunk)
        } else {
            (same, ServerActionView::Nothing)
        },
        Some(Msg::Done) => (
            ServerStateView::Active,
            ServerActionView::VerifyAndFinalize { rel_path: rel, size, root },
        ),
        Some(_) => (same, ServerActionView::Nothing),
        None => (ServerStateView::Closed, ServerActionView::Close),
    }
}

/// The transition table of the responder: the state after `event` and what
/// to do about it. `None` stands for the end of the stream.
pub open spec fn server_next(state: ServerStateView, filter: Option<Seq<char>>, event: Option<
    Msg,
>) -> (ServerStateView, ServerActionView) {
    match state {
        ServerStateView::Init => from_init(event),
        ServerStateView::AwaitHello => from_await_hello(event),
        ServerStateView::Active => from_active(filter, event),
        ServerStateView::Receiving { rel_path, size, root } => from_receiving(
            rel_path,
            size,
            root,
            event,
        ),
        ServerStateView::Closed => (ServerStateView::Closed, ServerActionView::Nothing),
    }
}

/// One step of the responder: the state after `event` and what to do about
/// it. `None` stands for the end of the stream.
pub fn server_step(state: ServerState, only_file: &Option<String>, event: &Option<Msg>) -> (out: (
    ServerState,
    ServerAction,
))
    ensures
        (out.0@, out.1@) == server_next(state@, opt_view(*only_file), *event),
{
    match state {
        ServerState::Init => match event {
            Some(Msg::Version { major, minor }) => {
                if *major == PROTOCOL_MAJOR {
                    (ServerState::AwaitHello, ServerAction::SendVersion)
                } else {
                    (ServerState::Closed, ServerAction::Close)
                }
            },
            Some(Msg::RequestChunks { rel_path, indices }) => (
                ServerState::Closed,
                ServerAction::StreamChunks,
            ),
            _ => (ServerState::Closed, ServerAction::Close),
        },
        ServerState::AwaitHello => match event {
            Some(Msg::Hello { folder }) => (ServerState::Active, ServerAction::SendSummary),
            _ => (ServerState::Closed, ServerAction::Close),
        },
        ServerState::Active => match event {
            Some(Msg::RequestFile { rel_path }) => {
                if passes_filter(rel_path.as_str(), only_file) {
                    (ServerState::Active, ServerAction::SendFileMeta)
                } else {
                    (ServerState::Active, ServerAction::SendDone)
                }
            },
            Some(Msg::FileMeta { rel_path, size, chunk_count, root, chunk_hashes }) => {
                if passes_filter(rel_path.as_str(), only_file) {
                    (
                        ServerState::Receiving {
                            rel_path: rel_path.clone(),
                            size: *size,
                            root: *root,
                        },
                        ServerAction::RequestMissing,
                    )
                } else {
                    (ServerState::Active, ServerAction::SendDone)
                }
            },
            Some(Msg::RequestChunks { rel_path, indices }) => (
                ServerState::Active,
                ServerAction::StreamChunks,
            ),
            Some(Msg::Done) => (ServerState::Closed, ServerAction::Close),
            Some(_) => (ServerState::Active, ServerAction::Nothing),
            None => (ServerState::Closed, ServerAction::Close),
        },
        ServerState::Receiving { rel_path, size, root } => match event {
            Some(Msg::ChunkData { rel_path: got, index, data }) => {
                if str_eq(got.as_str(), rel_path.as_str()) {
                    (ServerState::Receiving { rel_path, size, root }, ServerAction::StageChunk)
                } else {
                    (ServerState::Receiving { rel_path, size, root }, ServerAction::Nothing)
                }
            },
            Some(Msg::Done) => (
                ServerState::Active,
                ServerAction::VerifyAndFinalize { rel_path, size, root },
            ),
            Some(_) => (ServerState::Receiving { rel_path, size, root }, ServerAction::Nothing),
            None => (ServerState::Closed, ServerAction::Close),
        },
        ServerState::Closed => (ServerState::Closed, ServerAction::Nothing),
    }
}

/// The own version, as sent in the handshake.
pub fn version_message() -> (out: Msg)
    ensures
        out matches Msg::Version { major, minor } && major == PROTOCOL_MAJOR && minor
            == PROTOCOL_MINOR,
{
    Msg::Version { major: PROTOCOL_MAJOR, minor: PROTOCOL_MINOR }
}

/// The catalog message for a folder with the entries `files`: those that the
/// single-file filter admits, in order.
pub fn summary_reply(files: &Vec<FileSummary>, only_file: &Option<String>) -> (out: Msg)
    ensures
        out matches Msg::Summary { files: sent } && summary_views(sent@) == admitted(
            summary_views(files@),
            opt_view(*only_file),
        ),
{
    Msg::Summary { files: advertised_files(files, only_file) }
}

/// The contents that stand for a local file: its bytes, or none at all where
/// the file does not exist.
pub open spec fn contents_of(file: Option<Vec<u8>>) -> Seq<u8> {
    match file {
        Some(data) => data@,
        None => Seq::empty(),
    }
}

/// The answer to a request for the metadata of `rel_path`: size, chunk
/// count, root and all chunk hashes of the local file. A file that does not
/// exist is described as an empty one.
pub fn file_meta_reply(rel_path: &str, file: &Option<Vec<u8>>) -> (out: Msg)
    ensures
        out matches Msg::FileMeta { rel_path: rel, size, chunk_count: count, root, chunk_hashes }
            && rel@ == rel_path@ && size == contents_of(*file).len() && count == chunk_count(
            contents_of(*file).len(),
        ) && root@ == file_root(contents_of(*file)) && hash_views(chunk_hashes@)
            == crate::merkle::file_hashes(contents_of(*file)),
{
    let empty: Vec<u8> = Vec::new();
    let data: &Vec<u8> = match file {
        Some(d) => d,
        None => &empty,
    };
    let chunks = chunk_file(data.as_slice());
    proof {
        lemma_file_hashes(data@, chunks@);
    }
    let root = merkle_root_from_chunks(chunks.as_slice());
    let mut chunk_hashes: Vec<[u8; 32]> = Vec::new();
    let mut i: usize = 0;
    while i < chunks.len()
        invariant
            i <= chunks@.len(),
            chunk_hashes@.len() == i,
            forall|k: int| 0 <= k < i ==> (#[trigger] chunk_hashes@[k])@ == chunks@[k].hash@,
        decreases chunks@.len() - i,
    {
        chunk_hashes.push(chunks[i].hash);
        i = i + 1;
    }
    assert(hash_views(chunk_hashes@) =~= chunk_hash_views(chunks@));
    Msg::FileMeta {
        rel_path: rel_path.to_owned(),
        size: data.len() as u64,
        chunk_count: chunks.len() as u64,
        root,
        chunk_hashes,
    }
}

/// The answer to a push offer for `rel_path` with the chunk hashes
/// `chunk_hashes`: a request for the chunks that the local file lacks or
/// holds with another hash. A file that does not exist lacks all of them.
pub fn missing_request(rel_path: &str, file: &Option<Vec<u8>>, chunk_hashes: &Vec<[u8; 32]>) -> (out:
    Msg)
    ensures
        out matches Msg::RequestChunks { rel_path: rel, indices } && rel@ == rel_path@ && indices@
            == needed_indices(
            crate::merkle::file_hashes(contents_of(*file)),
            hash_views(chunk_hashes@),
        ),
{
    let empty: Vec<u8> = Vec::new();
    let data: &Vec<u8> = match file {
        Some(d) => d,
        None => &empty,
    };
    let chunks = chunk_file(data.as_slice());
    proof {
        lemma_file_hashes(data@, chunks@);
    }
    let indices = diff_needed_indices(chunks.as_slice(), chunk_hashes.as_slice());
    Msg::RequestChunks { rel_path: rel_path.to_owned(), indices }
}

/// The message that carries chunk `index` of `rel_path`: the bytes of that
/// chunk of the local file, none where the chunk lies past the end of the
/// file or the file does not exist.
pub fn chunk_reply(rel_path: &str, file: &Option<Vec<u8>>, index: u64) -> (out: Msg)
    ensures
        out matches Msg::ChunkData { rel_path: rel, index: at, data } && rel@ == rel_path@ && at
            == index && data@ == chunk_window(contents_of(*file), index as nat),
{
    let data: Vec<u8> = match file {
        Some(d) => read_chunk(d.as_slice(), index),
        None => Vec::new(),
    };
    Msg::ChunkData { rel_path: rel_path.to_owned(), index, data }
}

/// Once closed, a stream stays closed and nothing more is done on it.
pub proof fn lemma_closed_is_final(filter: Option<Seq<char>>, event: Option<Msg>)
    ensures
        server_next(ServerStateView::Closed, filter, event) == (
            ServerStateView::Closed,
            ServerActionView::Nothing,
        ),
{
}

/// A stream gets past its first message only with a version of major 1, and
/// serves chunks on its first message only for a request for chunks; every
/// other first message, and the end of the stream, closes it.
pub proof fn lemma_first_message(filter: Option<Seq<char>>, event: Option<Msg>)
    ensures
        server_next(ServerStateView::Init, filter, event).0 is AwaitHello <==> (
        event matches Some(Msg::Version { major, minor }) && major == 1),
        !(server_next(ServerStateView::Init, filter, event).0 is AwaitHello) ==> server_next(
            ServerStateView::Init,
            filter,
            event,
        ).0 is Closed,
        server_next(ServerStateView::Init, filter, event).1 is StreamChunks <==> (
        event matches Some(Msg::RequestChunks { rel_path, indices })),
{
}

/// Chunk data is staged only inside the transaction that a push offer
/// opened, and only for the path of that offer; anywhere else it is
/// discarded.
pub proof fn lemma_stage_only_in_context(
    state: ServerStateView,
    filter: Option<Seq<char>>,
    event: Option<Msg>,
)
    ensures
        server_next(state, filter, event).1 is StageChunk <==> (
        state matches ServerStateView::Receiving { rel_path, size, root } && (
        event matches Some(Msg::ChunkData { rel_path: got, index, data }) && got@ == rel_path)),
{
}

/// A staged file is put up for finalization only when the transaction of
/// its push offer ends with `Done`, and then with exactly the size and the
/// root that the offer declared.
pub proof fn lemma_finalize_carries_offer(
    state: ServerStateView,
    filter: Option<Seq<char>>,
    event: Option<Msg>,
)
    ensures
        server_next(state, filter, event).1 matches ServerActionView::VerifyAndFinalize {
            rel_path,
            size,
            root,
        } ==> state == (ServerStateView::Receiving { rel_path, size, root }) && event == Some(
            Msg::Done,
        ),
        (state is Receiving && event == Some(Msg::Done)) ==> server_next(
            state,
            filter,
            event,
        ).1 is VerifyAndFinalize,
{
}

/// With a single-file filter, metadata is served and push offers are taken
/// up only for paths that the filter admits; for any other path the answer
/// is `Done`.
pub proof fn lemma_filter_guards_files(filter: Option<Seq<char>>, event: Option<Msg>)
    ensures
        event matches Some(Msg::RequestFile { rel_path }) ==> (server_next(
            ServerStateView::Active,
            filter,
            event,
        ).1 is SendFileMeta <==> filter_admits(rel_path@, filter)) && (server_next(
            ServerStateView::Active,
            filter,
            event,
        ).1 is SendDone <==> !filter_admits(rel_path@, filter)),
        event matches Some(Msg::FileMeta { rel_path, size, chunk_count, root, chunk_hashes }) ==> (
        server_next(ServerStateView::Active, filter, event).1 is RequestMissing <==> filter_admits(
            rel_path@,
            filter,
        )) && (server_next(ServerStateView::Active, filter, event).1 is SendDone <==> !filter_admits(
            rel_path@,
            filter,
        )),
{
}

} // verus!
