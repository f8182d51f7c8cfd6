//! LeafSync core: what a peer-to-peer folder synchronizer decides and
//! computes, apart from sockets and files.
//!
//! - [`chunk`] cuts file contents into fixed-size chunks and hashes them.
//! - [`merkle`] builds the hash tree of a file and reads its root.
//! - [`protocol`] holds the messages and the length-prefixed framing.
//! - [`syncer`] holds relative paths, the single-file filter, the chunk
//!   diff, catalogs, mirroring, and the verification of a staged file.
//! - [`staging`] says what staging does to the bytes of a staged file.
//! - [`resume`] keeps the bitmap of chunks already staged per transfer.
//! - [`trust`] pins peers to certificate fingerprints.
//! - [`download`] plans a file's download and spreads it over substreams.
//! - [`limiter`] bounds the download rate with a token bucket.
//! - [`server`] and [`client`] are the two sides of a session, as state
//!   machines from state and event to next state and action.
//! - [`status`] is the record that user interfaces observe.
//! - [`watch`] decides when watch mode starts a session and what it ignores.
//! - [`assoc`] and [`text`] are the string-keyed map and the character
//!   helpers that the rest is built on.

pub mod chunk;
pub mod merkle;
pub mod text;
pub mod protocol;
pub mod syncer;
pub mod assoc;
pub mod resume;
pub mod trust;
pub mod staging;
pub mod download;
pub mod limiter;
pub mod server;
pub mod client;
pub mod status;
pub mod watch;
