//! The observable status of synchronization: one record that the session
//! writes and user interfaces read.
//!
//! Every change names the event that caused it and the time at which it
//! happened. Time is whatever count the caller's clock gives, in
//! milliseconds since the Unix epoch.

use vstd::prelude::*;
use crate::syncer::opt_view;

verus! {

/// The named events that change the status.
#[derive(Debug, Clone, Copy, PartialEq, Eq, Structural)]
pub enum SyncEvent {
    SyncStarted,
    SyncIdle,
    FileStarted,
    Progress,
    FileDone,
    SessionDone,
    WatchStarted,
    WatchStopping,
}

/// What user interfaces see of the synchronization.
#[derive(Debug, Clone)]
pub struct SyncStatus {
    /// Name of the last event.
    pub last_event: Option<String>,
    /// Whether the last file or session went well.
    pub last_sync_ok: Option<bool>,
    /// When the status last changed.
    pub last_sync_time: Option<i64>,
    /// Whether a session is running.
    pub active: bool,
    /// The file that is being transferred.
    pub current_file: Option<String>,
    /// Bytes of the current file received so far.
    pub current_received: u64,
    /// Size of the current file.
    pub current_total: u64,
    /// The message of the last file or session.
    pub last_message: Option<String>,
}

/// The mathematical content of a [`SyncStatus`].
pub struct SyncStatusView {
    pub last_event: Option<Seq<char>>,
    pub last_sync_ok: Option<bool>,
    pub last_sync_time: Option<i64>,
    pub active: bool,
    pub current_file: Option<Seq<char>>,
    pub current_received: u64,
    pub current_total: u64,
    pub last_message: Option<Seq<char>>,
}

impl View for SyncStatus {
    type V = SyncStatusView;

    open spec fn view(&self) -> SyncStatusView {
        SyncStatusView {
            last_event: opt_view(self.last_event),
            last_sync_ok: self.last_sync_ok,
            last_sync_time: self.last_sync_time,
            active: self.active,
            current_file: opt_view(self.current_file),
            current_received: self.current_received,
            current_total: self.current_total,
            last_message: opt_view(self.last_message),
        }
    }
}

impl SyncEvent {
    /// The name under which the event is reported.
    pub open spec fn name(self) -> Seq<char> {
        match self {
            SyncEvent::SyncStarted => "sync_started"@,
            SyncEvent::SyncIdle => "sync_idle"@,
            SyncEvent::FileStarted => "file_started"@,
            SyncEvent::Progress => "progress"@,
            SyncEvent::FileDone => "file_done"@,
            SyncEvent::SessionDone => "session_done"@,
            SyncEvent::WatchStarted => "watch_started"@,
            SyncEvent::WatchStopping => "watch_stopping"@,
        }
    }

    /// The name under which the event is reported.
    pub fn as_string(&self) -> (out: String)
        ensures
            out@ == self.name(),
    {
        match self {
            SyncEvent::SyncStarted => "sync_started".to_owned(),
            SyncEvent::SyncIdle => "sync_idle".to_owned(),
            SyncEvent::FileStarted => "file_started".to_owned(),
            SyncEvent::Progress => "progress".to_owned(),
            SyncEvent::FileDone => "file_done".to_owned(),
            SyncEvent::SessionDone => "session_done".to_owned(),
            SyncEvent::WatchStarted => "watch_started".to_owned(),
            SyncEvent::WatchStopping => "watch_stopping".to_owned(),
        }
    }
}

/// The status with the event and its time noted.
pub open spec fn noted(status: SyncStatusView, event: SyncEvent, now: i64) -> SyncStatusView {
    SyncStatusView { last_event: Some(event.name()), last_sync_time: Some(now), ..status }
}

/// The status before anything happened: nothing active, nothing current,
/// nothing noted.
pub open spec fn blank() -> SyncStatusView {
    SyncStatusView {
        last_event: None,
        last_sync_ok: None,
        last_sync_time: None,
        active: false,
        current_file: None,
        current_received: 0,
        current_total: 0,
        last_message: None,
    }
}

impl SyncStatus {
    /// The status before anything happened.
    pub fn new() -> (out: SyncStatus)
        ensures
            out@ == blank(),
    {
        SyncStatus {
            last_event: None,
            last_sync_ok: None,
            last_sync_time: None,
            active: false,
            current_file: None,
            current_received: 0,
            current_total: 0,
            last_message: None,
        }
    }
}

impl Default for SyncStatus {
    /// The status before anything happened.
    fn default() -> (out: SyncStatus)
        ensures
            out@ == blank(),
    {
        SyncStatus::new()
    }
}

/// A session started or went idle.
pub fn set_active(status: &mut SyncStatus, active: bool, now: i64)
    ensures
        final(status)@ == noted(
            SyncStatusView { active, ..old(status)@ },
            if active {
                SyncEvent::SyncStarted
            } else {
                SyncEvent::SyncIdle
            },
            now,
        ),
{
    let event = if active {
        SyncEvent::SyncStarted
    } else {
        SyncEvent::SyncIdle
    };
    status.active = active;
    status.last_event = Some(event.as_string());
    status.last_sync_time = Some(now);
}

/// The transfer of the file `name` of `total` bytes began.
pub fn start_file(status: &mut SyncStatus, name: &str, total: u64, now: i64)
    ensures
        final(status)@ == noted(
            SyncStatusView {
                current_file: Some(name@),
                current_total: total,
                current_received: 0,
                ..old(status)@
            },
            SyncEvent::FileStarted,
            now,
        ),
{
    status.current_file = Some(name.to_owned());
    status.current_total = total;
    status.current_received = 0;
    status.last_event = Some(SyncEvent::FileStarted.as_string());
    status.last_sync_time = Some(now);
}

/// `received` bytes of the current file have arrived.
pub fn progress(status: &mut SyncStatus, received: u64, now: i64)
    ensures
        final(status)@ == noted(
            SyncStatusView { current_received: received, ..old(status)@ },
            SyncEvent::Progress,
            now,
        ),
{
    status.current_received = received;
    status.last_event = Some(SyncEvent::Progress.as_string());
    status.last_sync_time = Some(now);
}

/// The current file was finalized (`ok`) or kept in staging (not `ok`).
pub fn file_done(status: &mut SyncStatus, ok: bool, msg: &str, now: i64)
    ensures
        final(status)@ == noted(
            SyncStatusView { last_sync_ok: Some(ok), last_message: Some(msg@), ..old(status)@ },
            SyncEvent::FileDone,
            now,
        ),
{
    status.last_sync_ok = Some(ok);
    status.last_message = Some(msg.to_owned());
    status.last_event = Some(SyncEvent::FileDone.as_string());
    status.last_sync_time = Some(now);
}

/// The session ended: nothing is active or current any more.
pub fn session_done(status: &mut SyncStatus, ok: bool, msg: &str, now: i64)
    ensures
        final(status)@ == noted(
            SyncStatusView {
                active: false,
                last_sync_ok: Some(ok),
                last_message: Some(msg@),
                current_file: None,
                current_total: 0,
                current_received: 0,
                ..old(status)@
            },
            SyncEvent::SessionDone,
            now,
        ),
{
    status.active = false;
    status.last_sync_ok = Some(ok);
    status.last_message = Some(msg.to_owned());
    status.last_event = Some(SyncEvent::SessionDone.as_string());
    status.current_file = None;
    status.current_total = 0;
    status.current_received = 0;
    status.last_sync_time = Some(now);
}

} // verus!
