//! The transfer engine and its session controller: recursive enumeration,
//! chunked streaming with cooperative cancellation, dual-level progress, and
//! error-driven cleanup of incomplete artifacts, written once against the
//! provider capability contracts.

use vstd::prelude::*;
use vstd::string::StringExecFns;

use crate::error::{FsError, FsErrorKind, TransferErrorReason};
use crate::fs::{
    batch_stepwise_confined, changes_confined_to, child_delivered, clamp64, dir_at, entries_total,
    file_at, grows_dirs_toward, lemma_child_path_is_push, lemma_children_mirror_subtree,
    lemma_confined_compose, lemma_delivered_preserved,
    lemma_entries_total_nonneg, lemma_grows_dirs_confined, lemma_same_except_confined,
    lemma_same_outside_confined, lemma_starts_with_refl, lemma_subtree_total_dir,
    lemma_subtree_total_nonneg, same_except, same_outside_subtree, scan_lists_children,
    starts_with, subtree_mirrored, subtree_total, sum_file_sizes, FsEntry, FsFile, FsNode, FsPath,
};
use crate::progress::TransferStates;
use crate::provider::{Provider, UserIo};

verus! {

/// How far the recursive walk may descend before a subtree is given up on
/// (and treated like a failed scan).
pub const MAX_WALK_DEPTH: u64 = 128;

#[derive(Clone, Copy, PartialEq, Eq, Structural, Debug)]
pub enum LogLevel {
    Error,
    Warn,
    Info,
}

/// What happened, as structured data; rendering to text is left to callers.
pub enum LogEvent {
    ConnectionEstablished { address: String, banner: String },
    DirCreated { path: FsPath },
    DirAlreadyExists { path: FsPath },
    DirCreateFailed { path: FsPath, error: FsError },
    ScanFailed { path: FsPath, error: FsError },
    UploadFailed { path: FsPath, reason: TransferErrorReason },
    DownloadFailed { path: FsPath, reason: TransferErrorReason },
    CleanupFailed { path: FsPath },
    FileSaved { src: FsPath, dst: FsPath, bytes_per_second: u64 },
    TransferAborted { path: FsPath },
    ChmodFailed { path: FsPath },
    StreamFinalizeFailed { path: FsPath },
    ChangedDir { path: FsPath },
    ChangeDirFailed { path: FsPath, error: FsError },
    PwdFailed { error: FsError },
    DepthLimitReached { path: FsPath },
}

pub struct LogRecord {
    pub level: LogLevel,
    pub event: LogEvent,
}

#[derive(Clone, Copy, PartialEq, Eq, Structural, Debug)]
pub enum ExitReason {
    Disconnect,
    Quit,
}

/// The entity to send or receive during a transfer.
pub enum TransferPayload {
    File(FsFile),
    Any(FsEntry),
    Many(Vec<FsEntry>),
}

/// What a session needs to reach its remote endpoint.
pub struct TransferParams {
    pub address: String,
    pub port: u16,
    pub username: String,
    pub password: Option<String>,
    pub entry_directory: Option<FsPath>,
}

/// The destination name of a transferred entry: the explicit rename if one
/// was given, else the entry's own name.
pub open spec fn chosen_name(dst_name: Option<String>, entry: FsEntry) -> Seq<char> {
    match dst_name {
        Some(s) => s@,
        None => entry.name_view(),
    }
}

/// The log only ever grows: every record of `pre` still stands, unchanged,
/// at its index in `post`.
pub open spec fn log_extends(pre: Seq<LogRecord>, post: Seq<LogRecord>) -> bool {
    &&& pre.len() <= post.len()
    &&& forall|i: int| 0 <= i < pre.len() ==> (#[trigger] post[i]) == pre[i]
    &&& forall|i: int| 0 <= i < pre.len() ==> post[i] == (#[trigger] pre[i])
}

/// A cleanup failure was recorded at or after index `pre_len`.
pub open spec fn cleanup_failure_logged(pre_len: int, log: Seq<LogRecord>) -> bool {
    exists|i: int| pre_len <= i < log.len() && (#[trigger] log[i].event) is CleanupFailed
}

/// An upload failure whose reason does not call for destination cleanup
/// (spec of the cleanup policy) was recorded at or after index `pre_len`.
pub open spec fn upload_failure_without_cleanup_logged(pre_len: int, log: Seq<LogRecord>) -> bool {
    exists|i: int|
        pre_len <= i < log.len() && ((#[trigger] log[i].event) matches LogEvent::UploadFailed {
            path: _,
            reason,
        } && !reason.requires_remote_cleanup())
}

/// A download failure whose reason does not call for destination cleanup
/// was recorded at or after index `pre_len`.
pub open spec fn download_failure_without_cleanup_logged(
    pre_len: int,
    log: Seq<LogRecord>,
) -> bool {
    exists|i: int|
        pre_len <= i < log.len() && ((#[trigger] log[i].event) matches LogEvent::DownloadFailed {
            path: _,
            reason,
        } && !reason.requires_local_cleanup())
}

/// The record kinds the walk appends exactly when part of a transfer failed:
/// a failed copy in either direction, a failed scan, a failed directory
/// creation, or an exhausted depth budget.
pub open spec fn is_walk_failure_event(e: LogEvent) -> bool {
    ||| e is UploadFailed
    ||| e is DownloadFailed
    ||| e is ScanFailed
    ||| e is DirCreateFailed
    ||| e is DepthLimitReached
}

/// Some part of a transfer failed at or after index `pre_len`.
pub open spec fn walk_failure_logged(pre_len: int, log: Seq<LogRecord>) -> bool {
    exists|i: int| pre_len <= i < log.len() && is_walk_failure_event(#[trigger] log[i].event)
}

/// A listing failure (a failed directory scan, or a failed working-directory
/// query) was recorded at or after index `pre_len`.
pub open spec fn listing_failure_logged(pre_len: int, log: Seq<LogRecord>) -> bool {
    exists|i: int|
        pre_len <= i < log.len() && ((#[trigger] log[i].event) is ScanFailed || log[i].event is PwdFailed)
}

/// One side's browsing state: working directory, its listed entries, and the
/// stack of previously visited directories.
pub struct FileExplorer {
    pub wrkdir: FsPath,
    pub files: Vec<FsEntry>,
    pub dirstack: Vec<FsPath>,
}

impl FileExplorer {
    pub fn new() -> (r: FileExplorer)
        ensures
            r.wrkdir@ == Seq::<Seq<char>>::empty(),
            r.files@ == Seq::<FsEntry>::empty(),
            r.dirstack@ == Seq::<FsPath>::empty(),
    {
        FileExplorer { wrkdir: FsPath::root(), files: Vec::new(), dirstack: Vec::new() }
    }

    pub fn set_files(&mut self, files: Vec<FsEntry>)
        ensures
            final(self).files == files,
            final(self).wrkdir == old(self).wrkdir,
            final(self).dirstack == old(self).dirstack,
    {
        self.files = files;
    }

    pub fn pushd(&mut self, path: FsPath)
        ensures
            final(self).dirstack@ == old(self).dirstack@.push(path),
            final(self).wrkdir == old(self).wrkdir,
            final(self).files == old(self).files,
    {
        self.dirstack.push(path);
    }
}

/// The session controller: owns the two providers, the user-interaction
/// surface, the per-invocation transfer state, and the log.
pub struct FileTransferActivity<L: Provider, R: Provider, U: UserIo> {
    pub host: L,
    pub client: R,
    pub ui: U,
    pub params: TransferParams,
    pub transfer: TransferStates,
    pub local: FileExplorer,
    pub remote: FileExplorer,
    pub log_records: Vec<LogRecord>,
    /// Index into `log_records` of the record last surfaced as an alert.
    pub alert: Option<usize>,
    /// A connection-level failure, fatal to the session.
    pub fatal: Option<FsError>,
    pub exit_reason: Option<ExitReason>,
    /// Where temporary downloads are placed, when a cache is available.
    pub cache: Option<FsPath>,
    /// How many bytes each copied chunk may carry.
    pub chunk_size: u64,
}

impl<L: Provider, R: Provider, U: UserIo> FileTransferActivity<L, R, U> {
    pub open spec fn wf(self) -> bool {
        &&& self.host.inv()
        &&& self.client.inv()
        &&& self.transfer.wf()
        &&& self.chunk_size >= 1
    }

    /// What every engine operation preserves: the chunk size, the one-way
    /// cancellation flag, and the append-only log.
    pub open spec fn evolves(pre: Self, post: Self) -> bool {
        &&& post.chunk_size == pre.chunk_size
        &&& (pre.transfer.aborted ==> post.transfer.aborted)
        &&& log_extends(pre.log_records@, post.log_records@)
    }

    /// What an invocation-level operation preserves; unlike `evolves` it
    /// allows the explicit `reset` at the start of a new invocation to clear
    /// the cancellation flag.
    pub open spec fn evolves_invocation(pre: Self, post: Self) -> bool {
        &&& post.chunk_size == pre.chunk_size
        &&& log_extends(pre.log_records@, post.log_records@)
    }

    pub fn new(host: L, client: R, ui: U, params: TransferParams, cache: Option<FsPath>) -> (r:
        Self)
        requires
            host.inv(),
            client.inv(),
        ensures
            r.wf(),
            r.host == host,
            r.client == client,
            !r.transfer.aborted,
            r.log_records@.len() == 0,
            r.alert is None,
            r.fatal is None,
            r.exit_reason is None,
            r.cache == cache,
            r.chunk_size == 65536,
    {
        FileTransferActivity {
            host,
            client,
            ui,
            params,
            transfer: TransferStates::new(),
            local: FileExplorer::new(),
            remote: FileExplorer::new(),
            log_records: Vec::new(),
            alert: None,
            fatal: None,
            exit_reason: None,
            cache,
            chunk_size: 65536,
        }
    }

    /// Use a different copy chunk size (the buffer the streaming loop reuses).
    pub fn set_chunk_size(&mut self, n: u64)
        requires
            n >= 1,
        ensures
            *final(self) == (FileTransferActivity { chunk_size: n, ..*old(self) }),
    {
        self.chunk_size = n;
    }

    /// Append one record to the session log.
    pub fn log(&mut self, level: LogLevel, event: LogEvent)
        ensures
            *final(self) == (FileTransferActivity {
                log_records: final(self).log_records,
                ..*old(self)
            }),
            final(self).log_records@ == old(self).log_records@.push(
                LogRecord { level, event },
            ),
    {
        self.log_records.push(LogRecord { level, event });
    }

    /// Append one record and surface it as an alert.
    pub fn log_and_alert(&mut self, level: LogLevel, event: LogEvent)
        ensures
            *final(self) == (FileTransferActivity {
                log_records: final(self).log_records,
                alert: final(self).alert,
                ..*old(self)
            }),
            final(self).alert matches Some(i) && i == old(self).log_records@.len(),
            final(self).log_records@ == old(self).log_records@.push(
                LogRecord { level, event },
            ),
    {
        self.alert = Some(self.log_records.len());
        self.log_records.push(LogRecord { level, event });
    }

    /// Connect to the remote endpoint, optionally entering the configured
    /// entry directory, and load both directory listings. A connection
    /// failure is fatal to the session and recorded in `fatal`.
    pub fn connect(&mut self)
        requires
            old(self).wf(),
        ensures
            final(self).wf(),
            Self::evolves(*old(self), *final(self)),
            final(self).host.fs() == old(self).host.fs(),
            final(self).transfer == old(self).transfer,
            final(self).exit_reason == old(self).exit_reason,
            old(self).fatal is None && final(self).fatal is None ==> final(self).client.connected(),
            old(self).fatal is None && final(self).fatal is None ==> ((final(self).remote.wrkdir@
                == final(self).client.wd() && dir_at(
                final(self).client.fs(),
                final(self).client.wd(),
            ) && scan_lists_children(
                final(self).client.fs(),
                final(self).client.wd(),
                final(self).remote.files@,
            )) || listing_failure_logged(
                old(self).log_records@.len() as int,
                final(self).log_records@,
            )),
            old(self).fatal is None && final(self).fatal is None ==> ((final(self).local.wrkdir@
                == final(self).host.wd() && dir_at(
                final(self).host.fs(),
                final(self).host.wd(),
            ) && scan_lists_children(
                final(self).host.fs(),
                final(self).host.wd(),
                final(self).local.files@,
            )) || listing_failure_logged(
                old(self).log_records@.len() as int,
                final(self).log_records@,
            )),
            final(self).fatal != old(self).fatal ==> final(self).fatal is Some && (*final(self)
                == (FileTransferActivity {
                fatal: final(self).fatal,
                client: final(self).client,
                ui: final(self).ui,
                ..*old(self)
            })),
    {
        let address = self.params.address.clone();
        let r = self.client.connect(
            &self.params.address,
            self.params.port,
            &self.params.username,
            &self.params.password,
        );
        match r {
            Ok(welcome) => {
                if let Some(banner) = welcome {
                    self.log(
                        LogLevel::Info,
                        LogEvent::ConnectionEstablished { address, banner },
                    );
                }
                let mut remote_chdir: Option<FsPath> = None;
                if let Some(entry_directory) = &self.params.entry_directory {
                    remote_chdir = Some(entry_directory.clone_path());
                }
                if let Some(entry_directory) = remote_chdir {
                    self.remote_changedir(&entry_directory, false);
                }
                self.reload_remote_dir();
                let ghost lg_remote = self.log_records@;
                self.reload_local_dir();
                proof {
                    let pre_len = old(self).log_records@.len() as int;
                    assert(log_extends(lg_remote, self.log_records@));
                    if listing_failure_logged(pre_len, lg_remote) {
                        let i = choose|i: int|
                            pre_len <= i < lg_remote.len() && ((#[trigger] lg_remote[i].event)
                                is ScanFailed || lg_remote[i].event is PwdFailed);
                        assert(self.log_records@[i] == lg_remote[i]);
                    }
                }
            },
            Err(err) => {
                self.fatal = Some(err);
            },
        }
    }

    /// Disconnect from the remote endpoint and mark the session for exit.
    pub fn disconnect(&mut self)
        requires
            old(self).wf(),
        ensures
            final(self).wf(),
            Self::evolves(*old(self), *final(self)),
            final(self).exit_reason == Some(ExitReason::Disconnect),
            final(self).host.fs() == old(self).host.fs(),
            final(self).client.fs() == old(self).client.fs(),
    {
        let _ = self.client.disconnect();
        self.exit_reason = Some(ExitReason::Disconnect);
    }

    /// Disconnect, then quit.
    pub fn disconnect_and_quit(&mut self)
        requires
            old(self).wf(),
        ensures
            final(self).wf(),
            Self::evolves(*old(self), *final(self)),
            final(self).exit_reason == Some(ExitReason::Quit),
    {
        self.disconnect();
        self.exit_reason = Some(ExitReason::Quit);
    }

    /// Reload the remote listing from the remote working directory; a
    /// failure to determine or list it is logged.
    pub fn reload_remote_dir(&mut self)
        requires
            old(self).wf(),
        ensures
            final(self).wf(),
            Self::evolves(*old(self), *final(self)),
            final(self).host.fs() == old(self).host.fs(),
            final(self).host.wd() == old(self).host.wd(),
            final(self).client.fs() == old(self).client.fs(),
            final(self).client.wd() == old(self).client.wd(),
            final(self).client.connected() == old(self).client.connected(),
            final(self).exit_reason == old(self).exit_reason,
            final(self).fatal == old(self).fatal,
            final(self).transfer == old(self).transfer,
            final(self).local == old(self).local,
            final(self).remote.dirstack == old(self).remote.dirstack,
            final(self).alert == old(self).alert || (final(self).alert matches Some(i)
                && i >= old(self).log_records@.len()),
            (final(self).remote.wrkdir@ == old(self).client.wd() && dir_at(
                old(self).client.fs(),
                old(self).client.wd(),
            ) && scan_lists_children(
                old(self).client.fs(),
                old(self).client.wd(),
                final(self).remote.files@,
            )) || (listing_failure_logged(
                old(self).log_records@.len() as int,
                final(self).log_records@,
            ) && final(self).remote.files == old(self).remote.files && (final(self).remote.wrkdir
                == old(self).remote.wrkdir || final(self).remote.wrkdir@ == old(
                self,
            ).client.wd())),
    {
        match self.client.pwd() {
            Ok(wrkdir) => {
                self.remote_scan(&wrkdir);
                self.remote.wrkdir = wrkdir;
                proof {
                    if !(dir_at(old(self).client.fs(), old(self).client.wd())
                        && scan_lists_children(
                        old(self).client.fs(),
                        old(self).client.wd(),
                        self.remote.files@,
                    )) {
                        assert(self.log_records@[old(self).log_records@.len() as int].event
                            is ScanFailed);
                    }
                }
            },
            Err(err) => {
                self.log(LogLevel::Error, LogEvent::PwdFailed { error: err });
                proof {
                    assert(self.log_records@[old(self).log_records@.len() as int].event
                        is PwdFailed);
                }
            },
        }
    }

    /// Reload the local listing from the local working directory; a
    /// failure to determine or list it is logged.
    pub fn reload_local_dir(&mut self)
        requires
            old(self).wf(),
        ensures
            final(self).wf(),
            Self::evolves(*old(self), *final(self)),
            final(self).host.fs() == old(self).host.fs(),
            final(self).host.wd() == old(self).host.wd(),
            final(self).client.fs() == old(self).client.fs(),
            final(self).client.wd() == old(self).client.wd(),
            final(self).client.connected() == old(self).client.connected(),
            final(self).exit_reason == old(self).exit_reason,
            final(self).fatal == old(self).fatal,
            final(self).transfer == old(self).transfer,
            final(self).remote == old(self).remote,
            final(self).local.dirstack == old(self).local.dirstack,
            final(self).alert == old(self).alert || (final(self).alert matches Some(i)
                && i >= old(self).log_records@.len()),
            (final(self).local.wrkdir@ == old(self).host.wd() && dir_at(
                old(self).host.fs(),
                old(self).host.wd(),
            ) && scan_lists_children(
                old(self).host.fs(),
                old(self).host.wd(),
                final(self).local.files@,
            )) || (listing_failure_logged(
                old(self).log_records@.len() as int,
                final(self).log_records@,
            ) && final(self).local.files == old(self).local.files && (final(self).local.wrkdir
                == old(self).local.wrkdir || final(self).local.wrkdir@ == old(self).host.wd())),
    {
        match self.host.pwd() {
            Ok(wrkdir) => {
                self.local_scan(&wrkdir);
                self.local.wrkdir = wrkdir;
                proof {
                    if !(dir_at(old(self).host.fs(), old(self).host.wd()) && scan_lists_children(
                        old(self).host.fs(),
                        old(self).host.wd(),
                        self.local.files@,
                    )) {
                        assert(self.log_records@[old(self).log_records@.len() as int].event
                            is ScanFailed);
                    }
                }
            },
            Err(err) => {
                self.log(LogLevel::Error, LogEvent::PwdFailed { error: err });
                proof {
                    assert(self.log_records@[old(self).log_records@.len() as int].event
                        is PwdFailed);
                }
            },
        }
    }

    /// List `path` on the local side into the local browser; a failure is
    /// logged and alerted, and the listing is left as it was.
    pub fn local_scan(&mut self, path: &FsPath)
        requires
            old(self).wf(),
        ensures
            final(self).wf(),
            Self::evolves(*old(self), *final(self)),
            final(self).host.fs() == old(self).host.fs(),
            final(self).host.wd() == old(self).host.wd(),
            final(self).client.fs() == old(self).client.fs(),
            final(self).client.wd() == old(self).client.wd(),
            final(self).client.connected() == old(self).client.connected(),
            final(self).exit_reason == old(self).exit_reason,
            final(self).fatal == old(self).fatal,
            final(self).transfer == old(self).transfer,
            final(self).remote == old(self).remote,
            final(self).local.wrkdir == old(self).local.wrkdir,
            final(self).local.dirstack == old(self).local.dirstack,
            final(self).alert == old(self).alert || (final(self).alert matches Some(i)
                && i >= old(self).log_records@.len()),
            (dir_at(old(self).host.fs(), path@) && scan_lists_children(
                old(self).host.fs(),
                path@,
                final(self).local.files@,
            ) && final(self).log_records == old(self).log_records && final(self).alert == old(self).alert) || (final(self).local.files == old(self).local.files
                && final(self).log_records@.len() == old(self).log_records@.len() + 1
                && final(self).log_records@.last().event is ScanFailed && (final(self).alert matches Some(i) && i == old(self).log_records@.len())),
    {
        match self.host.scan_dir(path) {
            Ok(files) => {
                self.local.set_files(files);
            },
            Err(err) => {
                self.log_and_alert(
                    LogLevel::Error,
                    LogEvent::ScanFailed { path: path.clone_path(), error: err },
                );
            },
        }
    }

    /// List `path` on the remote side into the remote browser; a failure is
    /// logged and alerted, and the listing is left as it was.
    pub fn remote_scan(&mut self, path: &FsPath)
        requires
            old(self).wf(),
        ensures
            final(self).wf(),
            Self::evolves(*old(self), *final(self)),
            final(self).host.fs() == old(self).host.fs(),
            final(self).host.wd() == old(self).host.wd(),
            final(self).client.fs() == old(self).client.fs(),
            final(self).client.wd() == old(self).client.wd(),
            final(self).client.connected() == old(self).client.connected(),
            final(self).exit_reason == old(self).exit_reason,
            final(self).fatal == old(self).fatal,
            final(self).transfer == old(self).transfer,
            final(self).local == old(self).local,
            final(self).remote.wrkdir == old(self).remote.wrkdir,
            final(self).remote.dirstack == old(self).remote.dirstack,
            final(self).alert == old(self).alert || (final(self).alert matches Some(i)
                && i >= old(self).log_records@.len()),
            (dir_at(old(self).client.fs(), path@) && scan_lists_children(
                old(self).client.fs(),
                path@,
                final(self).remote.files@,
            ) && final(self).log_records == old(self).log_records && final(self).alert == old(self).alert) || (final(self).remote.files == old(self).remote.files
                && final(self).log_records@.len() == old(self).log_records@.len() + 1
                && final(self).log_records@.last().event is ScanFailed && (final(self).alert matches Some(i) && i == old(self).log_records@.len())),
    {
        match self.client.scan_dir(path) {
            Ok(files) => {
                self.remote.set_files(files);
            },
            Err(err) => {
                self.log_and_alert(
                    LogLevel::Error,
                    LogEvent::ScanFailed { path: path.clone_path(), error: err },
                );
            },
        }
    }

    /// Change the local working directory, reloading the listing and, when
    /// asked, remembering where we came from.
    pub fn local_changedir(&mut self, path: &FsPath, push: bool)
        requires
            old(self).wf(),
        ensures
            final(self).wf(),
            Self::evolves(*old(self), *final(self)),
            final(self).host.fs() == old(self).host.fs(),
            final(self).client.fs() == old(self).client.fs(),
            final(self).client.wd() == old(self).client.wd(),
            final(self).client.connected() == old(self).client.connected(),
            final(self).exit_reason == old(self).exit_reason,
            final(self).fatal == old(self).fatal,
            final(self).transfer == old(self).transfer,
            final(self).remote == old(self).remote,
            final(self).host.wd() == path@ || final(self).host.wd() == old(self).host.wd(),
            (  // the provider accepted the change: the browser follows it
            final(self).host.wd() == path@ && ((final(self).local.wrkdir@ == path@ && dir_at(
                old(self).host.fs(),
                path@,
            ) && scan_lists_children(old(self).host.fs(), path@, final(self).local.files@))
                || listing_failure_logged(
                old(self).log_records@.len() as int,
                final(self).log_records@,
            )) && (push ==> final(self).local.dirstack@.len() == old(self).local.dirstack@.len() + 1 && final(self).local.dirstack@.last()@ == old(self).local.wrkdir@) && (!push ==> final(self).local.dirstack == old(self).local.dirstack))
                || (  // the provider refused: state kept, failure alerted
            final(self).host.wd() == old(self).host.wd() && final(self).local == old(self).local
                && final(self).log_records@.len() == old(self).log_records@.len() + 1 && final(self).log_records@.last().event is ChangeDirFailed && (final(self).alert matches Some(i)
                && i == old(self).log_records@.len())),
    {
        let prev_dir = self.local.wrkdir.clone_path();
        match self.host.change_wrkdir(path) {
            Ok(()) => {
                self.log(LogLevel::Info, LogEvent::ChangedDir { path: path.clone_path() });
                self.reload_local_dir();
                if push {
                    self.local.pushd(prev_dir);
                }
            },
            Err(err) => {
                self.log_and_alert(
                    LogLevel::Error,
                    LogEvent::ChangeDirFailed { path: path.clone_path(), error: err },
                );
            },
        }
    }

    /// Probe the remote entry at `path` and remove it if it exists, after a
    /// failed upload left it incomplete. Returns whether the partial entry is
    /// known to be gone; a cleanup failure is logged, never fatal.
    pub fn cleanup_remote_partial(&mut self, path: &FsPath) -> (r: bool)
        requires
            old(self).wf(),
        ensures
            final(self).wf(),
            Self::evolves(*old(self), *final(self)),
            final(self).host.fs() == old(self).host.fs(),
            final(self).host.wd() == old(self).host.wd(),
            final(self).client.wd() == old(self).client.wd(),
            final(self).client.connected() == old(self).client.connected(),
            final(self).transfer == old(self).transfer,
            final(self).alert == old(self).alert,
            same_outside_subtree(old(self).client.fs(), final(self).client.fs(), path@),
            r ==> !final(self).client.fs().dom().contains(path@),
            !r ==> final(self).client.fs() == old(self).client.fs(),
            !r ==> cleanup_failure_logged(
                old(self).log_records@.len() as int,
                final(self).log_records@,
            ),
    {
        match self.client.stat(path) {
            Err(_) => {
                self.log(LogLevel::Error, LogEvent::CleanupFailed { path: path.clone_path() });
                proof {
                    lemma_starts_with_refl(path@);
                    assert(self.log_records@[old(self).log_records@.len() as int].event
                        is CleanupFailed);
                }
                false
            },
            Ok(_) => match self.client.remove(path) {
                Ok(()) => {
                    proof {
                        lemma_starts_with_refl(path@);
                    }
                    true
                },
                Err(_) => {
                    self.log(LogLevel::Error, LogEvent::CleanupFailed { path: path.clone_path() });
                    proof {
                        lemma_starts_with_refl(path@);
                        assert(self.log_records@[old(self).log_records@.len() as int].event
                            is CleanupFailed);
                    }
                    false
                },
            },
        }
    }

    /// Probe the local entry at `path` and remove it if it exists, after a
    /// failed download left it incomplete. Returns whether the partial entry
    /// is known to be gone; a cleanup failure is logged, never fatal.
    pub fn cleanup_local_partial(&mut self, path: &FsPath) -> (r: bool)
        requires
            old(self).wf(),
        ensures
            final(self).wf(),
            Self::evolves(*old(self), *final(self)),
            final(self).client.fs() == old(self).client.fs(),
            final(self).client.wd() == old(self).client.wd(),
            final(self).client.connected() == old(self).client.connected(),
            final(self).host.wd() == old(self).host.wd(),
            final(self).transfer == old(self).transfer,
            final(self).alert == old(self).alert,
            same_outside_subtree(old(self).host.fs(), final(self).host.fs(), path@),
            r ==> !final(self).host.fs().dom().contains(path@),
            !r ==> final(self).host.fs() == old(self).host.fs(),
            !r ==> cleanup_failure_logged(
                old(self).log_records@.len() as int,
                final(self).log_records@,
            ),
    {
        match self.host.stat(path) {
            Err(_) => {
                self.log(LogLevel::Error, LogEvent::CleanupFailed { path: path.clone_path() });
                proof {
                    lemma_starts_with_refl(path@);
                    assert(self.log_records@[old(self).log_records@.len() as int].event
                        is CleanupFailed);
                }
                false
            },
            Ok(_) => match self.host.remove(path) {
                Ok(()) => {
                    proof {
                        lemma_starts_with_refl(path@);
                    }
                    true
                },
                Err(_) => {
                    self.log(LogLevel::Error, LogEvent::CleanupFailed { path: path.clone_path() });
                    proof {
                        lemma_starts_with_refl(path@);
                        assert(self.log_records@[old(self).log_records@.len() as int].event
                            is CleanupFailed);
                    }
                    false
                },
            },
        }
    }

    /// Stream one local file into the remote path, in fixed-size chunks,
    /// polling for cancellation at a bounded cadence and updating both
    /// progress counters after every successful chunk. On success the remote
    /// file carries exactly the bytes the local file had.
    #[verifier::loop_isolation(false)]
    pub fn filetransfer_send_one(&mut self, local: &FsFile, remote: &FsPath, file_name: String) -> (r:
        Result<(), TransferErrorReason>)
        requires
            old(self).wf(),
        ensures
            final(self).wf(),
            Self::evolves(*old(self), *final(self)),
            final(self).host.fs() == old(self).host.fs(),
            final(self).host.wd() == old(self).host.wd(),
            final(self).client.wd() == old(self).client.wd(),
            final(self).client.connected() == old(self).client.connected(),
            same_except(old(self).client.fs(), final(self).client.fs(), remote@),
            final(self).transfer.full.total == old(self).transfer.full.total,
            final(self).transfer.full.transferred >= old(self).transfer.full.transferred,
            r is Ok ==> !final(self).transfer.aborted && (file_at(
                old(self).host.fs(),
                local.path@,
            ) matches Some(len) && {
                &&& final(self).client.fs() == old(self).client.fs().insert(
                    remote@,
                    FsNode::File { len },
                )
                &&& final(self).transfer.partial.total == len
                &&& final(self).transfer.partial.transferred == len
                &&& final(self).transfer.full.transferred == (
                if old(self).transfer.full.transferred + len <= old(self).transfer.full.total {
                    old(self).transfer.full.transferred + len
                } else {
                    old(self).transfer.full.total as int
                })
            }),
            r matches Err(e) && e is Abrupted ==> final(self).transfer.aborted,
            r matches Err(e) && e is HostError ==> final(self).client.fs() == old(self).client.fs(),
            r matches Err(e) && e is ProtocolError ==> final(self).client.fs() == old(
                self,
            ).client.fs(),
    {
        let size = match self.host.open_read(&local.path) {
            Ok(s) => s,
            Err(e) => {
                return Err(TransferErrorReason::HostError(e));
            },
        };
        if let Err(e) = self.client.open_write(remote) {
            return Err(TransferErrorReason::ProtocolError(e));
        }
        let now0 = self.ui.now_millis();
        self.transfer.partial.init(size, now0);
        if let Err(e) = self.host.rewind(&local.path) {
            return Err(TransferErrorReason::CouldNotRewind(e));
        }
        let mut total_bytes_written: u64 = 0;
        let mut last_progress_val: u64 = 0;
        let mut last_input_event_fetch: Option<u64> = None;
        while total_bytes_written < size && !self.transfer.aborted
            invariant
                self.wf(),
                total_bytes_written <= size,
                self.chunk_size == old(self).chunk_size,
                self.host.fs() == old(self).host.fs(),
                self.host.wd() == old(self).host.wd(),
                self.client.wd() == old(self).client.wd(),
                self.client.connected() == old(self).client.connected(),
                file_at(old(self).host.fs(), local.path@) == Some(size as nat),
                self.client.fs() == old(self).client.fs().insert(
                    remote@,
                    FsNode::File { len: total_bytes_written as nat },
                ),
                self.transfer.partial.total == size,
                self.transfer.partial.transferred == total_bytes_written,
                self.transfer.full.total == old(self).transfer.full.total,
                self.transfer.full.transferred == (
                if old(self).transfer.full.transferred + total_bytes_written <= old(
                    self,
                ).transfer.full.total {
                    old(self).transfer.full.transferred + total_bytes_written
                } else {
                    old(self).transfer.full.total as int
                }),
                old(self).transfer.aborted ==> self.transfer.aborted,
                log_extends(old(self).log_records@, self.log_records@),
            decreases size - total_bytes_written,
        {
            let now = self.ui.now_millis();
            let poll = match last_input_event_fetch {
                None => true,
                Some(t) => now < t || now - t >= 500,
            };
            if poll {
                if self.ui.read_input_event() {
                    self.transfer.abort();
                }
                last_input_event_fetch = Some(now);
            }
            let remaining = size - total_bytes_written;
            let max = if self.chunk_size < remaining {
                self.chunk_size
            } else {
                remaining
            };
            let chunk = match self.host.read_chunk(&local.path, total_bytes_written, max) {
                Ok(b) => b,
                Err(e) => {
                    return Err(TransferErrorReason::LocalIoError(e));
                },
            };
            let delta: u64 = chunk.len() as u64;
            if let Err(e) = self.client.write_chunk(remote, &chunk) {
                return Err(TransferErrorReason::RemoteIoError(e));
            }
            proof {
                assert(self.client.fs() =~= old(self).client.fs().insert(
                    remote@,
                    FsNode::File { len: (total_bytes_written + delta) as nat },
                ));
            }
            total_bytes_written = total_bytes_written + delta;
            self.transfer.partial.update_progress(delta);
            let avail = self.transfer.full.total - self.transfer.full.transferred;
            let dfull = if delta < avail {
                delta
            } else {
                avail
            };
            self.transfer.full.update_progress(dfull);
            let pp = self.transfer.partial.calc_progress();
            if pp > last_progress_val {
                let fp = self.transfer.full.calc_progress();
                self.ui.draw_progress(fp, pp);
                last_progress_val = pp;
            }
        }
        if let Err(_e) = self.client.finalize(remote) {
            self.log(LogLevel::Warn, LogEvent::StreamFinalizeFailed { path: remote.clone_path() });
        }
        if self.transfer.aborted() {
            return Err(TransferErrorReason::Abrupted);
        }
        let now1 = self.ui.now_millis();
        let bps = self.transfer.partial.calc_bytes_per_second(now1);
        self.log(
            LogLevel::Info,
            LogEvent::FileSaved {
                src: local.path.clone_path(),
                dst: remote.clone_path(),
                bytes_per_second: bps,
            },
        );
        Ok(())
    }

    /// Stream one remote file into the local path, in fixed-size chunks,
    /// polling for cancellation at a bounded cadence and updating both
    /// progress counters after every successful chunk; on success the source
    /// permission triple is re-applied best-effort.
    #[verifier::loop_isolation(false)]
    pub fn filetransfer_recv_one(&mut self, local: &FsPath, remote: &FsFile, file_name: String) -> (r:
        Result<(), TransferErrorReason>)
        requires
            old(self).wf(),
        ensures
            final(self).wf(),
            Self::evolves(*old(self), *final(self)),
            final(self).client.fs() == old(self).client.fs(),
            final(self).client.wd() == old(self).client.wd(),
            final(self).client.connected() == old(self).client.connected(),
            final(self).host.wd() == old(self).host.wd(),
            same_except(old(self).host.fs(), final(self).host.fs(), local@),
            final(self).transfer.full.total == old(self).transfer.full.total,
            final(self).transfer.full.transferred >= old(self).transfer.full.transferred,
            r is Ok ==> !final(self).transfer.aborted && (file_at(
                old(self).client.fs(),
                remote.path@,
            ) matches Some(len) && {
                &&& file_at(final(self).host.fs(), local@) == Some(len)
                &&& final(self).transfer.partial.total == len
                &&& final(self).transfer.partial.transferred == len
                &&& final(self).transfer.full.transferred == (
                if old(self).transfer.full.transferred + len <= old(self).transfer.full.total {
                    old(self).transfer.full.transferred + len
                } else {
                    old(self).transfer.full.total as int
                })
            }),
            r matches Err(e) && e is Abrupted ==> final(self).transfer.aborted,
            r matches Err(e) && e is HostError ==> final(self).host.fs() == old(self).host.fs(),
            r matches Err(e) && e is ProtocolError ==> file_at(final(self).host.fs(), local@)
                == Some(0nat) || final(self).host.fs() == old(self).host.fs(),
    {
        if let Err(e) = self.host.open_write(local) {
            return Err(TransferErrorReason::HostError(e));
        }
        let size = match self.client.open_read(&remote.path) {
            Ok(s) => s,
            Err(e) => {
                return Err(TransferErrorReason::ProtocolError(e));
            },
        };
        let now0 = self.ui.now_millis();
        self.transfer.partial.init(size, now0);
        let mut total_bytes_written: u64 = 0;
        let mut last_progress_val: u64 = 0;
        let mut last_input_event_fetch: Option<u64> = None;
        while total_bytes_written < size && !self.transfer.aborted
            invariant
                self.wf(),
                total_bytes_written <= size,
                self.chunk_size == old(self).chunk_size,
                self.client.fs() == old(self).client.fs(),
                self.client.wd() == old(self).client.wd(),
                self.client.connected() == old(self).client.connected(),
                self.host.wd() == old(self).host.wd(),
                file_at(old(self).client.fs(), remote.path@) == Some(size as nat),
                self.host.fs() == old(self).host.fs().insert(
                    local@,
                    FsNode::File { len: total_bytes_written as nat },
                ),
                self.transfer.partial.total == size,
                self.transfer.partial.transferred == total_bytes_written,
                self.transfer.full.total == old(self).transfer.full.total,
                self.transfer.full.transferred == (
                if old(self).transfer.full.transferred + total_bytes_written <= old(
                    self,
                ).transfer.full.total {
                    old(self).transfer.full.transferred + total_bytes_written
                } else {
                    old(self).transfer.full.total as int
                }),
                old(self).transfer.aborted ==> self.transfer.aborted,
                log_extends(old(self).log_records@, self.log_records@),
            decreases size - total_bytes_written,
        {
            let now = self.ui.now_millis();
            let poll = match last_input_event_fetch {
                None => true,
                Some(t) => now < t || now - t >= 500,
            };
            if poll {
                if self.ui.read_input_event() {
                    self.transfer.abort();
                }
                last_input_event_fetch = Some(now);
            }
            let remaining = size - total_bytes_written;
            let max = if self.chunk_size < remaining {
                self.chunk_size
            } else {
                remaining
            };
            let chunk = match self.client.read_chunk(&remote.path, total_bytes_written, max) {
                Ok(b) => b,
                Err(e) => {
                    return Err(TransferErrorReason::RemoteIoError(e));
                },
            };
            let delta: u64 = chunk.len() as u64;
            if let Err(e) = self.host.write_chunk(local, &chunk) {
                return Err(TransferErrorReason::LocalIoError(e));
            }
            proof {
                assert(self.host.fs() =~= old(self).host.fs().insert(
                    local@,
                    FsNode::File { len: (total_bytes_written + delta) as nat },
                ));
            }
            total_bytes_written = total_bytes_written + delta;
            self.transfer.partial.update_progress(delta);
            let avail = self.transfer.full.total - self.transfer.full.transferred;
            let dfull = if delta < avail {
                delta
            } else {
                avail
            };
            self.transfer.full.update_progress(dfull);
            let pp = self.transfer.partial.calc_progress();
            if pp > last_progress_val {
                let fp = self.transfer.full.calc_progress();
                self.ui.draw_progress(fp, pp);
                last_progress_val = pp;
            }
        }
        if let Err(_e) = self.client.finalize(&remote.path) {
            self.log(
                LogLevel::Warn,
                LogEvent::StreamFinalizeFailed { path: remote.path.clone_path() },
            );
        }
        if self.transfer.aborted() {
            return Err(TransferErrorReason::Abrupted);
        }
        if let Some(pex) = remote.unix_pex {
            if let Err(_e) = self.host.chmod(local, pex) {
                self.log(LogLevel::Error, LogEvent::ChmodFailed { path: local.clone_path() });
            }
        }
        let now1 = self.ui.now_millis();
        let bps = self.transfer.partial.calc_bytes_per_second(now1);
        self.log(
            LogLevel::Info,
            LogEvent::FileSaved {
                src: remote.path.clone_path(),
                dst: local.clone_path(),
                bytes_per_second: bps,
            },
        );
        Ok(())
    }

    /// Create the remote directory at `path`, treating "already exists" as
    /// success: directory creation is idempotent and an existing destination
    /// never aborts the subtree about to be written under it. Returns whether
    /// the walk may proceed into the directory; any other creation error is
    /// logged and alerted.
    pub fn ensure_remote_dir(&mut self, path: &FsPath) -> (r: bool)
        requires
            old(self).wf(),
        ensures
            final(self).wf(),
            Self::evolves(*old(self), *final(self)),
            final(self).host.fs() == old(self).host.fs(),
            final(self).host.wd() == old(self).host.wd(),
            final(self).client.wd() == old(self).client.wd(),
            final(self).client.connected() == old(self).client.connected(),
            final(self).transfer == old(self).transfer,
            same_except(old(self).client.fs(), final(self).client.fs(), path@),
            r ==> final(self).client.fs().dom().contains(path@),
            r ==> (final(self).client.fs() == old(self).client.fs().insert(path@, FsNode::Dir) || (
            final(self).client.fs() == old(self).client.fs()
                && old(self).client.fs().dom().contains(path@))),
            r ==> final(self).alert == old(self).alert,
            !r ==> final(self).client.fs() == old(self).client.fs(),
            !r ==> final(self).log_records@.len() > old(self).log_records@.len() && (final(self).alert matches Some(i) && i == old(self).log_records@.len()),
            !r ==> final(self).log_records@[old(self).log_records@.len() as int].event
                is DirCreateFailed,
    {
        match self.client.mkdir(path, false) {
            Ok(_) => {
                self.log(LogLevel::Info, LogEvent::DirCreated { path: path.clone_path() });
                true
            },
            Err(err) => {
                if err.kind() == FsErrorKind::AlreadyExists {
                    self.log(LogLevel::Info, LogEvent::DirAlreadyExists { path: path.clone_path() });
                    true
                } else {
                    self.log_and_alert(
                        LogLevel::Error,
                        LogEvent::DirCreateFailed { path: path.clone_path(), error: err },
                    );
                    false
                }
            },
        }
    }

    /// Create the local directory at `path` (with its missing ancestors),
    /// treating "already exists" as success, as `ensure_remote_dir` does.
    pub fn ensure_local_dir(&mut self, path: &FsPath) -> (r: bool)
        requires
            old(self).wf(),
        ensures
            final(self).wf(),
            Self::evolves(*old(self), *final(self)),
            final(self).client.fs() == old(self).client.fs(),
            final(self).client.wd() == old(self).client.wd(),
            final(self).client.connected() == old(self).client.connected(),
            final(self).host.wd() == old(self).host.wd(),
            final(self).transfer == old(self).transfer,
            changes_confined_to(old(self).host.fs(), final(self).host.fs(), path@),
            r ==> final(self).host.fs().dom().contains(path@),
            r ==> ((grows_dirs_toward(old(self).host.fs(), final(self).host.fs(), path@) && dir_at(
                final(self).host.fs(),
                path@,
            )) || (final(self).host.fs() == old(self).host.fs() && old(self).host.fs().dom().contains(path@))),
            r ==> final(self).alert == old(self).alert,
            !r ==> final(self).host.fs() == old(self).host.fs(),
            !r ==> final(self).log_records@.len() > old(self).log_records@.len(),
            !r ==> final(self).log_records@[old(self).log_records@.len() as int].event
                is DirCreateFailed,
    {
        proof {
            lemma_starts_with_refl(path@);
        }
        match self.host.mkdir(path, true) {
            Ok(_) => {
                proof {
                    lemma_grows_dirs_confined(old(self).host.fs(), self.host.fs(), path@, path@);
                }
                self.log(LogLevel::Info, LogEvent::DirCreated { path: path.clone_path() });
                true
            },
            Err(err) => {
                if err.kind() == FsErrorKind::AlreadyExists {
                    self.log(LogLevel::Info, LogEvent::DirAlreadyExists { path: path.clone_path() });
                    true
                } else {
                    self.log(
                        LogLevel::Error,
                        LogEvent::DirCreateFailed { path: path.clone_path(), error: err },
                    );
                    false
                }
            },
        }
    }

    /// Recursively materialize one local entry on the remote side under
    /// `curr_remote_path`. The rename hint applies to this entry only;
    /// children keep their own names. All remote changes stay confined to
    /// the destination subtree: entries elsewhere are never removed or
    /// altered. A cancellation stops the walk; completed earlier entries are
    /// left in place. When the walk ends without cancellation and without
    /// recording any failure, every reachable source file within the depth
    /// budget stands at its corresponding destination path with its source
    /// length.
    #[verifier::loop_isolation(false)]
    pub fn filetransfer_send_recurse(
        &mut self,
        entry: &FsEntry,
        curr_remote_path: &FsPath,
        dst_name: Option<String>,
        depth: u64,
    )
        requires
            old(self).wf(),
        ensures
            final(self).wf(),
            Self::evolves(*old(self), *final(self)),
            final(self).host.fs() == old(self).host.fs(),
            final(self).host.wd() == old(self).host.wd(),
            final(self).client.wd() == old(self).client.wd(),
            final(self).client.connected() == old(self).client.connected(),
            changes_confined_to(
                old(self).client.fs(),
                final(self).client.fs(),
                curr_remote_path@.push(chosen_name(dst_name, *entry)),
            ),
            final(self).transfer.full.total == old(self).transfer.full.total,
            final(self).transfer.full.transferred >= old(self).transfer.full.transferred,
            entry matches FsEntry::File(f) ==> ((file_at(old(self).host.fs(), f.path@)
                matches Some(len) && file_at(
                final(self).client.fs(),
                curr_remote_path@.push(chosen_name(dst_name, *entry)),
            ) == Some(len)) || (final(self).alert matches Some(i) && i >= old(
                self,
            ).log_records@.len())),
            entry matches FsEntry::File(f) ==> ((file_at(old(self).host.fs(), f.path@)
                matches Some(len) && file_at(
                final(self).client.fs(),
                curr_remote_path@.push(chosen_name(dst_name, *entry)),
            ) == Some(len)) || !final(self).client.fs().dom().contains(
                curr_remote_path@.push(chosen_name(dst_name, *entry)),
            ) || cleanup_failure_logged(
                old(self).log_records@.len() as int,
                final(self).log_records@,
            ) || upload_failure_without_cleanup_logged(
                old(self).log_records@.len() as int,
                final(self).log_records@,
            )),
            entry matches FsEntry::File(f) ==> ((file_at(old(self).host.fs(), f.path@)
                matches Some(len) && file_at(
                final(self).client.fs(),
                curr_remote_path@.push(chosen_name(dst_name, *entry)),
            ) == Some(len)) || walk_failure_logged(
                old(self).log_records@.len() as int,
                final(self).log_records@,
            )),
            entry matches FsEntry::Directory(d) && depth == 0 ==> walk_failure_logged(
                old(self).log_records@.len() as int,
                final(self).log_records@,
            ) && (final(self).alert matches Some(i) && i >= old(self).log_records@.len()),
            entry matches FsEntry::Directory(d) ==> ((!final(self).transfer.aborted
                && !walk_failure_logged(
                old(self).log_records@.len() as int,
                final(self).log_records@,
            )) ==> subtree_mirrored(
                old(self).host.fs(),
                d.path@,
                final(self).client.fs(),
                curr_remote_path@.push(chosen_name(dst_name, *entry)),
                depth as nat,
            )),
            (final(self).remote.wrkdir@ == final(self).client.wd() && dir_at(
                final(self).client.fs(),
                final(self).client.wd(),
            ) && scan_lists_children(
                final(self).client.fs(),
                final(self).client.wd(),
                final(self).remote.files@,
            )) || listing_failure_logged(
                old(self).log_records@.len() as int,
                final(self).log_records@,
            ),
        decreases depth,
    {
        let file_name: String = entry.get_name().clone();
        let remote_path: FsPath = match &dst_name {
            Some(s) => curr_remote_path.join(s),
            None => curr_remote_path.join(&file_name),
        };
        let ghost dest = curr_remote_path@.push(chosen_name(dst_name, *entry));
        proof {
            assert(remote_path@ == dest);
            lemma_starts_with_refl(dest);
        }
        match entry {
            FsEntry::File(file) => {
                let res = self.filetransfer_send_one(file, &remote_path, file_name);
                if let Err(err) = res {
                    let do_cleanup = err.needs_remote_cleanup();
                    self.log_and_alert(
                        LogLevel::Error,
                        LogEvent::UploadFailed { path: file.path.clone_path(), reason: err },
                    );
                    proof {
                        lemma_same_except_confined(
                            old(self).client.fs(),
                            self.client.fs(),
                            dest,
                            dest,
                        );
                        let li = self.log_records@.len() - 1;
                        assert(self.log_records@[li].event is UploadFailed);
                        assert(walk_failure_logged(
                            old(self).log_records@.len() as int,
                            self.log_records@,
                        ));
                        if !do_cleanup {
                            assert(self.log_records@[li].event matches LogEvent::UploadFailed {
                                path: _,
                                reason,
                            } && !reason.requires_remote_cleanup());
                            assert(upload_failure_without_cleanup_logged(
                                old(self).log_records@.len() as int,
                                self.log_records@,
                            ));
                        }
                    }
                    if do_cleanup {
                        let ghost c2 = self.client.fs();
                        let ghost lgc = self.log_records@;
                        let _ = self.cleanup_remote_partial(&remote_path);
                        proof {
                            lemma_same_outside_confined(c2, self.client.fs(), dest, dest);
                            lemma_confined_compose(
                                old(self).client.fs(),
                                c2,
                                self.client.fs(),
                                dest,
                                dest,
                            );
                            let pre_len = old(self).log_records@.len() as int;
                            if walk_failure_logged(pre_len, lgc) {
                                let i = choose|i: int|
                                    pre_len <= i < lgc.len() && is_walk_failure_event(
                                        #[trigger] lgc[i].event,
                                    );
                                assert(self.log_records@[i] == lgc[i]);
                            }
                        }
                    }
                } else {
                    proof {
                        lemma_same_except_confined(
                            old(self).client.fs(),
                            self.client.fs(),
                            dest,
                            dest,
                        );
                    }
                }
            },
            FsEntry::Directory(dir) => {
                let proceed = self.ensure_remote_dir(&remote_path);
                proof {
                    lemma_same_except_confined(old(self).client.fs(), self.client.fs(), dest, dest);
                }
                if !proceed {
                    let ghost lg1 = self.log_records@;
                    self.reload_remote_dir();
                    let ghost prl = self.log_records@;
                    if self.transfer.aborted() {
                        self.log_and_alert(
                            LogLevel::Warn,
                            LogEvent::TransferAborted { path: dir.path.clone_path() },
                        );
                    }
                    proof {
                        let pre_len = old(self).log_records@.len() as int;
                        assert(log_extends(lg1, prl));
                        assert(log_extends(prl, self.log_records@));
                        assert(lg1[pre_len].event is DirCreateFailed);
                        assert(prl[pre_len] == lg1[pre_len]);
                        assert(self.log_records@[pre_len] == prl[pre_len]);
                        assert(walk_failure_logged(pre_len, self.log_records@));
                        if listing_failure_logged(pre_len, prl) {
                            let i = choose|i: int|
                                pre_len <= i < prl.len() && ((#[trigger] prl[i].event)
                                    is ScanFailed || prl[i].event is PwdFailed);
                            assert(self.log_records@[i] == prl[i]);
                        }
                    }
                    return;
                }
                if depth == 0 {
                    self.log_and_alert(
                        LogLevel::Error,
                        LogEvent::DepthLimitReached { path: dir.path.clone_path() },
                    );
                    proof {
                        let li = self.log_records@.len() - 1;
                        assert(self.log_records@[li].event is DepthLimitReached);
                        assert(walk_failure_logged(
                            old(self).log_records@.len() as int,
                            self.log_records@,
                        ));
                    }
                } else {
                    match self.host.scan_dir(&dir.path) {
                        Ok(entries) => {
                            let ghost c_base = self.client.fs();
                            proof {
                                lemma_same_except_confined(
                                    old(self).client.fs(),
                                    c_base,
                                    dest,
                                    dest,
                                );
                            }
                            let mut idx: usize = 0;
                            while idx < entries.len() && !self.transfer.aborted
                                invariant
                                    idx <= entries@.len(),
                                    self.wf(),
                                    self.chunk_size == old(self).chunk_size,
                                    self.host.fs() == old(self).host.fs(),
                                    self.host.wd() == old(self).host.wd(),
                                    self.client.wd() == old(self).client.wd(),
                                    self.client.connected() == old(self).client.connected(),
                                    changes_confined_to(old(self).client.fs(), self.client.fs(), dest),
                                    self.transfer.full.total == old(self).transfer.full.total,
                                    self.transfer.full.transferred >= old(
                                        self,
                                    ).transfer.full.transferred,
                                    old(self).transfer.aborted ==> self.transfer.aborted,
                                    log_extends(old(self).log_records@, self.log_records@),
                                    (!walk_failure_logged(
                                        old(self).log_records@.len() as int,
                                        self.log_records@,
                                    ) && !self.transfer.aborted) ==> forall|i: int|
                                        0 <= i < idx ==> child_delivered(
                                            old(self).host.fs(),
                                            self.client.fs(),
                                            dest,
                                            #[trigger] entries@[i],
                                            (depth - 1) as nat,
                                        ),
                                decreases entries@.len() - idx,
                            {
                                let child = &entries[idx];
                                let ghost c_pre = self.client.fs();
                                let ghost pre_log = self.log_records@;
                                self.filetransfer_send_recurse(
                                    child,
                                    &remote_path,
                                    None,
                                    depth - 1,
                                );
                                proof {
                                    let cdest = remote_path@.push(
                                        chosen_name(None, entries@[idx as int]),
                                    );
                                    assert(starts_with(cdest, dest)) by {
                                        assert(cdest.subrange(0, dest.len() as int) =~= dest);
                                    }
                                    lemma_confined_compose(
                                        old(self).client.fs(),
                                        c_pre,
                                        self.client.fs(),
                                        dest,
                                        cdest,
                                    );
                                    let pre_len = old(self).log_records@.len() as int;
                                    let mm = old(self).host.fs();
                                    let dd1 = (depth - 1) as nat;
                                    if walk_failure_logged(pre_len, pre_log) {
                                        let i = choose|i: int|
                                            pre_len <= i < pre_log.len() && is_walk_failure_event(
                                                #[trigger] pre_log[i].event,
                                            );
                                        assert(self.log_records@[i] == pre_log[i]);
                                    }
                                    if !walk_failure_logged(pre_len, self.log_records@)
                                        && !self.transfer.aborted {
                                        assert(chosen_name(None, entries@[idx as int])
                                            == entries@[idx as int].name_view());
                                        assert(child_delivered(
                                            mm,
                                            self.client.fs(),
                                            dest,
                                            entries@[idx as int],
                                            dd1,
                                        ));
                                        assert forall|i: int| 0 <= i < idx implies child_delivered(
                                            mm,
                                            self.client.fs(),
                                            dest,
                                            #[trigger] entries@[i],
                                            dd1,
                                        ) by {
                                            assert(child_delivered(
                                                mm,
                                                c_pre,
                                                dest,
                                                entries@[i],
                                                dd1,
                                            ));
                                            lemma_child_path_is_push(mm, dir.path@, entries@[i]);
                                            lemma_child_path_is_push(
                                                mm,
                                                dir.path@,
                                                entries@[idx as int],
                                            );
                                            assert(entries@[i].name_view()
                                                != entries@[idx as int].name_view()) by {
                                                if entries@[i].name_view() == entries@[
                                                    idx as int
                                                ].name_view() {
                                                    assert(entries@[i].path_view() == entries@[
                                                        idx as int
                                                    ].path_view());
                                                }
                                            }
                                            lemma_delivered_preserved(
                                                mm,
                                                c_pre,
                                                self.client.fs(),
                                                dest,
                                                entries@[i],
                                                entries@[idx as int].name_view(),
                                                dd1,
                                            );
                                        }
                                    }
                                }
                                idx = idx + 1;
                            }
                            proof {
                                let pre_len = old(self).log_records@.len() as int;
                                if !walk_failure_logged(pre_len, self.log_records@)
                                    && !self.transfer.aborted {
                                    lemma_children_mirror_subtree(
                                        old(self).host.fs(),
                                        dir.path@,
                                        self.client.fs(),
                                        dest,
                                        entries@,
                                        depth as nat,
                                    );
                                }
                            }
                        },
                        Err(err) => {
                            self.log_and_alert(
                                LogLevel::Error,
                                LogEvent::ScanFailed { path: dir.path.clone_path(), error: err },
                            );
                            proof {
                                let li = self.log_records@.len() - 1;
                                assert(self.log_records@[li].event is ScanFailed);
                                assert(walk_failure_logged(
                                    old(self).log_records@.len() as int,
                                    self.log_records@,
                                ));
                            }
                        },
                    }
                }
            },
        }
        let ghost mid_log = self.log_records@;
        self.reload_remote_dir();
        let ghost post_reload_log = self.log_records@;
        if self.transfer.aborted() {
            self.log_and_alert(
                LogLevel::Warn,
                LogEvent::TransferAborted { path: entry.get_abs_path().clone_path() },
            );
        }
        proof {
            let pre_len = old(self).log_records@.len() as int;
            assert(log_extends(mid_log, self.log_records@));
            if cleanup_failure_logged(pre_len, mid_log) {
                let i = choose|i: int|
                    pre_len <= i < mid_log.len() && (#[trigger] mid_log[i].event) is CleanupFailed;
                assert(self.log_records@[i] == mid_log[i]);
            }
            if upload_failure_without_cleanup_logged(pre_len, mid_log) {
                let i = choose|i: int|
                    pre_len <= i < mid_log.len() && ((#[trigger] mid_log[i].event)
                        matches LogEvent::UploadFailed {
                        path: _,
                        reason,
                    } && !reason.requires_remote_cleanup());
                assert(self.log_records@[i] == mid_log[i]);
            }
            assert(log_extends(post_reload_log, self.log_records@));
            if listing_failure_logged(pre_len, post_reload_log) {
                let i = choose|i: int|
                    pre_len <= i < post_reload_log.len() && ((#[trigger] post_reload_log[i].event)
                        is ScanFailed || post_reload_log[i].event is PwdFailed);
                assert(self.log_records@[i] == post_reload_log[i]);
            }
            if walk_failure_logged(pre_len, mid_log) {
                let i = choose|i: int|
                    pre_len <= i < mid_log.len() && is_walk_failure_event(
                        #[trigger] mid_log[i].event,
                    );
                assert(self.log_records@[i] == mid_log[i]);
            }
        }
    }

    /// Recursively materialize one remote entry on the local side under
    /// `local_path`. The rename hint applies to this entry only; children
    /// keep their own names. Local changes stay confined to the destination
    /// subtree, except that recursive directory creation may add ancestor
    /// directories of it. When the walk ends without cancellation and
    /// without recording any failure, every reachable remote file within the
    /// depth budget stands at its corresponding local path with its source
    /// length.
    #[verifier::loop_isolation(false)]
    pub fn filetransfer_recv_recurse(
        &mut self,
        entry: &FsEntry,
        local_path: &FsPath,
        dst_name: Option<String>,
        depth: u64,
    )
        requires
            old(self).wf(),
        ensures
            final(self).wf(),
            Self::evolves(*old(self), *final(self)),
            final(self).client.fs() == old(self).client.fs(),
            final(self).client.wd() == old(self).client.wd(),
            final(self).client.connected() == old(self).client.connected(),
            final(self).host.wd() == old(self).host.wd(),
            changes_confined_to(
                old(self).host.fs(),
                final(self).host.fs(),
                local_path@.push(chosen_name(dst_name, *entry)),
            ),
            final(self).transfer.full.total == old(self).transfer.full.total,
            final(self).transfer.full.transferred >= old(self).transfer.full.transferred,
            entry matches FsEntry::File(f) ==> ((file_at(old(self).client.fs(), f.path@)
                matches Some(len) && file_at(
                final(self).host.fs(),
                local_path@.push(chosen_name(dst_name, *entry)),
            ) == Some(len)) || (final(self).alert matches Some(i) && i >= old(
                self,
            ).log_records@.len())),
            entry matches FsEntry::File(f) ==> ((file_at(old(self).client.fs(), f.path@)
                matches Some(len) && file_at(
                final(self).host.fs(),
                local_path@.push(chosen_name(dst_name, *entry)),
            ) == Some(len)) || !final(self).host.fs().dom().contains(
                local_path@.push(chosen_name(dst_name, *entry)),
            ) || cleanup_failure_logged(
                old(self).log_records@.len() as int,
                final(self).log_records@,
            ) || download_failure_without_cleanup_logged(
                old(self).log_records@.len() as int,
                final(self).log_records@,
            )),
            entry matches FsEntry::File(f) ==> ((file_at(old(self).client.fs(), f.path@)
                matches Some(len) && file_at(
                final(self).host.fs(),
                local_path@.push(chosen_name(dst_name, *entry)),
            ) == Some(len)) || walk_failure_logged(
                old(self).log_records@.len() as int,
                final(self).log_records@,
            )),
            entry matches FsEntry::Directory(d) && depth == 0 ==> walk_failure_logged(
                old(self).log_records@.len() as int,
                final(self).log_records@,
            ),
            entry matches FsEntry::Directory(d) ==> ((!final(self).transfer.aborted
                && !walk_failure_logged(
                old(self).log_records@.len() as int,
                final(self).log_records@,
            )) ==> subtree_mirrored(
                old(self).client.fs(),
                d.path@,
                final(self).host.fs(),
                local_path@.push(chosen_name(dst_name, *entry)),
                depth as nat,
            )),
            (final(self).local.wrkdir@ == final(self).host.wd() && dir_at(
                final(self).host.fs(),
                final(self).host.wd(),
            ) && scan_lists_children(
                final(self).host.fs(),
                final(self).host.wd(),
                final(self).local.files@,
            )) || listing_failure_logged(
                old(self).log_records@.len() as int,
                final(self).log_records@,
            ),
        decreases depth,
    {
        let file_name: String = entry.get_name().clone();
        let local_entry_path: FsPath = match &dst_name {
            Some(s) => local_path.join(s),
            None => local_path.join(&file_name),
        };
        let ghost dest = local_path@.push(chosen_name(dst_name, *entry));
        proof {
            assert(local_entry_path@ == dest);
            lemma_starts_with_refl(dest);
        }
        match entry {
            FsEntry::File(file) => {
                let res = self.filetransfer_recv_one(&local_entry_path, file, file_name);
                if let Err(err) = res {
                    let do_cleanup = err.needs_local_cleanup();
                    self.log_and_alert(
                        LogLevel::Error,
                        LogEvent::DownloadFailed { path: file.path.clone_path(), reason: err },
                    );
                    proof {
                        lemma_same_except_confined(old(self).host.fs(), self.host.fs(), dest, dest);
                        let li = self.log_records@.len() - 1;
                        assert(self.log_records@[li].event is DownloadFailed);
                        assert(walk_failure_logged(
                            old(self).log_records@.len() as int,
                            self.log_records@,
                        ));
                        if !do_cleanup {
                            assert(self.log_records@[li].event matches LogEvent::DownloadFailed {
                                path: _,
                                reason,
                            } && !reason.requires_local_cleanup());
                            assert(download_failure_without_cleanup_logged(
                                old(self).log_records@.len() as int,
                                self.log_records@,
                            ));
                        }
                    }
                    if do_cleanup {
                        let ghost h2 = self.host.fs();
                        let ghost lgc = self.log_records@;
                        let _ = self.cleanup_local_partial(&local_entry_path);
                        proof {
                            lemma_same_outside_confined(h2, self.host.fs(), dest, dest);
                            lemma_confined_compose(
                                old(self).host.fs(),
                                h2,
                                self.host.fs(),
                                dest,
                                dest,
                            );
                            let pre_len = old(self).log_records@.len() as int;
                            if walk_failure_logged(pre_len, lgc) {
                                let i = choose|i: int|
                                    pre_len <= i < lgc.len() && is_walk_failure_event(
                                        #[trigger] lgc[i].event,
                                    );
                                assert(self.log_records@[i] == lgc[i]);
                            }
                        }
                    }
                } else {
                    proof {
                        lemma_same_except_confined(old(self).host.fs(), self.host.fs(), dest, dest);
                    }
                }
            },
            FsEntry::Directory(dir) => {
                let proceed = self.ensure_local_dir(&local_entry_path);
                proof {
                    if !proceed {
                        assert(self.log_records@[old(self).log_records@.len() as int].event
                            is DirCreateFailed);
                        assert(walk_failure_logged(
                            old(self).log_records@.len() as int,
                            self.log_records@,
                        ));
                    }
                }
                if proceed {
                    if depth == 0 {
                        self.log_and_alert(
                            LogLevel::Error,
                            LogEvent::DepthLimitReached { path: dir.path.clone_path() },
                        );
                        proof {
                            let li = self.log_records@.len() - 1;
                            assert(self.log_records@[li].event is DepthLimitReached);
                            assert(walk_failure_logged(
                                old(self).log_records@.len() as int,
                                self.log_records@,
                            ));
                        }
                    } else {
                        match self.client.scan_dir(&dir.path) {
                            Ok(entries) => {
                                let mut idx: usize = 0;
                                while idx < entries.len() && !self.transfer.aborted
                                    invariant
                                        idx <= entries@.len(),
                                        self.wf(),
                                        self.chunk_size == old(self).chunk_size,
                                        self.client.fs() == old(self).client.fs(),
                                        self.client.wd() == old(self).client.wd(),
                                        self.client.connected() == old(
                                            self,
                                        ).client.connected(),
                                        self.host.wd() == old(self).host.wd(),
                                        changes_confined_to(
                                            old(self).host.fs(),
                                            self.host.fs(),
                                            dest,
                                        ),
                                        self.transfer.full.total == old(
                                            self,
                                        ).transfer.full.total,
                                        self.transfer.full.transferred >= old(
                                            self,
                                        ).transfer.full.transferred,
                                        old(self).transfer.aborted ==> self.transfer.aborted,
                                        log_extends(
                                            old(self).log_records@,
                                            self.log_records@,
                                        ),
                                        (!walk_failure_logged(
                                            old(self).log_records@.len() as int,
                                            self.log_records@,
                                        ) && !self.transfer.aborted) ==> forall|i: int|
                                            0 <= i < idx ==> child_delivered(
                                                old(self).client.fs(),
                                                self.host.fs(),
                                                dest,
                                                #[trigger] entries@[i],
                                                (depth - 1) as nat,
                                            ),
                                    decreases entries@.len() - idx,
                                {
                                    let child = &entries[idx];
                                    let ghost h_pre = self.host.fs();
                                    let ghost pre_log = self.log_records@;
                                    self.filetransfer_recv_recurse(
                                        child,
                                        &local_entry_path,
                                        None,
                                        depth - 1,
                                    );
                                    proof {
                                        let cdest = local_entry_path@.push(
                                            chosen_name(None, entries@[idx as int]),
                                        );
                                        assert(starts_with(cdest, dest)) by {
                                            assert(cdest.subrange(0, dest.len() as int)
                                                =~= dest);
                                        }
                                        lemma_confined_compose(
                                            old(self).host.fs(),
                                            h_pre,
                                            self.host.fs(),
                                            dest,
                                            cdest,
                                        );
                                        let pre_len = old(self).log_records@.len() as int;
                                        let mm = old(self).client.fs();
                                        let dd1 = (depth - 1) as nat;
                                        if walk_failure_logged(pre_len, pre_log) {
                                            let i = choose|i: int|
                                                pre_len <= i < pre_log.len()
                                                    && is_walk_failure_event(
                                                    #[trigger] pre_log[i].event,
                                                );
                                            assert(self.log_records@[i] == pre_log[i]);
                                        }
                                        if !walk_failure_logged(pre_len, self.log_records@)
                                            && !self.transfer.aborted {
                                            assert(chosen_name(None, entries@[idx as int])
                                                == entries@[idx as int].name_view());
                                            assert(child_delivered(
                                                mm,
                                                self.host.fs(),
                                                dest,
                                                entries@[idx as int],
                                                dd1,
                                            ));
                                            assert forall|i: int|
                                                0 <= i < idx implies child_delivered(
                                                mm,
                                                self.host.fs(),
                                                dest,
                                                #[trigger] entries@[i],
                                                dd1,
                                            ) by {
                                                assert(child_delivered(
                                                    mm,
                                                    h_pre,
                                                    dest,
                                                    entries@[i],
                                                    dd1,
                                                ));
                                                lemma_child_path_is_push(
                                                    mm,
                                                    dir.path@,
                                                    entries@[i],
                                                );
                                                lemma_child_path_is_push(
                                                    mm,
                                                    dir.path@,
                                                    entries@[idx as int],
                                                );
                                                assert(entries@[i].name_view() != entries@[
                                                    idx as int
                                                ].name_view()) by {
                                                    if entries@[i].name_view() == entries@[
                                                        idx as int
                                                    ].name_view() {
                                                        assert(entries@[i].path_view()
                                                            == entries@[idx as int].path_view());
                                                    }
                                                }
                                                lemma_delivered_preserved(
                                                    mm,
                                                    h_pre,
                                                    self.host.fs(),
                                                    dest,
                                                    entries@[i],
                                                    entries@[idx as int].name_view(),
                                                    dd1,
                                                );
                                            }
                                        }
                                    }
                                    idx = idx + 1;
                                }
                                proof {
                                    let pre_len = old(self).log_records@.len() as int;
                                    if !walk_failure_logged(pre_len, self.log_records@)
                                        && !self.transfer.aborted {
                                        lemma_children_mirror_subtree(
                                            old(self).client.fs(),
                                            dir.path@,
                                            self.host.fs(),
                                            dest,
                                            entries@,
                                            depth as nat,
                                        );
                                    }
                                }
                            },
                            Err(err) => {
                                self.log_and_alert(
                                    LogLevel::Error,
                                    LogEvent::ScanFailed {
                                        path: dir.path.clone_path(),
                                        error: err,
                                    },
                                );
                                proof {
                                    let li = self.log_records@.len() - 1;
                                    assert(self.log_records@[li].event is ScanFailed);
                                    assert(walk_failure_logged(
                                        old(self).log_records@.len() as int,
                                        self.log_records@,
                                    ));
                                }
                            },
                        }
                    }
                }
            },
        }
        let ghost mid_log = self.log_records@;
        self.reload_local_dir();
        let ghost post_reload_log = self.log_records@;
        if self.transfer.aborted() {
            self.log_and_alert(
                LogLevel::Warn,
                LogEvent::TransferAborted { path: entry.get_abs_path().clone_path() },
            );
        }
        proof {
            let pre_len = old(self).log_records@.len() as int;
            assert(log_extends(mid_log, self.log_records@));
            if cleanup_failure_logged(pre_len, mid_log) {
                let i = choose|i: int|
                    pre_len <= i < mid_log.len() && (#[trigger] mid_log[i].event) is CleanupFailed;
                assert(self.log_records@[i] == mid_log[i]);
            }
            if download_failure_without_cleanup_logged(pre_len, mid_log) {
                let i = choose|i: int|
                    pre_len <= i < mid_log.len() && ((#[trigger] mid_log[i].event)
                        matches LogEvent::DownloadFailed {
                        path: _,
                        reason,
                    } && !reason.requires_local_cleanup());
                assert(self.log_records@[i] == mid_log[i]);
            }
            assert(log_extends(post_reload_log, self.log_records@));
            if listing_failure_logged(pre_len, post_reload_log) {
                let i = choose|i: int|
                    pre_len <= i < post_reload_log.len() && ((#[trigger] post_reload_log[i].event)
                        is ScanFailed || post_reload_log[i].event is PwdFailed);
                assert(self.log_records@[i] == post_reload_log[i]);
            }
            if walk_failure_logged(pre_len, mid_log) {
                let i = choose|i: int|
                    pre_len <= i < mid_log.len() && is_walk_failure_event(
                        #[trigger] mid_log[i].event,
                    );
                assert(self.log_records@[i] == mid_log[i]);
            }
        }
    }

    /// The size of the transfer of one local entry: a file contributes its
    /// size; a directory the sum of its children, recursively, saturating at
    /// `u64::MAX`. A failed scan is logged and contributes nothing, so the
    /// result may underestimate.
    #[verifier::loop_isolation(false)]
    pub fn get_total_transfer_size_local(&mut self, entry: &FsEntry, depth: u64) -> (r: u64)
        requires
            old(self).wf(),
        ensures
            final(self).wf(),
            Self::evolves(*old(self), *final(self)),
            final(self).host.fs() == old(self).host.fs(),
            final(self).host.wd() == old(self).host.wd(),
            final(self).client.fs() == old(self).client.fs(),
            final(self).client.wd() == old(self).client.wd(),
            final(self).client.connected() == old(self).client.connected(),
            final(self).transfer == old(self).transfer,
            final(self).local == old(self).local,
            final(self).remote == old(self).remote,
            final(self).alert == old(self).alert,
            entry matches FsEntry::File(f) ==> r == f.size,
            crate::fs::entry_matches(old(self).host.fs(), *entry) ==> r <= clamp64(
                subtree_total(old(self).host.fs(), entry.path_view(), depth as nat),
            ),
            crate::fs::entry_matches(old(self).host.fs(), *entry) ==> (r == clamp64(
                subtree_total(old(self).host.fs(), entry.path_view(), depth as nat),
            ) || walk_failure_logged(
                old(self).log_records@.len() as int,
                final(self).log_records@,
            )),
        decreases depth,
    {
        let ghost m = old(self).host.fs();
        match entry {
            FsEntry::File(file) => file.size,
            FsEntry::Directory(dir) => {
                if depth == 0 {
                    self.log(
                        LogLevel::Error,
                        LogEvent::DepthLimitReached { path: dir.path.clone_path() },
                    );
                    proof {
                        lemma_subtree_total_nonneg(m, dir.path@, depth as nat);
                        let li = self.log_records@.len() - 1;
                        assert(self.log_records@[li].event is DepthLimitReached);
                        assert(walk_failure_logged(
                            old(self).log_records@.len() as int,
                            self.log_records@,
                        ));
                    }
                    return 0;
                }
                match self.host.scan_dir(&dir.path) {
                    Ok(files) => {
                        let ghost d = (depth - 1) as nat;
                        let mut sum: u64 = 0;
                        let mut idx: usize = 0;
                        while idx < files.len()
                            invariant
                                idx <= files@.len(),
                                self.wf(),
                                self.chunk_size == old(self).chunk_size,
                                self.host.fs() == old(self).host.fs(),
                                self.host.wd() == old(self).host.wd(),
                                self.client.fs() == old(self).client.fs(),
                                self.client.wd() == old(self).client.wd(),
                                self.client.connected() == old(self).client.connected(),
                                self.transfer == old(self).transfer,
                                self.local == old(self).local,
                                self.remote == old(self).remote,
                                self.alert == old(self).alert,
                                log_extends(old(self).log_records@, self.log_records@),
                                sum <= clamp64(entries_total(m, files@, idx as int, d)),
                                !walk_failure_logged(
                                    old(self).log_records@.len() as int,
                                    self.log_records@,
                                ) ==> sum == clamp64(entries_total(m, files@, idx as int, d)),
                            decreases files@.len() - idx,
                        {
                            let ghost pre_log = self.log_records@;
                            let s = self.get_total_transfer_size_local(&files[idx], depth - 1);
                            proof {
                                let pre_len = old(self).log_records@.len() as int;
                                if walk_failure_logged(pre_len, pre_log) {
                                    let i = choose|i: int|
                                        pre_len <= i < pre_log.len() && is_walk_failure_event(
                                            #[trigger] pre_log[i].event,
                                        );
                                    assert(self.log_records@[i] == pre_log[i]);
                                }
                                let ti = entries_total(m, files@, idx as int, d);
                                let w = subtree_total(m, files@[idx as int].path_view(), d);
                                lemma_entries_total_nonneg(m, files@, idx as int, d);
                                lemma_subtree_total_nonneg(
                                    m,
                                    files@[idx as int].path_view(),
                                    d,
                                );
                                assert(entries_total(m, files@, idx + 1 as int, d) == ti + w);
                            }
                            sum = if s > u64::MAX - sum {
                                u64::MAX
                            } else {
                                sum + s
                            };
                            idx = idx + 1;
                        }
                        proof {
                            lemma_subtree_total_dir(m, dir.path@, files@, depth as nat);
                        }
                        sum
                    },
                    Err(err) => {
                        self.log(
                            LogLevel::Error,
                            LogEvent::ScanFailed { path: dir.path.clone_path(), error: err },
                        );
                        proof {
                            lemma_subtree_total_nonneg(m, dir.path@, depth as nat);
                            let li = self.log_records@.len() - 1;
                            assert(self.log_records@[li].event is ScanFailed);
                            assert(walk_failure_logged(
                                old(self).log_records@.len() as int,
                                self.log_records@,
                            ));
                        }
                        0
                    },
                }
            },
        }
    }

    /// The size of the transfer of one remote entry, as
    /// `get_total_transfer_size_local` but walking the remote provider.
    #[verifier::loop_isolation(false)]
    pub fn get_total_transfer_size_remote(&mut self, entry: &FsEntry, depth: u64) -> (r: u64)
        requires
            old(self).wf(),
        ensures
            final(self).wf(),
            Self::evolves(*old(self), *final(self)),
            final(self).host.fs() == old(self).host.fs(),
            final(self).host.wd() == old(self).host.wd(),
            final(self).client.fs() == old(self).client.fs(),
            final(self).client.wd() == old(self).client.wd(),
            final(self).client.connected() == old(self).client.connected(),
            final(self).transfer == old(self).transfer,
            final(self).local == old(self).local,
            final(self).remote == old(self).remote,
            final(self).alert == old(self).alert,
            entry matches FsEntry::File(f) ==> r == f.size,
            crate::fs::entry_matches(old(self).client.fs(), *entry) ==> r <= clamp64(
                subtree_total(old(self).client.fs(), entry.path_view(), depth as nat),
            ),
            crate::fs::entry_matches(old(self).client.fs(), *entry) ==> (r == clamp64(
                subtree_total(old(self).client.fs(), entry.path_view(), depth as nat),
            ) || walk_failure_logged(
                old(self).log_records@.len() as int,
                final(self).log_records@,
            )),
        decreases depth,
    {
        let ghost m = old(self).client.fs();
        match entry {
            FsEntry::File(file) => file.size,
            FsEntry::Directory(dir) => {
                if depth == 0 {
                    self.log(
                        LogLevel::Error,
                        LogEvent::DepthLimitReached { path: dir.path.clone_path() },
                    );
                    proof {
                        lemma_subtree_total_nonneg(m, dir.path@, depth as nat);
                        let li = self.log_records@.len() - 1;
                        assert(self.log_records@[li].event is DepthLimitReached);
                        assert(walk_failure_logged(
                            old(self).log_records@.len() as int,
                            self.log_records@,
                        ));
                    }
                    return 0;
                }
                match self.client.scan_dir(&dir.path) {
                    Ok(files) => {
                        let ghost d = (depth - 1) as nat;
                        let mut sum: u64 = 0;
                        let mut idx: usize = 0;
                        while idx < files.len()
                            invariant
                                idx <= files@.len(),
                                self.wf(),
                                self.chunk_size == old(self).chunk_size,
                                self.host.fs() == old(self).host.fs(),
                                self.host.wd() == old(self).host.wd(),
                                self.client.fs() == old(self).client.fs(),
                                self.client.wd() == old(self).client.wd(),
                                self.client.connected() == old(self).client.connected(),
                                self.transfer == old(self).transfer,
                                self.local == old(self).local,
                                self.remote == old(self).remote,
                                self.alert == old(self).alert,
                                log_extends(old(self).log_records@, self.log_records@),
                                sum <= clamp64(entries_total(m, files@, idx as int, d)),
                                !walk_failure_logged(
                                    old(self).log_records@.len() as int,
                                    self.log_records@,
                                ) ==> sum == clamp64(entries_total(m, files@, idx as int, d)),
                            decreases files@.len() - idx,
                        {
                            let ghost pre_log = self.log_records@;
                            let s = self.get_total_transfer_size_remote(&files[idx], depth - 1);
                            proof {
                                let pre_len = old(self).log_records@.len() as int;
                                if walk_failure_logged(pre_len, pre_log) {
                                    let i = choose|i: int|
                                        pre_len <= i < pre_log.len() && is_walk_failure_event(
                                            #[trigger] pre_log[i].event,
                                        );
                                    assert(self.log_records@[i] == pre_log[i]);
                                }
                                let ti = entries_total(m, files@, idx as int, d);
                                let w = subtree_total(m, files@[idx as int].path_view(), d);
                                lemma_entries_total_nonneg(m, files@, idx as int, d);
                                lemma_subtree_total_nonneg(
                                    m,
                                    files@[idx as int].path_view(),
                                    d,
                                );
                                assert(entries_total(m, files@, idx + 1 as int, d) == ti + w);
                            }
                            sum = if s > u64::MAX - sum {
                                u64::MAX
                            } else {
                                sum + s
                            };
                            idx = idx + 1;
                        }
                        proof {
                            lemma_subtree_total_dir(m, dir.path@, files@, depth as nat);
                        }
                        sum
                    },
                    Err(err) => {
                        self.log(
                            LogLevel::Error,
                            LogEvent::ScanFailed { path: dir.path.clone_path(), error: err },
                        );
                        proof {
                            lemma_subtree_total_nonneg(m, dir.path@, depth as nat);
                            let li = self.log_records@.len() - 1;
                            assert(self.log_records@[li].event is ScanFailed);
                            assert(walk_failure_logged(
                                old(self).log_records@.len() as int,
                                self.log_records@,
                            ));
                        }
                        0
                    },
                }
            },
        }
    }

    /// Send one file to the remote side, under the explicit name if one is
    /// given. If the copy fails in a way that left a partial remote file
    /// (cancellation or a remote write error), that file is probed and
    /// removed.
    pub fn filetransfer_send_file(
        &mut self,
        file: &FsFile,
        curr_remote_path: &FsPath,
        dst_name: Option<String>,
    ) -> (r: Result<(), String>)
        requires
            old(self).wf(),
        ensures
            final(self).wf(),
            Self::evolves_invocation(*old(self), *final(self)),
            final(self).host.fs() == old(self).host.fs(),
            final(self).host.wd() == old(self).host.wd(),
            final(self).client.wd() == old(self).client.wd(),
            final(self).client.connected() == old(self).client.connected(),
            final(self).transfer.full.total == file.size,
            changes_confined_to(
                old(self).client.fs(),
                final(self).client.fs(),
                curr_remote_path@.push(chosen_name(dst_name, FsEntry::File(*file))),
            ),
            r is Ok ==> !final(self).transfer.aborted && (file_at(
                old(self).host.fs(),
                file.path@,
            ) matches Some(len) && file_at(
                final(self).client.fs(),
                curr_remote_path@.push(chosen_name(dst_name, FsEntry::File(*file))),
            ) == Some(len) && final(self).transfer.partial.transferred == len),
            r is Ok && file_at(old(self).host.fs(), file.path@) == Some(file.size as nat) ==> {
                &&& final(self).transfer.full.transferred == file.size
                &&& final(self).transfer.full.progress_percent() == 100
            },
            r is Err ==> (!final(self).client.fs().dom().contains(
                curr_remote_path@.push(chosen_name(dst_name, FsEntry::File(*file))),
            ) || cleanup_failure_logged(
                old(self).log_records@.len() as int,
                final(self).log_records@,
            ) || upload_failure_without_cleanup_logged(
                old(self).log_records@.len() as int,
                final(self).log_records@,
            )),
    {
        self.transfer.reset();
        let now = self.ui.now_millis();
        self.transfer.full.init(file.size, now);
        let file_name: String = file.name.clone();
        let remote_path: FsPath = match &dst_name {
            Some(s) => curr_remote_path.join(s),
            None => curr_remote_path.join(&file_name),
        };
        let ghost dest = curr_remote_path@.push(chosen_name(dst_name, FsEntry::File(*file)));
        proof {
            assert(remote_path@ == dest);
            lemma_starts_with_refl(dest);
        }
        self.ui.draw_progress(0, 0);
        let result = self.filetransfer_send_one(file, &remote_path, file_name);
        match result {
            Ok(()) => {
                proof {
                    lemma_same_except_confined(old(self).client.fs(), self.client.fs(), dest, dest);
                    if file_at(old(self).host.fs(), file.path@) == Some(file.size as nat) {
                        if file.size > 0 {
                            assert(file.size * 100 / (file.size as int) == 100) by (nonlinear_arith)
                                requires
                                    file.size > 0,
                            ;
                        }
                    }
                }
                Ok(())
            },
            Err(err) => {
                let do_cleanup = err.needs_remote_cleanup();
                let msg = err.to_message();
                self.log_and_alert(
                    LogLevel::Error,
                    LogEvent::UploadFailed { path: file.path.clone_path(), reason: err },
                );
                proof {
                    lemma_same_except_confined(old(self).client.fs(), self.client.fs(), dest, dest);
                    if !do_cleanup {
                        let li = self.log_records@.len() - 1;
                        assert(self.log_records@[li].event matches LogEvent::UploadFailed {
                            path: _,
                            reason,
                        } && !reason.requires_remote_cleanup());
                    }
                }
                if do_cleanup {
                    let ghost c2 = self.client.fs();
                    let _ = self.cleanup_remote_partial(&remote_path);
                    proof {
                        lemma_same_outside_confined(c2, self.client.fs(), dest, dest);
                        lemma_confined_compose(
                            old(self).client.fs(),
                            c2,
                            self.client.fs(),
                            dest,
                            dest,
                        );
                    }
                }
                Err(msg)
            },
        }
    }

    /// Send one entry of unknown kind (file or directory) to the remote side.
    pub fn filetransfer_send_any(
        &mut self,
        entry: &FsEntry,
        curr_remote_path: &FsPath,
        dst_name: Option<String>,
    ) -> (r: Result<(), String>)
        requires
            old(self).wf(),
        ensures
            final(self).wf(),
            Self::evolves_invocation(*old(self), *final(self)),
            final(self).host.fs() == old(self).host.fs(),
            final(self).host.wd() == old(self).host.wd(),
            final(self).client.wd() == old(self).client.wd(),
            final(self).client.connected() == old(self).client.connected(),
            changes_confined_to(
                old(self).client.fs(),
                final(self).client.fs(),
                curr_remote_path@.push(chosen_name(dst_name, *entry)),
            ),
            entry matches FsEntry::File(f) ==> final(self).transfer.full.total == f.size,
            crate::fs::entry_matches(old(self).host.fs(), *entry) ==> final(self).transfer.full.total <= clamp64(
                subtree_total(old(self).host.fs(), entry.path_view(), MAX_WALK_DEPTH as nat),
            ),
            crate::fs::entry_matches(old(self).host.fs(), *entry) ==> (final(self).transfer.full.total == clamp64(
                subtree_total(old(self).host.fs(), entry.path_view(), MAX_WALK_DEPTH as nat),
            ) || walk_failure_logged(
                old(self).log_records@.len() as int,
                final(self).log_records@,
            )),
            entry matches FsEntry::File(f) ==> ((file_at(old(self).host.fs(), f.path@)
                matches Some(len) && file_at(
                final(self).client.fs(),
                curr_remote_path@.push(chosen_name(dst_name, *entry)),
            ) == Some(len)) || (final(self).alert matches Some(i) && i >= old(
                self,
            ).log_records@.len())),
            entry matches FsEntry::File(f) ==> ((file_at(old(self).host.fs(), f.path@)
                matches Some(len) && file_at(
                final(self).client.fs(),
                curr_remote_path@.push(chosen_name(dst_name, *entry)),
            ) == Some(len)) || walk_failure_logged(
                old(self).log_records@.len() as int,
                final(self).log_records@,
            )),
            entry matches FsEntry::Directory(d) ==> ((!final(self).transfer.aborted
                && !walk_failure_logged(
                old(self).log_records@.len() as int,
                final(self).log_records@,
            )) ==> subtree_mirrored(
                old(self).host.fs(),
                d.path@,
                final(self).client.fs(),
                curr_remote_path@.push(chosen_name(dst_name, *entry)),
                MAX_WALK_DEPTH as nat,
            )),
            r is Ok,
    {
        self.transfer.reset();
        let total_transfer_size = self.get_total_transfer_size_local(entry, MAX_WALK_DEPTH);
        let ghost lg_size = self.log_records@;
        let now = self.ui.now_millis();
        self.transfer.full.init(total_transfer_size, now);
        self.ui.draw_progress(0, 0);
        self.filetransfer_send_recurse(entry, curr_remote_path, dst_name, MAX_WALK_DEPTH);
        proof {
            let pre_len = old(self).log_records@.len() as int;
            assert(log_extends(lg_size, self.log_records@));
            if walk_failure_logged(pre_len, lg_size) {
                let i = choose|i: int|
                    pre_len <= i < lg_size.len() && is_walk_failure_event(
                        #[trigger] lg_size[i].event,
                    );
                assert(self.log_records@[i] == lg_size[i]);
            }
        }
        Ok(())
    }

    /// Send a batch of entries, in order, each under its own name. For a
    /// batch made only of plain files the aggregate expected total is exactly
    /// the sum of their sizes. A cancellation stops the walk before the next
    /// entry. A clean run (no cancellation, no failure recorded) of a batch
    /// of distinctly named entries delivers every one of them.
    #[verifier::loop_isolation(false)]
    pub fn filetransfer_send_many(&mut self, entries: Vec<FsEntry>, curr_remote_path: &FsPath) -> (r:
        Result<(), String>)
        requires
            old(self).wf(),
        ensures
            final(self).wf(),
            Self::evolves_invocation(*old(self), *final(self)),
            final(self).host.fs() == old(self).host.fs(),
            final(self).host.wd() == old(self).host.wd(),
            final(self).client.wd() == old(self).client.wd(),
            final(self).client.connected() == old(self).client.connected(),
            changes_confined_to(old(self).client.fs(), final(self).client.fs(), curr_remote_path@),
            batch_stepwise_confined(
                old(self).client.fs(),
                final(self).client.fs(),
                curr_remote_path@,
                entries@,
            ),
            ((forall|k1: int, k2: int|
                0 <= k1 < k2 < entries@.len() ==> entries@[k1].name_view() != entries@[
                    k2
                ].name_view()) && !final(self).transfer.aborted && !walk_failure_logged(
                old(self).log_records@.len() as int,
                final(self).log_records@,
            )) ==> forall|k: int|
                0 <= k < entries@.len() ==> child_delivered(
                    old(self).host.fs(),
                    final(self).client.fs(),
                    curr_remote_path@,
                    #[trigger] entries@[k],
                    MAX_WALK_DEPTH as nat,
                ),
            (forall|i: int| 0 <= i < entries@.len() ==> entries@[i] is File) && sum_file_sizes(
                entries@,
            ) <= u64::MAX ==> final(self).transfer.full.total == sum_file_sizes(entries@),
            (forall|i: int|
                0 <= i < entries@.len() ==> crate::fs::entry_matches(
                    old(self).host.fs(),
                    #[trigger] entries@[i],
                )) ==> (final(self).transfer.full.total == clamp64(
                entries_total(
                    old(self).host.fs(),
                    entries@,
                    entries@.len() as int,
                    MAX_WALK_DEPTH as nat,
                ),
            ) || walk_failure_logged(
                old(self).log_records@.len() as int,
                final(self).log_records@,
            )),
            (forall|i: int|
                0 <= i < entries@.len() ==> crate::fs::entry_matches(
                    old(self).host.fs(),
                    #[trigger] entries@[i],
                )) ==> final(self).transfer.full.total <= clamp64(
                entries_total(
                    old(self).host.fs(),
                    entries@,
                    entries@.len() as int,
                    MAX_WALK_DEPTH as nat,
                ),
            ),
            r is Ok,
    {
        self.transfer.reset();
        let mut total: u64 = 0;
        let mut i: usize = 0;
        while i < entries.len()
            invariant
                i <= entries@.len(),
                self.wf(),
                self.chunk_size == old(self).chunk_size,
                self.host.fs() == old(self).host.fs(),
                self.host.wd() == old(self).host.wd(),
                self.client.fs() == old(self).client.fs(),
                self.client.wd() == old(self).client.wd(),
                self.client.connected() == old(self).client.connected(),
                log_extends(old(self).log_records@, self.log_records@),
                (forall|j: int| 0 <= j < i ==> entries@[j] is File) ==> total == (
                if sum_file_sizes(entries@.subrange(0, i as int)) <= u64::MAX {
                    sum_file_sizes(entries@.subrange(0, i as int))
                } else {
                    u64::MAX as int
                }),
                (forall|j: int|
                    0 <= j < entries@.len() ==> crate::fs::entry_matches(
                        old(self).host.fs(),
                        #[trigger] entries@[j],
                    )) ==> total <= clamp64(
                    entries_total(old(self).host.fs(), entries@, i as int, MAX_WALK_DEPTH as nat),
                ),
                (forall|j: int|
                    0 <= j < entries@.len() ==> crate::fs::entry_matches(
                        old(self).host.fs(),
                        #[trigger] entries@[j],
                    )) && !walk_failure_logged(
                    old(self).log_records@.len() as int,
                    self.log_records@,
                ) ==> total == clamp64(
                    entries_total(old(self).host.fs(), entries@, i as int, MAX_WALK_DEPTH as nat),
                ),
            decreases entries@.len() - i,
        {
            let ghost pre_log = self.log_records@;
            let s = self.get_total_transfer_size_local(&entries[i], MAX_WALK_DEPTH);
            proof {
                let pre_len = old(self).log_records@.len() as int;
                if walk_failure_logged(pre_len, pre_log) {
                    let i2 = choose|i2: int|
                        pre_len <= i2 < pre_log.len() && is_walk_failure_event(
                            #[trigger] pre_log[i2].event,
                        );
                    assert(self.log_records@[i2] == pre_log[i2]);
                }
                assert(entries@.subrange(0, i + 1 as int).drop_last() =~= entries@.subrange(
                    0,
                    i as int,
                ));
                assert(entries@.subrange(0, i + 1 as int).last() == entries@[i as int]);
                let m = old(self).host.fs();
                let d = MAX_WALK_DEPTH as nat;
                lemma_entries_total_nonneg(m, entries@, i as int, d);
                lemma_subtree_total_nonneg(m, entries@[i as int].path_view(), d);
                assert(entries_total(m, entries@, i + 1 as int, d) == entries_total(
                    m,
                    entries@,
                    i as int,
                    d,
                ) + subtree_total(m, entries@[i as int].path_view(), d));
            }
            total = if s > u64::MAX - total {
                u64::MAX
            } else {
                total + s
            };
            i = i + 1;
        }
        proof {
            assert(entries@.subrange(0, entries@.len() as int) =~= entries@);
        }
        let now = self.ui.now_millis();
        self.transfer.full.init(total, now);
        self.ui.draw_progress(0, 0);
        let ghost mut chain: Seq<crate::fs::FsModel> = seq![old(self).client.fs()];
        let mut k: usize = 0;
        while k < entries.len() && !self.transfer.aborted
            invariant
                k <= entries@.len(),
                self.wf(),
                self.chunk_size == old(self).chunk_size,
                self.host.fs() == old(self).host.fs(),
                self.host.wd() == old(self).host.wd(),
                self.client.wd() == old(self).client.wd(),
                self.client.connected() == old(self).client.connected(),
                changes_confined_to(old(self).client.fs(), self.client.fs(), curr_remote_path@),
                chain.len() == k + 1,
                chain[0] == old(self).client.fs(),
                chain[k as int] == self.client.fs(),
                forall|j: int|
                    0 <= j < k ==> changes_confined_to(
                        chain[j],
                        chain[j + 1],
                        curr_remote_path@.push(#[trigger] entries@[j].name_view()),
                    ),
                ((forall|k1: int, k2: int|
                    0 <= k1 < k2 < entries@.len() ==> entries@[k1].name_view() != entries@[
                        k2
                    ].name_view()) && !walk_failure_logged(
                    old(self).log_records@.len() as int,
                    self.log_records@,
                ) && !self.transfer.aborted) ==> forall|j: int|
                    0 <= j < k ==> child_delivered(
                        old(self).host.fs(),
                        self.client.fs(),
                        curr_remote_path@,
                        #[trigger] entries@[j],
                        MAX_WALK_DEPTH as nat,
                    ),
                log_extends(old(self).log_records@, self.log_records@),
                self.transfer.full.total == total,
                (forall|j: int|
                    0 <= j < entries@.len() ==> crate::fs::entry_matches(
                        old(self).host.fs(),
                        #[trigger] entries@[j],
                    )) ==> (total == clamp64(
                    entries_total(
                        old(self).host.fs(),
                        entries@,
                        entries@.len() as int,
                        MAX_WALK_DEPTH as nat,
                    ),
                ) || walk_failure_logged(
                    old(self).log_records@.len() as int,
                    self.log_records@,
                )),
            decreases entries@.len() - k,
        {
            let entry = &entries[k];
            let ghost c_pre = self.client.fs();
            let ghost pre_log = self.log_records@;
            self.filetransfer_send_recurse(entry, curr_remote_path, None, MAX_WALK_DEPTH);
            proof {
                let cdest = curr_remote_path@.push(chosen_name(None, entries@[k as int]));
                assert(starts_with(cdest, curr_remote_path@)) by {
                    assert(cdest.subrange(0, curr_remote_path@.len() as int)
                        =~= curr_remote_path@);
                }
                lemma_confined_compose(
                    old(self).client.fs(),
                    c_pre,
                    self.client.fs(),
                    curr_remote_path@,
                    cdest,
                );
                chain = chain.push(self.client.fs());
                assert(chosen_name(None, entries@[k as int]) == entries@[k as int].name_view());
                let pre_len = old(self).log_records@.len() as int;
                let mm = old(self).host.fs();
                if walk_failure_logged(pre_len, pre_log) {
                    let i = choose|i: int|
                        pre_len <= i < pre_log.len() && is_walk_failure_event(
                            #[trigger] pre_log[i].event,
                        );
                    assert(self.log_records@[i] == pre_log[i]);
                }
                if (forall|k1: int, k2: int|
                    0 <= k1 < k2 < entries@.len() ==> entries@[k1].name_view() != entries@[
                        k2
                    ].name_view()) && !walk_failure_logged(pre_len, self.log_records@)
                    && !self.transfer.aborted {
                    assert(child_delivered(
                        mm,
                        self.client.fs(),
                        curr_remote_path@,
                        entries@[k as int],
                        MAX_WALK_DEPTH as nat,
                    ));
                    assert forall|j: int| 0 <= j < k implies child_delivered(
                        mm,
                        self.client.fs(),
                        curr_remote_path@,
                        #[trigger] entries@[j],
                        MAX_WALK_DEPTH as nat,
                    ) by {
                        assert(child_delivered(
                            mm,
                            c_pre,
                            curr_remote_path@,
                            entries@[j],
                            MAX_WALK_DEPTH as nat,
                        ));
                        lemma_delivered_preserved(
                            mm,
                            c_pre,
                            self.client.fs(),
                            curr_remote_path@,
                            entries@[j],
                            entries@[k as int].name_view(),
                            MAX_WALK_DEPTH as nat,
                        );
                    }
                }
            }
            k = k + 1;
        }
        proof {
            let n = entries@.len() as int;
            let fin = self.client.fs();
            let ms = Seq::new((n + 1) as nat, |j: int| if j <= k as int { chain[j] } else { fin });
            assert(ms[0] == old(self).client.fs());
            assert(ms[n] == fin);
            assert forall|j: int| 0 <= j < n implies changes_confined_to(
                ms[j],
                ms[j + 1],
                curr_remote_path@.push(#[trigger] entries@[j].name_view()),
            ) by {
                if j < k as int {
                    assert(ms[j] == chain[j] && ms[j + 1] == chain[j + 1]);
                } else {
                    assert(ms[j] == fin && ms[j + 1] == fin);
                }
            }
            assert(ms.len() == entries@.len() + 1);
            assert(forall|j: int|
                0 <= j < entries@.len() ==> changes_confined_to(
                    ms[j],
                    ms[j + 1],
                    curr_remote_path@.push(#[trigger] entries@[j].name_view()),
                ));
            assert(batch_stepwise_confined(
                old(self).client.fs(),
                self.client.fs(),
                curr_remote_path@,
                entries@,
            ));
        }
        Ok(())
    }

    /// Send a payload to the remote side. An explicit destination name
    /// applies only to a single-entry payload's top-level entry.
    pub fn filetransfer_send(
        &mut self,
        payload: TransferPayload,
        curr_remote_path: &FsPath,
        dst_name: Option<String>,
    ) -> (r: Result<(), String>)
        requires
            old(self).wf(),
        ensures
            final(self).wf(),
            Self::evolves_invocation(*old(self), *final(self)),
            final(self).host.fs() == old(self).host.fs(),
            final(self).host.wd() == old(self).host.wd(),
            final(self).client.wd() == old(self).client.wd(),
            final(self).client.connected() == old(self).client.connected(),
            payload matches TransferPayload::File(f) ==> final(self).transfer.full.total == f.size,
            payload matches TransferPayload::Any(e) ==> (e matches FsEntry::File(f) ==> final(self).transfer.full.total == f.size),
            payload matches TransferPayload::Many(es) ==> ((forall|i: int|
                0 <= i < es@.len() ==> es@[i] is File) && sum_file_sizes(es@) <= u64::MAX ==> final(self).transfer.full.total == sum_file_sizes(es@)),
            payload matches TransferPayload::File(f) ==> changes_confined_to(
                old(self).client.fs(),
                final(self).client.fs(),
                curr_remote_path@.push(chosen_name(dst_name, FsEntry::File(f))),
            ),
            payload matches TransferPayload::Any(e) ==> changes_confined_to(
                old(self).client.fs(),
                final(self).client.fs(),
                curr_remote_path@.push(chosen_name(dst_name, e)),
            ),
            payload matches TransferPayload::Any(e) ==> (e matches FsEntry::Directory(d) ==> ((
            !final(self).transfer.aborted && !walk_failure_logged(
                old(self).log_records@.len() as int,
                final(self).log_records@,
            )) ==> subtree_mirrored(
                old(self).host.fs(),
                d.path@,
                final(self).client.fs(),
                curr_remote_path@.push(chosen_name(dst_name, e)),
                MAX_WALK_DEPTH as nat,
            ))),
            payload matches TransferPayload::Many(es) ==> (((forall|k1: int, k2: int|
                0 <= k1 < k2 < es@.len() ==> es@[k1].name_view() != es@[k2].name_view()) && !final(self).transfer.aborted && !walk_failure_logged(
                old(self).log_records@.len() as int,
                final(self).log_records@,
            )) ==> forall|k: int|
                0 <= k < es@.len() ==> child_delivered(
                    old(self).host.fs(),
                    final(self).client.fs(),
                    curr_remote_path@,
                    #[trigger] es@[k],
                    MAX_WALK_DEPTH as nat,
                )),
            payload matches TransferPayload::Many(es) ==> changes_confined_to(
                old(self).client.fs(),
                final(self).client.fs(),
                curr_remote_path@,
            ) && batch_stepwise_confined(
                old(self).client.fs(),
                final(self).client.fs(),
                curr_remote_path@,
                es@,
            ),
            payload matches TransferPayload::File(f) ==> (r is Err ==> !final(self).client.fs().dom().contains(
                curr_remote_path@.push(chosen_name(dst_name, FsEntry::File(f))),
            ) || cleanup_failure_logged(
                old(self).log_records@.len() as int,
                final(self).log_records@,
            ) || upload_failure_without_cleanup_logged(
                old(self).log_records@.len() as int,
                final(self).log_records@,
            )),
    {
        match payload {
            TransferPayload::Any(entry) => self.filetransfer_send_any(
                &entry,
                curr_remote_path,
                dst_name,
            ),
            TransferPayload::File(file) => self.filetransfer_send_file(
                &file,
                curr_remote_path,
                dst_name,
            ),
            TransferPayload::Many(entries) => self.filetransfer_send_many(
                entries,
                curr_remote_path,
            ),
        }
    }

    /// Receive one file from the remote side into the given local file path.
    /// If the copy fails in a way that left a partial local file
    /// (cancellation or a local write error), that file is probed and
    /// removed.
    pub fn filetransfer_recv_file(&mut self, entry: &FsFile, local_path: &FsPath) -> (r: Result<
        (),
        String,
    >)
        requires
            old(self).wf(),
        ensures
            final(self).wf(),
            Self::evolves_invocation(*old(self), *final(self)),
            final(self).client.fs() == old(self).client.fs(),
            final(self).client.wd() == old(self).client.wd(),
            final(self).client.connected() == old(self).client.connected(),
            final(self).host.wd() == old(self).host.wd(),
            final(self).transfer.full.total == entry.size,
            same_outside_subtree(old(self).host.fs(), final(self).host.fs(), local_path@),
            r is Ok ==> !final(self).transfer.aborted && (file_at(
                old(self).client.fs(),
                entry.path@,
            ) matches Some(len) && file_at(final(self).host.fs(), local_path@) == Some(len)
                && final(self).transfer.partial.transferred == len),
            r is Ok && file_at(old(self).client.fs(), entry.path@) == Some(entry.size as nat) ==> {
                &&& final(self).transfer.full.transferred == entry.size
                &&& final(self).transfer.full.progress_percent() == 100
            },
            r is Err ==> (!final(self).host.fs().dom().contains(local_path@)
                || cleanup_failure_logged(
                old(self).log_records@.len() as int,
                final(self).log_records@,
            ) || download_failure_without_cleanup_logged(
                old(self).log_records@.len() as int,
                final(self).log_records@,
            )),
    {
        self.transfer.reset();
        let now = self.ui.now_millis();
        self.transfer.full.init(entry.size, now);
        self.ui.draw_progress(0, 0);
        let result = self.filetransfer_recv_one(local_path, entry, entry.name.clone());
        proof {
            lemma_starts_with_refl(local_path@);
        }
        match result {
            Ok(()) => {
                proof {
                    if file_at(old(self).client.fs(), entry.path@) == Some(entry.size as nat) {
                        if entry.size > 0 {
                            assert(entry.size * 100 / (entry.size as int) == 100)
                                by (nonlinear_arith)
                                requires
                                    entry.size > 0,
                            ;
                        }
                    }
                }
                Ok(())
            },
            Err(err) => {
                let do_cleanup = err.needs_local_cleanup();
                let msg = err.to_message();
                self.log_and_alert(
                    LogLevel::Error,
                    LogEvent::DownloadFailed { path: entry.path.clone_path(), reason: err },
                );
                proof {
                    if !do_cleanup {
                        let li = self.log_records@.len() - 1;
                        assert(self.log_records@[li].event matches LogEvent::DownloadFailed {
                            path: _,
                            reason,
                        } && !reason.requires_local_cleanup());
                    }
                }
                if do_cleanup {
                    let _ = self.cleanup_local_partial(local_path);
                }
                Err(msg)
            },
        }
    }

    /// Receive one entry of unknown kind (file or directory) from the remote
    /// side.
    pub fn filetransfer_recv_any(
        &mut self,
        entry: &FsEntry,
        local_path: &FsPath,
        dst_name: Option<String>,
    ) -> (r: Result<(), String>)
        requires
            old(self).wf(),
        ensures
            final(self).wf(),
            Self::evolves_invocation(*old(self), *final(self)),
            final(self).client.fs() == old(self).client.fs(),
            final(self).client.wd() == old(self).client.wd(),
            final(self).client.connected() == old(self).client.connected(),
            final(self).host.wd() == old(self).host.wd(),
            changes_confined_to(
                old(self).host.fs(),
                final(self).host.fs(),
                local_path@.push(chosen_name(dst_name, *entry)),
            ),
            entry matches FsEntry::File(f) ==> final(self).transfer.full.total == f.size,
            crate::fs::entry_matches(old(self).client.fs(), *entry) ==> final(self).transfer.full.total <= clamp64(
                subtree_total(old(self).client.fs(), entry.path_view(), MAX_WALK_DEPTH as nat),
            ),
            crate::fs::entry_matches(old(self).client.fs(), *entry) ==> (final(self).transfer.full.total == clamp64(
                subtree_total(old(self).client.fs(), entry.path_view(), MAX_WALK_DEPTH as nat),
            ) || walk_failure_logged(
                old(self).log_records@.len() as int,
                final(self).log_records@,
            )),
            entry matches FsEntry::File(f) ==> ((file_at(old(self).client.fs(), f.path@)
                matches Some(len) && file_at(
                final(self).host.fs(),
                local_path@.push(chosen_name(dst_name, *entry)),
            ) == Some(len)) || (final(self).alert matches Some(i) && i >= old(
                self,
            ).log_records@.len())),
            entry matches FsEntry::File(f) ==> ((file_at(old(self).client.fs(), f.path@)
                matches Some(len) && file_at(
                final(self).host.fs(),
                local_path@.push(chosen_name(dst_name, *entry)),
            ) == Some(len)) || walk_failure_logged(
                old(self).log_records@.len() as int,
                final(self).log_records@,
            )),
            entry matches FsEntry::Directory(d) ==> ((!final(self).transfer.aborted
                && !walk_failure_logged(
                old(self).log_records@.len() as int,
                final(self).log_records@,
            )) ==> subtree_mirrored(
                old(self).client.fs(),
                d.path@,
                final(self).host.fs(),
                local_path@.push(chosen_name(dst_name, *entry)),
                MAX_WALK_DEPTH as nat,
            )),
            r is Ok,
    {
        self.transfer.reset();
        let total_transfer_size = self.get_total_transfer_size_remote(entry, MAX_WALK_DEPTH);
        let ghost lg_size = self.log_records@;
        let now = self.ui.now_millis();
        self.transfer.full.init(total_transfer_size, now);
        self.ui.draw_progress(0, 0);
        self.filetransfer_recv_recurse(entry, local_path, dst_name, MAX_WALK_DEPTH);
        proof {
            let pre_len = old(self).log_records@.len() as int;
            assert(log_extends(lg_size, self.log_records@));
            if walk_failure_logged(pre_len, lg_size) {
                let i = choose|i: int|
                    pre_len <= i < lg_size.len() && is_walk_failure_event(
                        #[trigger] lg_size[i].event,
                    );
                assert(self.log_records@[i] == lg_size[i]);
            }
        }
        Ok(())
    }

    /// Receive a batch of entries, in order, each under its own name. For a
    /// batch made only of plain files the aggregate expected total is exactly
    /// the sum of their sizes. A cancellation stops the walk before the next
    /// entry. A clean run (no cancellation, no failure recorded) of a batch
    /// of distinctly named entries delivers every one of them.
    #[verifier::loop_isolation(false)]
    pub fn filetransfer_recv_many(&mut self, entries: Vec<FsEntry>, local_path: &FsPath) -> (r:
        Result<(), String>)
        requires
            old(self).wf(),
        ensures
            final(self).wf(),
            Self::evolves_invocation(*old(self), *final(self)),
            final(self).client.fs() == old(self).client.fs(),
            final(self).client.wd() == old(self).client.wd(),
            final(self).client.connected() == old(self).client.connected(),
            final(self).host.wd() == old(self).host.wd(),
            changes_confined_to(old(self).host.fs(), final(self).host.fs(), local_path@),
            batch_stepwise_confined(
                old(self).host.fs(),
                final(self).host.fs(),
                local_path@,
                entries@,
            ),
            ((forall|k1: int, k2: int|
                0 <= k1 < k2 < entries@.len() ==> entries@[k1].name_view() != entries@[
                    k2
                ].name_view()) && !final(self).transfer.aborted && !walk_failure_logged(
                old(self).log_records@.len() as int,
                final(self).log_records@,
            )) ==> forall|k: int|
                0 <= k < entries@.len() ==> child_delivered(
                    old(self).client.fs(),
                    final(self).host.fs(),
                    local_path@,
                    #[trigger] entries@[k],
                    MAX_WALK_DEPTH as nat,
                ),
            (forall|i: int| 0 <= i < entries@.len() ==> entries@[i] is File) && sum_file_sizes(
                entries@,
            ) <= u64::MAX ==> final(self).transfer.full.total == sum_file_sizes(entries@),
            (forall|i: int|
                0 <= i < entries@.len() ==> crate::fs::entry_matches(
                    old(self).client.fs(),
                    #[trigger] entries@[i],
                )) ==> (final(self).transfer.full.total == clamp64(
                entries_total(
                    old(self).client.fs(),
                    entries@,
                    entries@.len() as int,
                    MAX_WALK_DEPTH as nat,
                ),
            ) || walk_failure_logged(
                old(self).log_records@.len() as int,
                final(self).log_records@,
            )),
            (forall|i: int|
                0 <= i < entries@.len() ==> crate::fs::entry_matches(
                    old(self).client.fs(),
                    #[trigger] entries@[i],
                )) ==> final(self).transfer.full.total <= clamp64(
                entries_total(
                    old(self).client.fs(),
                    entries@,
                    entries@.len() as int,
                    MAX_WALK_DEPTH as nat,
                ),
            ),
            r is Ok,
    {
        self.transfer.reset();
        let mut total: u64 = 0;
        let mut i: usize = 0;
        while i < entries.len()
            invariant
                i <= entries@.len(),
                self.wf(),
                self.chunk_size == old(self).chunk_size,
                self.host.fs() == old(self).host.fs(),
                self.host.wd() == old(self).host.wd(),
                self.client.fs() == old(self).client.fs(),
                self.client.wd() == old(self).client.wd(),
                self.client.connected() == old(self).client.connected(),
                log_extends(old(self).log_records@, self.log_records@),
                (forall|j: int| 0 <= j < i ==> entries@[j] is File) ==> total == (
                if sum_file_sizes(entries@.subrange(0, i as int)) <= u64::MAX {
                    sum_file_sizes(entries@.subrange(0, i as int))
                } else {
                    u64::MAX as int
                }),
                (forall|j: int|
                    0 <= j < entries@.len() ==> crate::fs::entry_matches(
                        old(self).client.fs(),
                        #[trigger] entries@[j],
                    )) ==> total <= clamp64(
                    entries_total(old(self).client.fs(), entries@, i as int, MAX_WALK_DEPTH as nat),
                ),
                (forall|j: int|
                    0 <= j < entries@.len() ==> crate::fs::entry_matches(
                        old(self).client.fs(),
                        #[trigger] entries@[j],
                    )) && !walk_failure_logged(
                    old(self).log_records@.len() as int,
                    self.log_records@,
                ) ==> total == clamp64(
                    entries_total(old(self).client.fs(), entries@, i as int, MAX_WALK_DEPTH as nat),
                ),
            decreases entries@.len() - i,
        {
            let ghost pre_log = self.log_records@;
            let s = self.get_total_transfer_size_remote(&entries[i], MAX_WALK_DEPTH);
            proof {
                let pre_len = old(self).log_records@.len() as int;
                if walk_failure_logged(pre_len, pre_log) {
                    let i2 = choose|i2: int|
                        pre_len <= i2 < pre_log.len() && is_walk_failure_event(
                            #[trigger] pre_log[i2].event,
                        );
                    assert(self.log_records@[i2] == pre_log[i2]);
                }
                assert(entries@.subrange(0, i + 1 as int).drop_last() =~= entries@.subrange(
                    0,
                    i as int,
                ));
                assert(entries@.subrange(0, i + 1 as int).last() == entries@[i as int]);
                let m = old(self).client.fs();
                let d = MAX_WALK_DEPTH as nat;
                lemma_entries_total_nonneg(m, entries@, i as int, d);
                lemma_subtree_total_nonneg(m, entries@[i as int].path_view(), d);
                assert(entries_total(m, entries@, i + 1 as int, d) == entries_total(
                    m,
                    entries@,
                    i as int,
                    d,
                ) + subtree_total(m, entries@[i as int].path_view(), d));
            }
            total = if s > u64::MAX - total {
                u64::MAX
            } else {
                total + s
            };
            i = i + 1;
        }
        proof {
            assert(entries@.subrange(0, entries@.len() as int) =~= entries@);
        }
        let now = self.ui.now_millis();
        self.transfer.full.init(total, now);
        self.ui.draw_progress(0, 0);
        let ghost mut chain: Seq<crate::fs::FsModel> = seq![old(self).host.fs()];
        let mut k: usize = 0;
        while k < entries.len() && !self.transfer.aborted
            invariant
                k <= entries@.len(),
                self.wf(),
                self.chunk_size == old(self).chunk_size,
                self.client.fs() == old(self).client.fs(),
                self.client.wd() == old(self).client.wd(),
                self.client.connected() == old(self).client.connected(),
                self.host.wd() == old(self).host.wd(),
                changes_confined_to(old(self).host.fs(), self.host.fs(), local_path@),
                chain.len() == k + 1,
                chain[0] == old(self).host.fs(),
                chain[k as int] == self.host.fs(),
                forall|j: int|
                    0 <= j < k ==> changes_confined_to(
                        chain[j],
                        chain[j + 1],
                        local_path@.push(#[trigger] entries@[j].name_view()),
                    ),
                ((forall|k1: int, k2: int|
                    0 <= k1 < k2 < entries@.len() ==> entries@[k1].name_view() != entries@[
                        k2
                    ].name_view()) && !walk_failure_logged(
                    old(self).log_records@.len() as int,
                    self.log_records@,
                ) && !self.transfer.aborted) ==> forall|j: int|
                    0 <= j < k ==> child_delivered(
                        old(self).client.fs(),
                        self.host.fs(),
                        local_path@,
                        #[trigger] entries@[j],
                        MAX_WALK_DEPTH as nat,
                    ),
                log_extends(old(self).log_records@, self.log_records@),
                self.transfer.full.total == total,
                (forall|j: int|
                    0 <= j < entries@.len() ==> crate::fs::entry_matches(
                        old(self).client.fs(),
                        #[trigger] entries@[j],
                    )) ==> (total == clamp64(
                    entries_total(
                        old(self).client.fs(),
                        entries@,
                        entries@.len() as int,
                        MAX_WALK_DEPTH as nat,
                    ),
                ) || walk_failure_logged(
                    old(self).log_records@.len() as int,
                    self.log_records@,
                )),
            decreases entries@.len() - k,
        {
            let entry = &entries[k];
            let ghost h_pre = self.host.fs();
            let ghost pre_log = self.log_records@;
            self.filetransfer_recv_recurse(entry, local_path, None, MAX_WALK_DEPTH);
            proof {
                let cdest = local_path@.push(chosen_name(None, entries@[k as int]));
                assert(starts_with(cdest, local_path@)) by {
                    assert(cdest.subrange(0, local_path@.len() as int) =~= local_path@);
                }
                lemma_confined_compose(
                    old(self).host.fs(),
                    h_pre,
                    self.host.fs(),
                    local_path@,
                    cdest,
                );
                chain = chain.push(self.host.fs());
                assert(chosen_name(None, entries@[k as int]) == entries@[k as int].name_view());
                let pre_len = old(self).log_records@.len() as int;
                let mm = old(self).client.fs();
                if walk_failure_logged(pre_len, pre_log) {
                    let i = choose|i: int|
                        pre_len <= i < pre_log.len() && is_walk_failure_event(
                            #[trigger] pre_log[i].event,
                        );
                    assert(self.log_records@[i] == pre_log[i]);
                }
                if (forall|k1: int, k2: int|
                    0 <= k1 < k2 < entries@.len() ==> entries@[k1].name_view() != entries@[
                        k2
                    ].name_view()) && !walk_failure_logged(pre_len, self.log_records@)
                    && !self.transfer.aborted {
                    assert(child_delivered(
                        mm,
                        self.host.fs(),
                        local_path@,
                        entries@[k as int],
                        MAX_WALK_DEPTH as nat,
                    ));
                    assert forall|j: int| 0 <= j < k implies child_delivered(
                        mm,
                        self.host.fs(),
                        local_path@,
                        #[trigger] entries@[j],
                        MAX_WALK_DEPTH as nat,
                    ) by {
                        assert(child_delivered(
                            mm,
                            h_pre,
                            local_path@,
                            entries@[j],
                            MAX_WALK_DEPTH as nat,
                        ));
                        lemma_delivered_preserved(
                            mm,
                            h_pre,
                            self.host.fs(),
                            local_path@,
                            entries@[j],
                            entries@[k as int].name_view(),
                            MAX_WALK_DEPTH as nat,
                        );
                    }
                }
            }
            k = k + 1;
        }
        proof {
            let n = entries@.len() as int;
            let fin = self.host.fs();
            let ms = Seq::new((n + 1) as nat, |j: int| if j <= k as int { chain[j] } else { fin });
            assert(ms[0] == old(self).host.fs());
            assert(ms[n] == fin);
            assert forall|j: int| 0 <= j < n implies changes_confined_to(
                ms[j],
                ms[j + 1],
                local_path@.push(#[trigger] entries@[j].name_view()),
            ) by {
                if j < k as int {
                    assert(ms[j] == chain[j] && ms[j + 1] == chain[j + 1]);
                } else {
                    assert(ms[j] == fin && ms[j + 1] == fin);
                }
            }
            assert(ms.len() == entries@.len() + 1);
            assert(forall|j: int|
                0 <= j < entries@.len() ==> changes_confined_to(
                    ms[j],
                    ms[j + 1],
                    local_path@.push(#[trigger] entries@[j].name_view()),
                ));
            assert(batch_stepwise_confined(
                old(self).host.fs(),
                self.host.fs(),
                local_path@,
                entries@,
            ));
        }
        Ok(())
    }

    /// Receive a payload from the remote side. An explicit destination name
    /// applies only to a single-entry payload's top-level entry.
    pub fn filetransfer_recv(
        &mut self,
        payload: TransferPayload,
        local_path: &FsPath,
        dst_name: Option<String>,
    ) -> (r: Result<(), String>)
        requires
            old(self).wf(),
        ensures
            final(self).wf(),
            Self::evolves_invocation(*old(self), *final(self)),
            final(self).client.fs() == old(self).client.fs(),
            final(self).client.wd() == old(self).client.wd(),
            final(self).client.connected() == old(self).client.connected(),
            final(self).host.wd() == old(self).host.wd(),
            payload matches TransferPayload::File(f) ==> final(self).transfer.full.total == f.size,
            payload matches TransferPayload::Any(e) ==> (e matches FsEntry::File(f) ==> final(self).transfer.full.total == f.size),
            payload matches TransferPayload::Many(es) ==> ((forall|i: int|
                0 <= i < es@.len() ==> es@[i] is File) && sum_file_sizes(es@) <= u64::MAX ==> final(self).transfer.full.total == sum_file_sizes(es@)),
            payload matches TransferPayload::File(f) ==> same_outside_subtree(
                old(self).host.fs(),
                final(self).host.fs(),
                local_path@,
            ),
            payload matches TransferPayload::Any(e) ==> changes_confined_to(
                old(self).host.fs(),
                final(self).host.fs(),
                local_path@.push(chosen_name(dst_name, e)),
            ),
            payload matches TransferPayload::Any(e) ==> (e matches FsEntry::Directory(d) ==> ((
            !final(self).transfer.aborted && !walk_failure_logged(
                old(self).log_records@.len() as int,
                final(self).log_records@,
            )) ==> subtree_mirrored(
                old(self).client.fs(),
                d.path@,
                final(self).host.fs(),
                local_path@.push(chosen_name(dst_name, e)),
                MAX_WALK_DEPTH as nat,
            ))),
            payload matches TransferPayload::Many(es) ==> (((forall|k1: int, k2: int|
                0 <= k1 < k2 < es@.len() ==> es@[k1].name_view() != es@[k2].name_view()) && !final(self).transfer.aborted && !walk_failure_logged(
                old(self).log_records@.len() as int,
                final(self).log_records@,
            )) ==> forall|k: int|
                0 <= k < es@.len() ==> child_delivered(
                    old(self).client.fs(),
                    final(self).host.fs(),
                    local_path@,
                    #[trigger] es@[k],
                    MAX_WALK_DEPTH as nat,
                )),
            payload matches TransferPayload::Many(es) ==> changes_confined_to(
                old(self).host.fs(),
                final(self).host.fs(),
                local_path@,
            ) && batch_stepwise_confined(
                old(self).host.fs(),
                final(self).host.fs(),
                local_path@,
                es@,
            ),
            payload matches TransferPayload::File(f) ==> (r is Err ==> !final(self).host.fs().dom().contains(local_path@) || cleanup_failure_logged(
                old(self).log_records@.len() as int,
                final(self).log_records@,
            ) || download_failure_without_cleanup_logged(
                old(self).log_records@.len() as int,
                final(self).log_records@,
            )),
    {
        match payload {
            TransferPayload::Any(entry) => self.filetransfer_recv_any(&entry, local_path, dst_name),
            TransferPayload::File(file) => self.filetransfer_recv_file(&file, local_path),
            TransferPayload::Many(entries) => self.filetransfer_recv_many(entries, local_path),
        }
    }

    /// Download one remote file into the cache directory under its own name
    /// and return the temporary path; fails when no cache is available.
    pub fn download_file_as_temp(&mut self, file: &FsFile) -> (r: Result<FsPath, String>)
        requires
            old(self).wf(),
        ensures
            final(self).wf(),
            Self::evolves_invocation(*old(self), *final(self)),
            final(self).client.fs() == old(self).client.fs(),
            final(self).client.wd() == old(self).client.wd(),
            old(self).cache is None ==> r is Err && *final(self) == *old(self),
            r matches Ok(p) ==> old(self).cache matches Some(c) && p@ == c@.push(file.name@),
    {
        let tmpfile: FsPath = match self.cache.as_ref() {
            Some(cache) => cache.join(&file.name),
            None => {
                return Err(
                    String::from_str("Could not create tempfile: cache not available"),
                );
            },
        };
        let file_copy = file.clone_file();
        match self.filetransfer_recv(
            TransferPayload::File(file_copy),
            &tmpfile,
            Some(file.name.clone()),
        ) {
            Err(err) => {
                let mut msg = String::from_str("Could not download to temporary file: ");
                msg.append(err.as_str());
                Err(msg)
            },
            Ok(()) => Ok(tmpfile),
        }
    }

    /// Change the remote working directory, reloading the listing and, when
    /// asked, remembering where we came from.
    pub fn remote_changedir(&mut self, path: &FsPath, push: bool)
        requires
            old(self).wf(),
        ensures
            final(self).wf(),
            Self::evolves(*old(self), *final(self)),
            final(self).host.fs() == old(self).host.fs(),
            final(self).host.wd() == old(self).host.wd(),
            final(self).client.fs() == old(self).client.fs(),
            final(self).client.connected() == old(self).client.connected(),
            final(self).exit_reason == old(self).exit_reason,
            final(self).fatal == old(self).fatal,
            final(self).transfer == old(self).transfer,
            final(self).local == old(self).local,
            final(self).client.wd() == path@ || final(self).client.wd() == old(self).client.wd(),
            (  // the endpoint accepted the change: the browser follows it
            final(self).client.wd() == path@ && ((final(self).remote.wrkdir@ == path@ && dir_at(
                old(self).client.fs(),
                path@,
            ) && scan_lists_children(old(self).client.fs(), path@, final(self).remote.files@))
                || listing_failure_logged(
                old(self).log_records@.len() as int,
                final(self).log_records@,
            )) && (push ==> final(self).remote.dirstack@.len() == old(self).remote.dirstack@.len() + 1 && final(self).remote.dirstack@.last()@ == old(self).remote.wrkdir@) && (!push ==> final(self).remote.dirstack == old(self).remote.dirstack)) || (  // the endpoint refused: state kept, failure alerted
            final(self).client.wd() == old(self).client.wd() && final(self).remote == old(self).remote && final(self).log_records@.len() == old(self).log_records@.len() + 1
                && final(self).log_records@.last().event is ChangeDirFailed && (final(self).alert matches Some(i) && i == old(self).log_records@.len())),
    {
        let prev_dir = self.remote.wrkdir.clone_path();
        match self.client.change_wrkdir(path) {
            Ok(()) => {
                self.log(LogLevel::Info, LogEvent::ChangedDir { path: path.clone_path() });
                self.reload_remote_dir();
                if push {
                    self.remote.pushd(prev_dir);
                }
            },
            Err(err) => {
                self.log_and_alert(
                    LogLevel::Error,
                    LogEvent::ChangeDirFailed { path: path.clone_path(), error: err },
                );
            },
        }
    }
}

} // verus!
