//! Error types for providers and for the transfer engine, and the cleanup
//! policy that decides when a partially written destination must be removed.

use vstd::prelude::*;
use vstd::string::StringExecFns;

verus! {

/// A machine-checkable classification of a provider failure.
#[derive(Clone, Copy, PartialEq, Eq, Structural, Debug)]
pub enum FsErrorKind {
    /// The directory to create already exists (explicitly not fatal).
    AlreadyExists,
    /// The named entry does not exist.
    NotFound,
    /// Generic I/O failure.
    Io,
    /// The operation was denied.
    PermissionDenied,
    /// Any other provider failure.
    Generic,
}

/// A provider failure: a machine-checkable kind plus a human-readable message.
#[derive(Debug)]
pub struct FsError {
    pub kind: FsErrorKind,
    pub msg: String,
}

impl FsError {
    pub fn new(kind: FsErrorKind, msg: String) -> (r: FsError)
        ensures
            r.kind == kind,
            r.msg@ == msg@,
    {
        FsError { kind, msg }
    }

    pub fn kind(&self) -> (r: FsErrorKind)
        ensures
            r == self.kind,
    {
        self.kind
    }
}

/// Why a chunked copy failed; carries enough context to decide the cleanup
/// policy without inspecting provider internals.
pub enum TransferErrorReason {
    /// Cancellation was observed mid-copy.
    Abrupted,
    /// The source stream could not be rewound before the copy started.
    CouldNotRewind(FsError),
    /// I/O failure on the local side.
    LocalIoError(FsError),
    /// The local provider failed to open the file.
    HostError(FsError),
    /// I/O failure on the remote side.
    RemoteIoError(FsError),
    /// The remote provider failed at the protocol level.
    ProtocolError(FsError),
}

impl TransferErrorReason {
    /// The cleanup policy for the send path: remove the partial remote file
    /// exactly when the copy was cancelled or the remote write failed.
    pub open spec fn requires_remote_cleanup(self) -> bool {
        self is Abrupted || self is RemoteIoError
    }

    /// The cleanup policy for the receive path: remove the partial local file
    /// exactly when the copy was cancelled or the local write failed.
    pub open spec fn requires_local_cleanup(self) -> bool {
        self is Abrupted || self is LocalIoError
    }

    pub fn needs_remote_cleanup(&self) -> (r: bool)
        ensures
            r == self.requires_remote_cleanup(),
    {
        match self {
            TransferErrorReason::Abrupted => true,
            TransferErrorReason::RemoteIoError(_) => true,
            _ => false,
        }
    }

    /// A human-readable description of the failure.
    pub fn to_message(&self) -> (r: String)
        ensures
            r@ == (match self {
                TransferErrorReason::Abrupted => "File transfer aborted"@,
                TransferErrorReason::CouldNotRewind(e) => "Failed to seek file: "@ + e.msg@,
                TransferErrorReason::LocalIoError(e) => "I/O error on localhost: "@ + e.msg@,
                TransferErrorReason::HostError(e) => "Host error: "@ + e.msg@,
                TransferErrorReason::RemoteIoError(e) => "I/O error on remote: "@ + e.msg@,
                TransferErrorReason::ProtocolError(e) => "File transfer error: "@ + e.msg@,
            }),
    {
        match self {
            TransferErrorReason::Abrupted => String::from_str("File transfer aborted"),
            TransferErrorReason::CouldNotRewind(e) => {
                let mut m = String::from_str("Failed to seek file: ");
                m.append(e.msg.as_str());
                m
            },
            TransferErrorReason::LocalIoError(e) => {
                let mut m = String::from_str("I/O error on localhost: ");
                m.append(e.msg.as_str());
                m
            },
            TransferErrorReason::HostError(e) => {
                let mut m = String::from_str("Host error: ");
                m.append(e.msg.as_str());
                m
            },
            TransferErrorReason::RemoteIoError(e) => {
                let mut m = String::from_str("I/O error on remote: ");
                m.append(e.msg.as_str());
                m
            },
            TransferErrorReason::ProtocolError(e) => {
                let mut m = String::from_str("File transfer error: ");
                m.append(e.msg.as_str());
                m
            },
        }
    }

    pub fn needs_local_cleanup(&self) -> (r: bool)
        ensures
            r == self.requires_local_cleanup(),
    {
        match self {
            TransferErrorReason::Abrupted => true,
            TransferErrorReason::LocalIoError(_) => true,
            _ => false,
        }
    }
}

} // verus!
