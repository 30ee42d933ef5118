//! Capability contracts for filesystem providers (local disk or a remote
//! protocol endpoint) and for the user-interaction surface polled during a
//! transfer. The engine is written once against these traits.

use vstd::prelude::*;

use crate::error::{FsError, FsErrorKind};
use crate::fs::{
    dir_at, entry_matches, file_at, grows_dirs_toward, same_except, same_outside_subtree,
    scan_lists_children, starts_with, FsEntry, FsModel, FsNode, FsPath,
};

verus! {

/// A filesystem provider. `fs()` is the model of its tree, `wd()` its working
/// directory. Operations may always fail (a provider is free to report any
/// error); the contracts pin down what each outcome means for the model.
pub trait Provider: Sized {
    /// The model of the provider's tree: each existing absolute path maps to
    /// its node. The default stands for an implementation about whose tree
    /// nothing is claimed.
    open spec fn fs(&self) -> FsModel {
        Map::empty()
    }

    /// The current working directory.
    open spec fn wd(&self) -> Seq<Seq<char>> {
        Seq::empty()
    }

    /// Whether a session is established.
    open spec fn connected(&self) -> bool {
        false
    }

    /// The provider's internal well-formedness; established by its
    /// constructor and preserved by every operation.
    open spec fn inv(&self) -> bool {
        false
    }

    /// Establish the session; on success an optional welcome banner is
    /// returned. The tree and working directory become whatever the endpoint
    /// reports.
    fn connect(
        &mut self,
        address: &String,
        port: u16,
        username: &String,
        password: &Option<String>,
    ) -> (r: Result<Option<String>, FsError>)
        requires
            old(self).inv(),
        ensures
            final(self).inv(),
            r is Ok ==> final(self).connected(),
    ;

    /// Tear the session down.
    fn disconnect(&mut self) -> (r: Result<(), FsError>)
        requires
            old(self).inv(),
        ensures
            final(self).inv(),
            final(self).fs() == old(self).fs(),
            r is Ok ==> !final(self).connected(),
    ;

    /// The current working directory.
    fn pwd(&mut self) -> (r: Result<FsPath, FsError>)
        requires
            old(self).inv(),
        ensures
            final(self).inv(),
            final(self).connected() == old(self).connected(),
            final(self).fs() == old(self).fs(),
            final(self).wd() == old(self).wd(),
            r matches Ok(p) ==> p@ == old(self).wd(),
    ;

    /// Change the working directory.
    fn change_wrkdir(&mut self, path: &FsPath) -> (r: Result<(), FsError>)
        requires
            old(self).inv(),
        ensures
            final(self).inv(),
            final(self).connected() == old(self).connected(),
            final(self).fs() == old(self).fs(),
            r is Ok ==> final(self).wd() == path@,
            r is Err ==> final(self).wd() == old(self).wd(),
    ;

    /// List the immediate children of the directory at `path`.
    fn scan_dir(&mut self, path: &FsPath) -> (r: Result<Vec<FsEntry>, FsError>)
        requires
            old(self).inv(),
        ensures
            final(self).inv(),
            final(self).connected() == old(self).connected(),
            final(self).fs() == old(self).fs(),
            final(self).wd() == old(self).wd(),
            r matches Ok(v) ==> dir_at(old(self).fs(), path@) && scan_lists_children(
                old(self).fs(),
                path@,
                v@,
            ),
    ;

    /// Describe the entry at `path`.
    fn stat(&mut self, path: &FsPath) -> (r: Result<FsEntry, FsError>)
        requires
            old(self).inv(),
        ensures
            final(self).inv(),
            final(self).connected() == old(self).connected(),
            final(self).fs() == old(self).fs(),
            final(self).wd() == old(self).wd(),
            r matches Ok(e) ==> e.path_view() == path@ && entry_matches(old(self).fs(), e),
    ;

    /// Create the directory at `path`; with `recursive`, also create the
    /// missing ancestors. "Already exists" is reported as a distinguishable
    /// error kind and leaves the tree unchanged.
    fn mkdir(&mut self, path: &FsPath, recursive: bool) -> (r: Result<(), FsError>)
        requires
            old(self).inv(),
        ensures
            final(self).inv(),
            final(self).connected() == old(self).connected(),
            final(self).wd() == old(self).wd(),
            r is Ok ==> dir_at(final(self).fs(), path@),
            r is Ok && !recursive ==> final(self).fs() == old(self).fs().insert(
                path@,
                FsNode::Dir,
            ),
            r is Ok && recursive ==> grows_dirs_toward(old(self).fs(), final(self).fs(), path@),
            r is Err ==> final(self).fs() == old(self).fs(),
            r matches Err(e) && e.kind == FsErrorKind::AlreadyExists ==> old(
                self,
            ).fs().dom().contains(path@),
    ;

    /// Remove the entry at `path`, together with its whole subtree if it is
    /// a directory.
    fn remove(&mut self, path: &FsPath) -> (r: Result<(), FsError>)
        requires
            old(self).inv(),
        ensures
            final(self).inv(),
            final(self).connected() == old(self).connected(),
            final(self).wd() == old(self).wd(),
            r is Ok ==> same_outside_subtree(old(self).fs(), final(self).fs(), path@),
            r is Ok ==> forall|q: Seq<Seq<char>>|
                starts_with(q, path@) ==> !(#[trigger] final(self).fs().dom().contains(q)),
            r is Err ==> final(self).fs() == old(self).fs(),
    ;

    /// Open the file at `path` for reading and report its size in bytes.
    fn open_read(&mut self, path: &FsPath) -> (r: Result<u64, FsError>)
        requires
            old(self).inv(),
        ensures
            final(self).inv(),
            final(self).connected() == old(self).connected(),
            final(self).fs() == old(self).fs(),
            final(self).wd() == old(self).wd(),
            r matches Ok(sz) ==> file_at(old(self).fs(), path@) == Some(sz as nat),
    ;

    /// Rewind the read stream for `path` to its start.
    fn rewind(&mut self, path: &FsPath) -> (r: Result<(), FsError>)
        requires
            old(self).inv(),
        ensures
            final(self).inv(),
            final(self).connected() == old(self).connected(),
            final(self).fs() == old(self).fs(),
            final(self).wd() == old(self).wd(),
    ;

    /// Read a chunk of up to `max` bytes (at least one) from the file at
    /// `path`, starting at `offset`.
    fn read_chunk(&mut self, path: &FsPath, offset: u64, max: u64) -> (r: Result<Vec<u8>, FsError>)
        requires
            old(self).inv(),
            max >= 1,
            file_at(old(self).fs(), path@) matches Some(len) && offset < len,
        ensures
            final(self).fs() == old(self).fs(),
            final(self).wd() == old(self).wd(),
            r matches Ok(b) ==> 1 <= b@.len() <= max && (file_at(old(self).fs(), path@)
                matches Some(len) && offset + b@.len() <= len),
            final(self).inv(),
            final(self).connected() == old(self).connected(),
    ;

    /// Create (or truncate) the file at `path` for writing. A failed open
    /// writes nothing: the tree is unchanged.
    fn open_write(&mut self, path: &FsPath) -> (r: Result<(), FsError>)
        requires
            old(self).inv(),
        ensures
            final(self).inv(),
            final(self).connected() == old(self).connected(),
            final(self).wd() == old(self).wd(),
            r is Ok ==> final(self).fs() == old(self).fs().insert(path@, FsNode::File { len: 0 }),
            r is Err ==> final(self).fs() == old(self).fs(),
    ;

    /// Append the bytes of `data` to the open file at `path`.
    fn write_chunk(&mut self, path: &FsPath, data: &Vec<u8>) -> (r: Result<(), FsError>)
        requires
            old(self).inv(),
            file_at(old(self).fs(), path@) matches Some(len) && len + data@.len() <= u64::MAX,
        ensures
            final(self).wd() == old(self).wd(),
            r is Ok ==> (file_at(old(self).fs(), path@) matches Some(len) && final(self).fs()
                == old(self).fs().insert(
                path@,
                FsNode::File { len: (len + data@.len()) as nat },
            )),
            r is Err ==> same_except(old(self).fs(), final(self).fs(), path@),
            final(self).inv(),
            final(self).connected() == old(self).connected(),
    ;

    /// Finalize a stream for `path` (an explicit close/commit step for
    /// protocols that need one).
    fn finalize(&mut self, path: &FsPath) -> (r: Result<(), FsError>)
        requires
            old(self).inv(),
        ensures
            final(self).inv(),
            final(self).connected() == old(self).connected(),
            final(self).fs() == old(self).fs(),
            final(self).wd() == old(self).wd(),
    ;

    /// Apply a Unix permission triple to the entry at `path`. Does not
    /// change what exists or any file length.
    fn chmod(&mut self, path: &FsPath, pex: (u8, u8, u8)) -> (r: Result<(), FsError>)
        requires
            old(self).inv(),
        ensures
            final(self).inv(),
            final(self).connected() == old(self).connected(),
            final(self).fs() == old(self).fs(),
            final(self).wd() == old(self).wd(),
    ;
}

/// The user-interaction surface the copy loop yields to: input polling (which
/// may request cancellation), a millisecond clock, and progress redraws.
/// Nothing is promised of any outcome.
pub trait UserIo: Sized {
    /// Handle pending input events; returns whether the user requested
    /// cancellation of the running transfer.
    fn read_input_event(&mut self) -> bool;

    /// A wall-clock timestamp in milliseconds.
    fn now_millis(&mut self) -> u64;

    /// Redraw the progress indication.
    fn draw_progress(&mut self, full_percent: u64, partial_percent: u64);
}

} // verus!
