//! A verified in-memory filesystem provider: the reference implementation of
//! the `Provider` capability contract, used to exercise the transfer engine
//! against a tree whose model is fully known.

use vstd::pervasive::VecAdditionalExecFns;
use vstd::prelude::*;
use vstd::string::StringExecFns;

use crate::error::{FsError, FsErrorKind};
use crate::fs::{
    dir_at, entry_matches, file_at, grows_dirs_toward, is_child, starts_with, FsDirectory, FsEntry,
    FsFile, FsModel, FsNode, FsPath,
};
use crate::provider::Provider;

verus! {

/// One stored node: a file remembers its length and an optional permission
/// triple; a directory is just present.
#[derive(Clone, Copy)]
pub enum MemNode {
    File { len: u64, pex: Option<(u8, u8, u8)> },
    Dir,
}

impl MemNode {
    pub open spec fn model(self) -> FsNode {
        match self {
            MemNode::File { len, pex } => FsNode::File { len: len as nat },
            MemNode::Dir => FsNode::Dir,
        }
    }
}

/// One slot of the flat store: an absolute path and its node.
pub struct MemEntry {
    pub path: FsPath,
    pub node: MemNode,
}

/// The model of a flat store: later slots would win, but the store keeps
/// paths distinct so each slot is authoritative.
pub open spec fn list_model(s: Seq<MemEntry>) -> FsModel
    decreases s.len(),
{
    if s.len() == 0 {
        Map::empty()
    } else {
        list_model(s.drop_last()).insert(s.last().path@, s.last().node.model())
    }
}

pub open spec fn distinct_paths(s: Seq<MemEntry>) -> bool {
    forall|i: int, j: int| 0 <= i < j < s.len() ==> s[i].path@ != s[j].path@
}

/// A path is in the model exactly when some slot carries it.
pub proof fn lemma_list_model_contains(s: Seq<MemEntry>, p: Seq<Seq<char>>)
    ensures
        list_model(s).dom().contains(p) <==> exists|i: int| 0 <= i < s.len() && s[i].path@ == p,
    decreases s.len(),
{
    if s.len() > 0 {
        lemma_list_model_contains(s.drop_last(), p);
        if s.last().path@ == p {
            assert(s[s.len() - 1].path@ == p);
        } else {
            if list_model(s).dom().contains(p) {
                let i = choose|i: int| 0 <= i < s.drop_last().len() && s.drop_last()[i].path@ == p;
                assert(s[i].path@ == p);
            }
            if exists|i: int| 0 <= i < s.len() && s[i].path@ == p {
                let i = choose|i: int| 0 <= i < s.len() && s[i].path@ == p;
                assert(i < s.len() - 1);
                assert(s.drop_last()[i].path@ == p);
            }
        }
    }
}

/// With distinct paths, each slot's node is the model's value at its path.
pub proof fn lemma_list_model_index(s: Seq<MemEntry>, i: int)
    requires
        distinct_paths(s),
        0 <= i < s.len(),
    ensures
        list_model(s).dom().contains(s[i].path@),
        list_model(s)[s[i].path@] == s[i].node.model(),
    decreases s.len(),
{
    if i == s.len() - 1 {
    } else {
        assert(distinct_paths(s.drop_last())) by {
            assert(forall|a: int, b: int|
                0 <= a < b < s.drop_last().len() ==> s.drop_last()[a] == s[a]
                    && s.drop_last()[b] == s[b]);
        }
        assert(s.drop_last()[i] == s[i]);
        lemma_list_model_index(s.drop_last(), i);
        assert(s[i].path@ != s.last().path@);
    }
}

/// Replacing the slot at `i` by one with the same path updates the model at
/// that path only.
pub proof fn lemma_list_model_update(s: Seq<MemEntry>, i: int, e: MemEntry)
    requires
        distinct_paths(s),
        0 <= i < s.len(),
        e.path@ == s[i].path@,
    ensures
        list_model(s.update(i, e)) =~= list_model(s).insert(e.path@, e.node.model()),
        distinct_paths(s.update(i, e)),
    decreases s.len(),
{
    let t = s.update(i, e);
    assert(distinct_paths(t)) by {
        assert(forall|a: int| 0 <= a < t.len() ==> t[a].path@ == s[a].path@);
    }
    if i == s.len() - 1 {
        assert(t.drop_last() =~= s.drop_last());
        assert(t.last() == e);
    } else {
        assert(distinct_paths(s.drop_last())) by {
            assert(forall|a: int, b: int|
                0 <= a < b < s.drop_last().len() ==> s.drop_last()[a] == s[a]
                    && s.drop_last()[b] == s[b]);
        }
        assert(s.drop_last()[i] == s[i]);
        lemma_list_model_update(s.drop_last(), i, e);
        assert(t.drop_last() =~= s.drop_last().update(i, e));
        assert(t.last() == s.last());
        assert(s.last().path@ != e.path@);
    }
}

/// Appending a slot with a fresh path inserts into the model.
pub proof fn lemma_list_model_push(s: Seq<MemEntry>, e: MemEntry)
    ensures
        list_model(s.push(e)) =~= list_model(s).insert(e.path@, e.node.model()),
    decreases s.len(),
{
    assert(s.push(e).drop_last() =~= s);
    assert(s.push(e).last() == e);
}

/// An in-memory provider over a flat store of path-addressed slots. Scans and
/// writes can be made to fail on selected paths, to exercise the engine's
/// error handling.
pub struct MemProvider {
    entries: Vec<MemEntry>,
    wrkdir: FsPath,
    is_connected: bool,
    deny_scan: Vec<FsPath>,
    fail_write: Vec<FsPath>,
    fail_chunk: Vec<FsPath>,
}

fn list_has_path(list: &Vec<FsPath>, path: &FsPath) -> (r: bool) {
    let mut i: usize = 0;
    while i < list.len()
        decreases list.len() - i,
    {
        if list[i].eq_path(path) {
            return true;
        }
        i = i + 1;
    }
    false
}

impl MemProvider {
    /// An empty tree: just the root directory, disconnected, at the root
    /// working directory.
    pub fn new() -> (r: MemProvider)
        ensures
            r.inv(),
            r.fs() =~= Map::<Seq<Seq<char>>, FsNode>::empty().insert(
                Seq::<Seq<char>>::empty(),
                FsNode::Dir,
            ),
            dir_at(r.fs(), Seq::<Seq<char>>::empty()),
            r.wd() == Seq::<Seq<char>>::empty(),
            !r.connected(),
    {
        let mut entries: Vec<MemEntry> = Vec::new();
        entries.push(MemEntry { path: FsPath::root(), node: MemNode::Dir });
        let r = MemProvider {
            entries,
            wrkdir: FsPath::root(),
            is_connected: false,
            deny_scan: Vec::new(),
            fail_write: Vec::new(),
            fail_chunk: Vec::new(),
        };
        proof {
            let s = r.entries@;
            assert(s.drop_last() =~= Seq::<MemEntry>::empty());
            assert(list_model(s.drop_last()) == Map::<Seq<Seq<char>>, FsNode>::empty());
            assert(r.fs() =~= Map::<Seq<Seq<char>>, FsNode>::empty().insert(
                Seq::<Seq<char>>::empty(),
                FsNode::Dir,
            ));
        }
        r
    }

    /// Make every later scan of `path` fail, as a permission error would.
    pub fn deny_scan_on(&mut self, path: &FsPath)
        requires
            old(self).inv(),
        ensures
            final(self).inv(),
            final(self).fs() == old(self).fs(),
            final(self).wd() == old(self).wd(),
    {
        let p = path.clone_path();
        self.deny_scan.push(p);
    }

    /// Make every later write stream on `path` fail, as an I/O error would.
    pub fn fail_writes_on(&mut self, path: &FsPath)
        requires
            old(self).inv(),
        ensures
            final(self).inv(),
            final(self).fs() == old(self).fs(),
            final(self).wd() == old(self).wd(),
    {
        let p = path.clone_path();
        self.fail_write.push(p);
    }

    /// Make every later chunk append on `path` fail, as an I/O error midway
    /// through a copy would: the stream still opens.
    pub fn fail_chunks_on(&mut self, path: &FsPath)
        requires
            old(self).inv(),
        ensures
            final(self).inv(),
            final(self).fs() == old(self).fs(),
            final(self).wd() == old(self).wd(),
    {
        let p = path.clone_path();
        self.fail_chunk.push(p);
    }

    /// The slot index carrying `path`, if any.
    fn find(&self, path: &FsPath) -> (r: Option<usize>)
        requires
            self.inv(),
        ensures
            match r {
                Some(i) => i < self.entries@.len() && self.entries@[i as int].path@ == path@
                    && self.fs().dom().contains(path@) && self.fs()[path@]
                    == self.entries@[i as int].node.model(),
                None => !self.fs().dom().contains(path@),
            },
    {
        let mut i: usize = 0;
        while i < self.entries.len()
            invariant
                self.inv(),
                i <= self.entries@.len(),
                forall|j: int| 0 <= j < i ==> self.entries@[j].path@ != path@,
            decreases self.entries@.len() - i,
        {
            if self.entries[i].path.eq_path(path) {
                proof {
                    lemma_list_model_index(self.entries@, i as int);
                }
                return Some(i);
            }
            i = i + 1;
        }
        proof {
            lemma_list_model_contains(self.entries@, path@);
        }
        None
    }

    /// Whether a file of exactly `size` bytes stands at `path`.
    pub fn contains_file_of_size(&self, path: &FsPath, size: u64) -> (r: bool)
        requires
            self.inv(),
        ensures
            r == (file_at(self.fs(), path@) == Some(size as nat)),
    {
        match self.find(path) {
            Some(i) => match self.entries[i].node {
                MemNode::File { len, pex } => len == size,
                MemNode::Dir => false,
            },
            None => false,
        }
    }

    /// Whether a directory stands at `path`.
    pub fn contains_dir(&self, path: &FsPath) -> (r: bool)
        requires
            self.inv(),
        ensures
            r == dir_at(self.fs(), path@),
    {
        match self.find(path) {
            Some(i) => match self.entries[i].node {
                MemNode::File { .. } => false,
                MemNode::Dir => true,
            },
            None => false,
        }
    }

    /// The permission triple stored for the file at `path`, when one has
    /// been applied. The tree model tracks existence and length only, so
    /// this is an observation point for exercising `chmod`, not part of any
    /// model-level contract.
    pub fn file_pex(&self, path: &FsPath) -> (r: Option<(u8, u8, u8)>)
        requires
            self.inv(),
        ensures
            r is Some ==> file_at(self.fs(), path@) is Some,
    {
        match self.find(path) {
            Some(i) => match self.entries[i].node {
                MemNode::File { len, pex } => pex,
                MemNode::Dir => None,
            },
            None => None,
        }
    }

    /// Whether anything at all stands at `path`.
    pub fn exists_node(&self, path: &FsPath) -> (r: bool)
        requires
            self.inv(),
        ensures
            r == self.fs().dom().contains(path@),
    {
        match self.find(path) {
            Some(_) => true,
            None => false,
        }
    }

    /// Build a fixture file of `size` bytes at `path` (the parent directory
    /// must already exist).
    pub fn put_file(&mut self, path: &FsPath, size: u64) -> (r: bool)
        requires
            old(self).inv(),
        ensures
            final(self).inv(),
            r ==> file_at(final(self).fs(), path@) == Some(size as nat),
    {
        match self.open_write(path) {
            Err(_) => false,
            Ok(()) => {
                match self.find(path) {
                    None => false,
                    Some(i) => match self.entries[i].node {
                        MemNode::Dir => false,
                        MemNode::File { len, pex } => {
                            let slot = MemEntry {
                                path: path.clone_path(),
                                node: MemNode::File { len: size, pex },
                            };
                            proof {
                                lemma_list_model_update(self.entries@, i as int, slot);
                            }
                            self.entries.set(i, slot);
                            true
                        },
                    },
                }
            },
        }
    }
}

impl Provider for MemProvider {
    closed spec fn fs(&self) -> FsModel {
        list_model(self.entries@)
    }

    closed spec fn wd(&self) -> Seq<Seq<char>> {
        self.wrkdir@
    }

    closed spec fn connected(&self) -> bool {
        self.is_connected
    }

    closed spec fn inv(&self) -> bool {
        distinct_paths(self.entries@)
    }

    fn connect(
        &mut self,
        address: &String,
        port: u16,
        username: &String,
        password: &Option<String>,
    ) -> (r: Result<Option<String>, FsError>) {
        self.is_connected = true;
        Ok(None)
    }

    fn disconnect(&mut self) -> (r: Result<(), FsError>) {
        self.is_connected = false;
        Ok(())
    }

    fn pwd(&mut self) -> (r: Result<FsPath, FsError>) {
        Ok(self.wrkdir.clone_path())
    }

    fn change_wrkdir(&mut self, path: &FsPath) -> (r: Result<(), FsError>) {
        match self.find(path) {
            Some(i) => match self.entries[i].node {
                MemNode::Dir => {
                    self.wrkdir = path.clone_path();
                    Ok(())
                },
                MemNode::File { .. } => Err(
                    FsError::new(FsErrorKind::Generic, String::from_str("not a directory")),
                ),
            },
            None => Err(FsError::new(FsErrorKind::NotFound, String::from_str("no such directory"))),
        }
    }

    #[verifier::loop_isolation(false)]
    #[verifier::rlimit(60)]
    fn scan_dir(&mut self, path: &FsPath) -> (r: Result<Vec<FsEntry>, FsError>) {
        if list_has_path(&self.deny_scan, path) {
            return Err(FsError::new(FsErrorKind::PermissionDenied, String::from_str("scan denied")));
        }
        let at = match self.find(path) {
            None => {
                return Err(
                    FsError::new(FsErrorKind::NotFound, String::from_str("no such directory")),
                );
            },
            Some(i) => i,
        };
        match self.entries[at].node {
            MemNode::File { .. } => {
                return Err(FsError::new(FsErrorKind::Generic, String::from_str("not a directory")));
            },
            MemNode::Dir => {},
        }
        let mut out: Vec<FsEntry> = Vec::new();
        let mut j: usize = 0;
        while j < self.entries.len()
            invariant
                j <= self.entries@.len(),
                forall|k: int|
                    0 <= k < out@.len() ==> is_child((#[trigger] out@[k]).path_view(), path@)
                        && entry_matches(self.fs(), out@[k]),
                forall|k: int|
                    0 <= k < out@.len() ==> exists|j2: int|
                        0 <= j2 < j && (#[trigger] out@[k]).path_view() == self.entries@[j2].path@,
                forall|k1: int, k2: int|
                    0 <= k1 < k2 < out@.len() ==> (#[trigger] out@[k1].path_view()) != (
                    #[trigger] out@[k2].path_view()),
                forall|j2: int|
                    0 <= j2 < j && is_child(#[trigger] self.entries@[j2].path@, path@)
                        ==> exists|k: int|
                        0 <= k < out@.len() && out@[k].path_view() == self.entries@[j2].path@,
            decreases self.entries@.len() - j,
        {
            let e = &self.entries[j];
            let ghost pre = out@;
            let pushed = e.path.is_child_of(path);
            if pushed {
                let name = e.path.last_seg().clone();
                let ep = e.path.clone_path();
                let entry = match e.node {
                    MemNode::File { len, pex } => FsEntry::File(
                        FsFile { path: ep, name, size: len, unix_pex: pex },
                    ),
                    MemNode::Dir => FsEntry::Directory(FsDirectory { path: ep, name }),
                };
                proof {
                    lemma_list_model_index(self.entries@, j as int);
                    assert forall|k1: int| 0 <= k1 < pre.len() implies pre[k1].path_view()
                        != entry.path_view() by {
                        let j2 = choose|j2: int|
                            0 <= j2 < j && pre[k1].path_view() == self.entries@[j2].path@;
                        assert(self.entries@[j2].path@ != self.entries@[j as int].path@);
                    }
                }
                out.push(entry);
                proof {
                    assert(out@.last().path_view() == self.entries@[j as int].path@);
                }
            }
            proof {
                assert forall|j2: int|
                    0 <= j2 <= j && is_child(#[trigger] self.entries@[j2].path@, path@)
                        implies exists|k: int|
                    0 <= k < out@.len() && out@[k].path_view() == self.entries@[j2].path@ by {
                    if j2 < j {
                        let k = choose|k: int|
                            0 <= k < pre.len() && pre[k].path_view() == self.entries@[j2].path@;
                        assert(out@[k].path_view() == self.entries@[j2].path@);
                    } else {
                        assert(pushed);
                        assert(out@[out@.len() - 1].path_view() == self.entries@[j as int].path@);
                    }
                }
            }
            j = j + 1;
        }
        proof {
            assert forall|q: Seq<Seq<char>>|
                #[trigger] self.fs().dom().contains(q) && is_child(q, path@) implies exists|k: int|
                0 <= k < out@.len() && out@[k].path_view() == q by {
                lemma_list_model_contains(self.entries@, q);
                let j2 = choose|j2: int|
                    0 <= j2 < self.entries@.len() && self.entries@[j2].path@ == q;
                assert(is_child(self.entries@[j2].path@, path@));
            }
        }
        Ok(out)
    }

    fn stat(&mut self, path: &FsPath) -> (r: Result<FsEntry, FsError>) {
        if path.len() == 0 {
            return Err(FsError::new(FsErrorKind::Generic, String::from_str("cannot stat the root")));
        }
        match self.find(path) {
            None => Err(FsError::new(FsErrorKind::NotFound, String::from_str("no such entry"))),
            Some(i) => {
                let name = path.last_seg().clone();
                let ep = path.clone_path();
                match self.entries[i].node {
                    MemNode::File { len, pex } => Ok(
                        FsEntry::File(FsFile { path: ep, name, size: len, unix_pex: pex }),
                    ),
                    MemNode::Dir => Ok(FsEntry::Directory(FsDirectory { path: ep, name })),
                }
            },
        }
    }

    #[verifier::loop_isolation(false)]
    fn mkdir(&mut self, path: &FsPath, recursive: bool) -> (r: Result<(), FsError>) {
        match self.find(path) {
            Some(_) => {
                return Err(
                    FsError::new(FsErrorKind::AlreadyExists, String::from_str("already exists")),
                );
            },
            None => {},
        }
        if path.len() == 0 {
            return Err(FsError::new(FsErrorKind::Generic, String::from_str("no path given")));
        }
        if !recursive {
            let par = path.parent();
            match self.find(&par) {
                Some(pi) => match self.entries[pi].node {
                    MemNode::Dir => {},
                    MemNode::File { .. } => {
                        return Err(
                            FsError::new(
                                FsErrorKind::Generic,
                                String::from_str("parent is not a directory"),
                            ),
                        );
                    },
                },
                None => {
                    return Err(
                        FsError::new(FsErrorKind::NotFound, String::from_str("no parent directory")),
                    );
                },
            }
            proof {
                lemma_list_model_contains(self.entries@, path@);
            }
            let slot = MemEntry { path: path.clone_path(), node: MemNode::Dir };
            proof {
                lemma_list_model_push(self.entries@, slot);
            }
            self.entries.push(slot);
            return Ok(());
        }
        // First pass, read-only: every strict prefix must be absent or a
        // directory, so that creation cannot fail half-way.
        let mut d: usize = 0;
        let mut cur = FsPath::root();
        while d < path.len()
            invariant
                d <= path@.len(),
                cur@ =~= path@.subrange(0, d as int),
                forall|dd: int|
                    0 <= dd < d && self.fs().dom().contains(
                        #[trigger] path@.subrange(0, dd),
                    ) ==> self.fs()[path@.subrange(0, dd)] is Dir,
            decreases path@.len() - d,
        {
            match self.find(&cur) {
                Some(i) => match self.entries[i].node {
                    MemNode::Dir => {},
                    MemNode::File { .. } => {
                        return Err(
                            FsError::new(
                                FsErrorKind::Generic,
                                String::from_str("ancestor is not a directory"),
                            ),
                        );
                    },
                },
                None => {},
            }
            let seg = path.segs[d].clone();
            proof {
                assert(seg@ == path@[d as int]);
            }
            cur.push_seg(seg);
            proof {
                assert(cur@ =~= path@.subrange(0, d + 1 as int));
            }
            d = d + 1;
        }
        // Second pass: create every missing prefix, root-first.
        let ghost fs0 = self.fs();
        proof {
            assert(path@.subrange(0, path@.len() as int) =~= path@);
        }
        let mut d2: usize = 0;
        let mut cur2 = FsPath::root();
        while d2 < path.len()
            invariant
                d2 <= path@.len(),
                cur2@ =~= path@.subrange(0, d2 as int),
                self.inv(),
                self.wrkdir@ == old(self).wrkdir@,
                self.is_connected == old(self).is_connected,
                grows_dirs_toward(fs0, self.fs(), path@),
                forall|dd: int| 0 <= dd < d2 ==> dir_at(self.fs(), #[trigger] path@.subrange(0, dd)),
                forall|dd: int|
                    0 <= dd <= path@.len() && self.fs().dom().contains(
                        #[trigger] path@.subrange(0, dd),
                    ) && fs0.dom().contains(path@.subrange(0, dd)) ==> self.fs()[path@.subrange(
                        0,
                        dd,
                    )] is Dir,
            decreases path@.len() - d2,
        {
            match self.find(&cur2) {
                Some(i) => {
                    proof {
                        assert(self.fs().dom().contains(path@.subrange(0, d2 as int)));
                        if !fs0.dom().contains(cur2@) {
                            assert(self.fs()[cur2@] is Dir);
                        } else {
                            if d2 < path@.len() {
                                assert(fs0[path@.subrange(0, d2 as int)] is Dir);
                            }
                            assert(self.fs()[cur2@] == fs0[cur2@]);
                        }
                    }
                },
                None => {
                    proof {
                        lemma_list_model_contains(self.entries@, cur2@);
                    }
                    let slot = MemEntry { path: cur2.clone_path(), node: MemNode::Dir };
                    proof {
                        lemma_list_model_push(self.entries@, slot);
                        assert(starts_with(path@, cur2@)) by {
                            assert(path@.subrange(0, d2 as int) =~= cur2@);
                        }
                    }
                    self.entries.push(slot);
                },
            }
            let seg = path.segs[d2].clone();
            proof {
                assert(seg@ == path@[d2 as int]);
            }
            cur2.push_seg(seg);
            proof {
                assert(cur2@ =~= path@.subrange(0, d2 + 1 as int));
            }
            d2 = d2 + 1;
        }
        // Finally the requested directory itself, created here if nothing
        // placed it meanwhile.
        proof {
            assert(cur2@ =~= path@);
        }
        match self.find(&cur2) {
            Some(_) => {
                proof {
                    if !fs0.dom().contains(path@) {
                        assert(self.fs()[path@] is Dir);
                    } else {
                        assert(self.fs()[path@] == fs0[path@]);
                    }
                }
            },
            None => {
                proof {
                    lemma_list_model_contains(self.entries@, cur2@);
                }
                let slot = MemEntry { path: cur2.clone_path(), node: MemNode::Dir };
                proof {
                    lemma_list_model_push(self.entries@, slot);
                    assert(starts_with(path@, cur2@));
                }
                self.entries.push(slot);
            },
        }
        Ok(())
    }

    #[verifier::loop_isolation(false)]
    #[verifier::rlimit(60)]
    fn remove(&mut self, path: &FsPath) -> (r: Result<(), FsError>) {
        match self.find(path) {
            None => {
                return Err(FsError::new(FsErrorKind::NotFound, String::from_str("no such entry")));
            },
            Some(_) => {},
        }
        let ghost fs0 = self.fs();
        let mut kept: Vec<MemEntry> = Vec::new();
        let mut j: usize = 0;
        while j < self.entries.len()
            invariant
                j <= self.entries@.len(),
                forall|k: int|
                    0 <= k < kept@.len() ==> exists|j2: int|
                        0 <= j2 < j && (#[trigger] kept@[k]).path@ == self.entries@[j2].path@
                            && kept@[k].node == self.entries@[j2].node,
                forall|k: int|
                    0 <= k < kept@.len() ==> !starts_with((#[trigger] kept@[k]).path@, path@),
                forall|k1: int, k2: int|
                    0 <= k1 < k2 < kept@.len() ==> (#[trigger] kept@[k1].path@) != (
                    #[trigger] kept@[k2].path@),
                forall|j2: int|
                    0 <= j2 < j && !starts_with(#[trigger] self.entries@[j2].path@, path@)
                        ==> exists|k: int|
                        0 <= k < kept@.len() && kept@[k].path@ == self.entries@[j2].path@,
            decreases self.entries@.len() - j,
        {
            let e = &self.entries[j];
            let ghost pre = kept@;
            let keep = !e.path.starts_with_path(path);
            if keep {
                let slot = MemEntry { path: e.path.clone_path(), node: e.node };
                proof {
                    assert forall|k1: int| 0 <= k1 < pre.len() implies pre[k1].path@ != slot.path@ by {
                        let j2 = choose|j2: int|
                            0 <= j2 < j && pre[k1].path@ == self.entries@[j2].path@ && pre[k1].node
                                == self.entries@[j2].node;
                        assert(self.entries@[j2].path@ != self.entries@[j as int].path@);
                    }
                }
                kept.push(slot);
                proof {
                    assert(kept@.last().path@ == self.entries@[j as int].path@);
                    assert(kept@.last().node == self.entries@[j as int].node);
                }
            }
            proof {
                assert forall|j2: int|
                    0 <= j2 <= j && !starts_with(#[trigger] self.entries@[j2].path@, path@)
                        implies exists|k: int|
                    0 <= k < kept@.len() && kept@[k].path@ == self.entries@[j2].path@ by {
                    if j2 < j {
                        let k = choose|k: int|
                            0 <= k < pre.len() && pre[k].path@ == self.entries@[j2].path@;
                        assert(kept@[k].path@ == self.entries@[j2].path@);
                    } else {
                        assert(keep);
                        assert(kept@[kept@.len() - 1].path@ == self.entries@[j as int].path@);
                    }
                }
            }
            j = j + 1;
        }
        proof {
            let ghost ks = kept@;
            let ghost es = self.entries@;
            assert forall|q: Seq<Seq<char>>| !starts_with(q, path@) implies (
            #[trigger] list_model(ks).dom().contains(q)) == fs0.dom().contains(q) && (
            fs0.dom().contains(q) ==> list_model(ks)[q] == fs0[q]) by {
                lemma_list_model_contains(ks, q);
                lemma_list_model_contains(es, q);
                if fs0.dom().contains(q) {
                    let j2 = choose|j2: int| 0 <= j2 < es.len() && es[j2].path@ == q;
                    assert(exists|k: int| 0 <= k < ks.len() && ks[k].path@ == q);
                    let k = choose|k: int| 0 <= k < ks.len() && ks[k].path@ == q;
                    let j3 = choose|j3: int|
                        0 <= j3 < es.len() && ks[k].path@ == es[j3].path@ && ks[k].node
                            == es[j3].node;
                    assert(j3 == j2);
                    lemma_list_model_index(ks, k);
                    lemma_list_model_index(es, j2);
                }
                if list_model(ks).dom().contains(q) {
                    let k = choose|k: int| 0 <= k < ks.len() && ks[k].path@ == q;
                    let j3 = choose|j3: int|
                        0 <= j3 < es.len() && ks[k].path@ == es[j3].path@ && ks[k].node
                            == es[j3].node;
                    assert(es[j3].path@ == q);
                }
            }
            assert forall|q: Seq<Seq<char>>| starts_with(q, path@) implies !(#[trigger] list_model(
                ks,
            ).dom().contains(q)) by {
                lemma_list_model_contains(ks, q);
                if list_model(ks).dom().contains(q) {
                    let k = choose|k: int| 0 <= k < ks.len() && ks[k].path@ == q;
                    assert(!starts_with(ks[k].path@, path@));
                }
            }
        }
        self.entries = kept;
        Ok(())
    }

    fn open_read(&mut self, path: &FsPath) -> (r: Result<u64, FsError>) {
        match self.find(path) {
            None => Err(FsError::new(FsErrorKind::NotFound, String::from_str("no such file"))),
            Some(i) => match self.entries[i].node {
                MemNode::File { len, pex } => Ok(len),
                MemNode::Dir => Err(
                    FsError::new(FsErrorKind::Generic, String::from_str("is a directory")),
                ),
            },
        }
    }

    fn rewind(&mut self, path: &FsPath) -> (r: Result<(), FsError>) {
        match self.find(path) {
            None => Err(FsError::new(FsErrorKind::Io, String::from_str("no such stream"))),
            Some(_) => Ok(()),
        }
    }

    fn read_chunk(&mut self, path: &FsPath, offset: u64, max: u64) -> (r: Result<Vec<u8>, FsError>) {
        match self.find(path) {
            None => Err(FsError::new(FsErrorKind::Io, String::from_str("no such stream"))),
            Some(i) => match self.entries[i].node {
                MemNode::File { len, pex } => {
                    if offset >= len {
                        return Err(FsError::new(FsErrorKind::Io, String::from_str("past the end")));
                    }
                    let rest = len - offset;
                    let k = if rest < max {
                        rest
                    } else {
                        max
                    };
                    // The stored tree keeps lengths, not contents: a chunk of
                    // zero bytes of the right size stands for the data.
                    let k = if k < 65536 {
                        k
                    } else {
                        65536
                    };
                    let mut buf: Vec<u8> = Vec::new();
                    let mut c: u64 = 0;
                    while c < k
                        invariant
                            c <= k,
                            k <= 65536,
                            buf@.len() == c,
                        decreases k - c,
                    {
                        buf.push(0u8);
                        c = c + 1;
                    }
                    Ok(buf)
                },
                MemNode::Dir => Err(
                    FsError::new(FsErrorKind::Io, String::from_str("is a directory")),
                ),
            },
        }
    }

    fn open_write(&mut self, path: &FsPath) -> (r: Result<(), FsError>) {
        if list_has_path(&self.fail_write, path) {
            return Err(FsError::new(FsErrorKind::Io, String::from_str("write refused")));
        }
        if path.len() == 0 {
            return Err(FsError::new(FsErrorKind::Generic, String::from_str("no path given")));
        }
        match self.find(path) {
            Some(i) => match self.entries[i].node {
                MemNode::Dir => Err(
                    FsError::new(FsErrorKind::Generic, String::from_str("is a directory")),
                ),
                MemNode::File { len, pex } => {
                    let slot = MemEntry {
                        path: path.clone_path(),
                        node: MemNode::File { len: 0, pex },
                    };
                    proof {
                        lemma_list_model_update(self.entries@, i as int, slot);
                    }
                    self.entries.set(i, slot);
                    Ok(())
                },
            },
            None => {
                let par = path.parent();
                match self.find(&par) {
                    Some(pi) => match self.entries[pi].node {
                        MemNode::Dir => {
                            proof {
                                lemma_list_model_contains(self.entries@, path@);
                            }
                            let slot = MemEntry {
                                path: path.clone_path(),
                                node: MemNode::File { len: 0, pex: None },
                            };
                            proof {
                                lemma_list_model_push(self.entries@, slot);
                            }
                            self.entries.push(slot);
                            Ok(())
                        },
                        MemNode::File { .. } => Err(
                            FsError::new(
                                FsErrorKind::Generic,
                                String::from_str("parent is not a directory"),
                            ),
                        ),
                    },
                    None => Err(
                        FsError::new(FsErrorKind::NotFound, String::from_str("no parent directory")),
                    ),
                }
            },
        }
    }

    fn write_chunk(&mut self, path: &FsPath, data: &Vec<u8>) -> (r: Result<(), FsError>) {
        if list_has_path(&self.fail_write, path) || list_has_path(&self.fail_chunk, path) {
            return Err(FsError::new(FsErrorKind::Io, String::from_str("write refused")));
        }
        let n: u64 = data.len() as u64;
        match self.find(path) {
            None => Err(FsError::new(FsErrorKind::Io, String::from_str("no such stream"))),
            Some(i) => match self.entries[i].node {
                MemNode::Dir => Err(
                    FsError::new(FsErrorKind::Io, String::from_str("is a directory")),
                ),
                MemNode::File { len, pex } => {
                    if n > u64::MAX - len {
                        return Err(FsError::new(FsErrorKind::Io, String::from_str("too large")));
                    }
                    let slot = MemEntry {
                        path: path.clone_path(),
                        node: MemNode::File { len: len + n, pex },
                    };
                    proof {
                        lemma_list_model_update(self.entries@, i as int, slot);
                    }
                    self.entries.set(i, slot);
                    Ok(())
                },
            },
        }
    }

    fn finalize(&mut self, path: &FsPath) -> (r: Result<(), FsError>) {
        Ok(())
    }

    fn chmod(&mut self, path: &FsPath, pex: (u8, u8, u8)) -> (r: Result<(), FsError>) {
        match self.find(path) {
            None => Err(FsError::new(FsErrorKind::NotFound, String::from_str("no such entry"))),
            Some(i) => match self.entries[i].node {
                MemNode::Dir => Ok(()),
                MemNode::File { len, pex: _ } => {
                    let slot = MemEntry {
                        path: path.clone_path(),
                        node: MemNode::File { len, pex: Some(pex) },
                    };
                    proof {
                        lemma_list_model_update(self.entries@, i as int, slot);
                        assert(self.fs().insert(path@, slot.node.model()) =~= self.fs());
                    }
                    self.entries.set(i, slot);
                    Ok(())
                },
            },
        }
    }
}

} // verus!
