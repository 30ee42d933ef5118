//! Filesystem snapshots: paths as segment lists, entries as read-only
//! file/directory records, and the mathematical model of a provider's tree —
//! a map from absolute paths to nodes.

use vstd::prelude::*;

verus! {

/// An absolute path, stored as its segments from the root.
pub struct FsPath {
    pub segs: Vec<String>,
}

impl View for FsPath {
    type V = Seq<Seq<char>>;

    open spec fn view(&self) -> Seq<Seq<char>> {
        self.segs@.map_values(|s: String| s@)
    }
}

impl FsPath {
    pub fn root() -> (r: FsPath)
        ensures
            r@ == Seq::<Seq<char>>::empty(),
    {
        let r = FsPath { segs: Vec::new() };
        proof {
            assert(r@ =~= Seq::<Seq<char>>::empty());
        }
        r
    }

    pub fn from_segs(segs: Vec<String>) -> (r: FsPath)
        ensures
            r@ == segs@.map_values(|s: String| s@),
    {
        FsPath { segs }
    }

    /// Append one segment.
    pub fn push_seg(&mut self, seg: String)
        ensures
            final(self)@ == old(self)@.push(seg@),
    {
        let ghost pre = self@;
        self.segs.push(seg);
        proof {
            assert(self@ =~= pre.push(seg@));
        }
    }

    /// A copy of this path with one more segment at the end.
    pub fn join(&self, seg: &String) -> (r: FsPath)
        ensures
            r@ == self@.push(seg@),
    {
        let mut copy = self.clone_path();
        copy.push_seg(seg.clone());
        copy
    }

    pub fn len(&self) -> (r: usize)
        ensures
            r == self@.len(),
    {
        self.segs.len()
    }

    /// A deep copy with an equal view.
    pub fn clone_path(&self) -> (r: FsPath)
        ensures
            r@ == self@,
    {
        let mut segs: Vec<String> = Vec::new();
        let mut i: usize = 0;
        while i < self.segs.len()
            invariant
                i <= self.segs.len(),
                segs@.len() == i,
                forall|j: int| 0 <= j < i ==> segs@[j]@ == self.segs@[j]@,
            decreases self.segs.len() - i,
        {
            segs.push(self.segs[i].clone());
            i = i + 1;
        }
        let r = FsPath { segs };
        proof {
            assert(r@ =~~= self@);
        }
        r
    }

    /// The last segment; the entry name for non-root paths.
    pub fn last_seg(&self) -> (r: &String)
        requires
            self@.len() > 0,
        ensures
            r@ == self@.last(),
    {
        &self.segs[self.segs.len() - 1]
    }

    /// The path without its last segment.
    pub fn parent(&self) -> (r: FsPath)
        requires
            self@.len() > 0,
        ensures
            r@ == self@.drop_last(),
    {
        let mut segs: Vec<String> = Vec::new();
        let mut i: usize = 0;
        while i < self.segs.len() - 1
            invariant
                self@.len() > 0,
                i <= self.segs.len() - 1,
                segs@.len() == i,
                forall|j: int| 0 <= j < i ==> segs@[j]@ == self.segs@[j]@,
            decreases self.segs.len() - 1 - i,
        {
            segs.push(self.segs[i].clone());
            i = i + 1;
        }
        let r = FsPath { segs };
        proof {
            assert(r@ =~~= self@.drop_last());
        }
        r
    }

    /// Whether `prefix` is a (non-strict) ancestor of this path.
    pub fn starts_with_path(&self, prefix: &FsPath) -> (r: bool)
        ensures
            r == starts_with(self@, prefix@),
    {
        if prefix.segs.len() > self.segs.len() {
            return false;
        }
        let mut i: usize = 0;
        while i < prefix.segs.len()
            invariant
                prefix.segs.len() <= self.segs.len(),
                i <= prefix.segs.len(),
                forall|j: int| 0 <= j < i ==> self@[j] == prefix@[j],
            decreases prefix.segs.len() - i,
        {
            if !(self.segs[i] == prefix.segs[i]) {
                proof {
                    assert(self@.subrange(0, prefix@.len() as int)[i as int] != prefix@[i as int]);
                }
                return false;
            }
            i = i + 1;
        }
        proof {
            assert(self@.subrange(0, prefix@.len() as int) =~= prefix@);
        }
        true
    }

    /// Whether this path is an immediate child of `parent`.
    pub fn is_child_of(&self, parent: &FsPath) -> (r: bool)
        ensures
            r == is_child(self@, parent@),
    {
        self.segs.len() > 0 && self.segs.len() - 1 == parent.segs.len() && self.starts_with_path(
            parent,
        )
    }

    /// Whether two paths denote the same location.
    pub fn eq_path(&self, other: &FsPath) -> (r: bool)
        ensures
            r <==> self@ == other@,
    {
        if self.segs.len() != other.segs.len() {
            proof {
                assert(self@.len() != other@.len());
            }
            return false;
        }
        let mut i: usize = 0;
        while i < self.segs.len()
            invariant
                i <= self.segs.len(),
                self.segs.len() == other.segs.len(),
                forall|j: int| 0 <= j < i ==> self@[j] == other@[j],
            decreases self.segs.len() - i,
        {
            if !(self.segs[i] == other.segs[i]) {
                proof {
                    assert(self@[i as int] != other@[i as int]);
                }
                return false;
            }
            i = i + 1;
        }
        proof {
            assert(self@ =~= other@);
        }
        true
    }
}

/// A file snapshot taken from a provider at scan time.
pub struct FsFile {
    pub path: FsPath,
    pub name: String,
    pub size: u64,
    /// Unix permission triple (owner, group, other), when known.
    pub unix_pex: Option<(u8, u8, u8)>,
}

impl FsFile {
    /// A deep copy with equal view, name, size and permissions.
    pub fn clone_file(&self) -> (r: FsFile)
        ensures
            r.path@ == self.path@,
            r.name@ == self.name@,
            r.size == self.size,
            r.unix_pex == self.unix_pex,
    {
        FsFile {
            path: self.path.clone_path(),
            name: self.name.clone(),
            size: self.size,
            unix_pex: self.unix_pex,
        }
    }
}

/// A directory snapshot taken from a provider at scan time.
pub struct FsDirectory {
    pub path: FsPath,
    pub name: String,
}

/// A filesystem entry snapshot: entries are read-only and never re-validated
/// between scan and transfer.
pub enum FsEntry {
    File(FsFile),
    Directory(FsDirectory),
}

impl FsEntry {
    pub open spec fn path_view(self) -> Seq<Seq<char>> {
        match self {
            FsEntry::File(f) => f.path@,
            FsEntry::Directory(d) => d.path@,
        }
    }

    pub open spec fn name_view(self) -> Seq<char> {
        match self {
            FsEntry::File(f) => f.name@,
            FsEntry::Directory(d) => d.name@,
        }
    }

    pub fn get_abs_path(&self) -> (r: &FsPath)
        ensures
            r@ == self.path_view(),
    {
        match self {
            FsEntry::File(f) => &f.path,
            FsEntry::Directory(d) => &d.path,
        }
    }

    pub fn get_name(&self) -> (r: &String)
        ensures
            r@ == self.name_view(),
    {
        match self {
            FsEntry::File(f) => &f.name,
            FsEntry::Directory(d) => &d.name,
        }
    }

    pub fn is_dir(&self) -> (r: bool)
        ensures
            r == self is Directory,
    {
        match self {
            FsEntry::File(_) => false,
            FsEntry::Directory(_) => true,
        }
    }
}

/// A node of the mathematical filesystem model: a file knows how many bytes
/// have durably been written to it; a directory is just present.
pub enum FsNode {
    File { len: nat },
    Dir,
}

/// The model of a whole provider tree: each absolute path that exists maps to
/// its node. Directory membership is implicit in the path structure.
pub type FsModel = Map<Seq<Seq<char>>, FsNode>;

/// The length of the file at `p`, or `None` if `p` is absent or a directory.
pub open spec fn file_at(m: FsModel, p: Seq<Seq<char>>) -> Option<nat> {
    if m.dom().contains(p) {
        match m[p] {
            FsNode::File { len } => Some(len),
            FsNode::Dir => None,
        }
    } else {
        None
    }
}

/// Whether a directory exists at `p`.
pub open spec fn dir_at(m: FsModel, p: Seq<Seq<char>>) -> bool {
    m.dom().contains(p) && m[p] is Dir
}

/// `p` is a (non-strict) ancestor of `q`.
pub open spec fn starts_with(q: Seq<Seq<char>>, p: Seq<Seq<char>>) -> bool {
    p.len() <= q.len() && q.subrange(0, p.len() as int) == p
}

/// `q` is an immediate child of `p`.
pub open spec fn is_child(q: Seq<Seq<char>>, p: Seq<Seq<char>>) -> bool {
    q.len() == p.len() + 1 && q.subrange(0, p.len() as int) == p
}

/// The two models agree everywhere except possibly at path `p` itself.
pub open spec fn same_except(m1: FsModel, m2: FsModel, p: Seq<Seq<char>>) -> bool {
    forall|q: Seq<Seq<char>>|
        q != p ==> (#[trigger] m2.dom().contains(q)) == m1.dom().contains(q) && (m1.dom().contains(
            q,
        ) ==> m2[q] == m1[q])
}

/// The two models agree on every path that does not lie in the subtree
/// rooted at `p` (including `p` itself).
pub open spec fn same_outside_subtree(m1: FsModel, m2: FsModel, p: Seq<Seq<char>>) -> bool {
    forall|q: Seq<Seq<char>>|
        !starts_with(q, p) ==> (#[trigger] m2.dom().contains(q)) == m1.dom().contains(q) && (
        m1.dom().contains(q) ==> m2[q] == m1[q])
}

/// From `m1` to `m2`, nothing was removed or altered, and anything new is a
/// directory on the way down to `p` (as recursive directory creation does).
pub open spec fn grows_dirs_toward(m1: FsModel, m2: FsModel, p: Seq<Seq<char>>) -> bool {
    &&& forall|q: Seq<Seq<char>>|
        #[trigger] m1.dom().contains(q) ==> m2.dom().contains(q) && m2[q] == m1[q]
    &&& forall|q: Seq<Seq<char>>|
        #[trigger] m2.dom().contains(q) && !m1.dom().contains(q) ==> m2[q] is Dir && starts_with(
            p,
            q,
        )
}

/// From `m1` to `m2`, outside the subtree rooted at `dest` nothing was
/// removed or altered, and anything added is a directory on the way down to
/// `dest` (recursive directory creation may create ancestors of `dest`).
pub open spec fn changes_confined_to(m1: FsModel, m2: FsModel, dest: Seq<Seq<char>>) -> bool {
    forall|q: Seq<Seq<char>>|
        !starts_with(q, dest) ==> ((m1.dom().contains(q) ==> (#[trigger] m2.dom().contains(q))
            && m2[q] == m1[q]) && (m2.dom().contains(q) && !m1.dom().contains(q) ==> m2[q] is Dir
            && starts_with(dest, q)))
}

pub proof fn lemma_starts_with_refl(p: Seq<Seq<char>>)
    ensures
        starts_with(p, p),
{
    assert(p.subrange(0, p.len() as int) =~= p);
}

pub proof fn lemma_starts_with_trans(a: Seq<Seq<char>>, b: Seq<Seq<char>>, c: Seq<Seq<char>>)
    requires
        starts_with(a, b),
        starts_with(b, c),
    ensures
        starts_with(a, c),
{
    assert(a.subrange(0, c.len() as int) =~= b.subrange(0, c.len() as int));
}

/// Two prefixes of one path are comparable: the shorter is a prefix of the
/// longer.
pub proof fn lemma_prefixes_comparable(a: Seq<Seq<char>>, p: Seq<Seq<char>>, q: Seq<Seq<char>>)
    requires
        starts_with(a, p),
        starts_with(a, q),
        q.len() <= p.len(),
    ensures
        starts_with(p, q),
{
    assert(p.subrange(0, q.len() as int) =~= q) by {
        assert(forall|i: int|
            0 <= i < q.len() ==> p.subrange(0, p.len() as int)[i] == q.subrange(
                0,
                q.len() as int,
            )[i]);
    }
}

/// Agreeing everywhere but at `p` confines the changes to any subtree that
/// contains `p`.
pub proof fn lemma_same_except_confined(
    m1: FsModel,
    m2: FsModel,
    p: Seq<Seq<char>>,
    dest: Seq<Seq<char>>,
)
    requires
        same_except(m1, m2, p),
        starts_with(p, dest),
    ensures
        changes_confined_to(m1, m2, dest),
{
    assert forall|q: Seq<Seq<char>>| !starts_with(q, dest) implies q != p by {
        if q == p {
            assert(starts_with(q, dest));
        }
    }
}

/// Agreeing outside the subtree at `p` confines the changes to any subtree
/// that contains `p`.
pub proof fn lemma_same_outside_confined(
    m1: FsModel,
    m2: FsModel,
    p: Seq<Seq<char>>,
    dest: Seq<Seq<char>>,
)
    requires
        same_outside_subtree(m1, m2, p),
        starts_with(p, dest),
    ensures
        changes_confined_to(m1, m2, dest),
{
    assert forall|q: Seq<Seq<char>>| !starts_with(q, dest) implies !starts_with(q, p) by {
        if starts_with(q, p) {
            lemma_starts_with_trans(q, p, dest);
        }
    }
}

/// Recursive directory creation toward `p` confines the changes to any
/// subtree that contains `p`.
pub proof fn lemma_grows_dirs_confined(
    m1: FsModel,
    m2: FsModel,
    p: Seq<Seq<char>>,
    dest: Seq<Seq<char>>,
)
    requires
        grows_dirs_toward(m1, m2, p),
        starts_with(p, dest),
    ensures
        changes_confined_to(m1, m2, dest),
{
    assert forall|q: Seq<Seq<char>>|
        !starts_with(q, dest) && m2.dom().contains(q) && !m1.dom().contains(q) implies m2[q] is Dir
        && starts_with(dest, q) by {
        assert(starts_with(p, q));
        if q.len() > dest.len() {
            lemma_prefixes_comparable(p, q, dest);
        } else {
            lemma_prefixes_comparable(p, dest, q);
        }
    }
}

/// Confinement composes: a change confined to a deeper subtree `q` stays
/// confined to `dest`.
pub proof fn lemma_confined_compose(
    m1: FsModel,
    m2: FsModel,
    m3: FsModel,
    dest: Seq<Seq<char>>,
    q: Seq<Seq<char>>,
)
    requires
        changes_confined_to(m1, m2, dest),
        changes_confined_to(m2, m3, q),
        starts_with(q, dest),
    ensures
        changes_confined_to(m1, m3, dest),
{
    assert forall|r: Seq<Seq<char>>|
        !starts_with(r, dest) implies ((m1.dom().contains(r) ==> (#[trigger] m3.dom().contains(r))
        && m3[r] == m1[r]) && (m3.dom().contains(r) && !m1.dom().contains(r) ==> m3[r] is Dir
        && starts_with(dest, r))) by {
        assert(!starts_with(r, q)) by {
            if starts_with(r, q) {
                lemma_starts_with_trans(r, q, dest);
            }
        }
        if m3.dom().contains(r) && !m1.dom().contains(r) {
            if m2.dom().contains(r) {
                assert(m2[r] is Dir && starts_with(dest, r));
            } else {
                assert(m3[r] is Dir && starts_with(q, r));
                if r.len() > dest.len() {
                    lemma_prefixes_comparable(q, r, dest);
                } else {
                    lemma_prefixes_comparable(q, dest, r);
                }
            }
        }
    }
}

/// The immediate children of `p` in `m`.
pub open spec fn children_of(m: FsModel, p: Seq<Seq<char>>) -> Set<Seq<Seq<char>>> {
    m.dom().filter(|q: Seq<Seq<char>>| is_child(q, p))
}

/// The sum of the subtree totals of the paths in `s`, summed in the order
/// the choose operator picks (shown below to be order-independent).
pub open spec fn set_total(m: FsModel, s: Set<Seq<Seq<char>>>, d: nat) -> int
    decreases d, 1int, s.len(),
{
    if !s.finite() || s.len() == 0 {
        0
    } else {
        let q = s.choose();
        set_total(m, s.remove(q), d) + subtree_total(m, q, d)
    }
}

/// The number of bytes a transfer of the subtree rooted at `p` moves: a
/// file contributes its length, a directory the sum over its children,
/// recursively, down to the given depth budget.
pub open spec fn subtree_total(m: FsModel, p: Seq<Seq<char>>, depth: nat) -> int
    decreases depth, 0int, 0int,
{
    if m.dom().contains(p) {
        match m[p] {
            FsNode::File { len } => len as int,
            FsNode::Dir => {
                if depth == 0 {
                    0
                } else {
                    set_total(m, children_of(m, p), (depth - 1) as nat)
                }
            },
        }
    } else {
        0
    }
}

/// `subtree_total`, clamped to what a 64-bit counter can carry.
pub open spec fn clamp64(x: int) -> int {
    if x > u64::MAX {
        u64::MAX as int
    } else {
        x
    }
}

/// Removing any one element takes its weight out of the sum: the sum does
/// not depend on the order the choose operator picks.
proof fn lemma_set_total_remove(m: FsModel, s: Set<Seq<Seq<char>>>, c: Seq<Seq<char>>, d: nat)
    requires
        s.finite(),
        s.contains(c),
    ensures
        set_total(m, s, d) == set_total(m, s.remove(c), d) + subtree_total(m, c, d),
    decreases s.len(),
{
    let c0 = s.choose();
    if c0 == c {
    } else {
        let s0 = s.remove(c0);
        lemma_set_total_remove(m, s0, c, d);
        assert(s0.remove(c) =~= s.remove(c).remove(c0));
        lemma_set_total_remove(m, s.remove(c), c0, d);
    }
}

/// Adding a fresh element adds its weight to the sum.
proof fn lemma_set_total_insert(m: FsModel, s: Set<Seq<Seq<char>>>, q: Seq<Seq<char>>, d: nat)
    requires
        s.finite(),
        !s.contains(q),
    ensures
        set_total(m, s.insert(q), d) == set_total(m, s, d) + subtree_total(m, q, d),
{
    lemma_set_total_remove(m, s.insert(q), q, d);
    assert(s.insert(q).remove(q) =~= s);
}

/// The sequential sum of the subtree totals of the paths of the first `j`
/// entries of a listing.
pub open spec fn entries_total(m: FsModel, v: Seq<FsEntry>, j: int, depth: nat) -> int
    decreases j,
{
    if j <= 0 {
        0
    } else {
        entries_total(m, v, j - 1, depth) + subtree_total(m, v[j - 1].path_view(), depth)
    }
}

spec fn paths_of(v: Seq<FsEntry>, j: int) -> Set<Seq<Seq<char>>>
    decreases j,
{
    if j <= 0 {
        Set::empty()
    } else {
        paths_of(v, j - 1).insert(v[j - 1].path_view())
    }
}

/// Summing the weights over the paths of a duplicate-free listing is the
/// same as summing along the listing.
proof fn lemma_entries_total_set(m: FsModel, v: Seq<FsEntry>, j: int, depth: nat)
    requires
        0 <= j <= v.len(),
        forall|i1: int, i2: int|
            0 <= i1 < i2 < v.len() ==> v[i1].path_view() != v[i2].path_view(),
    ensures
        paths_of(v, j).finite(),
        forall|q: Seq<Seq<char>>|
            #[trigger] paths_of(v, j).contains(q) <==> exists|i: int|
                0 <= i < j && v[i].path_view() == q,
        set_total(m, paths_of(v, j), depth) == entries_total(m, v, j, depth),
    decreases j,
{
    if j > 0 {
        lemma_entries_total_set(m, v, j - 1, depth);
        let q = v[j - 1].path_view();
        assert(!paths_of(v, j - 1).contains(q)) by {
            if paths_of(v, j - 1).contains(q) {
                let i = choose|i: int| 0 <= i < j - 1 && v[i].path_view() == q;
                assert(v[i].path_view() != v[j - 1].path_view());
            }
        }
        lemma_set_total_insert(m, paths_of(v, j - 1), q, depth);
        assert forall|qq: Seq<Seq<char>>| #[trigger] paths_of(v, j).contains(qq) implies exists|
            i: int,
        | 0 <= i < j && v[i].path_view() == qq by {
            if qq == q {
                assert(v[j - 1].path_view() == qq);
            } else {
                let i = choose|i: int| 0 <= i < j - 1 && v[i].path_view() == qq;
                assert(v[i].path_view() == qq);
            }
        }
    }
}

/// Every subtree moves a non-negative number of bytes.
pub proof fn lemma_subtree_total_nonneg(m: FsModel, p: Seq<Seq<char>>, depth: nat)
    ensures
        subtree_total(m, p, depth) >= 0,
    decreases depth, 0int, 0int,
{
    if m.dom().contains(p) && m[p] is Dir && depth > 0 {
        lemma_set_total_nonneg(m, children_of(m, p), (depth - 1) as nat);
    }
}

proof fn lemma_set_total_nonneg(m: FsModel, s: Set<Seq<Seq<char>>>, d: nat)
    ensures
        set_total(m, s, d) >= 0,
    decreases d, 1int, s.len(),
{
    if s.finite() && s.len() != 0 {
        let q = s.choose();
        lemma_set_total_nonneg(m, s.remove(q), d);
        lemma_subtree_total_nonneg(m, q, d);
    }
}

/// A sequential sum of subtree totals is non-negative.
pub proof fn lemma_entries_total_nonneg(m: FsModel, v: Seq<FsEntry>, j: int, depth: nat)
    requires
        j <= v.len(),
    ensures
        entries_total(m, v, j, depth) >= 0,
    decreases j,
{
    if j > 0 {
        lemma_entries_total_nonneg(m, v, j - 1, depth);
        lemma_subtree_total_nonneg(m, v[j - 1].path_view(), depth);
    }
}

/// With a complete duplicate-free listing of a directory's children, its
/// subtree total is the sequential sum over the listing.
pub proof fn lemma_subtree_total_dir(m: FsModel, p: Seq<Seq<char>>, v: Seq<FsEntry>, depth: nat)
    requires
        dir_at(m, p),
        depth > 0,
        scan_lists_children(m, p, v),
    ensures
        subtree_total(m, p, depth) == entries_total(m, v, v.len() as int, (depth - 1) as nat),
{
    let d = (depth - 1) as nat;
    lemma_entries_total_set(m, v, v.len() as int, d);
    assert(children_of(m, p) =~= paths_of(v, v.len() as int)) by {
        assert forall|q: Seq<Seq<char>>| #[trigger] children_of(m, p).contains(q) implies paths_of(
            v,
            v.len() as int,
        ).contains(q) by {
            assert(m.dom().contains(q) && is_child(q, p));
        }
        assert forall|q: Seq<Seq<char>>| #[trigger] paths_of(v, v.len() as int).contains(q)
            implies children_of(m, p).contains(q) by {
            let i = choose|i: int| 0 <= i < v.len() && v[i].path_view() == q;
            assert(entry_matches(m, v[i]));
            match v[i] {
                FsEntry::File(ff) => {
                    assert(file_at(m, ff.path@) == Some(ff.size as nat));
                },
                FsEntry::Directory(dd) => {
                    assert(dir_at(m, dd.path@));
                },
            }
        }
    }
}


/// Every strict intermediate step of `rel` below `base` exists as a
/// directory: the walk can reach `base + rel` by scanning.
pub open spec fn reachable_in(m: FsModel, base: Seq<Seq<char>>, rel: Seq<Seq<char>>) -> bool {
    forall|j: int| 1 <= j < rel.len() ==> dir_at(m, base + #[trigger] rel.subrange(0, j))
}

/// Down to `depth` levels below `sp`, every file of `src` that is reachable
/// through existing directories has a file of equal length at the
/// corresponding relative path under `dp` in `dst`.
pub open spec fn subtree_mirrored(
    src: FsModel,
    sp: Seq<Seq<char>>,
    dst: FsModel,
    dp: Seq<Seq<char>>,
    depth: nat,
) -> bool {
    forall|rel: Seq<Seq<char>>|
        #![trigger file_at(src, sp + rel)]
        1 <= rel.len() <= depth && reachable_in(src, sp, rel) ==> (file_at(src, sp + rel)
            matches Some(len) ==> file_at(dst, dp + rel) == Some(len))
}

/// What a transfer owes for one source entry placed under `base` in `dst`:
/// a file arrives with its source length; a directory's reachable files are
/// mirrored, `d` levels deep.
pub open spec fn child_delivered(
    src: FsModel,
    dst: FsModel,
    base: Seq<Seq<char>>,
    e: FsEntry,
    d: nat,
) -> bool {
    match e {
        FsEntry::File(f) => file_at(src, f.path@) matches Some(len) ==> file_at(
            dst,
            base.push(f.name@),
        ) == Some(len),
        FsEntry::Directory(dd) => subtree_mirrored(src, dd.path@, dst, base.push(dd.name@), d),
    }
}

/// A concatenation starts with its first part.
pub proof fn lemma_concat_starts_with(p: Seq<Seq<char>>, rel: Seq<Seq<char>>)
    ensures
        starts_with(p + rel, p),
{
    assert((p + rel).subrange(0, p.len() as int) =~= p);
}

/// Paths under destinations with different last names do not overlap.
pub proof fn lemma_push_differs(
    q: Seq<Seq<char>>,
    base: Seq<Seq<char>>,
    a: Seq<char>,
    b: Seq<char>,
)
    requires
        starts_with(q, base.push(a)),
        a != b,
    ensures
        !starts_with(q, base.push(b)),
{
    assert(q.subrange(0, base.len() as int + 1)[base.len() as int] == a);
    if starts_with(q, base.push(b)) {
        assert(q.subrange(0, base.len() as int + 1)[base.len() as int] == b);
    }
}

/// A matched child entry's path is its parent's path plus its own name.
pub proof fn lemma_child_path_is_push(m: FsModel, p: Seq<Seq<char>>, e: FsEntry)
    requires
        is_child(e.path_view(), p),
        entry_matches(m, e),
    ensures
        e.path_view() == p.push(e.name_view()),
{
    assert(e.path_view() =~= p.push(e.name_view()));
}

/// A delivered entry stays delivered while later changes are confined to a
/// sibling destination with a different name.
pub proof fn lemma_delivered_preserved(
    src: FsModel,
    c1: FsModel,
    c2: FsModel,
    base: Seq<Seq<char>>,
    e: FsEntry,
    other_name: Seq<char>,
    d: nat,
)
    requires
        child_delivered(src, c1, base, e, d),
        changes_confined_to(c1, c2, base.push(other_name)),
        e.name_view() != other_name,
    ensures
        child_delivered(src, c2, base, e, d),
{
    match e {
        FsEntry::File(f) => {
            if file_at(src, f.path@) is Some {
                let q = base.push(f.name@);
                lemma_starts_with_refl(q);
                lemma_push_differs(q, base, f.name@, other_name);
                assert(file_at(c1, q) is Some);
                assert(c1.dom().contains(q));
                assert(c2.dom().contains(q) && c2[q] == c1[q]);
            }
        },
        FsEntry::Directory(dd) => {
            let dp = base.push(dd.name@);
            assert forall|rel: Seq<Seq<char>>|
                #![trigger file_at(src, dd.path@ + rel)]
                1 <= rel.len() <= d && reachable_in(src, dd.path@, rel) implies (file_at(
                src,
                dd.path@ + rel,
            ) matches Some(len) ==> file_at(c2, dp + rel) == Some(len)) by {
                if file_at(src, dd.path@ + rel) is Some {
                    let q = dp + rel;
                    lemma_concat_starts_with(dp, rel);
                    lemma_push_differs(q, base, dd.name@, other_name);
                    assert(file_at(c1, q) == file_at(src, dd.path@ + rel));
                    assert(c1.dom().contains(q));
                    assert(c2.dom().contains(q) && c2[q] == c1[q]);
                }
            }
            assert(subtree_mirrored(src, dd.path@, c2, dp, d));
        },
    }
}

/// If a complete listing of a source directory's children has each child
/// delivered under `dp`, the whole directory is mirrored, one level deeper.
pub proof fn lemma_children_mirror_subtree(
    src: FsModel,
    p: Seq<Seq<char>>,
    dst: FsModel,
    dp: Seq<Seq<char>>,
    v: Seq<FsEntry>,
    depth: nat,
)
    requires
        depth >= 1,
        scan_lists_children(src, p, v),
        forall|i: int|
            0 <= i < v.len() ==> child_delivered(src, dst, dp, #[trigger] v[i], (depth - 1) as nat),
    ensures
        subtree_mirrored(src, p, dst, dp, depth),
{
    assert forall|rel: Seq<Seq<char>>|
        1 <= rel.len() <= depth && reachable_in(src, p, rel) && file_at(src, p + rel) is Some
        implies file_at(dst, dp + rel) == file_at(src, p + rel) by {
        let h = rel[0];
        let child_path = p.push(h);
        if rel.len() == 1 {
            assert(p + rel =~= child_path);
            assert(src.dom().contains(child_path));
            assert(is_child(child_path, p)) by {
                assert(child_path.subrange(0, p.len() as int) =~= p);
            }
            let i = choose|i: int| 0 <= i < v.len() && v[i].path_view() == child_path;
            match v[i] {
                FsEntry::File(f) => {
                    lemma_child_path_is_push(src, p, v[i]);
                    assert(f.name@ == h) by {
                        assert(p.push(f.name@) == p.push(h));
                        assert(p.push(f.name@)[p.len() as int] == f.name@);
                        assert(p.push(h)[p.len() as int] == h);
                    }
                    assert(dp.push(h) =~= dp + rel);
                },
                FsEntry::Directory(dd) => {
                    assert(dir_at(src, child_path));
                    assert(false);
                },
            }
        } else {
            assert(dir_at(src, child_path)) by {
                assert(p + rel.subrange(0, 1) =~= child_path);
            }
            assert(is_child(child_path, p)) by {
                assert(child_path.subrange(0, p.len() as int) =~= p);
            }
            let i = choose|i: int| 0 <= i < v.len() && v[i].path_view() == child_path;
            match v[i] {
                FsEntry::Directory(dd) => {
                    lemma_child_path_is_push(src, p, v[i]);
                    assert(dd.name@ == h) by {
                        assert(p.push(dd.name@) == p.push(h));
                        assert(p.push(dd.name@)[p.len() as int] == dd.name@);
                        assert(p.push(h)[p.len() as int] == h);
                    }
                    let rel2 = rel.subrange(1, rel.len() as int);
                    assert(child_path + rel2 =~= p + rel);
                    assert(reachable_in(src, child_path, rel2)) by {
                        assert forall|j2: int| 1 <= j2 < rel2.len() implies dir_at(
                            src,
                            child_path + #[trigger] rel2.subrange(0, j2),
                        ) by {
                            assert(child_path + rel2.subrange(0, j2) =~= p + rel.subrange(
                                0,
                                j2 + 1,
                            ));
                            assert(dir_at(src, p + rel.subrange(0, j2 + 1)));
                        }
                    }
                    assert(file_at(src, child_path + rel2) is Some);
                    assert(subtree_mirrored(
                        src,
                        dd.path@,
                        dst,
                        dp.push(dd.name@),
                        (depth - 1) as nat,
                    ));
                    assert(file_at(dst, dp.push(h) + rel2) == file_at(src, p + rel));
                    assert(dp.push(h) + rel2 =~= dp + rel);
                },
                FsEntry::File(f) => {
                    assert(file_at(src, child_path) == Some(f.size as nat));
                    assert(false);
                },
            }
        }
    }
}

/// The two models are linked by one confined step per batch entry, in batch
/// order, each step confined to the subtree at `base` plus that entry's own
/// name. In particular, what one entry's processing put under its own
/// destination is never removed or altered by the processing of the entries
/// after it (their steps are confined to their own subtrees).
pub open spec fn batch_stepwise_confined(
    m1: FsModel,
    m2: FsModel,
    base: Seq<Seq<char>>,
    entries: Seq<FsEntry>,
) -> bool {
    exists|ms: Seq<FsModel>|
        #![auto]
        ms.len() == entries.len() + 1 && ms[0] == m1 && ms[entries.len() as int] == m2 && (forall|
            k: int,
        |
            0 <= k < entries.len() ==> changes_confined_to(
                ms[k],
                ms[k + 1],
                base.push(entries[k].name_view()),
            ))
}

proof fn lemma_chain_outside(
    ms: Seq<FsModel>,
    base: Seq<Seq<char>>,
    entries: Seq<FsEntry>,
    q: Seq<Seq<char>>,
    j: int,
)
    requires
        0 <= j <= entries.len(),
        ms.len() == entries.len() + 1,
        forall|k: int|
            0 <= k < entries.len() ==> changes_confined_to(
                ms[k],
                ms[k + 1],
                base.push(#[trigger] entries[k].name_view()),
            ),
        forall|k: int|
            0 <= k < entries.len() ==> !starts_with(q, base.push(#[trigger] entries[k].name_view())),
    ensures
        ms[0].dom().contains(q) ==> ms[j].dom().contains(q) && ms[j][q] == ms[0][q],
        ms[j].dom().contains(q) && !ms[0].dom().contains(q) ==> ms[j][q] is Dir,
    decreases j,
{
    if j > 0 {
        lemma_chain_outside(ms, base, entries, q, j - 1);
        assert(changes_confined_to(ms[j - 1], ms[j], base.push(entries[j - 1].name_view())));
    }
}

/// What the stepwise chain gives a caller: a path under none of the batch
/// destinations is never removed or altered, and at most gains a directory.
pub proof fn lemma_batch_confined_outside(
    m1: FsModel,
    m2: FsModel,
    base: Seq<Seq<char>>,
    entries: Seq<FsEntry>,
    q: Seq<Seq<char>>,
)
    requires
        batch_stepwise_confined(m1, m2, base, entries),
        forall|k: int|
            0 <= k < entries.len() ==> !starts_with(q, base.push(#[trigger] entries[k].name_view())),
    ensures
        m1.dom().contains(q) ==> m2.dom().contains(q) && m2[q] == m1[q],
        m2.dom().contains(q) && !m1.dom().contains(q) ==> m2[q] is Dir,
{
    let ms = choose|ms: Seq<FsModel>|
        #![auto]
        ms.len() == entries.len() + 1 && ms[0] == m1 && ms[entries.len() as int] == m2 && (forall|
            k: int,
        |
            0 <= k < entries.len() ==> changes_confined_to(
                ms[k],
                ms[k + 1],
                base.push(entries[k].name_view()),
            ));
    lemma_chain_outside(ms, base, entries, q, entries.len() as int);
}

/// The sum of the sizes of the file entries of `s` (directories contribute
/// nothing here; their contents are accounted by walking them).
pub open spec fn sum_file_sizes(s: Seq<FsEntry>) -> int
    decreases s.len(),
{
    if s.len() == 0 {
        0
    } else {
        sum_file_sizes(s.drop_last()) + (match s.last() {
            FsEntry::File(f) => f.size as int,
            FsEntry::Directory(_) => 0,
        })
    }
}

/// The entry faithfully describes the node of `m` at its path, and carries
/// its own name as the last path segment.
pub open spec fn entry_matches(m: FsModel, e: FsEntry) -> bool {
    match e {
        FsEntry::File(f) => f.path@.len() > 0 && f.path@.last() == f.name@ && file_at(m, f.path@)
            == Some(f.size as nat),
        FsEntry::Directory(d) => d.path@.len() > 0 && d.path@.last() == d.name@ && dir_at(
            m,
            d.path@,
        ),
    }
}

/// The scan result `v` lists exactly the immediate children of `p` in `m`:
/// every element is a matching child entry, pairwise distinct, and every
/// child present in `m` is listed.
pub open spec fn scan_lists_children(m: FsModel, p: Seq<Seq<char>>, v: Seq<FsEntry>) -> bool {
    &&& forall|i: int|
        0 <= i < v.len() ==> is_child((#[trigger] v[i]).path_view(), p) && entry_matches(m, v[i])
    &&& forall|i: int, j: int| 0 <= i < j < v.len() ==> v[i].path_view() != v[j].path_view()
    &&& forall|q: Seq<Seq<char>>|
        #[trigger] m.dom().contains(q) && is_child(q, p) ==> exists|i: int|
            0 <= i < v.len() && v[i].path_view() == q
}

} // verus!
