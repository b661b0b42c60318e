use vstd::prelude::*;
use vstd::pervasive::VecAdditionalExecFns;

use crate::errors::Error;
use crate::paths::{
    bytes_lt, copy_bytes, is_strict_prefix, lemma_between_prefix, lemma_path_lt_asymm,
    lemma_path_lt_connected, lemma_path_lt_irrefl, lemma_path_lt_trans, lemma_prefix_lt,
    lemma_path_lt_skip, lemma_segs_view_push, parse_spec, path_lt, pathv_wf, seg_wf, VfsPath,
};

verus! {

broadcast use lemma_segs_view_push;

/// POSIX metadata carried by every node of the virtual filesystem.
#[derive(Debug, Clone, Copy, PartialEq, Eq, Structural)]
pub struct Meta {
    pub mode: u32,
    pub uid: u32,
    pub gid: u32,
    pub mtime: u64,
}

impl Meta {
    /// The metadata given to directories that are created implicitly while a
    /// deeper path is written.
    pub fn dir_default() -> (r: Meta)
        ensures
            r == Meta::spec_dir_default(),
    {
        Meta { mode: 0o755u32, uid: 0u32, gid: 0u32, mtime: 0u64 }
    }

    pub open spec fn spec_dir_default() -> Meta {
        Meta { mode: 0o755u32, uid: 0u32, gid: 0u32, mtime: 0u64 }
    }

    /// The metadata given to files created by `Touch` and `Create`.
    pub fn file_default() -> (r: Meta)
        ensures
            r == Meta::spec_file_default(),
    {
        Meta { mode: 0o644u32, uid: 0u32, gid: 0u32, mtime: 0u64 }
    }

    pub open spec fn spec_file_default() -> Meta {
        Meta { mode: 0o644u32, uid: 0u32, gid: 0u32, mtime: 0u64 }
    }

    /// The metadata given to symlinks created by injections.
    pub fn link_default() -> (r: Meta)
        ensures
            r == Meta::spec_link_default(),
    {
        Meta { mode: 0o777u32, uid: 0u32, gid: 0u32, mtime: 0u64 }
    }

    pub open spec fn spec_link_default() -> Meta {
        Meta { mode: 0o777u32, uid: 0u32, gid: 0u32, mtime: 0u64 }
    }
}

/// The three kinds of node the virtual filesystem stores.
#[derive(Debug, Clone, Copy, PartialEq, Eq, Structural)]
pub enum NodeKind {
    Dir,
    File,
    Symlink,
}

/// One node of the virtual filesystem: a directory, a regular file with its
/// byte content, or a symlink with its raw target bytes.
#[derive(Debug)]
pub enum Node {
    Dir { meta: Meta },
    File { content: Vec<u8>, meta: Meta },
    Symlink { target: Vec<u8>, meta: Meta },
}

/// The mathematical value of a node.
pub enum NodeV {
    Dir { meta: Meta },
    File { content: Seq<u8>, meta: Meta },
    Symlink { target: Seq<u8>, meta: Meta },
}

impl NodeV {
    pub open spec fn meta(self) -> Meta {
        match self {
            NodeV::Dir { meta } => meta,
            NodeV::File { meta, .. } => meta,
            NodeV::Symlink { meta, .. } => meta,
        }
    }

    pub open spec fn kind(self) -> NodeKind {
        match self {
            NodeV::Dir { .. } => NodeKind::Dir,
            NodeV::File { .. } => NodeKind::File,
            NodeV::Symlink { .. } => NodeKind::Symlink,
        }
    }

    /// The byte length a node contributes to the total size of a tree.
    pub open spec fn size(self) -> nat {
        match self {
            NodeV::File { content, .. } => content.len(),
            _ => 0,
        }
    }
}

impl Node {
    pub open spec fn v(&self) -> NodeV {
        match self {
            Node::Dir { meta } => NodeV::Dir { meta: *meta },
            Node::File { content, meta } => NodeV::File { content: content@, meta: *meta },
            Node::Symlink { target, meta } => NodeV::Symlink { target: target@, meta: *meta },
        }
    }

    pub fn kind(&self) -> (r: NodeKind)
        ensures
            r == self.v().kind(),
    {
        match self {
            Node::Dir { .. } => NodeKind::Dir,
            Node::File { .. } => NodeKind::File,
            Node::Symlink { .. } => NodeKind::Symlink,
        }
    }

    pub fn meta(&self) -> (r: Meta)
        ensures
            r == self.v().meta(),
    {
        match self {
            Node::Dir { meta } => *meta,
            Node::File { meta, .. } => *meta,
            Node::Symlink { meta, .. } => *meta,
        }
    }

    /// A node with the same value.
    pub fn duplicate(&self) -> (r: Node)
        ensures
            r.v() == self.v(),
    {
        match self {
            Node::Dir { meta } => Node::Dir { meta: *meta },
            Node::File { content, meta } => Node::File { content: copy_bytes(content), meta: *meta },
            Node::Symlink { target, meta } => Node::Symlink {
                target: copy_bytes(target),
                meta: *meta,
            },
        }
    }
}

/// One entry of the flat representation: a path and the node stored there.
#[derive(Debug)]
pub struct FsEntry {
    pub path: VfsPath,
    pub node: Node,
}

impl FsEntry {
    pub open spec fn v(&self) -> (Seq<Seq<u8>>, NodeV) {
        (self.path@, self.node.v())
    }
}

/// The view of an entry vector.
pub open spec fn fs_view(s: Seq<FsEntry>) -> Seq<(Seq<Seq<u8>>, NodeV)> {
    Seq::new(s.len(), |i: int| s[i].v())
}

/// Some entry carries path `p`.
pub open spec fn seq_has_path(s: Seq<(Seq<Seq<u8>>, NodeV)>, p: Seq<Seq<u8>>) -> bool {
    exists|i: int| 0 <= i < s.len() && (#[trigger] s[i]).0 == p
}

pub open spec fn seq_idx_of(s: Seq<(Seq<Seq<u8>>, NodeV)>, p: Seq<Seq<u8>>) -> int {
    choose|i: int| 0 <= i < s.len() && (#[trigger] s[i]).0 == p
}

/// The tree as a map from paths to nodes. Together with the sortedness of
/// `fs_wf` this map determines the entry sequence completely.
pub open spec fn map_of(s: Seq<(Seq<Seq<u8>>, NodeV)>) -> Map<Seq<Seq<u8>>, NodeV> {
    Map::new(|p: Seq<Seq<u8>>| seq_has_path(s, p), |p: Seq<Seq<u8>>| s[seq_idx_of(s, p)].1)
}

/// Entries are strictly sorted in the canonical path order.
pub open spec fn entries_sorted(s: Seq<(Seq<Seq<u8>>, NodeV)>) -> bool {
    forall|i: int, j: int|
        0 <= i < j < s.len() ==> path_lt((#[trigger] s[i]).0, (#[trigger] s[j]).0)
}

/// Every entry path is well formed and nonempty (the root is implicit).
pub open spec fn entries_paths_wf(s: Seq<(Seq<Seq<u8>>, NodeV)>) -> bool {
    forall|i: int| 0 <= i < s.len() ==> pathv_wf((#[trigger] s[i]).0) && s[i].0.len() > 0
}

/// Some entry carries path `p` and a directory node.
pub open spec fn has_dir(s: Seq<(Seq<Seq<u8>>, NodeV)>, p: Seq<Seq<u8>>) -> bool {
    exists|i: int| 0 <= i < s.len() && (#[trigger] s[i]).0 == p && s[i].1 is Dir
}

/// The parent of every entry below the first level is present as a directory.
pub open spec fn parent_closed(s: Seq<(Seq<Seq<u8>>, NodeV)>) -> bool {
    forall|i: int|
        0 <= i < s.len() && (#[trigger] s[i]).0.len() > 1 ==> has_dir(s, s[i].0.drop_last())
}

/// Well-formedness of the whole tree.
pub open spec fn fs_wf(s: Seq<(Seq<Seq<u8>>, NodeV)>) -> bool {
    entries_sorted(s) && entries_paths_wf(s) && parent_closed(s)
}

/// In a sorted entry sequence each path occurs at most once.
pub proof fn lemma_sorted_unique(s: Seq<(Seq<Seq<u8>>, NodeV)>, i: int, j: int)
    requires
        entries_sorted(s),
        0 <= i < s.len(),
        0 <= j < s.len(),
        s[i].0 == s[j].0,
    ensures
        i == j,
{
    if i < j {
        lemma_path_lt_irrefl(s[i].0);
    }
    if j < i {
        lemma_path_lt_irrefl(s[i].0);
    }
}

/// The map agrees with the entry at any index.
pub proof fn lemma_map_at(s: Seq<(Seq<Seq<u8>>, NodeV)>, i: int)
    requires
        entries_sorted(s),
        0 <= i < s.len(),
    ensures
        map_of(s).dom().contains(s[i].0),
        map_of(s)[s[i].0] == s[i].1,
{
    assert(seq_has_path(s, s[i].0));
    let j = seq_idx_of(s, s[i].0);
    lemma_sorted_unique(s, i, j);
}

/// A path in the map names some entry.
pub proof fn lemma_map_contains(s: Seq<(Seq<Seq<u8>>, NodeV)>, p: Seq<Seq<u8>>)
    requires
        map_of(s).dom().contains(p),
    ensures
        seq_has_path(s, p),
        0 <= seq_idx_of(s, p) < s.len(),
        s[seq_idx_of(s, p)].0 == p,
        s[seq_idx_of(s, p)].1 == map_of(s)[p],
{
}

/// `has_dir` is the map-level statement "present and a directory".
pub proof fn lemma_has_dir_iff(s: Seq<(Seq<Seq<u8>>, NodeV)>, p: Seq<Seq<u8>>)
    requires
        entries_sorted(s),
    ensures
        has_dir(s, p) == (map_of(s).dom().contains(p) && map_of(s)[p] is Dir),
{
    if has_dir(s, p) {
        let i = choose|i: int| 0 <= i < s.len() && (#[trigger] s[i]).0 == p && s[i].1 is Dir;
        lemma_map_at(s, i);
    }
    if map_of(s).dom().contains(p) && map_of(s)[p] is Dir {
        lemma_map_contains(s, p);
    }
}

/// Every proper nonempty prefix of a present path is present as a directory.
pub proof fn lemma_ancestor_dirs(s: Seq<(Seq<Seq<u8>>, NodeV)>, p: Seq<Seq<u8>>, k: int)
    requires
        fs_wf(s),
        map_of(s).dom().contains(p),
        0 < k < p.len(),
    ensures
        map_of(s).dom().contains(p.take(k)),
        map_of(s)[p.take(k)] is Dir,
    decreases p.len() - k,
{
    if k == p.len() - 1 {
        lemma_map_contains(s, p);
        let i = seq_idx_of(s, p);
        assert(has_dir(s, s[i].0.drop_last()));
        assert(p.drop_last() =~= p.take(k));
        lemma_has_dir_iff(s, p.take(k));
    } else {
        lemma_ancestor_dirs(s, p, k + 1);
        lemma_map_contains(s, p.take(k + 1));
        let i = seq_idx_of(s, p.take(k + 1));
        assert(has_dir(s, s[i].0.drop_last()));
        assert(p.take(k + 1).drop_last() =~= p.take(k));
        lemma_has_dir_iff(s, p.take(k));
    }
}

/// A present path that is not a directory has no descendants.
pub proof fn lemma_nondir_no_descendants(s: Seq<(Seq<Seq<u8>>, NodeV)>, p: Seq<Seq<u8>>)
    requires
        fs_wf(s),
        map_of(s).dom().contains(p),
        !(map_of(s)[p] is Dir),
    ensures
        forall|q: Seq<Seq<u8>>|
            #[trigger] map_of(s).dom().contains(q) ==> !is_strict_prefix(p, q),
{
    assert forall|q: Seq<Seq<u8>>|
        #[trigger] map_of(s).dom().contains(q) implies !is_strict_prefix(p, q) by {
        if is_strict_prefix(p, q) {
            lemma_ancestor_dirs(s, q, p.len() as int);
            assert(q.take(p.len() as int) == p);
        }
    }
}

/// A missing path has no descendants either.
pub proof fn lemma_missing_no_descendants(s: Seq<(Seq<Seq<u8>>, NodeV)>, p: Seq<Seq<u8>>)
    requires
        fs_wf(s),
        p.len() > 0,
        !map_of(s).dom().contains(p),
    ensures
        forall|q: Seq<Seq<u8>>|
            #[trigger] map_of(s).dom().contains(q) ==> !is_strict_prefix(p, q),
{
    assert forall|q: Seq<Seq<u8>>|
        #[trigger] map_of(s).dom().contains(q) implies !is_strict_prefix(p, q) by {
        if is_strict_prefix(p, q) {
            lemma_ancestor_dirs(s, q, p.len() as int);
            assert(q.take(p.len() as int) == p);
        }
    }
}

/// The in-memory virtual filesystem: a sorted, parent-closed, duplicate-free
/// vector of path/node entries. The root directory is implicit and always
/// exists.
#[derive(Debug)]
pub struct MemFS {
    pub entries: Vec<FsEntry>,
}

impl View for MemFS {
    type V = Seq<(Seq<Seq<u8>>, NodeV)>;

    open spec fn view(&self) -> Seq<(Seq<Seq<u8>>, NodeV)> {
        fs_view(self.entries@)
    }
}

impl MemFS {
    /// The structural invariant every operation preserves.
    pub open spec fn wf(&self) -> bool {
        fs_wf(self@)
    }

    /// The tree as a map from paths to nodes.
    pub open spec fn as_map(&self) -> Map<Seq<Seq<u8>>, NodeV> {
        map_of(self@)
    }

    /// An empty tree: just the implicit root directory.
    pub fn new() -> (r: MemFS)
        ensures
            r.wf(),
            r@ == Seq::<(Seq<Seq<u8>>, NodeV)>::empty(),
            r.as_map() == Map::<Seq<Seq<u8>>, NodeV>::empty(),
    {
        let r = MemFS { entries: Vec::new() };
        proof {
            assert(r@ =~= Seq::<(Seq<Seq<u8>>, NodeV)>::empty());
            assert(r.as_map() =~= Map::<Seq<Seq<u8>>, NodeV>::empty());
        }
        r
    }

    pub fn entry_count(&self) -> (r: usize)
        ensures
            r == self@.len(),
    {
        self.entries.len()
    }

    /// The path of the entry at a position of the canonical order.
    pub fn path_at(&self, i: usize) -> (r: VfsPath)
        requires
            i < self@.len(),
        ensures
            r@ == self@[i as int].0,
    {
        self.entries[i].path.duplicate()
    }

    /// A copy of the node at a position of the canonical order.
    pub fn node_at(&self, i: usize) -> (r: Node)
        requires
            i < self@.len(),
        ensures
            r.v() == self@[i as int].1,
    {
        self.entries[i].node.duplicate()
    }

    /// Finds the position of `p`: the index of the first entry not below `p`
    /// in the order, and whether that entry is `p` itself.
    fn locate(&self, p: &VfsPath) -> (r: (usize, bool))
        requires
            self.wf(),
        ensures
            r.0 <= self@.len(),
            forall|k: int| 0 <= k < r.0 ==> path_lt((#[trigger] self@[k]).0, p@),
            r.1 ==> r.0 < self@.len() && self@[r.0 as int].0 == p@,
            !r.1 ==> forall|k: int| r.0 <= k < self@.len() ==> path_lt(p@, (#[trigger] self@[k]).0),
            r.1 == self.as_map().dom().contains(p@),
            r.1 ==> self.as_map()[p@] == self@[r.0 as int].1,
    {
        let n = self.entries.len();
        let mut i: usize = 0;
        while i < n
            invariant
                self.wf(),
                n == self@.len(),
                i <= n,
                forall|k: int| 0 <= k < i ==> path_lt((#[trigger] self@[k]).0, p@),
            decreases n - i,
        {
            if !self.entries[i].path.lt(p) {
                // first entry that is not strictly below p
                if self.entries[i].path.eq_path(p) {
                    proof {
                        lemma_map_at(self@, i as int);
                    }
                    return (i, true);
                } else {
                    proof {
                        lemma_path_lt_connected_helper(self@, i as int, p@);
                        if self.as_map().dom().contains(p@) {
                            lemma_map_contains(self@, p@);
                            let j = seq_idx_of(self@, p@);
                            if j < i {
                                assert(path_lt(self@[j].0, p@));
                                lemma_path_lt_irrefl(p@);
                            } else {
                                assert(path_lt(p@, self@[j].0));
                                lemma_path_lt_irrefl(p@);
                            }
                        }
                    }
                    return (i, false);
                }
            }
            i = i + 1;
        }
        proof {
            if self.as_map().dom().contains(p@) {
                lemma_map_contains(self@, p@);
                let j = seq_idx_of(self@, p@);
                assert(path_lt(self@[j].0, p@));
                lemma_path_lt_irrefl(p@);
            }
        }
        (i, false)
    }

    /// What kind of node, if any, sits at `p`. The root is always a
    /// directory.
    pub fn kind_of(&self, p: &VfsPath) -> (r: Option<NodeKind>)
        requires
            self.wf(),
        ensures
            match r {
                Some(k) => p@.len() == 0 && k == NodeKind::Dir || self.as_map().dom().contains(p@)
                    && k == self.as_map()[p@].kind(),
                None => p@.len() != 0 && !self.as_map().dom().contains(p@),
            },
    {
        if p.is_root() {
            return Some(NodeKind::Dir);
        }
        let (i, found) = self.locate(p);
        if found {
            Some(self.entries[i].node.kind())
        } else {
            None
        }
    }

    /// A copy of the node at `p`.
    pub fn node_of(&self, p: &VfsPath) -> (r: Option<Node>)
        requires
            self.wf(),
        ensures
            match r {
                Some(n) => self.as_map().dom().contains(p@) && n.v() == self.as_map()[p@],
                None => !self.as_map().dom().contains(p@),
            },
    {
        let (i, found) = self.locate(p);
        if found {
            Some(self.entries[i].node.duplicate())
        } else {
            None
        }
    }
}

/// At a sorted position where the entry is neither below `p` nor equal to it,
/// `p` sorts strictly before the entry and everything after it.
proof fn lemma_path_lt_connected_helper(s: Seq<(Seq<Seq<u8>>, NodeV)>, i: int, p: Seq<Seq<u8>>)
    requires
        entries_sorted(s),
        0 <= i < s.len(),
        !path_lt(s[i].0, p),
        s[i].0 != p,
    ensures
        forall|k: int| i <= k < s.len() ==> path_lt(p, (#[trigger] s[k]).0),
{
    if path_lt(p, s[i].0) {
    } else {
        lemma_path_lt_connected(s[i].0, p);
    }
    assert forall|k: int| i <= k < s.len() implies path_lt(p, (#[trigger] s[k]).0) by {
        if k > i {
            lemma_path_lt_trans(p, s[i].0, s[k].0);
        }
    }
}


/// `fs_view` commutes with updating one element.
pub proof fn lemma_fs_view_update(s: Seq<FsEntry>, i: int, e: FsEntry)
    requires
        0 <= i < s.len(),
    ensures
        fs_view(s.update(i, e)) =~= fs_view(s).update(i, e.v()),
{
}

/// `fs_view` commutes with inserting one element.
pub proof fn lemma_fs_view_insert(s: Seq<FsEntry>, i: int, e: FsEntry)
    requires
        0 <= i <= s.len(),
    ensures
        fs_view(s.insert(i, e)) =~= fs_view(s).insert(i, e.v()),
{
    assert forall|k: int| 0 <= k < s.len() + 1 implies #[trigger] fs_view(s.insert(i, e))[k]
        == fs_view(s).insert(i, e.v())[k] by {
        if k < i {
            assert(s.insert(i, e)[k] == s[k]);
        } else if k == i {
            assert(s.insert(i, e)[k] == e);
        } else {
            assert(s.insert(i, e)[k] == s[k - 1]);
        }
    }
}

/// `fs_view` commutes with removing one element.
pub proof fn lemma_fs_view_remove(s: Seq<FsEntry>, i: int)
    requires
        0 <= i < s.len(),
    ensures
        fs_view(s.remove(i)) =~= fs_view(s).remove(i),
{
    assert forall|k: int| 0 <= k < s.len() - 1 implies #[trigger] fs_view(s.remove(i))[k]
        == fs_view(s).remove(i)[k] by {
        if k < i {
            assert(s.remove(i)[k] == s[k]);
        } else {
            assert(s.remove(i)[k] == s[k + 1]);
        }
    }
}

/// The set of a path and all its descendants.
pub open spec fn subtree_keys(p: Seq<Seq<u8>>) -> Set<Seq<Seq<u8>>> {
    Set::new(|q: Seq<Seq<u8>>| q == p || is_strict_prefix(p, q))
}

/// Replacing the node stored at index `i` updates the map at that one path.
pub proof fn lemma_replace_entry(s: Seq<(Seq<Seq<u8>>, NodeV)>, i: int, n: NodeV)
    requires
        fs_wf(s),
        0 <= i < s.len(),
        n is Dir || (forall|q: Seq<Seq<u8>>|
            #[trigger] map_of(s).dom().contains(q) ==> !is_strict_prefix(s[i].0, q)),
    ensures
        fs_wf(s.update(i, (s[i].0, n))),
        map_of(s.update(i, (s[i].0, n))) =~= map_of(s).insert(s[i].0, n),
{
    let p = s[i].0;
    let s2 = s.update(i, (p, n));
    assert forall|k: int| 0 <= k < s2.len() implies (#[trigger] s2[k]).0 == s[k].0 by {}
    assert(entries_sorted(s2)) by {
        assert forall|a: int, b: int| 0 <= a < b < s2.len() implies path_lt(
            (#[trigger] s2[a]).0,
            (#[trigger] s2[b]).0,
        ) by {
            assert(s2[a].0 == s[a].0);
            assert(s2[b].0 == s[b].0);
        }
    }
    assert(entries_paths_wf(s2)) by {
        assert forall|k: int| 0 <= k < s2.len() implies pathv_wf((#[trigger] s2[k]).0)
            && s2[k].0.len() > 0 by {
            assert(s2[k].0 == s[k].0);
        }
    }
    assert(parent_closed(s2)) by {
        assert forall|k: int| 0 <= k < s2.len() && (#[trigger] s2[k]).0.len() > 1 implies has_dir(
            s2,
            s2[k].0.drop_last(),
        ) by {
            assert(s2[k].0 == s[k].0);
            assert(has_dir(s, s[k].0.drop_last()));
            let w = choose|w: int|
                0 <= w < s.len() && (#[trigger] s[w]).0 == s[k].0.drop_last() && s[w].1 is Dir;
            if w == i {
                if n is Dir {
                    assert(s2[i].0 == s[k].0.drop_last() && s2[i].1 is Dir);
                } else {
                    lemma_map_at(s, k);
                    assert(is_strict_prefix(p, s[k].0)) by {
                        assert(s[k].0.take(s[k].0.len() - 1) =~= s[k].0.drop_last());
                    }
                    assert(false);
                }
            } else {
                assert(s2[w].0 == s[w].0 && s2[w].1 == s[w].1);
            }
        }
    }
    assert forall|q: Seq<Seq<u8>>| #[trigger] seq_has_path(s2, q) implies seq_has_path(s, q) by {
        let k = choose|k: int| 0 <= k < s2.len() && (#[trigger] s2[k]).0 == q;
        assert(s[k].0 == q);
    }
    assert forall|q: Seq<Seq<u8>>| #[trigger] seq_has_path(s, q) implies seq_has_path(s2, q) by {
        let k = choose|k: int| 0 <= k < s.len() && (#[trigger] s[k]).0 == q;
        assert(s2[k].0 == q);
    }
    assert forall|q: Seq<Seq<u8>>| #[trigger] seq_has_path(s2, q) implies map_of(s2)[q]
        == map_of(s).insert(p, n)[q] by {
        lemma_map_contains(s2, q);
        let j = seq_idx_of(s2, q);
        if q == p {
            lemma_sorted_unique(s2, j, i);
            assert(map_of(s2)[q] == n);
        } else {
            assert(j != i);
            assert(s2[j].1 == s[j].1);
            lemma_map_at(s, j);
        }
    }
    assert(seq_has_path(s, p));
    assert(map_of(s2) =~= map_of(s).insert(p, n));
}

/// Inserting an entry at its sorted position updates the map at that path.
pub proof fn lemma_insert_entry(s: Seq<(Seq<Seq<u8>>, NodeV)>, i: int, p: Seq<Seq<u8>>, n: NodeV)
    requires
        fs_wf(s),
        0 <= i <= s.len(),
        pathv_wf(p),
        p.len() > 0,
        forall|k: int| 0 <= k < i ==> path_lt((#[trigger] s[k]).0, p),
        forall|k: int| i <= k < s.len() ==> path_lt(p, (#[trigger] s[k]).0),
        p.len() > 1 ==> has_dir(s, p.drop_last()),
    ensures
        fs_wf(s.insert(i, (p, n))),
        map_of(s.insert(i, (p, n))) =~= map_of(s).insert(p, n),
{
    let s2 = s.insert(i, (p, n));
    assert forall|k: int| 0 <= k < s2.len() implies (#[trigger] s2[k])
        == (if k < i { s[k] } else if k == i { (p, n) } else { s[k - 1] }) by {}
    assert(entries_sorted(s2)) by {
        assert forall|a: int, b: int| 0 <= a < b < s2.len() implies path_lt(
            (#[trigger] s2[a]).0,
            (#[trigger] s2[b]).0,
        ) by {
            if a < i && b < i {
            } else if a < i && b == i {
            } else if a < i && b > i {
                if i <= b - 1 < s.len() {
                    lemma_path_lt_trans(s[a].0, p, s[b - 1].0);
                }
            } else if a == i && b > i {
            } else {
            }
        }
    }
    assert(entries_paths_wf(s2)) by {
        assert forall|k: int| 0 <= k < s2.len() implies pathv_wf((#[trigger] s2[k]).0)
            && s2[k].0.len() > 0 by {}
    }
    assert(parent_closed(s2)) by {
        assert forall|k: int| 0 <= k < s2.len() && (#[trigger] s2[k]).0.len() > 1 implies has_dir(
            s2,
            s2[k].0.drop_last(),
        ) by {
            if k == i {
                let w = choose|w: int|
                    0 <= w < s.len() && (#[trigger] s[w]).0 == p.drop_last() && s[w].1 is Dir;
                if w < i {
                    assert(s2[w] == s[w]);
                } else {
                    assert(s2[w + 1] == s[w]);
                }
            } else {
                let k0: int = if k < i { k } else { k - 1 };
                assert(s2[k].0 == s[k0].0);
                assert(has_dir(s, s[k0].0.drop_last()));
                let w = choose|w: int|
                    0 <= w < s.len() && (#[trigger] s[w]).0 == s[k0].0.drop_last() && s[w].1
                        is Dir;
                if w < i {
                    assert(s2[w] == s[w]);
                } else {
                    assert(s2[w + 1] == s[w]);
                }
            }
        }
    }
    assert forall|q: Seq<Seq<u8>>| #[trigger] seq_has_path(s2, q) implies (seq_has_path(s, q) || q
        == p) by {
        let k = choose|k: int| 0 <= k < s2.len() && (#[trigger] s2[k]).0 == q;
        if k < i {
            assert(s[k].0 == q);
        } else if k > i {
            assert(s[k - 1].0 == q);
        }
    }
    assert forall|q: Seq<Seq<u8>>| #[trigger] seq_has_path(s, q) implies seq_has_path(s2, q) by {
        let k = choose|k: int| 0 <= k < s.len() && (#[trigger] s[k]).0 == q;
        if k < i {
            assert(s2[k].0 == q);
        } else {
            assert(s2[k + 1].0 == q);
        }
    }
    assert(seq_has_path(s2, p)) by {
        assert(s2[i].0 == p);
    }
    assert forall|q: Seq<Seq<u8>>| #[trigger] seq_has_path(s2, q) implies map_of(s2)[q]
        == map_of(s).insert(p, n)[q] by {
        lemma_map_contains(s2, q);
        let j = seq_idx_of(s2, q);
        if q == p {
            lemma_sorted_unique(s2, j, i);
            assert(map_of(s2)[q] == n);
            if seq_has_path(s, p) {
                let w = choose|w: int| 0 <= w < s.len() && (#[trigger] s[w]).0 == p;
                if w < i {
                    lemma_path_lt_irrefl(p);
                } else {
                    lemma_path_lt_irrefl(p);
                }
            }
        } else {
            assert(j != i);
            let j0: int = if j < i { j } else { j - 1 };
            assert(s2[j].1 == s[j0].1);
            assert(s[j0].0 == q);
            lemma_map_at(s, j0);
        }
    }
    assert(map_of(s2) =~= map_of(s).insert(p, n));
}

/// Removing the contiguous block of `p` and its descendants removes exactly
/// the subtree keys from the map.
pub proof fn lemma_remove_range(s: Seq<(Seq<Seq<u8>>, NodeV)>, a: int, b: int, p: Seq<Seq<u8>>)
    requires
        fs_wf(s),
        0 <= a <= b <= s.len(),
        forall|k: int| a <= k < b ==> subtree_keys(p).contains((#[trigger] s[k]).0),
        forall|k: int| 0 <= k < a ==> !subtree_keys(p).contains((#[trigger] s[k]).0),
        forall|k: int| b <= k < s.len() ==> !subtree_keys(p).contains((#[trigger] s[k]).0),
    ensures
        fs_wf(s.take(a) + s.skip(b)),
        map_of(s.take(a) + s.skip(b)) =~= map_of(s).remove_keys(subtree_keys(p)),
{
    let s2 = s.take(a) + s.skip(b);
    assert forall|k: int| 0 <= k < s2.len() implies (#[trigger] s2[k])
        == (if k < a { s[k] } else { s[k + (b - a)] }) by {}
    assert(entries_sorted(s2)) by {
        assert forall|x: int, y: int| 0 <= x < y < s2.len() implies path_lt(
            (#[trigger] s2[x]).0,
            (#[trigger] s2[y]).0,
        ) by {
            let x0: int = if x < a { x } else { x + (b - a) };
            let y0: int = if y < a { y } else { y + (b - a) };
            assert(path_lt(s[x0].0, s[y0].0));
        }
    }
    assert(entries_paths_wf(s2)) by {
        assert forall|k: int| 0 <= k < s2.len() implies pathv_wf((#[trigger] s2[k]).0)
            && s2[k].0.len() > 0 by {}
    }
    assert(parent_closed(s2)) by {
        assert forall|k: int| 0 <= k < s2.len() && (#[trigger] s2[k]).0.len() > 1 implies has_dir(
            s2,
            s2[k].0.drop_last(),
        ) by {
            let k0: int = if k < a { k } else { k + (b - a) };
            assert(s2[k].0 == s[k0].0);
            assert(has_dir(s, s[k0].0.drop_last()));
            let w = choose|w: int|
                0 <= w < s.len() && (#[trigger] s[w]).0 == s[k0].0.drop_last() && s[w].1 is Dir;
            if a <= w < b {
                // the parent would be inside the removed subtree, so the
                // entry itself would be too
                assert(subtree_keys(p).contains(s[w].0));
                assert(subtree_keys(p).contains(s[k0].0)) by {
                    assert(s[k0].0.take(s[k0].0.len() - 1) =~= s[k0].0.drop_last());
                    if s[w].0 == p {
                        assert(is_strict_prefix(p, s[k0].0));
                    } else {
                        assert(is_strict_prefix(p, s[k0].0)) by {
                            assert(s[k0].0.take(p.len() as int)
                                =~= s[k0].0.drop_last().take(p.len() as int));
                        }
                    }
                }
                assert(false);
            } else if w < a {
                assert(s2[w] == s[w]);
            } else {
                assert(s2[w - (b - a)] == s[w]);
            }
        }
    }
    assert forall|q: Seq<Seq<u8>>| #[trigger] seq_has_path(s2, q) implies seq_has_path(s, q)
        && !subtree_keys(p).contains(q) by {
        let k = choose|k: int| 0 <= k < s2.len() && (#[trigger] s2[k]).0 == q;
        let k0: int = if k < a { k } else { k + (b - a) };
        assert(s[k0].0 == q);
    }
    assert forall|q: Seq<Seq<u8>>| #[trigger] seq_has_path(s, q) && !subtree_keys(p).contains(q)
        implies seq_has_path(s2, q) by {
        let k = choose|k: int| 0 <= k < s.len() && (#[trigger] s[k]).0 == q;
        if k < a {
            assert(s2[k].0 == q);
        } else {
            assert(k >= b);
            assert(s2[k - (b - a)].0 == q);
        }
    }
    assert forall|q: Seq<Seq<u8>>| #[trigger] seq_has_path(s2, q) implies map_of(s2)[q]
        == map_of(s)[q] by {
        lemma_map_contains(s2, q);
        let j = seq_idx_of(s2, q);
        let j0: int = if j < a { j } else { j + (b - a) };
        assert(s[j0].0 == q && s2[j].1 == s[j0].1);
        lemma_map_at(s, j0);
    }
    assert(map_of(s2) =~= map_of(s).remove_keys(subtree_keys(p)));
}


/// Every nonempty prefix of `p` that is present in the map is a directory:
/// the condition under which `create_dir_all` succeeds.
pub open spec fn dirs_ok(m: Map<Seq<Seq<u8>>, NodeV>, p: Seq<Seq<u8>>) -> bool {
    forall|k: int|
        0 < k <= p.len() ==> (!m.dom().contains(#[trigger] p.take(k)) || m[p.take(k)] is Dir)
}

/// The map after creating every missing nonempty prefix of `p` as a
/// directory with metadata `meta`.
pub open spec fn dirall_map(m: Map<Seq<Seq<u8>>, NodeV>, p: Seq<Seq<u8>>, meta: Meta) -> Map<
    Seq<Seq<u8>>,
    NodeV,
>
    decreases p.len(),
{
    if p.len() <= 0 {
        m
    } else {
        let m1 = dirall_map(m, p.drop_last(), meta);
        if m1.dom().contains(p) {
            m1
        } else {
            m1.insert(p, NodeV::Dir { meta })
        }
    }
}

/// What `dirall_map` holds: the original keys with their original nodes, and
/// each missing prefix of `p` as a fresh directory.
pub proof fn lemma_dirall_facts(m: Map<Seq<Seq<u8>>, NodeV>, p: Seq<Seq<u8>>, meta: Meta)
    ensures
        forall|q: Seq<Seq<u8>>|
            #[trigger] dirall_map(m, p, meta).dom().contains(q) == (m.dom().contains(q) || (0
                < q.len() <= p.len() && q == p.take(q.len() as int))),
        forall|q: Seq<Seq<u8>>|
            m.dom().contains(q) ==> #[trigger] dirall_map(m, p, meta)[q] == m[q],
        forall|q: Seq<Seq<u8>>|
            !m.dom().contains(q) && #[trigger] dirall_map(m, p, meta).dom().contains(q)
                ==> dirall_map(m, p, meta)[q] == (NodeV::Dir { meta }),
    decreases p.len(),
{
    if p.len() > 0 {
        lemma_dirall_facts(m, p.drop_last(), meta);
        let m1 = dirall_map(m, p.drop_last(), meta);
        assert(p.take(p.len() as int) =~= p);
        assert forall|q: Seq<Seq<u8>>|
            #[trigger] dirall_map(m, p, meta).dom().contains(q) == (m.dom().contains(q) || (0
                < q.len() <= p.len() && q == p.take(q.len() as int))) by {
            if 0 < q.len() <= p.len() - 1 {
                assert(p.drop_last().take(q.len() as int) =~= p.take(q.len() as int));
            }
            if q.len() == p.len() && q == p.take(q.len() as int) {
                assert(q == p);
            }
        }
    }
}

/// `dirall_map` only ever adds keys.
pub proof fn lemma_dirall_mono(m: Map<Seq<Seq<u8>>, NodeV>, p: Seq<Seq<u8>>, meta: Meta)
    ensures
        forall|q: Seq<Seq<u8>>|
            m.dom().contains(q) ==> #[trigger] dirall_map(m, p, meta).dom().contains(q),
    decreases p.len(),
{
    if p.len() > 0 {
        lemma_dirall_mono(m, p.drop_last(), meta);
        assert forall|q: Seq<Seq<u8>>| m.dom().contains(q) implies #[trigger] dirall_map(
            m,
            p,
            meta,
        ).dom().contains(q) by {
            assert(dirall_map(m, p.drop_last(), meta).dom().contains(q));
        }
    }
}

/// When every nonempty prefix of `p` is already present, `dirall_map` changes
/// nothing.
pub proof fn lemma_dirall_present(m: Map<Seq<Seq<u8>>, NodeV>, p: Seq<Seq<u8>>, meta: Meta)
    requires
        forall|k: int| 0 < k <= p.len() ==> m.dom().contains(#[trigger] p.take(k)),
    ensures
        dirall_map(m, p, meta) == m,
    decreases p.len(),
{
    if p.len() > 0 {
        assert forall|k: int| 0 < k <= p.len() - 1 implies m.dom().contains(
            #[trigger] p.drop_last().take(k),
        ) by {
            assert(p.drop_last().take(k) =~= p.take(k));
        }
        lemma_dirall_present(m, p.drop_last(), meta);
        assert(p.take(p.len() as int) =~= p);
        assert(m.dom().contains(p));
    }
}

impl MemFS {
    /// Writes `node` at `p`, replacing whatever single node was there. The
    /// parent must already be a directory, and a non-directory may only be
    /// placed at a path without descendants.
    pub fn set_node(&mut self, p: &VfsPath, node: Node)
        requires
            old(self).wf(),
            pathv_wf(p@),
            p@.len() > 0,
            p@.len() > 1 ==> old(self).as_map().dom().contains(p@.drop_last()) && old(
                self,
            ).as_map()[p@.drop_last()] is Dir,
            node.v() is Dir || (forall|q: Seq<Seq<u8>>|
                #[trigger] old(self).as_map().dom().contains(q) ==> !is_strict_prefix(p@, q)),
        ensures
            final(self).wf(),
            final(self).as_map() == old(self).as_map().insert(p@, node.v()),
    {
        let ghost s = self@;
        let ghost nv = node.v();
        let (i, found) = self.locate(p);
        let e = FsEntry { path: p.duplicate(), node };
        let ghost ev = e;
        if found {
            self.entries.set(i, e);
            proof {
                lemma_fs_view_update(old(self).entries@, i as int, ev);
                assert(self@ =~= s.update(i as int, (p@, nv)));
                lemma_replace_entry(s, i as int, nv);
                assert(s.update(i as int, (s[i as int].0, nv)) =~= s.update(i as int, (p@, nv)));
            }
        } else {
            self.entries.insert(i, e);
            proof {
                lemma_fs_view_insert(old(self).entries@, i as int, ev);
                assert(self@ =~= s.insert(i as int, (p@, nv)));
                if p@.len() > 1 {
                    lemma_has_dir_iff(s, p@.drop_last());
                }
                lemma_insert_entry(s, i as int, p@, nv);
            }
        }
    }

    /// Creates `p` and every missing ancestor as directories with metadata
    /// `meta`; existing directories are left alone. Fails with
    /// `AlreadyExists`, touching nothing, when a non-directory stands on the
    /// way.
    #[verifier::rlimit(100)]
    pub fn create_dir_all(&mut self, p: &VfsPath, meta: Meta) -> (r: Result<(), Error>)
        requires
            old(self).wf(),
            pathv_wf(p@),
        ensures
            final(self).wf(),
            r is Ok <==> dirs_ok(old(self).as_map(), p@),
            r is Ok ==> final(self).as_map() == dirall_map(old(self).as_map(), p@, meta),
            r is Err ==> final(self)@ == old(self)@ && r->Err_0 == Error::AlreadyExists,
    {
        let ghost m0 = self.as_map();
        let n = p.depth();
        // find how deep the existing chain of directories reaches
        let mut i: usize = 0;
        let mut missing: bool = false;
        while i < n && !missing
            invariant
                self.wf(),
                self@ == old(self)@,
                m0 == self.as_map(),
                n == p@.len(),
                pathv_wf(p@),
                i <= n,
                !missing ==> forall|j: int|
                    0 < j <= i ==> m0.dom().contains(#[trigger] p@.take(j)) && m0[p@.take(j)]
                        is Dir,
                missing ==> i >= 1 && !m0.dom().contains(p@.take(i as int)) && forall|j: int|
                    0 < j < i ==> m0.dom().contains(#[trigger] p@.take(j)) && m0[p@.take(j)]
                        is Dir,
            decreases n - i,
        {
            let pre = p.take_prefix(i + 1);
            match self.kind_of(&pre) {
                Some(NodeKind::Dir) => {
                    i = i + 1;
                },
                Some(_) => {
                    proof {
                        assert(!dirs_ok(m0, p@));
                    }
                    return Err(Error::AlreadyExists);
                },
                None => {
                    missing = true;
                    i = i + 1;
                },
            }
        }
        // start of the missing tail, as an index below n
        let j0: usize = if missing {
            i - 1
        } else {
            n
        };
        proof {
            // beyond the first missing prefix everything is missing
            assert forall|t: int| j0 < t <= n implies !m0.dom().contains(
                #[trigger] p@.take(t),
            ) by {
                if missing && t > i - 1 {
                    if t > i && m0.dom().contains(p@.take(t)) {
                        lemma_ancestor_dirs(self@, p@.take(t), i as int);
                        assert(p@.take(t).take(i as int) =~= p@.take(i as int));
                    }
                }
            }
            assert(dirs_ok(m0, p@));
            assert forall|t: int| 0 < t <= j0 implies m0.dom().contains(
                #[trigger] p@.take(j0 as int).take(t),
            ) by {
                assert(p@.take(j0 as int).take(t) =~= p@.take(t));
            }
            lemma_dirall_present(m0, p@.take(j0 as int), meta);
        }
        // create the missing tail
        let mut j: usize = j0;
        while j < n
            invariant
                self.wf(),
                n == p@.len(),
                pathv_wf(p@),
                j0 <= j <= n,
                self.as_map() == dirall_map(m0, p@.take(j as int), meta),
                forall|t: int| j0 < t <= n ==> !m0.dom().contains(#[trigger] p@.take(t)),
                j > 0 ==> self.as_map().dom().contains(p@.take(j as int)) && self.as_map()[p@.take(
                    j as int,
                )] is Dir,
            decreases n - j,
        {
            let pre = p.take_prefix(j + 1);
            proof {
                assert(pathv_wf(pre@)) by {
                    assert forall|t: int| 0 <= t < pre@.len() implies seg_wf(
                        #[trigger] pre@[t],
                    ) by {
                        assert(pre@[t] == p@[t]);
                    }
                }
                assert(pre@.drop_last() =~= p@.take(j as int));
            }
            let ghost m_before = self.as_map();
            self.set_node(&pre, Node::Dir { meta });
            proof {
                lemma_dirall_facts(m0, p@.take(j as int), meta);
                assert(!m_before.dom().contains(pre@)) by {
                    if m_before.dom().contains(pre@) {
                        if !m0.dom().contains(pre@) {
                            assert(0 < pre@.len() <= j && pre@ == p@.take(j as int).take(
                                pre@.len() as int,
                            ));
                        }
                    }
                }
                assert(p@.take(j as int + 1).drop_last() =~= p@.take(j as int));
                assert(pre@ == p@.take(j as int + 1));
                assert(self.as_map() == dirall_map(m0, p@.take(j as int + 1), meta));
            }
            j = j + 1;
        }
        proof {
            assert(p@.take(n as int) =~= p@);
        }
        Ok(())
    }
}


impl MemFS {
    /// Writes a regular file at `p`, creating missing parent directories and
    /// replacing any file or symlink already there. Refuses to overwrite a
    /// directory.
    pub fn write_file(&mut self, p: &VfsPath, content: Vec<u8>, meta: Meta) -> (r: Result<
        (),
        Error,
    >)
        requires
            old(self).wf(),
            pathv_wf(p@),
            p@.len() > 0,
        ensures
            final(self).wf(),
            r is Ok <==> (dirs_ok(old(self).as_map(), p@.drop_last()) && !(old(
                self,
            ).as_map().dom().contains(p@) && old(self).as_map()[p@] is Dir)),
            r is Ok ==> final(self).as_map() == dirall_map(
                old(self).as_map(),
                p@.drop_last(),
                Meta::spec_dir_default(),
            ).insert(p@, NodeV::File { content: content@, meta }),
            r is Err ==> final(self)@ == old(self)@,
            r == Err::<(), Error>(Error::WrongType) <==> (old(self).as_map().dom().contains(p@)
                && old(self).as_map()[p@] is Dir),
            (r is Err && r->Err_0 != Error::WrongType) ==> r->Err_0 == Error::AlreadyExists
                && !dirs_ok(old(self).as_map(), p@.drop_last()),
    {
        let ghost m0 = self.as_map();
        match self.kind_of(p) {
            Some(NodeKind::Dir) => {
                return Err(Error::WrongType);
            },
            _ => {},
        }
        let parent = p.parent();
        proof {
            assert(pathv_wf(parent@)) by {
                assert forall|t: int| 0 <= t < parent@.len() implies seg_wf(
                    #[trigger] parent@[t],
                ) by {
                    assert(parent@[t] == p@[t]);
                }
            }
            if m0.dom().contains(p@) {
                // the parents of a present path are already directories
                assert forall|k: int| 0 < k <= parent@.len() implies (!m0.dom().contains(
                    #[trigger] parent@.take(k),
                ) || m0[parent@.take(k)] is Dir) by {
                    assert(parent@.take(k) =~= p@.take(k));
                    lemma_ancestor_dirs(self@, p@, k);
                }
            }
        }
        match self.create_dir_all(&parent, Meta::dir_default()) {
            Err(e) => {
                return Err(e);
            },
            Ok(()) => {},
        }
        proof {
            lemma_dirall_facts(m0, parent@, Meta::spec_dir_default());
            if parent@.len() > 0 {
                assert(parent@.take(parent@.len() as int) =~= parent@);
                assert(self.as_map().dom().contains(parent@) && self.as_map()[parent@] is Dir)
                    by {
                    if m0.dom().contains(parent@) {
                        assert(parent@ == p@.drop_last());
                    }
                }
            }
            // nothing has descendants below p
            if m0.dom().contains(p@) {
                lemma_nondir_no_descendants(old(self)@, p@);
            } else {
                lemma_missing_no_descendants(old(self)@, p@);
            }
            assert forall|q: Seq<Seq<u8>>| #[trigger] self.as_map().dom().contains(q) implies
                !is_strict_prefix(p@, q) by {
                if !m0.dom().contains(q) {
                    // a fresh ancestor directory is shorter than p
                    assert(q.len() <= parent@.len());
                }
            }
            assert(p@.drop_last() == parent@);
        }
        self.set_node(p, Node::File { content, meta });
        Ok(())
    }

    /// Creates an empty file at `p` if nothing is there, creating missing
    /// parents; an existing file is left untouched. Directories and symlinks
    /// are refused.
    pub fn touch(&mut self, p: &VfsPath, meta: Meta) -> (r: Result<(), Error>)
        requires
            old(self).wf(),
            pathv_wf(p@),
            p@.len() > 0,
        ensures
            final(self).wf(),
            r is Ok <==> ((old(self).as_map().dom().contains(p@) && old(self).as_map()[p@]
                is File) || (!old(self).as_map().dom().contains(p@) && dirs_ok(
                old(self).as_map(),
                p@.drop_last(),
            ))),
            (r is Ok && old(self).as_map().dom().contains(p@)) ==> final(self)@ == old(self)@,
            (r is Ok && !old(self).as_map().dom().contains(p@)) ==> final(self).as_map()
                == dirall_map(old(self).as_map(), p@.drop_last(), Meta::spec_dir_default()).insert(
                p@,
                NodeV::File { content: Seq::empty(), meta },
            ),
            r is Err ==> final(self)@ == old(self)@,
            r == Err::<(), Error>(Error::WrongType) <==> (old(self).as_map().dom().contains(p@)
                && !(old(self).as_map()[p@] is File)),
            (r is Err && r->Err_0 != Error::WrongType) ==> r->Err_0 == Error::AlreadyExists
                && !dirs_ok(old(self).as_map(), p@.drop_last()),
    {
        match self.kind_of(p) {
            Some(NodeKind::File) => {
                return Ok(());
            },
            Some(_) => {
                return Err(Error::WrongType);
            },
            None => {},
        }
        let ghost m0 = self.as_map();
        let parent = p.parent();
        proof {
            assert(pathv_wf(parent@)) by {
                assert forall|t: int| 0 <= t < parent@.len() implies seg_wf(
                    #[trigger] parent@[t],
                ) by {
                    assert(parent@[t] == p@[t]);
                }
            }
        }
        match self.create_dir_all(&parent, Meta::dir_default()) {
            Err(e) => {
                return Err(e);
            },
            Ok(()) => {},
        }
        proof {
            lemma_dirall_facts(m0, parent@, Meta::spec_dir_default());
            if parent@.len() > 0 {
                assert(parent@.take(parent@.len() as int) =~= parent@);
            }
            lemma_missing_no_descendants(old(self)@, p@);
            assert forall|q: Seq<Seq<u8>>| #[trigger] self.as_map().dom().contains(q) implies
                !is_strict_prefix(p@, q) by {
                if !m0.dom().contains(q) {
                    assert(q.len() <= parent@.len());
                }
            }
            assert(p@.drop_last() == parent@);
        }
        let content: Vec<u8> = Vec::new();
        self.set_node(p, Node::File { content, meta });
        Ok(())
    }

    /// Creates `p` as a symlink whose raw target is `target`, creating
    /// missing parents. Fails with `AlreadyExists` if anything is at `p`.
    pub fn symlink(&mut self, target: Vec<u8>, p: &VfsPath, meta: Meta) -> (r: Result<(), Error>)
        requires
            old(self).wf(),
            pathv_wf(p@),
            p@.len() > 0,
        ensures
            final(self).wf(),
            r is Ok <==> (!old(self).as_map().dom().contains(p@) && dirs_ok(
                old(self).as_map(),
                p@.drop_last(),
            )),
            r is Ok ==> final(self).as_map() == dirall_map(
                old(self).as_map(),
                p@.drop_last(),
                Meta::spec_dir_default(),
            ).insert(p@, NodeV::Symlink { target: target@, meta }),
            r is Err ==> final(self)@ == old(self)@ && r->Err_0 == Error::AlreadyExists,
    {
        match self.kind_of(p) {
            Some(_) => {
                return Err(Error::AlreadyExists);
            },
            None => {},
        }
        let ghost m0 = self.as_map();
        let parent = p.parent();
        proof {
            assert(pathv_wf(parent@)) by {
                assert forall|t: int| 0 <= t < parent@.len() implies seg_wf(
                    #[trigger] parent@[t],
                ) by {
                    assert(parent@[t] == p@[t]);
                }
            }
        }
        match self.create_dir_all(&parent, Meta::dir_default()) {
            Err(e) => {
                return Err(e);
            },
            Ok(()) => {},
        }
        proof {
            lemma_dirall_facts(m0, parent@, Meta::spec_dir_default());
            if parent@.len() > 0 {
                assert(parent@.take(parent@.len() as int) =~= parent@);
            }
            lemma_missing_no_descendants(old(self)@, p@);
            assert forall|q: Seq<Seq<u8>>| #[trigger] self.as_map().dom().contains(q) implies
                !is_strict_prefix(p@, q) by {
                if !m0.dom().contains(q) {
                    assert(q.len() <= parent@.len());
                }
            }
            assert(p@.drop_last() == parent@);
        }
        self.set_node(p, Node::Symlink { target, meta });
        Ok(())
    }

    /// Removes the contiguous block of entries `[a, b)`, which the callers
    /// show is exactly the subtree of `p`.
    fn remove_block(&mut self, a: usize, b: usize, Ghost(p): Ghost<Seq<Seq<u8>>>)
        requires
            old(self).wf(),
            a <= b <= old(self)@.len(),
            forall|k: int| a <= k < b ==> subtree_keys(p).contains((#[trigger] old(self)@[k]).0),
            forall|k: int| 0 <= k < a ==> !subtree_keys(p).contains((#[trigger] old(self)@[k]).0),
            forall|k: int|
                b <= k < old(self)@.len() ==> !subtree_keys(p).contains(
                    (#[trigger] old(self)@[k]).0,
                ),
        ensures
            final(self).wf(),
            final(self)@ == old(self)@.take(a as int) + old(self)@.skip(b as int),
            final(self).as_map() == old(self).as_map().remove_keys(subtree_keys(p)),
    {
        let ghost s = self@;
        let mut r: usize = 0;
        while r < b - a
            invariant
                a <= b <= s.len(),
                r <= b - a,
                self@ =~= s.take(a as int) + s.skip(a as int + r),
                self.entries@.len() == s.len() - r,
            decreases b - a - r,
        {
            let ghost before = self.entries@;
            self.entries.remove(a);
            proof {
                lemma_fs_view_remove(before, a as int);
                assert(fs_view(before).remove(a as int) =~= s.take(a as int) + s.skip(
                    a as int + r + 1,
                ));
            }
            r = r + 1;
        }
        proof {
            lemma_remove_range(s, a as int, b as int, p);
            assert(self@ =~= s.take(a as int) + s.skip(b as int));
        }
    }

    /// Removes the file or symlink at `p`. Directories are refused.
    pub fn remove_file(&mut self, p: &VfsPath) -> (r: Result<(), Error>)
        requires
            old(self).wf(),
            pathv_wf(p@),
            p@.len() > 0,
        ensures
            final(self).wf(),
            r is Ok <==> (old(self).as_map().dom().contains(p@) && !(old(self).as_map()[p@]
                is Dir)),
            r is Ok ==> final(self).as_map() == old(self).as_map().remove(p@),
            r is Err ==> final(self)@ == old(self)@,
            r == Err::<(), Error>(Error::NotFound) <==> !old(self).as_map().dom().contains(p@),
            r == Err::<(), Error>(Error::WrongType) <==> (old(self).as_map().dom().contains(p@)
                && old(self).as_map()[p@] is Dir),
    {
        let ghost s = self@;
        let (a, found) = self.locate(p);
        if !found {
            return Err(Error::NotFound);
        }
        match self.entries[a].node.kind() {
            NodeKind::Dir => {
                return Err(Error::WrongType);
            },
            _ => {},
        }
        proof {
            lemma_nondir_no_descendants(s, p@);
            assert forall|k: int| 0 <= k < s.len() && k != a implies !subtree_keys(p@).contains(
                (#[trigger] s[k]).0,
            ) by {
                lemma_map_at(s, k);
                if s[k].0 == p@ {
                    lemma_sorted_unique(s, k, a as int);
                }
            }
            assert(subtree_keys(p@).contains(s[a as int].0));
        }
        let _n = self.entries.len();
        self.remove_block(a, a + 1, Ghost(p@));
        proof {
            assert(self.as_map() =~= map_of(s).remove(p@)) by {
                lemma_nondir_no_descendants(s, p@);
                assert(self.as_map() == map_of(s).remove_keys(subtree_keys(p@)));
                assert forall|q: Seq<Seq<u8>>|
                    #[trigger] map_of(s).dom().contains(q) && q != p@ implies !subtree_keys(
                    p@,
                ).contains(q) by {}
            }
        }
        Ok(())
    }

    /// Removes `p` and, when it is a directory, everything below it.
    pub fn remove_dir_all(&mut self, p: &VfsPath) -> (r: Result<(), Error>)
        requires
            old(self).wf(),
            pathv_wf(p@),
            p@.len() > 0,
        ensures
            final(self).wf(),
            r is Ok <==> old(self).as_map().dom().contains(p@),
            r is Ok ==> final(self).as_map() == old(self).as_map().remove_keys(subtree_keys(p@)),
            r is Err ==> final(self)@ == old(self)@ && r->Err_0 == Error::NotFound,
    {
        let ghost s = self@;
        let (a, found) = self.locate(p);
        if !found {
            return Err(Error::NotFound);
        }
        let n = self.entries.len();
        let mut b: usize = a + 1;
        let mut scanning: bool = true;
        while scanning && b < n
            invariant
                self.wf(),
                s == self@,
                n == s.len(),
                a < b <= n,
                s[a as int].0 == p@,
                pathv_wf(p@),
                p@.len() > 0,
                forall|k: int|
                    a < k < b ==> is_strict_prefix(p@, (#[trigger] s[k]).0),
                !scanning ==> b < n && !is_strict_prefix(p@, s[b as int].0),
            decreases n - b + (if scanning { 1int } else { 0int }),
        {
            let q = self.path_at(b);
            if p.is_ancestor_of(&q) {
                b = b + 1;
            } else {
                scanning = false;
            }
        }
        proof {
            // the subtree is exactly the block [a, b)
            assert forall|k: int| a <= k < b implies subtree_keys(p@).contains(
                (#[trigger] s[k]).0,
            ) by {}
            assert forall|k: int| 0 <= k < a implies !subtree_keys(p@).contains(
                (#[trigger] s[k]).0,
            ) by {
                assert(path_lt(s[k].0, s[a as int].0));
                if s[k].0 == p@ {
                    lemma_path_lt_irrefl(p@);
                }
                if is_strict_prefix(p@, s[k].0) {
                    lemma_prefix_lt(p@, s[k].0);
                    lemma_path_lt_asymm(p@, s[k].0);
                }
            }
            assert forall|k: int| b <= k < n implies !subtree_keys(p@).contains(
                (#[trigger] s[k]).0,
            ) by {
                if s[k].0 == p@ {
                    lemma_sorted_unique(s, k, a as int);
                }
                if is_strict_prefix(p@, s[k].0) {
                    assert(!scanning || b == n);
                    assert(b < n);
                    if k > b {
                        lemma_between_prefix(p@, s[b as int].0, s[k].0);
                    }
                }
            }
        }
        self.remove_block(a, b, Ghost(p@));
        Ok(())
    }

    /// The content of the regular file at `p`.
    pub fn read_file(&self, p: &VfsPath) -> (r: Result<Vec<u8>, Error>)
        requires
            self.wf(),
        ensures
            r is Ok <==> (self.as_map().dom().contains(p@) && self.as_map()[p@] is File),
            r is Ok ==> r->Ok_0@ == self.as_map()[p@]->File_content,
            r is Err ==> (r->Err_0 == Error::NotFound <==> !self.as_map().dom().contains(p@)) && (
            r->Err_0 == Error::WrongType <==> (self.as_map().dom().contains(p@) && !(
            self.as_map()[p@] is File))),
    {
        let (i, found) = self.locate(p);
        if !found {
            return Err(Error::NotFound);
        }
        match &self.entries[i].node {
            Node::File { content, .. } => Ok(copy_bytes(content)),
            _ => Err(Error::WrongType),
        }
    }

    /// The raw target of the symlink at `p`.
    pub fn read_link(&self, p: &VfsPath) -> (r: Result<Vec<u8>, Error>)
        requires
            self.wf(),
        ensures
            r is Ok <==> (self.as_map().dom().contains(p@) && self.as_map()[p@] is Symlink),
            r is Ok ==> r->Ok_0@ == self.as_map()[p@]->Symlink_target,
            r is Err ==> (r->Err_0 == Error::NotFound <==> !self.as_map().dom().contains(p@)) && (
            r->Err_0 == Error::WrongType <==> (self.as_map().dom().contains(p@) && !(
            self.as_map()[p@] is Symlink))),
    {
        let (i, found) = self.locate(p);
        if !found {
            return Err(Error::NotFound);
        }
        match &self.entries[i].node {
            Node::Symlink { target, .. } => Ok(copy_bytes(target)),
            _ => Err(Error::WrongType),
        }
    }
}


/// The sum of the file sizes of an entry sequence.
pub open spec fn size_spec(s: Seq<(Seq<Seq<u8>>, NodeV)>) -> nat
    decreases s.len(),
{
    if s.len() == 0 {
        0
    } else {
        size_spec(s.drop_last()) + s.last().1.size()
    }
}

/// The result of dereferencing symlinks at `p`, at most `8 - depth` more
/// hops. A missing path resolves to itself; symlink targets are read as
/// paths from the root.
pub open spec fn resolve_spec(
    m: Map<Seq<Seq<u8>>, NodeV>,
    p: Seq<Seq<u8>>,
    depth: int,
) -> Result<Seq<Seq<u8>>, Error>
    decreases 9 - depth,
{
    if depth > 8 {
        Err(Error::TooManySymlinks)
    } else if m.dom().contains(p) && m[p] is Symlink {
        resolve_spec(m, parse_spec(m[p]->Symlink_target), depth + 1)
    } else {
        Ok(p)
    }
}

/// The names of the immediate children of `p`, in the canonical order.
pub open spec fn child_names(s: Seq<(Seq<Seq<u8>>, NodeV)>, p: Seq<Seq<u8>>) -> Seq<Seq<u8>>
    decreases s.len(),
{
    if s.len() == 0 {
        Seq::empty()
    } else {
        let rest = child_names(s.drop_last(), p);
        if s.last().0.len() == p.len() + 1 && s.last().0.take(p.len() as int) == p {
            rest.push(s.last().0.last())
        } else {
            rest
        }
    }
}

impl MemFS {
    /// The total number of content bytes stored in the tree, saturating at
    /// the largest representable size.
    pub fn size(&self) -> (r: u64)
        requires
            self.wf(),
        ensures
            size_spec(self@) <= u64::MAX ==> r == size_spec(self@),
            size_spec(self@) > u64::MAX ==> r == u64::MAX,
    {
        let n = self.entries.len();
        let mut total: u64 = 0;
        let mut sat: bool = false;
        let mut i: usize = 0;
        while i < n
            invariant
                self.wf(),
                n == self@.len(),
                i <= n,
                !sat ==> total == size_spec(self@.take(i as int)),
                sat ==> size_spec(self@.take(i as int)) > u64::MAX,
            decreases n - i,
        {
            proof {
                assert(self@.take(i + 1).drop_last() =~= self@.take(i as int));
                assert(self@.take(i + 1).last() == self@[i as int]);
            }
            match &self.entries[i].node {
                Node::File { content, .. } => {
                    let len64: u64 = content.len() as u64;
                    if !sat {
                        if len64 > u64::MAX - total {
                            sat = true;
                            total = u64::MAX;
                        } else {
                            total = total + len64;
                        }
                    }
                },
                _ => {},
            }
            i = i + 1;
        }
        proof {
            assert(self@.take(n as int) =~= self@);
        }
        if sat {
            u64::MAX
        } else {
            total
        }
    }

    /// Dereferences symlinks at `p` until a non-symlink (or missing) path is
    /// reached, up to eight hops; longer chains fail with `TooManySymlinks`.
    /// Symlink targets are interpreted as paths from the root.
    pub fn resolve_symlink(&self, p: &VfsPath) -> (r: Result<VfsPath, Error>)
        requires
            self.wf(),
        ensures
            (match r {
                Ok(q) => resolve_spec(self.as_map(), p@, 0) == Ok::<Seq<Seq<u8>>, Error>(q@)
                    && q.wf() || (resolve_spec(self.as_map(), p@, 0) == Ok::<
                    Seq<Seq<u8>>,
                    Error,
                >(q@) && q@ == p@),
                Err(e) => resolve_spec(self.as_map(), p@, 0) == Err::<Seq<Seq<u8>>, Error>(e),
            }),
    {
        let mut cur = p.duplicate();
        let mut depth: u8 = 0;
        while depth <= 8
            invariant
                self.wf(),
                depth <= 9,
                resolve_spec(self.as_map(), p@, 0) == resolve_spec(
                    self.as_map(),
                    cur@,
                    depth as int,
                ),
                cur@ == p@ || cur.wf(),
            decreases 9 - depth,
        {
            match self.node_of(&cur) {
                Some(Node::Symlink { target, .. }) => {
                    cur = VfsPath::parse(target.as_slice());
                    depth = depth + 1;
                },
                _ => {
                    return Ok(cur);
                },
            }
        }
        Err(Error::TooManySymlinks)
    }

    /// The names of the entries of the directory `p`, in the canonical
    /// (lexicographic) order. The root can always be listed.
    pub fn read_dir(&self, p: &VfsPath) -> (r: Result<Vec<Vec<u8>>, Error>)
        requires
            self.wf(),
        ensures
            r is Ok <==> (p@.len() == 0 || (self.as_map().dom().contains(p@) && self.as_map()[p@]
                is Dir)),
            r is Ok ==> crate::paths::segs_view(r->Ok_0@) == child_names(self@, p@),
            r is Err ==> (r->Err_0 == Error::NotFound <==> !self.as_map().dom().contains(p@)) && (
            r->Err_0 == Error::WrongType <==> (self.as_map().dom().contains(p@) && !(
            self.as_map()[p@] is Dir))),
    {
        if !p.is_root() {
            match self.kind_of(p) {
                Some(NodeKind::Dir) => {},
                Some(_) => {
                    return Err(Error::WrongType);
                },
                None => {
                    return Err(Error::NotFound);
                },
            }
        }
        let n = self.entries.len();
        let mut out: Vec<Vec<u8>> = Vec::new();
        let mut i: usize = 0;
        while i < n
            invariant
                self.wf(),
                n == self@.len(),
                i <= n,
                crate::paths::segs_view(out@) =~= child_names(self@.take(i as int), p@),
            decreases n - i,
        {
            proof {
                assert(self@.take(i + 1).drop_last() =~= self@.take(i as int));
                assert(self@.take(i + 1).last() == self@[i as int]);
            }
            let q = self.path_at(i);
            let dq = q.depth();
            if dq >= 1 && dq - 1 == p.depth() && p.is_ancestor_of(&q) {
                out.push(q.base());
                proof {
                    assert(q@.last() == self@[i as int].0.last());
                }
            } else {
                proof {
                    if q@.len() == p@.len() + 1 && q@.take(p@.len() as int) == p@ {
                        assert(is_strict_prefix(p@, q@));
                        assert(false);
                    }
                }
            }
            i = i + 1;
        }
        proof {
            assert(self@.take(n as int) =~= self@);
        }
        Ok(out)
    }
}


/// Appending one fresh entry extends the map by that binding.
pub proof fn lemma_insert_entry_at_end(s: Seq<(Seq<Seq<u8>>, NodeV)>, i: int)
    requires
        entries_sorted(s),
        0 < i <= s.len(),
    ensures
        map_of(s.take(i)) =~= map_of(s.take(i - 1)).insert(s[i - 1].0, s[i - 1].1),
{
    let t = s.take(i);
    let t0 = s.take(i - 1);
    let pv = s[i - 1].0;
    assert(entries_sorted(t)) by {
        assert forall|x: int, y: int| 0 <= x < y < t.len() implies path_lt(
            (#[trigger] t[x]).0,
            (#[trigger] t[y]).0,
        ) by {
            assert(t[x] == s[x] && t[y] == s[y]);
        }
    }
    assert forall|q: Seq<Seq<u8>>| #[trigger] seq_has_path(t, q) implies (seq_has_path(t0, q) || q
        == pv) by {
        let k = choose|k: int| 0 <= k < t.len() && (#[trigger] t[k]).0 == q;
        if k < i - 1 {
            assert(t0[k].0 == q);
        }
    }
    assert forall|q: Seq<Seq<u8>>| #[trigger] seq_has_path(t0, q) implies seq_has_path(t, q) by {
        let k = choose|k: int| 0 <= k < t0.len() && (#[trigger] t0[k]).0 == q;
        assert(t[k].0 == q);
    }
    assert(seq_has_path(t, pv)) by {
        assert(t[i - 1].0 == pv);
    }
    assert forall|q: Seq<Seq<u8>>| #[trigger] seq_has_path(t, q) implies map_of(t)[q] == map_of(
        t0,
    ).insert(pv, s[i - 1].1)[q] by {
        lemma_map_contains(t, q);
        let j = seq_idx_of(t, q);
        if q == pv {
            lemma_sorted_unique(t, j, i - 1);
            assert(map_of(t)[q] == s[i - 1].1);
        } else {
            assert(j < i - 1);
            assert(t0[j].0 == q && t0[j].1 == t[j].1);
            assert(entries_sorted(t0)) by {
                assert forall|x: int, y: int| 0 <= x < y < t0.len() implies path_lt(
                    (#[trigger] t0[x]).0,
                    (#[trigger] t0[y]).0,
                ) by {
                    assert(t0[x] == s[x] && t0[y] == s[y]);
                }
            }
            lemma_map_at(t0, j);
        }
    }
}

/// Inserting a sorted, internally parent-closed block of entries at its
/// sorted position adds exactly those paths to the map.
pub proof fn lemma_insert_block(
    s: Seq<(Seq<Seq<u8>>, NodeV)>,
    i: int,
    blk: Seq<(Seq<Seq<u8>>, NodeV)>,
)
    requires
        fs_wf(s),
        0 <= i <= s.len(),
        entries_sorted(blk),
        entries_paths_wf(blk),
        forall|k: int, j: int|
            0 <= k < i && 0 <= j < blk.len() ==> path_lt((#[trigger] s[k]).0, (#[trigger] blk[j]).0),
        forall|k: int, j: int|
            i <= k < s.len() && 0 <= j < blk.len() ==> path_lt(
                (#[trigger] blk[j]).0,
                (#[trigger] s[k]).0,
            ),
        forall|j: int|
            0 <= j < blk.len() && (#[trigger] blk[j]).0.len() > 1 ==> has_dir(
                s,
                blk[j].0.drop_last(),
            ) || has_dir(blk, blk[j].0.drop_last()),
    ensures
        fs_wf(s.take(i) + blk + s.skip(i)),
        map_of(s.take(i) + blk + s.skip(i)) =~= map_of(s).union_prefer_right(map_of(blk)),
{
    let s2 = s.take(i) + blk + s.skip(i);
    let w = blk.len() as int;
    assert forall|k: int| 0 <= k < s2.len() implies (#[trigger] s2[k])
        == (if k < i { s[k] } else if k < i + w { blk[k - i] } else { s[k - w] }) by {}
    assert(entries_sorted(s2)) by {
        assert forall|x: int, y: int| 0 <= x < y < s2.len() implies path_lt(
            (#[trigger] s2[x]).0,
            (#[trigger] s2[y]).0,
        ) by {
            if x < i && y < i {
            } else if x < i && y < i + w {
                assert(path_lt(s[x].0, blk[y - i].0));
            } else if x < i {
                assert(path_lt(s[x].0, s[y - w].0));
            } else if x < i + w && y < i + w {
            } else if x < i + w {
                assert(path_lt(blk[x - i].0, s[y - w].0));
            } else {
            }
        }
    }
    assert(entries_paths_wf(s2)) by {
        assert forall|k: int| 0 <= k < s2.len() implies pathv_wf((#[trigger] s2[k]).0)
            && s2[k].0.len() > 0 by {}
    }
    assert(parent_closed(s2)) by {
        assert forall|k: int| 0 <= k < s2.len() && (#[trigger] s2[k]).0.len() > 1 implies has_dir(
            s2,
            s2[k].0.drop_last(),
        ) by {
            if i <= k < i + w {
                // a block entry: its parent sits in s or in the block
                if has_dir(s, blk[k - i].0.drop_last()) {
                    let v = choose|v: int|
                        0 <= v < s.len() && (#[trigger] s[v]).0 == blk[k - i].0.drop_last() && s[v].1
                            is Dir;
                    if v < i {
                        assert(s2[v] == s[v]);
                    } else {
                        assert(s2[v + w] == s[v]);
                    }
                } else {
                    let v = choose|v: int|
                        0 <= v < blk.len() && (#[trigger] blk[v]).0 == blk[k - i].0.drop_last()
                            && blk[v].1 is Dir;
                    assert(s2[v + i] == blk[v]);
                }
            } else {
                let k0: int = if k < i { k } else { k - w };
                assert(s2[k].0 == s[k0].0);
                assert(has_dir(s, s[k0].0.drop_last()));
                let v = choose|v: int|
                    0 <= v < s.len() && (#[trigger] s[v]).0 == s[k0].0.drop_last() && s[v].1 is Dir;
                if v < i {
                    assert(s2[v] == s[v]);
                } else {
                    assert(s2[v + w] == s[v]);
                }
            }
        }
    }
    assert forall|q: Seq<Seq<u8>>| #[trigger] seq_has_path(s2, q) implies (seq_has_path(s, q)
        || seq_has_path(blk, q)) by {
        let k = choose|k: int| 0 <= k < s2.len() && (#[trigger] s2[k]).0 == q;
        if k < i {
            assert(s[k].0 == q);
        } else if k < i + w {
            assert(blk[k - i].0 == q);
        } else {
            assert(s[k - w].0 == q);
        }
    }
    assert forall|q: Seq<Seq<u8>>| #[trigger] seq_has_path(s, q) implies seq_has_path(s2, q) by {
        let k = choose|k: int| 0 <= k < s.len() && (#[trigger] s[k]).0 == q;
        if k < i {
            assert(s2[k].0 == q);
        } else {
            assert(s2[k + w].0 == q);
        }
    }
    assert forall|q: Seq<Seq<u8>>| #[trigger] seq_has_path(blk, q) implies seq_has_path(s2, q) by {
        let k = choose|k: int| 0 <= k < blk.len() && (#[trigger] blk[k]).0 == q;
        assert(s2[k + i].0 == q);
    }
    assert forall|q: Seq<Seq<u8>>| #[trigger] seq_has_path(s2, q) implies map_of(s2)[q] == map_of(
        s,
    ).union_prefer_right(map_of(blk))[q] by {
        lemma_map_contains(s2, q);
        let j = seq_idx_of(s2, q);
        if j < i {
            // from s; q cannot be in blk (strict order both ways)
            lemma_map_at(s, j);
            if seq_has_path(blk, q) {
                let v = choose|v: int| 0 <= v < blk.len() && (#[trigger] blk[v]).0 == q;
                lemma_path_lt_irrefl(q);
            }
        } else if j < i + w {
            assert(s2[j].1 == blk[j - i].1);
            lemma_map_at(blk, j - i);
        } else {
            lemma_map_at(s, j - w);
            if seq_has_path(blk, q) {
                let v = choose|v: int| 0 <= v < blk.len() && (#[trigger] blk[v]).0 == q;
                lemma_path_lt_irrefl(q);
            }
        }
    }
    assert(map_of(s2) =~= map_of(s).union_prefer_right(map_of(blk)));
}

/// The subtree of `src` re-rooted at `dest`, as a map: for every key of `m`
/// of the form `src + tail`, the key `dest + tail` with the same node.
pub open spec fn reroot_overlay(
    m: Map<Seq<Seq<u8>>, NodeV>,
    src: Seq<Seq<u8>>,
    dest: Seq<Seq<u8>>,
) -> Map<Seq<Seq<u8>>, NodeV> {
    Map::new(
        |q: Seq<Seq<u8>>|
            q.len() >= dest.len() && q.take(dest.len() as int) == dest && m.dom().contains(
                src + q.skip(dest.len() as int),
            ),
        |q: Seq<Seq<u8>>| m[src + q.skip(dest.len() as int)],
    )
}


/// The rename operation as a function on maps: the error it reports, or the
/// map after a successful move.
pub open spec fn rename_spec(
    m: Map<Seq<Seq<u8>>, NodeV>,
    src: Seq<Seq<u8>>,
    dest: Seq<Seq<u8>>,
) -> Result<Map<Seq<Seq<u8>>, NodeV>, Error> {
    if !m.dom().contains(src) {
        Err(Error::NotFound)
    } else if src == dest {
        Ok(m)
    } else if is_strict_prefix(src, dest) {
        Err(Error::UnsupportedOperation)
    } else if m.dom().contains(dest) && m[dest] is Dir {
        Err(Error::AlreadyExists)
    } else if m.dom().contains(dest) && m[src] is Dir {
        Err(Error::WrongType)
    } else if !dirs_ok(m, dest.drop_last()) {
        Err(Error::AlreadyExists)
    } else {
        Ok(
            dirall_map(m, dest.drop_last(), Meta::spec_dir_default()).remove_keys(
                subtree_keys(src),
            ).union_prefer_right(reroot_overlay(m, src, dest)),
        )
    }
}

/// When a rename from `src` to `dest` succeeds: the source exists, and the
/// destination is either the source itself or a free or replaceable spot.
pub open spec fn rename_ok(m: Map<Seq<Seq<u8>>, NodeV>, src: Seq<Seq<u8>>, dest: Seq<Seq<u8>>) -> bool {
    &&& m.dom().contains(src)
    &&& src == dest || {
        &&& !is_strict_prefix(src, dest)
        &&& dirs_ok(m, dest.drop_last())
        &&& !(m.dom().contains(dest) && (m[dest] is Dir || m[src] is Dir))
    }
}

impl MemFS {
    /// Moves the node at `src` (with its whole subtree, for a directory) to
    /// `dest`, creating `dest`'s missing parents. A file or symlink may
    /// replace an existing file or symlink at `dest`; a directory may only
    /// move to a free path. Moving a path into its own subtree, onto an
    /// existing directory, or a directory onto a file, is refused.
    #[verifier::rlimit(100)]
    pub fn rename(&mut self, src: &VfsPath, dest: &VfsPath) -> (r: Result<(), Error>)
        requires
            old(self).wf(),
            pathv_wf(src@),
            pathv_wf(dest@),
            src@.len() > 0,
            dest@.len() > 0,
        ensures
            final(self).wf(),
            r is Ok <==> rename_ok(old(self).as_map(), src@, dest@),
            (r is Ok && src@ == dest@) ==> final(self)@ == old(self)@,
            (r is Ok && src@ != dest@) ==> final(self).as_map() == dirall_map(
                old(self).as_map(),
                dest@.drop_last(),
                Meta::spec_dir_default(),
            ).remove_keys(subtree_keys(src@)).union_prefer_right(
                reroot_overlay(old(self).as_map(), src@, dest@),
            ),
            r is Err ==> final(self)@ == old(self)@,
            r == Err::<(), Error>(Error::NotFound) <==> !old(self).as_map().dom().contains(src@),
            r == Err::<(), Error>(Error::UnsupportedOperation) <==> (old(
                self,
            ).as_map().dom().contains(src@) && is_strict_prefix(src@, dest@)),
            r == Err::<(), Error>(Error::WrongType) <==> (old(self).as_map().dom().contains(src@)
                && !is_strict_prefix(src@, dest@) && src@ != dest@ && old(
                self,
            ).as_map().dom().contains(dest@) && !(old(self).as_map()[dest@] is Dir) && old(
                self,
            ).as_map()[src@] is Dir),
            r is Ok ==> rename_spec(old(self).as_map(), src@, dest@) == Ok::<
                Map<Seq<Seq<u8>>, NodeV>,
                Error,
            >(final(self).as_map()),
            r matches Err(e) ==> rename_spec(old(self).as_map(), src@, dest@) == Err::<
                Map<Seq<Seq<u8>>, NodeV>,
                Error,
            >(e),
    {
        let ghost m0 = self.as_map();
        let ghost s0 = self@;
        // pre-flight checks; nothing is touched before they all pass
        if self.kind_of(src).is_none() {
            return Err(Error::NotFound);
        }
        if src.eq_path(dest) {
            return Ok(());
        }
        if src.is_ancestor_of(dest) {
            return Err(Error::UnsupportedOperation);
        }
        let src_is_dir = match self.kind_of(src) {
            Some(NodeKind::Dir) => true,
            _ => false,
        };
        match self.kind_of(dest) {
            Some(NodeKind::Dir) => {
                return Err(Error::AlreadyExists);
            },
            Some(_) => {
                if src_is_dir {
                    return Err(Error::WrongType);
                }
            },
            None => {},
        }
        let dparent = dest.parent();
        proof {
            assert(pathv_wf(dparent@)) by {
                assert forall|t: int| 0 <= t < dparent@.len() implies seg_wf(
                    #[trigger] dparent@[t],
                ) by {
                    assert(dparent@[t] == dest@[t]);
                }
            }
        }
        match self.create_dir_all(&dparent, Meta::dir_default()) {
            Err(e) => {
                return Err(e);
            },
            Ok(()) => {},
        }
        let ghost m1 = self.as_map();
        let ghost s1 = self@;
        proof {
            lemma_dirall_facts(m0, dparent@, Meta::spec_dir_default());
            // keys added by create_dir_all are proper prefixes of dest and
            // never touch src's subtree or dest itself
            assert forall|q: Seq<Seq<u8>>| #[trigger] m1.dom().contains(q) && !m0.dom().contains(
                q,
            ) implies q.len() < dest@.len() && !subtree_keys(src@).contains(q) by {
                assert(0 < q.len() <= dparent@.len() && q == dparent@.take(q.len() as int));
                if subtree_keys(src@).contains(q) {
                    // src would be a prefix of dest
                    assert(dest@.take(q.len() as int) =~= dparent@.take(q.len() as int));
                    if q == src@ {
                        assert(dest@.take(src@.len() as int) == src@);
                        assert(is_strict_prefix(src@, dest@));
                    } else {
                        assert(is_strict_prefix(src@, q));
                        assert(q.take(src@.len() as int) == src@);
                        assert(dest@.take(src@.len() as int) =~= q.take(src@.len() as int));
                        assert(is_strict_prefix(src@, dest@));
                    }
                    assert(false);
                }
            }
            assert(m1.dom().contains(src@) && m1[src@] == m0[src@]);
            if dparent@.len() > 0 {
                assert(dparent@.take(dparent@.len() as int) =~= dparent@);
                assert(m1.dom().contains(dparent@) && m1[dparent@] is Dir) by {
                    if m0.dom().contains(dparent@) {
                        assert(dparent@ == dest@.drop_last());
                    }
                }
            }
            // dest is absent from m1 unless it was a file or symlink in m0
            assert(m1.dom().contains(dest@) == m0.dom().contains(dest@));
            if m0.dom().contains(dest@) {
                assert(m1[dest@] == m0[dest@]);
            }
        }
        let node = match self.node_of(src) {
            Some(n) => n,
            None => {
                return Err(Error::IoError(String::new()));
            },
        };
        if !src_is_dir {
            // single node: remove it, then place it at dest
            match self.remove_file(src) {
                Ok(()) => {},
                Err(_) => {
                    return Err(Error::IoError(String::new()));
                },
            }
            proof {
                assert(self.as_map() == m1.remove(src@));
                if dest@.len() > 1 {
                    assert(dparent@ != src@) by {
                        if dparent@ == src@ {
                            assert(dest@.take(src@.len() as int) =~= dparent@);
                            assert(is_strict_prefix(src@, dest@));
                        }
                    }
                    assert(self.as_map().dom().contains(dest@.drop_last())
                        && self.as_map()[dest@.drop_last()] is Dir) by {
                        assert(dest@.drop_last() == dparent@);
                    }
                }
                // no descendants below dest
                if self.as_map().dom().contains(dest@) {
                    lemma_nondir_no_descendants(self@, dest@);
                } else {
                    lemma_missing_no_descendants(self@, dest@);
                }
            }
            self.set_node(dest, node);
            proof {
                lemma_nondir_no_descendants(s0, src@);
                let target = dirall_map(
                    m0,
                    dest@.drop_last(),
                    Meta::spec_dir_default(),
                ).remove_keys(subtree_keys(src@)).union_prefer_right(
                    reroot_overlay(m0, src@, dest@),
                );
                assert(dest@.drop_last() == dparent@);
                // the overlay of a leaf is the single binding dest -> m0[src]
                assert forall|q: Seq<Seq<u8>>|
                    #[trigger] reroot_overlay(m0, src@, dest@).dom().contains(q) implies q == dest@
                    by {
                    let tail = q.skip(dest@.len() as int);
                    if tail.len() > 0 {
                        assert(is_strict_prefix(src@, src@ + tail)) by {
                            assert((src@ + tail).take(src@.len() as int) =~= src@);
                        }
                        assert(false);
                    } else {
                        assert(q =~= dest@);
                    }
                }
                assert(reroot_overlay(m0, src@, dest@).dom().contains(dest@)) by {
                    assert(dest@.take(dest@.len() as int) =~= dest@);
                    assert(dest@.skip(dest@.len() as int) =~= Seq::<Seq<u8>>::empty());
                    assert(src@ + dest@.skip(dest@.len() as int) =~= src@);
                }
                assert(reroot_overlay(m0, src@, dest@)[dest@] == m0[src@]) by {
                    assert(src@ + dest@.skip(dest@.len() as int) =~= src@);
                }
                // removing the subtree of a leaf removes just the leaf
                assert forall|q: Seq<Seq<u8>>| #[trigger] m1.dom().contains(q) && q != src@
                    implies !subtree_keys(src@).contains(q) by {
                    if is_strict_prefix(src@, q) {
                        assert(m0.dom().contains(q));
                    }
                }
                assert(self.as_map() =~= target);
            }
            return Ok(());
        }
        // a directory moves with its whole subtree
        let (a, found) = self.locate(src);
        proof {
            assert(found);
        }
        let n = self.entries.len();
        let mut b: usize = a + 1;
        let mut scanning: bool = true;
        while scanning && b < n
            invariant
                self.wf(),
                s1 == self@,
                n == s1.len(),
                a < b <= n,
                s1[a as int].0 == src@,
                pathv_wf(src@),
                src@.len() > 0,
                forall|k: int| a < k < b ==> is_strict_prefix(src@, (#[trigger] s1[k]).0),
                !scanning ==> b < n && !is_strict_prefix(src@, s1[b as int].0),
            decreases n - b + (if scanning { 1int } else { 0int }),
        {
            let q = self.path_at(b);
            if src.is_ancestor_of(&q) {
                b = b + 1;
            } else {
                scanning = false;
            }
        }
        proof {
            assert forall|k: int| a <= k < b implies subtree_keys(src@).contains(
                (#[trigger] s1[k]).0,
            ) by {}
            assert forall|k: int| 0 <= k < a implies !subtree_keys(src@).contains(
                (#[trigger] s1[k]).0,
            ) by {
                assert(path_lt(s1[k].0, s1[a as int].0));
                if s1[k].0 == src@ {
                    lemma_path_lt_irrefl(src@);
                }
                if is_strict_prefix(src@, s1[k].0) {
                    lemma_prefix_lt(src@, s1[k].0);
                    lemma_path_lt_asymm(src@, s1[k].0);
                }
            }
            assert forall|k: int| b <= k < n implies !subtree_keys(src@).contains(
                (#[trigger] s1[k]).0,
            ) by {
                if s1[k].0 == src@ {
                    lemma_sorted_unique(s1, k, a as int);
                }
                if is_strict_prefix(src@, s1[k].0) {
                    assert(b < n);
                    if k > b {
                        lemma_between_prefix(src@, s1[b as int].0, s1[k].0);
                    }
                }
            }
        }
        // collect the subtree, re-rooted under dest
        let src_d = src.depth();
        let mut blk: Vec<FsEntry> = Vec::new();
        let mut k: usize = a;
        while k < b
            invariant
                self.wf(),
                s1 == self@,
                a <= k <= b,
                b <= s1.len(),
                s1[a as int].0 == src@,
                src_d == src@.len(),
                forall|t: int| a <= t < b ==> subtree_keys(src@).contains((#[trigger] s1[t]).0),
                blk@.len() == k - a,
                forall|j: int|
                    0 <= j < k - a ==> (#[trigger] blk@[j]).path@ == dest@ + s1[a + j].0.skip(
                        src_d as int,
                    ) && blk@[j].node.v() == s1[a + j].1,
            decreases b - k,
        {
            let pth = self.path_at(k);
            proof {
                if k > a {
                    if s1[k as int].0 == src@ {
                        lemma_sorted_unique(s1, k as int, a as int);
                    }
                    assert(is_strict_prefix(src@, s1[k as int].0));
                }
            }
            let rb = pth.rebase(src_d, dest);
            let nd = self.node_at(k);
            blk.push(FsEntry { path: rb, node: nd });
            k = k + 1;
        }
        let ghost blkv = fs_view(blk@);
        proof {
            assert forall|j: int| 0 <= j < blkv.len() implies (#[trigger] blkv[j]) == (
            dest@ + s1[a + j].0.skip(src_d as int), s1[a + j].1) by {}
        }
        self.remove_block(a, b, Ghost(src@));
        let ghost s2 = self@;
        let (i0, found2) = self.locate(dest);
        proof {
            // dest and everything below it is absent after the removal
            assert forall|q: Seq<Seq<u8>>| #[trigger] self.as_map().dom().contains(q) implies !(q
                == dest@ || is_strict_prefix(dest@, q)) by {
                assert(m1.dom().contains(q));
                if q == dest@ || is_strict_prefix(dest@, q) {
                    if m0.dom().contains(q) {
                        lemma_missing_no_descendants(s0, dest@);
                    } else {
                        assert(q.len() < dest@.len());
                    }
                }
            }
            assert(!found2);
        }
        // splice the re-rooted block in at dest's position
        let mut t: usize = 0;
        let total = blk.len();
        let ghost blk0 = blk@;
        while t < total
            invariant
                total == blk0.len(),
                t <= total,
                blk@ =~= blk0.skip(t as int),
                i0 <= s2.len(),
                self.entries@.len() == s2.len() + t,
                fs_view(self.entries@) =~= s2.take(i0 as int) + fs_view(blk0).take(t as int)
                    + s2.skip(i0 as int),
            decreases total - t,
        {
            let ghost before = self.entries@;
            let e = blk.remove(0);
            let ghost ev = e;
            let cur = self.entries.len();
            proof {
                assert(i0 + t <= cur);
            }
            self.entries.insert(i0 + t, e);
            proof {
                assert(ev == blk0[t as int]);
                lemma_fs_view_insert(before, i0 as int + t, ev);
                assert(fs_view(before).insert(i0 as int + t, ev.v()) =~= s2.take(i0 as int)
                    + fs_view(blk0).take(t as int + 1) + s2.skip(i0 as int)) by {
                    assert(fs_view(blk0).take(t as int + 1) =~= fs_view(blk0).take(t as int).push(
                        blk0[t as int].v(),
                    ));
                }
            }
            t = t + 1;
        }
        proof {
            assert(fs_view(blk0).take(blk0.len() as int) =~= blkv);
            assert(self@ =~= s2.take(i0 as int) + blkv + s2.skip(i0 as int));
            lemma_rename_dir_commit(
                s0,
                s1,
                s2,
                blkv,
                m0,
                m1,
                src@,
                dest@,
                dparent@,
                a as int,
                b as int,
                i0 as int,
                src_d as int,
            );
        }
        Ok(())
    }
}

/// Re-rooting a sorted run of descendants preserves the order.
proof fn lemma_reroot_order(
    s: Seq<(Seq<Seq<u8>>, NodeV)>,
    a: int,
    x: int,
    y: int,
    src: Seq<Seq<u8>>,
    dest: Seq<Seq<u8>>,
    src_d: int,
)
    requires
        entries_sorted(s),
        src_d == src.len(),
        0 <= a,
        0 <= x < y,
        a + y < s.len(),
        s[a].0 == src,
        s[a + x].0 == src || is_strict_prefix(src, s[a + x].0),
        s[a + y].0 == src || is_strict_prefix(src, s[a + y].0),
    ensures
        path_lt(dest + s[a + x].0.skip(src_d), dest + s[a + y].0.skip(src_d)),
{
    let px = s[a + x].0;
    let py = s[a + y].0;
    assert(path_lt(px, py));
    assert(px.take(src_d) =~= src || px == src);
    assert(py.take(src_d) =~= src || py == src);
    assert(px.take(src_d) =~= py.take(src_d)) by {
        if px == src {
            assert(px.take(src_d) =~= src);
        }
        if py == src {
            assert(py.take(src_d) =~= src);
        }
    }
    lemma_path_lt_skip(px, py, src_d);
    let ux = px.skip(src_d);
    let uy = py.skip(src_d);
    assert(path_lt(ux, uy));
    assert((dest + ux).take(dest.len() as int) =~= (dest + uy).take(dest.len() as int));
    lemma_path_lt_skip(dest + ux, dest + uy, dest.len() as int);
    assert((dest + ux).skip(dest.len() as int) =~= ux);
    assert((dest + uy).skip(dest.len() as int) =~= uy);
}


/// Splicing the re-rooted block into the pruned tree is well placed:
/// the result is well formed and its map is the union.
#[verifier::rlimit(100)]
proof fn lemma_rename_block_placement(
    s0: Seq<(Seq<Seq<u8>>, NodeV)>,
    s1: Seq<(Seq<Seq<u8>>, NodeV)>,
    s2: Seq<(Seq<Seq<u8>>, NodeV)>,
    blkv: Seq<(Seq<Seq<u8>>, NodeV)>,
    m0: Map<Seq<Seq<u8>>, NodeV>,
    m1: Map<Seq<Seq<u8>>, NodeV>,
    src: Seq<Seq<u8>>,
    dest: Seq<Seq<u8>>,
    dparent: Seq<Seq<u8>>,
    a: int,
    b: int,
    i0: int,
    srcd: int,
)
    requires
        fs_wf(s0),
        fs_wf(s1),
        fs_wf(s2),
        m0 == map_of(s0),
        m1 == map_of(s1),
        m1 == dirall_map(m0, dparent, Meta::spec_dir_default()),
        dirs_ok(m0, dparent),
        dparent == dest.drop_last(),
        pathv_wf(src),
        pathv_wf(dest),
        src.len() > 0,
        dest.len() > 0,
        src != dest,
        !is_strict_prefix(src, dest),
        m0.dom().contains(src),
        !m0.dom().contains(dest),
        0 <= a < b <= s1.len(),
        s1[a].0 == src,
        srcd == src.len(),
        forall|k: int| a <= k < b ==> subtree_keys(src).contains((#[trigger] s1[k]).0),
        forall|k: int| 0 <= k < a ==> !subtree_keys(src).contains((#[trigger] s1[k]).0),
        forall|k: int| b <= k < s1.len() ==> !subtree_keys(src).contains((#[trigger] s1[k]).0),
        map_of(s2) == m1.remove_keys(subtree_keys(src)),
        0 <= i0 <= s2.len(),
        forall|k: int| 0 <= k < i0 ==> path_lt((#[trigger] s2[k]).0, dest),
        forall|k: int| i0 <= k < s2.len() ==> path_lt(dest, (#[trigger] s2[k]).0),
        blkv.len() == b - a,
        forall|j: int|
            0 <= j < b - a ==> (#[trigger] blkv[j]) == (
                dest + s1[a + j].0.skip(srcd),
                s1[a + j].1,
            ),
    ensures
        fs_wf(s2.take(i0) + blkv + s2.skip(i0)),
        map_of(s2.take(i0) + blkv + s2.skip(i0)) == map_of(s2).union_prefer_right(map_of(blkv)),
{
    lemma_dirall_facts(m0, dparent, Meta::spec_dir_default());
    assert(dparent.take(dparent.len() as int) =~= dparent);
    // keys added by the directory creation are shorter than dest and outside
    // src's subtree
    assert forall|q: Seq<Seq<u8>>| #[trigger] m1.dom().contains(q) && !m0.dom().contains(
        q,
    ) implies q.len() < dest.len() && !subtree_keys(src).contains(q) by {
        assert(0 < q.len() <= dparent.len() && q == dparent.take(q.len() as int));
        if subtree_keys(src).contains(q) {
            assert(dest.take(q.len() as int) =~= dparent.take(q.len() as int));
            if q == src {
                assert(dest.take(src.len() as int) == src);
                assert(is_strict_prefix(src, dest));
            } else {
                assert(is_strict_prefix(src, q));
                assert(q.take(src.len() as int) == src);
                assert(dest.take(src.len() as int) =~= q.take(src.len() as int));
                assert(is_strict_prefix(src, dest));
            }
            assert(false);
        }
    }
    // the block is sorted: re-rooting preserves the order
    assert(entries_sorted(blkv)) by {
        assert forall|x: int, y: int| 0 <= x < y < blkv.len() implies path_lt(
            (#[trigger] blkv[x]).0,
            (#[trigger] blkv[y]).0,
        ) by {
            lemma_reroot_order(s1, a, x, y, src, dest, srcd);
        }
    }
    assert(entries_paths_wf(blkv)) by {
        assert forall|j: int| 0 <= j < blkv.len() implies pathv_wf((#[trigger] blkv[j]).0)
            && blkv[j].0.len() > 0 by {
            let q = blkv[j].0;
            assert(q == dest + s1[a + j].0.skip(srcd));
            assert forall|u: int| 0 <= u < q.len() implies seg_wf(#[trigger] q[u]) by {
                if u < dest.len() {
                    assert(q[u] == dest[u]);
                } else {
                    assert(q[u] == s1[a + j].0[srcd + u - dest.len()]);
                }
            }
        }
    }
    // block entries carry the prefix dest
    assert forall|j: int| 0 <= j < blkv.len() implies (#[trigger] blkv[j]).0.take(
        dest.len() as int,
    ) == dest && blkv[j].0.len() >= dest.len() by {
        assert(blkv[j].0.take(dest.len() as int) =~= dest);
    }
    assert(blkv[0].0 =~= dest) by {
        assert(s1[a].0.skip(srcd) =~= Seq::<Seq<u8>>::empty());
    }
    assert forall|j: int| 0 < j < blkv.len() implies is_strict_prefix(
        dest,
        (#[trigger] blkv[j]).0,
    ) by {
        assert(blkv[j].0.len() > dest.len()) by {
            if s1[a + j].0 == src {
                lemma_sorted_unique(s1, a + j, a);
            }
            assert(is_strict_prefix(src, s1[a + j].0));
        }
    }
    // order against the surrounding entries
    assert forall|c: int, j: int| 0 <= c < i0 && 0 <= j < blkv.len() implies path_lt(
        (#[trigger] s2[c]).0,
        (#[trigger] blkv[j]).0,
    ) by {
        assert(path_lt(s2[c].0, dest));
        if j > 0 {
            lemma_prefix_lt(dest, blkv[j].0);
            lemma_path_lt_trans(s2[c].0, dest, blkv[j].0);
        }
    }
    assert forall|q: Seq<Seq<u8>>| #[trigger] map_of(s2).dom().contains(q) implies !(q == dest
        || is_strict_prefix(dest, q)) by {
        assert(m1.dom().contains(q));
        if q == dest || is_strict_prefix(dest, q) {
            if m0.dom().contains(q) {
                lemma_missing_no_descendants(s0, dest);
            } else {
                assert(q.len() < dest.len());
            }
        }
    }
    assert forall|c: int, j: int| i0 <= c < s2.len() && 0 <= j < blkv.len() implies path_lt(
        (#[trigger] blkv[j]).0,
        (#[trigger] s2[c]).0,
    ) by {
        assert(path_lt(dest, s2[c].0));
        lemma_map_at(s2, c);
        assert(!(s2[c].0 == dest || is_strict_prefix(dest, s2[c].0)));
        if j > 0 {
            assert(is_strict_prefix(dest, blkv[j].0));
            if !path_lt(blkv[j].0, s2[c].0) {
                if s2[c].0 == blkv[j].0 {
                    assert(is_strict_prefix(dest, s2[c].0));
                    assert(false);
                } else if path_lt(s2[c].0, blkv[j].0) {
                    lemma_between_prefix(dest, s2[c].0, blkv[j].0);
                    assert(false);
                } else {
                    lemma_path_lt_connected(blkv[j].0, s2[c].0);
                    assert(false);
                }
            }
        }
    }
    // the block is parent-closed against the remaining entries
    assert forall|j: int| 0 <= j < blkv.len() && (#[trigger] blkv[j]).0.len() > 1 implies has_dir(
        s2,
        blkv[j].0.drop_last(),
    ) || has_dir(blkv, blkv[j].0.drop_last()) by {
        if j == 0 {
            if dest.len() > 1 {
                assert(blkv[0].0.drop_last() =~= dparent);
                assert(dparent != src && !is_strict_prefix(src, dparent)) by {
                    if dparent == src {
                        assert(dest.take(src.len() as int) =~= dparent);
                        assert(is_strict_prefix(src, dest));
                    }
                    if is_strict_prefix(src, dparent) {
                        assert(dest.take(src.len() as int) =~= dparent.take(src.len() as int));
                        assert(is_strict_prefix(src, dest));
                    }
                }
                assert(map_of(s2).dom().contains(dparent) && map_of(s2)[dparent] is Dir) by {
                    assert(!subtree_keys(src).contains(dparent));
                    assert(m1.dom().contains(dparent) && m1[dparent] is Dir) by {
                        if m0.dom().contains(dparent) {
                            assert(dparent == dparent.take(dparent.len() as int));
                        }
                    }
                }
                lemma_has_dir_iff(s2, dparent);
            }
        } else {
            let orig = s1[a + j].0;
            assert(is_strict_prefix(src, orig)) by {
                if orig == src {
                    lemma_sorted_unique(s1, a + j, a);
                }
            }
            let par = orig.drop_last();
            assert(par.len() >= src.len());
            assert(par.take(src.len() as int) =~= src) by {
                assert(orig.take(src.len() as int) == src);
                assert(par.take(src.len() as int) =~= orig.take(src.len() as int));
            }
            assert(has_dir(s1, par));
            let v = choose|v: int|
                0 <= v < s1.len() && (#[trigger] s1[v]).0 == par && s1[v].1 is Dir;
            assert(subtree_keys(src).contains(par)) by {
                if par.len() > src.len() {
                    assert(is_strict_prefix(src, par));
                } else {
                    assert(par =~= src);
                }
            }
            assert(a <= v < b);
            assert(blkv[v - a].0 == dest + par.skip(srcd));
            assert(blkv[j].0.drop_last() =~= dest + par.skip(srcd)) by {
                assert(blkv[j].0 == dest + orig.skip(srcd));
                assert(orig.skip(srcd).len() > 0);
                assert((dest + orig.skip(srcd)).drop_last() =~= dest + orig.skip(
                    srcd,
                ).drop_last());
                assert(orig.skip(srcd).drop_last() =~= par.skip(srcd));
            }
            assert(has_dir(blkv, blkv[j].0.drop_last()));
        }
    }
    lemma_insert_block(s2, i0, blkv);
}

/// The re-rooted block inherits the sort order of the source subtree.
proof fn lemma_blk_sorted(
    s1: Seq<(Seq<Seq<u8>>, NodeV)>,
    blkv: Seq<(Seq<Seq<u8>>, NodeV)>,
    src: Seq<Seq<u8>>,
    dest: Seq<Seq<u8>>,
    a: int,
    b: int,
    srcd: int,
)
    requires
        entries_sorted(s1),
        0 <= a < b <= s1.len(),
        s1[a].0 == src,
        srcd == src.len(),
        forall|k: int| a <= k < b ==> subtree_keys(src).contains((#[trigger] s1[k]).0),
        blkv.len() == b - a,
        forall|j: int|
            0 <= j < b - a ==> (#[trigger] blkv[j]) == (
                dest + s1[a + j].0.skip(srcd),
                s1[a + j].1,
            ),
    ensures
        entries_sorted(blkv),
{
    assert forall|x: int, y: int| 0 <= x < y < blkv.len() implies path_lt(
        (#[trigger] blkv[x]).0,
        (#[trigger] blkv[y]).0,
    ) by {
        lemma_reroot_order(s1, a, x, y, src, dest, srcd);
    }
}

/// Forward direction: every block entry appears in the overlay with the
/// node of its source path.
#[verifier::rlimit(100)]
proof fn lemma_rename_overlay_fwd(
    s0: Seq<(Seq<Seq<u8>>, NodeV)>,
    s1: Seq<(Seq<Seq<u8>>, NodeV)>,
    s2: Seq<(Seq<Seq<u8>>, NodeV)>,
    blkv: Seq<(Seq<Seq<u8>>, NodeV)>,
    m0: Map<Seq<Seq<u8>>, NodeV>,
    m1: Map<Seq<Seq<u8>>, NodeV>,
    src: Seq<Seq<u8>>,
    dest: Seq<Seq<u8>>,
    dparent: Seq<Seq<u8>>,
    a: int,
    b: int,
    i0: int,
    srcd: int,
)
    requires
        fs_wf(s0),
        fs_wf(s1),
        fs_wf(s2),
        m0 == map_of(s0),
        m1 == map_of(s1),
        m1 == dirall_map(m0, dparent, Meta::spec_dir_default()),
        dirs_ok(m0, dparent),
        dparent == dest.drop_last(),
        pathv_wf(src),
        pathv_wf(dest),
        src.len() > 0,
        dest.len() > 0,
        src != dest,
        !is_strict_prefix(src, dest),
        m0.dom().contains(src),
        !m0.dom().contains(dest),
        0 <= a < b <= s1.len(),
        s1[a].0 == src,
        srcd == src.len(),
        forall|k: int| a <= k < b ==> subtree_keys(src).contains((#[trigger] s1[k]).0),
        forall|k: int| 0 <= k < a ==> !subtree_keys(src).contains((#[trigger] s1[k]).0),
        forall|k: int| b <= k < s1.len() ==> !subtree_keys(src).contains((#[trigger] s1[k]).0),
        map_of(s2) == m1.remove_keys(subtree_keys(src)),
        0 <= i0 <= s2.len(),
        forall|k: int| 0 <= k < i0 ==> path_lt((#[trigger] s2[k]).0, dest),
        forall|k: int| i0 <= k < s2.len() ==> path_lt(dest, (#[trigger] s2[k]).0),
        blkv.len() == b - a,
        forall|j: int|
            0 <= j < b - a ==> (#[trigger] blkv[j]) == (
                dest + s1[a + j].0.skip(srcd),
                s1[a + j].1,
            ),
    ensures
        forall|q: Seq<Seq<u8>>|
            #[trigger] seq_has_path(blkv, q) ==> reroot_overlay(m0, src, dest).dom().contains(q)
                && map_of(blkv)[q] == reroot_overlay(m0, src, dest)[q],
{

    lemma_blk_sorted(s1, blkv, src, dest, a, b, srcd);
    lemma_dirall_facts(m0, dparent, Meta::spec_dir_default());
    assert(dparent.take(dparent.len() as int) =~= dparent);
    assert forall|q: Seq<Seq<u8>>| #[trigger] m1.dom().contains(q) && !m0.dom().contains(
        q,
    ) implies q.len() < dest.len() && !subtree_keys(src).contains(q) by {
        assert(0 < q.len() <= dparent.len() && q == dparent.take(q.len() as int));
        if subtree_keys(src).contains(q) {
            assert(dest.take(q.len() as int) =~= dparent.take(q.len() as int));
            if q == src {
                assert(dest.take(src.len() as int) == src);
                assert(is_strict_prefix(src, dest));
            } else {
                assert(is_strict_prefix(src, q));
                assert(q.take(src.len() as int) == src);
                assert(dest.take(src.len() as int) =~= q.take(src.len() as int));
                assert(is_strict_prefix(src, dest));
            }
            assert(false);
        }
    }
        assert forall|q: Seq<Seq<u8>>| #[trigger] seq_has_path(blkv, q) implies reroot_overlay(
            m0,
            src,
            dest,
        ).dom().contains(q) && map_of(blkv)[q] == reroot_overlay(m0, src, dest)[q] by {
            lemma_map_contains(blkv, q);
            let j = seq_idx_of(blkv, q);
            let orig = s1[a + j].0;
            assert(q == dest + orig.skip(srcd));
            assert(q.skip(dest.len() as int) =~= orig.skip(srcd));
            assert(src + q.skip(dest.len() as int) =~= orig) by {
                assert(orig.take(srcd) == src || orig == src);
                if orig == src {
                    assert(orig.skip(srcd) =~= Seq::<Seq<u8>>::empty());
                }
            }
            lemma_map_at(s1, a + j);
            assert(m1.dom().contains(orig) && m1[orig] == s1[a + j].1);
            assert(m0.dom().contains(orig) && m0[orig] == m1[orig]) by {
                if !m0.dom().contains(orig) {
                    assert(!subtree_keys(src).contains(orig));
                }
            }
            assert(q.take(dest.len() as int) =~= dest);
            assert(map_of(blkv)[q] == blkv[j].1) by {
                lemma_map_at(blkv, j);
            }
        }
}

/// Reverse direction, one key: an overlay key is carried by some block
/// entry.
proof fn lemma_rename_overlay_rev_key(
    s1: Seq<(Seq<Seq<u8>>, NodeV)>,
    blkv: Seq<(Seq<Seq<u8>>, NodeV)>,
    m1: Map<Seq<Seq<u8>>, NodeV>,
    src: Seq<Seq<u8>>,
    dest: Seq<Seq<u8>>,
    a: int,
    b: int,
    srcd: int,
    q: Seq<Seq<u8>>,
)
    requires
        fs_wf(s1),
        m1 == map_of(s1),
        src.len() > 0,
        dest.len() > 0,
        0 <= a < b <= s1.len(),
        s1[a].0 == src,
        srcd == src.len(),
        forall|k: int| a <= k < b ==> subtree_keys(src).contains((#[trigger] s1[k]).0),
        forall|k: int| 0 <= k < a ==> !subtree_keys(src).contains((#[trigger] s1[k]).0),
        forall|k: int| b <= k < s1.len() ==> !subtree_keys(src).contains((#[trigger] s1[k]).0),
        blkv.len() == b - a,
        forall|j: int|
            0 <= j < b - a ==> (#[trigger] blkv[j]) == (
                dest + s1[a + j].0.skip(srcd),
                s1[a + j].1,
            ),
        q.len() >= dest.len(),
        q.take(dest.len() as int) == dest,
        m1.dom().contains(src + q.skip(dest.len() as int)),
    ensures
        seq_has_path(blkv, q),
{
    let tail = q.skip(dest.len() as int);
    let orig = src + tail;
    lemma_map_contains(s1, orig);
    let w = seq_idx_of(s1, orig);
    assert(subtree_keys(src).contains(orig)) by {
        if tail.len() > 0 {
            assert(is_strict_prefix(src, orig)) by {
                assert(orig.take(src.len() as int) =~= src);
            }
        } else {
            assert(orig =~= src);
        }
    }
    assert(a <= w < b);
    assert(blkv[w - a].0 == dest + orig.skip(srcd));
    assert(orig.skip(srcd) =~= tail);
    assert(blkv[w - a].0 =~= q) by {
        assert(q =~= q.take(dest.len() as int) + q.skip(dest.len() as int));
    }
}

/// Reverse direction: every overlay key is carried by some block entry.
proof fn lemma_rename_overlay_rev(
    s0: Seq<(Seq<Seq<u8>>, NodeV)>,
    s1: Seq<(Seq<Seq<u8>>, NodeV)>,
    s2: Seq<(Seq<Seq<u8>>, NodeV)>,
    blkv: Seq<(Seq<Seq<u8>>, NodeV)>,
    m0: Map<Seq<Seq<u8>>, NodeV>,
    m1: Map<Seq<Seq<u8>>, NodeV>,
    src: Seq<Seq<u8>>,
    dest: Seq<Seq<u8>>,
    dparent: Seq<Seq<u8>>,
    a: int,
    b: int,
    i0: int,
    srcd: int,
)
    requires
        fs_wf(s1),
        m0 == map_of(s0),
        m1 == map_of(s1),
        m1 == dirall_map(m0, dparent, Meta::spec_dir_default()),
        src.len() > 0,
        dest.len() > 0,
        0 <= a < b <= s1.len(),
        s1[a].0 == src,
        srcd == src.len(),
        forall|k: int| a <= k < b ==> subtree_keys(src).contains((#[trigger] s1[k]).0),
        forall|k: int| 0 <= k < a ==> !subtree_keys(src).contains((#[trigger] s1[k]).0),
        forall|k: int| b <= k < s1.len() ==> !subtree_keys(src).contains((#[trigger] s1[k]).0),
        blkv.len() == b - a,
        forall|j: int|
            0 <= j < b - a ==> (#[trigger] blkv[j]) == (
                dest + s1[a + j].0.skip(srcd),
                s1[a + j].1,
            ),
    ensures
        forall|q: Seq<Seq<u8>>|
            #[trigger] reroot_overlay(m0, src, dest).dom().contains(q) ==> seq_has_path(blkv, q),
{
    lemma_dirall_mono(m0, dparent, Meta::spec_dir_default());
    assert forall|q: Seq<Seq<u8>>|
        #[trigger] reroot_overlay(m0, src, dest).dom().contains(q) implies seq_has_path(
        blkv,
        q,
    ) by {
        lemma_rename_overlay_rev_key(s1, blkv, m1, src, dest, a, b, srcd, q);
    }
}

/// The re-rooted block, read as a map, is exactly the overlay of the
/// source subtree under the destination.
proof fn lemma_rename_overlay(
    s0: Seq<(Seq<Seq<u8>>, NodeV)>,
    s1: Seq<(Seq<Seq<u8>>, NodeV)>,
    s2: Seq<(Seq<Seq<u8>>, NodeV)>,
    blkv: Seq<(Seq<Seq<u8>>, NodeV)>,
    m0: Map<Seq<Seq<u8>>, NodeV>,
    m1: Map<Seq<Seq<u8>>, NodeV>,
    src: Seq<Seq<u8>>,
    dest: Seq<Seq<u8>>,
    dparent: Seq<Seq<u8>>,
    a: int,
    b: int,
    i0: int,
    srcd: int,
)
    requires
        fs_wf(s0),
        fs_wf(s1),
        fs_wf(s2),
        m0 == map_of(s0),
        m1 == map_of(s1),
        m1 == dirall_map(m0, dparent, Meta::spec_dir_default()),
        dirs_ok(m0, dparent),
        dparent == dest.drop_last(),
        pathv_wf(src),
        pathv_wf(dest),
        src.len() > 0,
        dest.len() > 0,
        src != dest,
        !is_strict_prefix(src, dest),
        m0.dom().contains(src),
        !m0.dom().contains(dest),
        0 <= a < b <= s1.len(),
        s1[a].0 == src,
        srcd == src.len(),
        forall|k: int| a <= k < b ==> subtree_keys(src).contains((#[trigger] s1[k]).0),
        forall|k: int| 0 <= k < a ==> !subtree_keys(src).contains((#[trigger] s1[k]).0),
        forall|k: int| b <= k < s1.len() ==> !subtree_keys(src).contains((#[trigger] s1[k]).0),
        map_of(s2) == m1.remove_keys(subtree_keys(src)),
        0 <= i0 <= s2.len(),
        forall|k: int| 0 <= k < i0 ==> path_lt((#[trigger] s2[k]).0, dest),
        forall|k: int| i0 <= k < s2.len() ==> path_lt(dest, (#[trigger] s2[k]).0),
        blkv.len() == b - a,
        forall|j: int|
            0 <= j < b - a ==> (#[trigger] blkv[j]) == (
                dest + s1[a + j].0.skip(srcd),
                s1[a + j].1,
            ),
    ensures
        map_of(blkv) == reroot_overlay(m0, src, dest),
{
    lemma_rename_overlay_fwd(s0, s1, s2, blkv, m0, m1, src, dest, dparent, a, b, i0, srcd);
    lemma_rename_overlay_rev(s0, s1, s2, blkv, m0, m1, src, dest, dparent, a, b, i0, srcd);
    assert(map_of(blkv) =~= reroot_overlay(m0, src, dest));
}
/// Commits a directory move: splicing the re-rooted subtree block into
/// the tree that remains after the source subtree was removed yields
/// exactly the re-rooted overlay on top of that tree.
proof fn lemma_rename_dir_commit(
    s0: Seq<(Seq<Seq<u8>>, NodeV)>,
    s1: Seq<(Seq<Seq<u8>>, NodeV)>,
    s2: Seq<(Seq<Seq<u8>>, NodeV)>,
    blkv: Seq<(Seq<Seq<u8>>, NodeV)>,
    m0: Map<Seq<Seq<u8>>, NodeV>,
    m1: Map<Seq<Seq<u8>>, NodeV>,
    src: Seq<Seq<u8>>,
    dest: Seq<Seq<u8>>,
    dparent: Seq<Seq<u8>>,
    a: int,
    b: int,
    i0: int,
    srcd: int,
)
    requires
        fs_wf(s0),
        fs_wf(s1),
        fs_wf(s2),
        m0 == map_of(s0),
        m1 == map_of(s1),
        m1 == dirall_map(m0, dparent, Meta::spec_dir_default()),
        dirs_ok(m0, dparent),
        dparent == dest.drop_last(),
        pathv_wf(src),
        pathv_wf(dest),
        src.len() > 0,
        dest.len() > 0,
        src != dest,
        !is_strict_prefix(src, dest),
        m0.dom().contains(src),
        !m0.dom().contains(dest),
        0 <= a < b <= s1.len(),
        s1[a].0 == src,
        srcd == src.len(),
        forall|k: int| a <= k < b ==> subtree_keys(src).contains((#[trigger] s1[k]).0),
        forall|k: int| 0 <= k < a ==> !subtree_keys(src).contains((#[trigger] s1[k]).0),
        forall|k: int| b <= k < s1.len() ==> !subtree_keys(src).contains((#[trigger] s1[k]).0),
        map_of(s2) == m1.remove_keys(subtree_keys(src)),
        0 <= i0 <= s2.len(),
        forall|k: int| 0 <= k < i0 ==> path_lt((#[trigger] s2[k]).0, dest),
        forall|k: int| i0 <= k < s2.len() ==> path_lt(dest, (#[trigger] s2[k]).0),
        blkv.len() == b - a,
        forall|j: int|
            0 <= j < b - a ==> (#[trigger] blkv[j]) == (
                dest + s1[a + j].0.skip(srcd),
                s1[a + j].1,
            ),
    ensures
        fs_wf(s2.take(i0) + blkv + s2.skip(i0)),
        map_of(s2.take(i0) + blkv + s2.skip(i0)) == dirall_map(
            m0,
            dest.drop_last(),
            Meta::spec_dir_default(),
        ).remove_keys(subtree_keys(src)).union_prefer_right(reroot_overlay(m0, src, dest)),
{
    lemma_rename_block_placement(s0, s1, s2, blkv, m0, m1, src, dest, dparent, a, b, i0, srcd);
    lemma_rename_overlay(s0, s1, s2, blkv, m0, m1, src, dest, dparent, a, b, i0, srcd);
    assert(dirall_map(m0, dest.drop_last(), Meta::spec_dir_default()) == m1);
    assert(map_of(s2.take(i0) + blkv + s2.skip(i0)) == m1.remove_keys(
        subtree_keys(src),
    ).union_prefer_right(reroot_overlay(m0, src, dest)));
}

/// Dropping the first entry removes its binding.
pub proof fn lemma_map_of_skip1(s: Seq<(Seq<Seq<u8>>, NodeV)>)
    requires
        entries_sorted(s),
        s.len() > 0,
    ensures
        map_of(s.skip(1)) =~= map_of(s).remove(s[0].0),
{
    let t = s.skip(1);
    assert(entries_sorted(t)) by {
        assert forall|x: int, y: int| 0 <= x < y < t.len() implies path_lt(
            (#[trigger] t[x]).0,
            (#[trigger] t[y]).0,
        ) by {
            assert(t[x] == s[x + 1] && t[y] == s[y + 1]);
        }
    }
    assert forall|q: Seq<Seq<u8>>| #[trigger] seq_has_path(t, q) implies seq_has_path(s, q) && q
        != s[0].0 by {
        let k = choose|k: int| 0 <= k < t.len() && (#[trigger] t[k]).0 == q;
        assert(s[k + 1].0 == q);
        if q == s[0].0 {
            lemma_sorted_unique(s, k + 1, 0);
        }
    }
    assert forall|q: Seq<Seq<u8>>| #[trigger] seq_has_path(s, q) && q != s[0].0 implies
        seq_has_path(t, q) by {
        let k = choose|k: int| 0 <= k < s.len() && (#[trigger] s[k]).0 == q;
        assert(k > 0);
        assert(t[k - 1].0 == q);
    }
    assert forall|q: Seq<Seq<u8>>| #[trigger] seq_has_path(t, q) implies map_of(t)[q] == map_of(
        s,
    )[q] by {
        lemma_map_contains(t, q);
        let j = seq_idx_of(t, q);
        assert(s[j + 1].0 == q && t[j].1 == s[j + 1].1);
        lemma_map_at(s, j + 1);
        lemma_map_at(t, j);
    }
}

/// Two sorted entry sequences with the same map are the same sequence: the
/// canonical order leaves no freedom.
pub proof fn lemma_sorted_map_unique(s1: Seq<(Seq<Seq<u8>>, NodeV)>, s2: Seq<(Seq<Seq<u8>>, NodeV)>)
    requires
        entries_sorted(s1),
        entries_sorted(s2),
        map_of(s1) == map_of(s2),
    ensures
        s1 =~= s2,
    decreases s1.len(),
{
    if s1.len() == 0 {
        if s2.len() > 0 {
            lemma_map_at(s2, 0);
            lemma_map_contains(s1, s2[0].0);
        }
    } else if s2.len() == 0 {
        lemma_map_at(s1, 0);
        lemma_map_contains(s2, s1[0].0);
    } else {
        // the heads carry the minimal path of the shared map
        lemma_map_at(s1, 0);
        lemma_map_contains(s2, s1[0].0);
        let j = seq_idx_of(s2, s1[0].0);
        lemma_map_at(s2, 0);
        lemma_map_contains(s1, s2[0].0);
        let i = seq_idx_of(s1, s2[0].0);
        if j > 0 {
            assert(path_lt(s2[0].0, s2[j].0));
            if i > 0 {
                assert(path_lt(s1[0].0, s1[i].0));
                lemma_path_lt_trans(s1[0].0, s1[i].0, s2[j].0);
                lemma_path_lt_irrefl(s1[0].0);
            } else {
                lemma_path_lt_irrefl(s1[0].0);
            }
        }
        assert(s2[j] == s2[0] || j == 0);
        assert(s1[0].0 == s2[0].0);
        assert(s1[0].1 == s2[0].1) by {
            lemma_map_at(s2, 0);
        }
        lemma_map_of_skip1(s1);
        lemma_map_of_skip1(s2);
        assert(entries_sorted(s1.skip(1))) by {
            assert forall|x: int, y: int| 0 <= x < y < s1.skip(1).len() implies path_lt(
                (#[trigger] s1.skip(1)[x]).0,
                (#[trigger] s1.skip(1)[y]).0,
            ) by {
                assert(s1.skip(1)[x] == s1[x + 1] && s1.skip(1)[y] == s1[y + 1]);
            }
        }
        assert(entries_sorted(s2.skip(1))) by {
            assert forall|x: int, y: int| 0 <= x < y < s2.skip(1).len() implies path_lt(
                (#[trigger] s2.skip(1)[x]).0,
                (#[trigger] s2.skip(1)[y]).0,
            ) by {
                assert(s2.skip(1)[x] == s2[x + 1] && s2.skip(1)[y] == s2[y + 1]);
            }
        }
        assert(map_of(s1.skip(1)) == map_of(s2.skip(1)));
        lemma_sorted_map_unique(s1.skip(1), s2.skip(1));
        assert(s1 =~= seq![s1[0]] + s1.skip(1));
        assert(s2 =~= seq![s2[0]] + s2.skip(1));
        assert(s1[0] == s2[0]) by {
            assert(s1[0] == (s1[0].0, s1[0].1));
            assert(s2[0] == (s2[0].0, s2[0].1));
        }
    }
}

/// The canonical entry sequence of a tree map: the one sorted sequence that
/// carries it.
pub open spec fn canon(m: Map<Seq<Seq<u8>>, NodeV>) -> Seq<(Seq<Seq<u8>>, NodeV)> {
    choose|s: Seq<(Seq<Seq<u8>>, NodeV)>| fs_wf(s) && map_of(s) == m
}

/// A well-formed tree is its own map's canonical sequence.
pub proof fn lemma_canon(fs: MemFS)
    requires
        fs.wf(),
    ensures
        canon(fs.as_map()) == fs@,
        fs_wf(canon(fs.as_map())),
{
    assert(fs_wf(fs@) && map_of(fs@) == fs.as_map());
    let c = canon(fs.as_map());
    assert(fs_wf(c) && map_of(c) == fs.as_map()) by {
        assert(exists|s: Seq<(Seq<Seq<u8>>, NodeV)>| fs_wf(s) && map_of(s) == fs.as_map()) by {
            assert(fs_wf(fs@) && map_of(fs@) == fs.as_map());
        }
    }
    lemma_sorted_map_unique(c, fs@);
}

} // verus!
