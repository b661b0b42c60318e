use vstd::prelude::*;

use crate::errors::Error;
use crate::paths::{
    is_strict_prefix, lemma_path_lt_asymm, lemma_path_lt_irrefl, lemma_prefix_lt, path_lt, pathv_wf,
    seg_wf,
    VfsPath,
};
use crate::vfs::{
    dirall_map, dirs_ok, entries_sorted, lemma_ancestor_dirs, lemma_dirall_present,
    lemma_insert_entry_at_end, lemma_map_at, lemma_map_contains, lemma_sorted_unique, map_of,
    seq_has_path, seq_idx_of, subtree_keys, MemFS, Meta, Node, NodeV,
};

verus! {

/// What copying one source entry does to the destination map: directories
/// are created (with their metadata forced onto the destination), files are
/// written fresh, nested under an existing directory by their base name, or
/// overwritten over an existing file — but never over a symlink, which is
/// skipped; symlinks are created only at free paths.
pub open spec fn copy_step(
    m: Map<Seq<Seq<u8>>, NodeV>,
    pv: Seq<Seq<u8>>,
    nv: NodeV,
) -> Result<Map<Seq<Seq<u8>>, NodeV>, Error> {
    match nv {
        NodeV::Dir { meta } => {
            if !dirs_ok(m, pv) {
                Err(Error::AlreadyExists)
            } else {
                Ok(dirall_map(m, pv, meta).insert(pv, NodeV::Dir { meta }))
            }
        },
        NodeV::File { content, meta } => {
            if m.dom().contains(pv) && m[pv] is Symlink {
                // a symlink at the destination is not silently overwritten
                Ok(m)
            } else if m.dom().contains(pv) && m[pv] is Dir {
                // nest under the directory by the base name
                let nested = pv.push(pv.last());
                if m.dom().contains(nested) && m[nested] is Dir {
                    Err(Error::WrongType)
                } else if !dirs_ok(m, nested.drop_last()) {
                    Err(Error::AlreadyExists)
                } else {
                    Ok(
                        dirall_map(m, nested.drop_last(), Meta::spec_dir_default()).insert(
                            nested,
                            NodeV::File { content, meta },
                        ),
                    )
                }
            } else {
                if !dirs_ok(m, pv.drop_last()) {
                    Err(Error::AlreadyExists)
                } else {
                    Ok(
                        dirall_map(m, pv.drop_last(), Meta::spec_dir_default()).insert(
                            pv,
                            NodeV::File { content, meta },
                        ),
                    )
                }
            }
        },
        NodeV::Symlink { target, meta } => {
            if m.dom().contains(pv) {
                Err(Error::AlreadyExists)
            } else if !dirs_ok(m, pv.drop_last()) {
                Err(Error::AlreadyExists)
            } else {
                Ok(
                    dirall_map(m, pv.drop_last(), Meta::spec_dir_default()).insert(
                        pv,
                        NodeV::Symlink { target, meta },
                    ),
                )
            }
        },
    }
}

/// Copying the first `i` entries of `s`, stopping at the first error.
pub open spec fn copy_fold(
    s: Seq<(Seq<Seq<u8>>, NodeV)>,
    i: int,
    m: Map<Seq<Seq<u8>>, NodeV>,
) -> Result<Map<Seq<Seq<u8>>, NodeV>, Error>
    decreases i,
{
    if i <= 0 {
        Ok(m)
    } else {
        match copy_fold(s, i - 1, m) {
            Err(e) => Err(e),
            Ok(m1) => copy_step(m1, s[i - 1].0, s[i - 1].1),
        }
    }
}

/// The generic cross-tree copy engine: it walks a source tree in the
/// canonical depth-first lexicographic order and replays every entry onto a
/// destination tree, preserving node kinds, contents, targets and metadata,
/// with the conflict policy of `copy_step`.
#[derive(Debug)]
pub struct DiskDrive {}

/// Replays one source entry onto `dest`, following `copy_step`.
pub fn apply_copy_entry(dest: &mut MemFS, path: &VfsPath, node: Node) -> (r: Result<(), Error>)
    requires
        old(dest).wf(),
        pathv_wf(path@),
        path@.len() > 0,
    ensures
        final(dest).wf(),
        match copy_step(old(dest).as_map(), path@, node.v()) {
            Ok(m2) => r is Ok && final(dest).as_map() == m2,
            Err(e) => r == Err::<(), Error>(e) && final(dest)@ == old(dest)@,
        },
{
    match node {
        Node::Dir { meta } => {
            match dest.create_dir_all(path, meta) {
                Err(e) => Err(e),
                Ok(()) => {
                    proof {
                        crate::vfs::lemma_dirall_facts(old(dest).as_map(), path@, meta);
                        assert(path@.take(path@.len() as int) =~= path@);
                        if path@.len() > 1 {
                            assert(path@.take(path@.len() as int - 1) =~= path@.drop_last());
                            let md = dirall_map(old(dest).as_map(), path@, meta);
                            let q = path@.drop_last();
                            assert(md.dom().contains(q)) by {
                                assert(q == path@.take(q.len() as int));
                            }
                            assert(md[q] is Dir) by {
                                if old(dest).as_map().dom().contains(q) {
                                    assert(md[q] == old(dest).as_map()[q]);
                                    assert(old(dest).as_map()[q] is Dir) by {
                                        assert(dirs_ok(old(dest).as_map(), path@));
                                    }
                                }
                            }
                            assert(dest.as_map() == md);
                        }
                    }
                    dest.set_node(path, Node::Dir { meta });
                    Ok(())
                },
            }
        },
        Node::File { content, meta } => {
            match dest.kind_of(path) {
                Some(crate::vfs::NodeKind::Symlink) => Ok(()),
                Some(crate::vfs::NodeKind::Dir) => {
                    let nested = path.child(path.base());
                    proof {
                        assert(pathv_wf(nested@)) by {
                            assert forall|i: int| 0 <= i < nested@.len() implies seg_wf(
                                #[trigger] nested@[i],
                            ) by {
                                if i < path@.len() {
                                    assert(nested@[i] == path@[i]);
                                } else {
                                    assert(nested@[i] == path@.last());
                                }
                            }
                        }
                    }
                    dest.write_file(&nested, content, meta)
                },
                _ => dest.write_file(path, content, meta),
            }
        },
        Node::Symlink { target, meta } => {
            match dest.kind_of(path) {
                Some(_) => Err(Error::AlreadyExists),
                None => dest.symlink(target, path, meta),
            }
        },
    }
}

impl DiskDrive {
    pub fn new() -> (r: DiskDrive) {
        DiskDrive {  }
    }

    /// Copies every entry of `src`, in the canonical order, onto `dest`.
    /// The first conflict that the policy of `copy_step` does not resolve
    /// aborts the copy with its error.
    pub fn copy_between(&self, src: &MemFS, dest: &mut MemFS) -> (r: Result<(), Error>)
        requires
            src.wf(),
            old(dest).wf(),
        ensures
            final(dest).wf(),
            match copy_fold(src@, src@.len() as int, old(dest).as_map()) {
                Ok(m2) => r is Ok && final(dest).as_map() == m2,
                Err(e) => r == Err::<(), Error>(e),
            },
    {
        let n = src.entry_count();
        let mut i: usize = 0;
        while i < n
            invariant
                src.wf(),
                dest.wf(),
                n == src@.len(),
                i <= n,
                copy_fold(src@, i as int, old(dest).as_map()) == Ok::<
                    Map<Seq<Seq<u8>>, NodeV>,
                    Error,
                >(dest.as_map()),
            decreases n - i,
        {
            let path = src.path_at(i);
            let node = src.node_at(i);
            proof {
                assert(pathv_wf(path@) && path@.len() > 0);
            }
            match apply_copy_entry(dest, &path, node) {
                Ok(()) => {},
                Err(e) => {
                    proof {
                        lemma_copy_fold_err(src@, i as int + 1, src@.len() as int, old(dest).as_map());
                    }
                    return Err(e);
                },
            }
            i = i + 1;
        }
        Ok(())
    }

    /// Copies the node at `src_path` of `src` — with its whole subtree, for
    /// a directory — onto `dest_path` of `dest`, entry by entry in the
    /// canonical order.
    pub fn copy_from_src_to_dest(
        &self,
        src: &MemFS,
        dest: &mut MemFS,
        src_path: &VfsPath,
        dest_path: &VfsPath,
    ) -> (r: Result<(), Error>)
        requires
            src.wf(),
            old(dest).wf(),
            pathv_wf(src_path@),
            pathv_wf(dest_path@),
            src_path@.len() > 0,
            dest_path@.len() > 0,
        ensures
            final(dest).wf(),
            match copy_sub_fold(src@, src@.len() as int, old(dest).as_map(), src_path@, dest_path@) {
                Ok(m2) => r is Ok && final(dest).as_map() == m2,
                Err(e) => r == Err::<(), Error>(e),
            },
    {
        let n = src.entry_count();
        let src_d = src_path.depth();
        let mut i: usize = 0;
        while i < n
            invariant
                src.wf(),
                dest.wf(),
                n == src@.len(),
                i <= n,
                src_d == src_path@.len(),
                pathv_wf(src_path@),
                pathv_wf(dest_path@),
                src_path@.len() > 0,
                dest_path@.len() > 0,
                copy_sub_fold(src@, i as int, old(dest).as_map(), src_path@, dest_path@) == Ok::<
                    Map<Seq<Seq<u8>>, NodeV>,
                    Error,
                >(dest.as_map()),
            decreases n - i,
        {
            let path = src.path_at(i);
            let in_subtree = path.eq_path(src_path) || src_path.is_ancestor_of(&path);
            if in_subtree {
                let rb = path.rebase(src_d, dest_path);
                let node = src.node_at(i);
                proof {
                    assert(pathv_wf(rb@)) by {
                        assert forall|t: int| 0 <= t < rb@.len() implies seg_wf(
                            #[trigger] rb@[t],
                        ) by {
                            if t < dest_path@.len() {
                                assert(rb@[t] == dest_path@[t]);
                            } else {
                                assert(rb@[t] == path@[src_d + t - dest_path@.len()]);
                            }
                        }
                    }
                    assert(rb@.len() > 0);
                }
                match apply_copy_entry(dest, &rb, node) {
                    Ok(()) => {},
                    Err(e) => {
                        proof {
                            lemma_copy_sub_fold_err(
                                src@,
                                i as int + 1,
                                src@.len() as int,
                                old(dest).as_map(),
                                src_path@,
                                dest_path@,
                            );
                        }
                        return Err(e);
                    },
                }
            }
            i = i + 1;
        }
        Ok(())
    }
}

/// Copying the first `i` entries of `s` that lie in the subtree of `sp`,
/// re-rooted at `dp`, stopping at the first error.
pub open spec fn copy_sub_fold(
    s: Seq<(Seq<Seq<u8>>, NodeV)>,
    i: int,
    m: Map<Seq<Seq<u8>>, NodeV>,
    sp: Seq<Seq<u8>>,
    dp: Seq<Seq<u8>>,
) -> Result<Map<Seq<Seq<u8>>, NodeV>, Error>
    decreases i,
{
    if i <= 0 {
        Ok(m)
    } else {
        match copy_sub_fold(s, i - 1, m, sp, dp) {
            Err(e) => Err(e),
            Ok(m1) => {
                if subtree_keys(sp).contains(s[i - 1].0) {
                    copy_step(m1, dp + s[i - 1].0.skip(sp.len() as int), s[i - 1].1)
                } else {
                    Ok(m1)
                }
            },
        }
    }
}

/// An error in the fold is final.
pub proof fn lemma_copy_fold_err(
    s: Seq<(Seq<Seq<u8>>, NodeV)>,
    i: int,
    n: int,
    m: Map<Seq<Seq<u8>>, NodeV>,
)
    requires
        0 <= i <= n,
        copy_fold(s, i, m) is Err,
    ensures
        copy_fold(s, n, m) == copy_fold(s, i, m),
    decreases n - i,
{
    if n > i {
        lemma_copy_fold_err(s, i, n - 1, m);
    }
}

/// An error in the subtree fold is final.
pub proof fn lemma_copy_sub_fold_err(
    s: Seq<(Seq<Seq<u8>>, NodeV)>,
    i: int,
    n: int,
    m: Map<Seq<Seq<u8>>, NodeV>,
    sp: Seq<Seq<u8>>,
    dp: Seq<Seq<u8>>,
)
    requires
        0 <= i <= n,
        copy_sub_fold(s, i, m, sp, dp) is Err,
    ensures
        copy_sub_fold(s, n, m, sp, dp) == copy_sub_fold(s, i, m, sp, dp),
    decreases n - i,
{
    if n > i {
        lemma_copy_sub_fold_err(s, i, n - 1, m, sp, dp);
    }
}

/// Replaying a well-formed tree onto an empty destination reproduces it
/// exactly: each prefix of the fold yields the map of the entries replayed
/// so far.
#[verifier::rlimit(100)]
pub proof fn lemma_copy_fold_identity(s: Seq<(Seq<Seq<u8>>, NodeV)>, i: int)
    requires
        crate::vfs::fs_wf(s),
        0 <= i <= s.len(),
    ensures
        copy_fold(s, i, Map::empty()) == Ok::<Map<Seq<Seq<u8>>, NodeV>, Error>(map_of(s.take(i))),
    decreases i,
{
    if i == 0 {
        assert(map_of(s.take(0)) =~= Map::<Seq<Seq<u8>>, NodeV>::empty()) by {
            assert(s.take(0).len() == 0);
        }
    } else {
        lemma_copy_fold_identity(s, i - 1);
        let t0 = s.take(i - 1);
        let m1 = map_of(t0);
        let pv = s[i - 1].0;
        let nv = s[i - 1].1;
        assert(entries_sorted(t0)) by {
            assert forall|x: int, y: int| 0 <= x < y < t0.len() implies path_lt(
                (#[trigger] t0[x]).0,
                (#[trigger] t0[y]).0,
            ) by {
                assert(t0[x] == s[x] && t0[y] == s[y]);
            }
        }
        // the current path is new in the accumulated map
        assert(!m1.dom().contains(pv)) by {
            if seq_has_path(t0, pv) {
                let j = choose|j: int| 0 <= j < t0.len() && (#[trigger] t0[j]).0 == pv;
                assert(s[j].0 == pv);
                lemma_sorted_unique(s, j, i - 1);
            }
        }
        // its ancestors are already present as directories
        assert forall|k: int| 0 < k < pv.len() implies m1.dom().contains(#[trigger] pv.take(k))
            && m1[pv.take(k)] is Dir by {
            lemma_map_at(s, i - 1);
            lemma_ancestor_dirs(s, pv, k);
            lemma_map_contains(s, pv.take(k));
            let w = seq_idx_of(s, pv.take(k));
            assert(is_strict_prefix(pv.take(k), pv)) by {
                assert(pv.take(pv.take(k).len() as int) == pv.take(k));
            }
            lemma_prefix_lt(pv.take(k), pv);
            assert(w < i - 1) by {
                if w == i - 1 {
                    lemma_path_lt_irrefl(pv);
                } else if w > i - 1 {
                    lemma_path_lt_asymm(pv.take(k), pv);
                }
            }
            assert(t0[w].0 == pv.take(k) && t0[w].1 == s[w].1);
            lemma_map_at(t0, w);
        }
        assert(dirs_ok(m1, pv)) by {
            assert forall|k: int| 0 < k <= pv.len() implies (!m1.dom().contains(
                #[trigger] pv.take(k),
            ) || m1[pv.take(k)] is Dir) by {
                if k == pv.len() {
                    assert(pv.take(k) =~= pv);
                }
            }
        }
        assert forall|k: int| 0 < k <= pv.drop_last().len() implies m1.dom().contains(
            #[trigger] pv.drop_last().take(k),
        ) by {
            assert(pv.drop_last().take(k) =~= pv.take(k));
        }
        assert(dirs_ok(m1, pv.drop_last())) by {
            assert forall|k: int| 0 < k <= pv.drop_last().len() implies (!m1.dom().contains(
                #[trigger] pv.drop_last().take(k),
            ) || m1[pv.drop_last().take(k)] is Dir) by {
                assert(pv.drop_last().take(k) =~= pv.take(k));
            }
        }
        lemma_insert_entry_at_end(s, i);
        match nv {
            NodeV::Dir { meta } => {
                lemma_dirall_present(m1, pv.drop_last(), meta);
                assert(dirall_map(m1, pv, meta) == m1.insert(pv, NodeV::Dir { meta })) by {
                    assert(pv.take(pv.len() as int) =~= pv);
                    assert(pv.drop_last() =~= pv.take(pv.len() - 1));
                }
                assert(copy_step(m1, pv, nv) == Ok::<Map<Seq<Seq<u8>>, NodeV>, Error>(
                    m1.insert(pv, NodeV::Dir { meta }).insert(pv, NodeV::Dir { meta }),
                ));
                assert(m1.insert(pv, NodeV::Dir { meta }).insert(pv, NodeV::Dir { meta }) =~= m1.insert(
                    pv,
                    NodeV::Dir { meta },
                ));
            },
            NodeV::File { content, meta } => {
                lemma_dirall_present(m1, pv.drop_last(), Meta::spec_dir_default());
            },
            NodeV::Symlink { target, meta } => {
                lemma_dirall_present(m1, pv.drop_last(), Meta::spec_dir_default());
            },
        }
    }
}
} // verus!
