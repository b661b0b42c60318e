use vstd::prelude::*;

use crate::errors::Error;
use crate::paths::{display_spec, is_strict_prefix, parse_spec, pathv_wf, VfsPath};
use crate::drive::{copy_sub_fold, DiskDrive};
use crate::vfs::{
    dirall_map, dirs_ok, lemma_ancestor_dirs, lemma_missing_no_descendants,
    lemma_nondir_no_descendants, rename_spec, reroot_overlay, subtree_keys, MemFS, Meta, Node,
    NodeKind, NodeV,
};

verus! {

/// One declarative mutation of a virtual filesystem, applied before a
/// producer serialises the tree.
///
/// `Move`, `Copy`, `Symlink`, `Touch`, `Delete` and `Create` act on the tree
/// alone. `HostFile` and `HostDir` name a path of the host filesystem as
/// their source; the host tree is handed in separately, as another `MemFS`,
/// by whatever read it from disk.
#[derive(Debug)]
pub enum Injection {
    Move { src: VfsPath, dest: VfsPath },
    Copy { src: VfsPath, dest: VfsPath },
    Symlink { src: VfsPath, dest: VfsPath },
    Touch { path: VfsPath },
    Delete { path: VfsPath },
    Create { path: VfsPath, content: Vec<u8> },
    HostFile { src: Vec<u8>, dest: VfsPath },
    HostDir { src: Vec<u8>, dest: VfsPath },
}

/// The move decision table as a function on maps: which error a move
/// reports, or the map it produces. Each hop through a symlink on either
/// side costs one unit of the depth budget of eight.
///
/// A directory may not move onto a file, and the directory-onto-directory
/// case is deliberately not supported: it reports `UnsupportedOperation`
/// rather than guessing between merge and replace semantics.
pub open spec fn move_spec(
    m: Map<Seq<Seq<u8>>, NodeV>,
    src: Seq<Seq<u8>>,
    dest: Seq<Seq<u8>>,
    depth: int,
) -> Result<Map<Seq<Seq<u8>>, NodeV>, Error>
    decreases 9 - depth,
{
    if src.len() == 0 || dest.len() == 0 {
        Err(Error::WrongType)
    } else if !m.dom().contains(src) {
        Err(Error::NotFound)
    } else if depth > 8 {
        Err(Error::TooManySymlinks)
    } else if !m.dom().contains(dest) {
        rename_spec(m, src, dest)
    } else {
        let sk = m[src].kind();
        let dk = m[dest].kind();
        if sk == NodeKind::File && dk == NodeKind::File {
            rename_spec(m, src, dest)
        } else if sk == NodeKind::File && dk == NodeKind::Dir {
            rename_spec(m, src, dest.push(src.last()))
        } else if sk == NodeKind::Dir && dk == NodeKind::File {
            Err(Error::WrongType)
        } else if sk == NodeKind::Dir && dk == NodeKind::Dir {
            Err(Error::UnsupportedOperation)
        } else if sk == NodeKind::Symlink && dk == NodeKind::Symlink {
            move_spec(
                m,
                parse_spec(m[src]->Symlink_target),
                parse_spec(m[dest]->Symlink_target),
                depth + 1,
            )
        } else if dk == NodeKind::Symlink {
            move_spec(m, src, parse_spec(m[dest]->Symlink_target), depth + 1)
        } else {
            move_spec(m, parse_spec(m[src]->Symlink_target), dest, depth + 1)
        }
    }
}

impl Injection {
    /// Moves `src` to `dest` following the decision table of `move_spec`:
    /// a file replaces a file, nests under a directory by its base name, and
    /// symlinks on either side are dereferenced one hop at a time within the
    /// shared depth budget of eight.
    pub fn do_move_file(fs: &mut MemFS, src: &VfsPath, dest: &VfsPath) -> (r: Result<(), Error>)
        requires
            old(fs).wf(),
            pathv_wf(src@),
            pathv_wf(dest@),
            src@.len() > 0,
            dest@.len() > 0,
        ensures
            final(fs).wf(),
            match move_spec(old(fs).as_map(), src@, dest@, 0) {
                Ok(m2) => r is Ok && final(fs).as_map() == m2,
                Err(e) => r == Err::<(), Error>(e) && final(fs)@ == old(fs)@,
            },
    {
        let ghost m0 = fs.as_map();
        let mut csrc = src.duplicate();
        let mut cdest = dest.duplicate();
        let mut depth: u8 = 0;
        loop
            invariant
                fs.wf(),
                fs@ == old(fs)@,
                m0 == fs.as_map(),
                depth <= 9,
                pathv_wf(csrc@),
                pathv_wf(cdest@),
                csrc@.len() > 0,
                cdest@.len() > 0,
                move_spec(m0, src@, dest@, 0) == move_spec(m0, csrc@, cdest@, depth as int),
            decreases 9 - depth,
        {
            let skind = match fs.kind_of(&csrc) {
                Some(k) => k,
                None => {
                    return Err(Error::NotFound);
                },
            };
            if depth > 8 {
                return Err(Error::TooManySymlinks);
            }
            match fs.kind_of(&cdest) {
                None => {
                    let r = fs.rename(&csrc, &cdest);
                    return r;
                },
                Some(dkind) => {
                    match (skind, dkind) {
                        (NodeKind::File, NodeKind::File) => {
                            let r = fs.rename(&csrc, &cdest);
                            return r;
                        },
                        (NodeKind::File, NodeKind::Dir) => {
                            let nested = cdest.child(csrc.base());
                            proof {
                                assert(pathv_wf(nested@)) by {
                                    assert forall|i: int| 0 <= i < nested@.len() implies
                                        crate::paths::seg_wf(#[trigger] nested@[i]) by {
                                        if i < cdest@.len() {
                                            assert(nested@[i] == cdest@[i]);
                                        } else {
                                            assert(nested@[i] == csrc@.last());
                                        }
                                    }
                                }
                            }
                            let r = fs.rename(&csrc, &nested);
                            return r;
                        },
                        (NodeKind::Dir, NodeKind::File) => {
                            return Err(Error::WrongType);
                        },
                        (NodeKind::Dir, NodeKind::Dir) => {
                            return Err(Error::UnsupportedOperation);
                        },
                        (NodeKind::Symlink, NodeKind::Symlink) => {
                            let ts = match fs.read_link(&csrc) {
                                Ok(t) => t,
                                Err(e) => {
                                    return Err(e);
                                },
                            };
                            let td = match fs.read_link(&cdest) {
                                Ok(t) => t,
                                Err(e) => {
                                    return Err(e);
                                },
                            };
                            let ns = VfsPath::parse(ts.as_slice());
                            let nd = VfsPath::parse(td.as_slice());
                            if ns.is_root() || nd.is_root() {
                                // a symlink target that names the root cannot
                                // be moved over
                                proof {
                                    assert(move_spec(m0, ns@, nd@, depth as int + 1) == Err::<
                                        Map<Seq<Seq<u8>>, NodeV>,
                                        Error,
                                    >(Error::WrongType));
                                }
                                return Err(Error::WrongType);
                            }
                            csrc = ns;
                            cdest = nd;
                            depth = depth + 1;
                        },
                        (_, NodeKind::Symlink) => {
                            let td = match fs.read_link(&cdest) {
                                Ok(t) => t,
                                Err(e) => {
                                    return Err(e);
                                },
                            };
                            let nd = VfsPath::parse(td.as_slice());
                            if nd.is_root() {
                                proof {
                                    assert(move_spec(m0, csrc@, nd@, depth as int + 1) == Err::<
                                        Map<Seq<Seq<u8>>, NodeV>,
                                        Error,
                                    >(Error::WrongType));
                                }
                                return Err(Error::WrongType);
                            }
                            cdest = nd;
                            depth = depth + 1;
                        },
                        (NodeKind::Symlink, _) => {
                            let ts = match fs.read_link(&csrc) {
                                Ok(t) => t,
                                Err(e) => {
                                    return Err(e);
                                },
                            };
                            let ns = VfsPath::parse(ts.as_slice());
                            if ns.is_root() {
                                proof {
                                    assert(move_spec(m0, ns@, cdest@, depth as int + 1) == Err::<
                                        Map<Seq<Seq<u8>>, NodeV>,
                                        Error,
                                    >(Error::WrongType));
                                }
                                return Err(Error::WrongType);
                            }
                            csrc = ns;
                            depth = depth + 1;
                        },
                    }
                },
            }
        }
    }
}


impl Injection {
    /// The paths of the injection are well formed and nonempty.
    pub open spec fn wf(&self) -> bool {
        match self {
            Injection::Move { src, dest } => pathv_wf(src@) && src@.len() > 0 && pathv_wf(dest@)
                && dest@.len() > 0,
            Injection::Copy { src, dest } => pathv_wf(src@) && src@.len() > 0 && pathv_wf(dest@)
                && dest@.len() > 0,
            Injection::Symlink { src, dest } => pathv_wf(src@) && src@.len() > 0 && pathv_wf(
                dest@,
            ) && dest@.len() > 0,
            Injection::Touch { path } => pathv_wf(path@) && path@.len() > 0,
            Injection::Delete { path } => pathv_wf(path@) && path@.len() > 0,
            Injection::Create { path, .. } => pathv_wf(path@) && path@.len() > 0,
            Injection::HostFile { dest, .. } => pathv_wf(dest@) && dest@.len() > 0,
            Injection::HostDir { dest, .. } => pathv_wf(dest@) && dest@.len() > 0,
        }
    }
}

/// What applying one injection does: the outcome it reports and the map it
/// leaves behind. A failed `Move` may leave the destination's freshly
/// created parent directories behind, exactly as the sequential procedure
/// does; every other failure leaves the tree untouched. The host-sourced
/// injections are not a function of the tree alone and are handled by
/// `inject_with_host`.
pub open spec fn inject_spec(m: Map<Seq<Seq<u8>>, NodeV>, inj: Injection) -> (Result<(), Error>, Map<
    Seq<Seq<u8>>,
    NodeV,
>) {
    match inj {
        Injection::Move { src, dest } => {
            if !m.dom().contains(src@) {
                (Err(Error::NotFound), m)
            } else if !dirs_ok(m, dest@.drop_last()) {
                (Err(Error::AlreadyExists), m)
            } else {
                let m1 = dirall_map(m, dest@.drop_last(), Meta::spec_dir_default());
                match move_spec(m1, src@, dest@, 0) {
                    Ok(m2) => (Ok(()), m2),
                    Err(e) => (Err(e), m1),
                }
            }
        },
        Injection::Copy { src, dest } => {
            if !m.dom().contains(src@) {
                (Err(Error::NotFound), m)
            } else if !(m[src@] is File) {
                (Err(Error::WrongType), m)
            } else if m.dom().contains(dest@) && m[dest@] is Dir {
                (Err(Error::WrongType), m)
            } else if !dirs_ok(m, dest@.drop_last()) {
                (Err(Error::AlreadyExists), m)
            } else {
                (
                    Ok(()),
                    dirall_map(m, dest@.drop_last(), Meta::spec_dir_default()).insert(
                        dest@,
                        NodeV::File { content: m[src@]->File_content, meta: m[src@].meta() },
                    ),
                )
            }
        },
        Injection::Symlink { src, dest } => {
            if m.dom().contains(dest@) {
                (Err(Error::AlreadyExists), m)
            } else if !dirs_ok(m, dest@.drop_last()) {
                (Err(Error::AlreadyExists), m)
            } else {
                (
                    Ok(()),
                    dirall_map(m, dest@.drop_last(), Meta::spec_dir_default()).insert(
                        dest@,
                        NodeV::Symlink { target: display_spec(src@), meta: Meta::spec_link_default() },
                    ),
                )
            }
        },
        Injection::Touch { path } => {
            if m.dom().contains(path@) && m[path@] is File {
                (Ok(()), m)
            } else if m.dom().contains(path@) {
                (Err(Error::WrongType), m)
            } else if !dirs_ok(m, path@.drop_last()) {
                (Err(Error::AlreadyExists), m)
            } else {
                (
                    Ok(()),
                    dirall_map(m, path@.drop_last(), Meta::spec_dir_default()).insert(
                        path@,
                        NodeV::File { content: Seq::empty(), meta: Meta::spec_file_default() },
                    ),
                )
            }
        },
        Injection::Delete { path } => {
            if !m.dom().contains(path@) {
                (Err(Error::NotFound), m)
            } else {
                (Ok(()), m.remove_keys(subtree_keys(path@)))
            }
        },
        Injection::Create { path, content } => {
            if m.dom().contains(path@) && m[path@] is Dir {
                (Err(Error::WrongType), m)
            } else if !dirs_ok(m, path@.drop_last()) {
                (Err(Error::AlreadyExists), m)
            } else {
                (
                    Ok(()),
                    dirall_map(m, path@.drop_last(), Meta::spec_dir_default()).insert(
                        path@,
                        NodeV::File { content: content@, meta: Meta::spec_file_default() },
                    ),
                )
            }
        },
        Injection::HostFile { .. } => (Err(Error::UnsupportedOperation), m),
        Injection::HostDir { .. } => (Err(Error::UnsupportedOperation), m),
    }
}

impl Injection {
    /// Applies this injection to the tree. The host-sourced injections
    /// report `UnsupportedOperation` here; they are served by
    /// `inject_with_host`, which also receives the host tree.
    pub fn inject(&self, fs: &mut MemFS) -> (r: Result<(), Error>)
        requires
            old(fs).wf(),
            self.wf(),
        ensures
            final(fs).wf(),
            r is Ok <==> inject_spec(old(fs).as_map(), *self).0 is Ok,
            r matches Err(e) ==> inject_spec(old(fs).as_map(), *self).0 == Err::<(), Error>(e),
            final(fs).as_map() == inject_spec(old(fs).as_map(), *self).1,
    {
        match self {
            Injection::Move { src, dest } => {
                if fs.kind_of(src).is_none() {
                    return Err(Error::NotFound);
                }
                let dparent = dest.parent();
                proof {
                    assert(pathv_wf(dparent@)) by {
                        assert forall|t: int| 0 <= t < dparent@.len() implies crate::paths::seg_wf(
                            #[trigger] dparent@[t],
                        ) by {
                            assert(dparent@[t] == dest@[t]);
                        }
                    }
                }
                match fs.create_dir_all(&dparent, Meta::dir_default()) {
                    Err(e) => Err(e),
                    Ok(()) => Injection::do_move_file(fs, src, dest),
                }
            },
            Injection::Copy { src, dest } => {
                match fs.node_of(src) {
                    None => Err(Error::NotFound),
                    Some(Node::File { content, meta }) => fs.write_file(dest, content, meta),
                    Some(_) => Err(Error::WrongType),
                }
            },
            Injection::Symlink { src, dest } => {
                let target = src.to_bytes();
                fs.symlink(target, dest, Meta::link_default())
            },
            Injection::Touch { path } => fs.touch(path, Meta::file_default()),
            Injection::Delete { path } => fs.remove_dir_all(path),
            Injection::Create { path, content } => {
                let bytes = crate::paths::copy_bytes(content);
                fs.write_file(path, bytes, Meta::file_default())
            },
            Injection::HostFile { .. } => Err(Error::UnsupportedOperation),
            Injection::HostDir { .. } => Err(Error::UnsupportedOperation),
        }
    }

    /// Applies this injection with a host tree at hand: `HostFile` and
    /// `HostDir` copy from the host tree (read from the host filesystem by
    /// the caller) into the target; every other injection ignores the host.
    pub fn inject_with_host(&self, fs: &mut MemFS, host: &MemFS) -> (r: Result<(), Error>)
        requires
            old(fs).wf(),
            host.wf(),
            self.wf(),
        ensures
            final(fs).wf(),
            match self {
                Injection::HostFile { src, dest } | Injection::HostDir { src, dest } => {
                    if parse_spec(src@).len() == 0 {
                        r == Err::<(), Error>(Error::WrongType) && final(fs)@ == old(fs)@
                    } else {
                        match copy_sub_fold(
                            host@,
                            host@.len() as int,
                            old(fs).as_map(),
                            parse_spec(src@),
                            dest@,
                        ) {
                            Ok(m2) => r is Ok && final(fs).as_map() == m2,
                            Err(e) => r matches Err(e2) && e2 == e,
                        }
                    }
                },
                _ => {
                    let s = inject_spec(old(fs).as_map(), *self);
                    &&& (r is Ok <==> s.0 is Ok)
                    &&& (r matches Err(e) ==> s.0 == Err::<(), Error>(e))
                    &&& final(fs).as_map() == s.1
                },
            },
    {
        match self {
            Injection::HostFile { src, dest } | Injection::HostDir { src, dest } => {
                let sp = VfsPath::parse(src.as_slice());
                if sp.is_root() {
                    return Err(Error::WrongType);
                }
                let drive = DiskDrive::new();
                drive.copy_from_src_to_dest(host, fs, &sp, dest)
            },
            _ => self.inject(fs),
        }
    }
}

/// Applying a list of injections in order, stopping at the first error.
pub open spec fn injections_spec(
    m: Map<Seq<Seq<u8>>, NodeV>,
    injs: Seq<Injection>,
    i: int,
) -> (Result<(), Error>, Map<Seq<Seq<u8>>, NodeV>)
    decreases i,
{
    if i <= 0 {
        (Ok(()), m)
    } else {
        let prev = injections_spec(m, injs, i - 1);
        if prev.0 is Err {
            prev
        } else {
            inject_spec(prev.1, injs[i - 1])
        }
    }
}

/// An error in the injection list is final.
pub proof fn lemma_injections_spec_err(
    m: Map<Seq<Seq<u8>>, NodeV>,
    injs: Seq<Injection>,
    i: int,
    n: int,
)
    requires
        0 <= i <= n,
        injections_spec(m, injs, i).0 is Err,
    ensures
        injections_spec(m, injs, n) == injections_spec(m, injs, i),
    decreases n - i,
{
    if n > i {
        lemma_injections_spec_err(m, injs, i, n - 1);
    }
}

/// Applies a producer's injections in declared order, aborting at the first
/// failure.
pub fn apply_injections(fs: &mut MemFS, injs: &Vec<Injection>) -> (r: Result<(), Error>)
    requires
        old(fs).wf(),
        forall|j: int| 0 <= j < injs@.len() ==> (#[trigger] injs@[j]).wf(),
    ensures
        final(fs).wf(),
        r == injections_spec(old(fs).as_map(), injs@, injs@.len() as int).0,
        final(fs).as_map() == injections_spec(old(fs).as_map(), injs@, injs@.len() as int).1,
{
    let n = injs.len();
    let mut i: usize = 0;
    while i < n
        invariant
            fs.wf(),
            n == injs@.len(),
            i <= n,
            forall|j: int| 0 <= j < injs@.len() ==> (#[trigger] injs@[j]).wf(),
            injections_spec(old(fs).as_map(), injs@, i as int) == (
                Ok::<(), Error>(()),
                fs.as_map(),
            ),
        decreases n - i,
    {
        match injs[i].inject(fs) {
            Ok(()) => {},
            Err(e) => {
                proof {
                    lemma_injections_spec_err(old(fs).as_map(), injs@, i as int + 1, n as int);
                }
                return Err(e);
            },
        }
        i = i + 1;
    }
    Ok(())
}

/// Applying `Create { p, c }` and then `Delete { p }` leaves `p` absent,
/// whatever tree the pair is applied to and however either step fares.
pub proof fn lemma_create_then_delete(fs: MemFS, p: VfsPath, c: Vec<u8>, p2: VfsPath)
    requires
        fs.wf(),
        pathv_wf(p@),
        p@.len() > 0,
        p2@ == p@,
    ensures
        ({
            let step1 = inject_spec(fs.as_map(), Injection::Create { path: p, content: c });
            let step2 = inject_spec(step1.1, Injection::Delete { path: p2 });
            !step2.1.dom().contains(p@)
        }),
{
    let m = fs.as_map();
    let step1 = inject_spec(m, Injection::Create { path: p, content: c });
    if m.dom().contains(p@) && m[p@] is Dir {
        // the create is refused, the delete then removes the directory
        assert(step1.1 == m);
        assert(subtree_keys(p@).contains(p@));
    } else if !dirs_ok(m, p@.drop_last()) {
        // a parent is blocked, so p cannot have existed at all
        assert(step1.1 == m);
        if m.dom().contains(p@) {
            assert forall|k: int| 0 < k <= p@.drop_last().len() implies (!m.dom().contains(
                #[trigger] p@.drop_last().take(k),
            ) || m[p@.drop_last().take(k)] is Dir) by {
                assert(p@.drop_last().take(k) =~= p@.take(k));
                lemma_ancestor_dirs(fs@, p@, k);
            }
            assert(false);
        }
    } else {
        // the create succeeds and the delete removes the file
        crate::vfs::lemma_dirall_facts(m, p@.drop_last(), Meta::spec_dir_default());
        assert(step1.1.dom().contains(p@));
        assert(subtree_keys(p@).contains(p@));
    }
}

/// Applying `Touch { p }` twice to a tree where `p` is free and reachable
/// leaves exactly one empty file at `p`, and the second application changes
/// nothing and reports no error. (When `p` already names a directory or
/// symlink, a touch is refused instead.)
pub proof fn lemma_touch_twice(fs: MemFS, p: VfsPath, p2: VfsPath)
    requires
        fs.wf(),
        pathv_wf(p@),
        p@.len() > 0,
        p2@ == p@,
        !fs.as_map().dom().contains(p@),
        dirs_ok(fs.as_map(), p@.drop_last()),
    ensures
        ({
            let step1 = inject_spec(fs.as_map(), Injection::Touch { path: p });
            let step2 = inject_spec(step1.1, Injection::Touch { path: p2 });
            &&& step1.0 is Ok
            &&& step2.0 is Ok
            &&& step2.1 == step1.1
            &&& step1.1.dom().contains(p@)
            &&& step1.1[p@] == (NodeV::File {
                content: Seq::<u8>::empty(),
                meta: Meta::spec_file_default(),
            })
        }),
{
    let m = fs.as_map();
    let step1 = inject_spec(m, Injection::Touch { path: p });
    crate::vfs::lemma_dirall_facts(m, p@.drop_last(), Meta::spec_dir_default());
}

/// The move conflict matrix for files: moving a file onto an existing file
/// replaces it; moving a file onto an existing directory nests it under the
/// directory by its base name; moving a nonexistent source fails with
/// `NotFound` and changes nothing.
pub proof fn lemma_move_conflict_matrix(fs: MemFS, src: VfsPath, dest: VfsPath)
    requires
        fs.wf(),
        pathv_wf(src@),
        pathv_wf(dest@),
        src@.len() > 0,
        dest@.len() > 0,
    ensures
        !fs.as_map().dom().contains(src@) ==> inject_spec(
            fs.as_map(),
            Injection::Move { src, dest },
        ) == (Err::<(), Error>(Error::NotFound), fs.as_map()),
        ({
            let m = fs.as_map();
            (m.dom().contains(src@) && m[src@] is File && m.dom().contains(dest@) && m[dest@]
                is File && src@ != dest@) ==> match move_spec(m, src@, dest@, 0) {
                Ok(m2) => m2.dom().contains(dest@) && m2[dest@] == m[src@]
                    && !m2.dom().contains(src@),
                Err(e) => false,
            }
        }),
        ({
            let m = fs.as_map();
            let nested = dest@.push(src@.last());
            (m.dom().contains(src@) && m[src@] is File && m.dom().contains(dest@) && m[dest@]
                is Dir && nested != src@ && !(m.dom().contains(nested) && m[nested] is Dir))
                ==> match move_spec(m, src@, dest@, 0) {
                Ok(m2) => m2.dom().contains(nested) && m2[nested] == m[src@]
                    && !m2.dom().contains(src@),
                Err(e) => false,
            }
        }),
{
    let m = fs.as_map();
    if m.dom().contains(src@) && m[src@] is File {
        lemma_nondir_no_descendants(fs@, src@);
        if m.dom().contains(dest@) && m[dest@] is File && src@ != dest@ {
            assert(dirs_ok(m, dest@.drop_last())) by {
                assert forall|k: int| 0 < k <= dest@.drop_last().len() implies (!m.dom().contains(
                    #[trigger] dest@.drop_last().take(k),
                ) || m[dest@.drop_last().take(k)] is Dir) by {
                    assert(dest@.drop_last().take(k) =~= dest@.take(k));
                    lemma_ancestor_dirs(fs@, dest@, k);
                }
            }
            lemma_leaf_rename_facts(fs, src@, dest@);
        }
        if m.dom().contains(dest@) && m[dest@] is Dir {
            let nested = dest@.push(src@.last());
            if nested != src@ && !(m.dom().contains(nested) && m[nested] is Dir) {
                assert(pathv_wf(nested)) by {
                    assert forall|i: int| 0 <= i < nested.len() implies crate::paths::seg_wf(
                        #[trigger] nested[i],
                    ) by {
                        if i < dest@.len() {
                            assert(nested[i] == dest@[i]);
                        } else {
                            assert(nested[i] == src@.last());
                        }
                    }
                }
                assert(nested.drop_last() =~= dest@);
                assert(dirs_ok(m, nested.drop_last())) by {
                    assert forall|k: int| 0 < k <= dest@.len() implies (!m.dom().contains(
                        #[trigger] nested.drop_last().take(k),
                    ) || m[nested.drop_last().take(k)] is Dir) by {
                        assert(nested.drop_last().take(k) =~= dest@.take(k));
                        if k < dest@.len() {
                            lemma_ancestor_dirs(fs@, dest@, k);
                        } else {
                            assert(dest@.take(k) =~= dest@);
                        }
                    }
                }
                assert(!is_strict_prefix(src@, nested)) by {
                    if is_strict_prefix(src@, nested) {
                        assert(src@.len() <= dest@.len());
                        assert(src@ == nested.take(src@.len() as int));
                        assert(nested.take(src@.len() as int) =~= dest@.take(src@.len() as int));
                        if src@.len() == dest@.len() {
                            assert(dest@.take(src@.len() as int) =~= dest@);
                            assert(src@ == dest@);
                            assert(false);
                        } else {
                            assert(is_strict_prefix(src@, dest@));
                            assert(false);
                        }
                    }
                }
                lemma_leaf_rename_facts(fs, src@, nested);
            }
        }
    }
}

/// What a successful rename of a file (a leaf) does to the map: the source
/// binding disappears and the destination carries the source's node.
proof fn lemma_leaf_rename_facts(fs: MemFS, src: Seq<Seq<u8>>, dest: Seq<Seq<u8>>)
    requires
        fs.wf(),
        pathv_wf(src),
        pathv_wf(dest),
        src.len() > 0,
        dest.len() > 0,
        src != dest,
        !is_strict_prefix(src, dest),
        fs.as_map().dom().contains(src),
        fs.as_map()[src] is File,
        fs.as_map().dom().contains(dest) ==> !(fs.as_map()[dest] is Dir),
        dirs_ok(fs.as_map(), dest.drop_last()),
    ensures
        match rename_spec(fs.as_map(), src, dest) {
            Ok(m2) => m2.dom().contains(dest) && m2[dest] == fs.as_map()[src]
                && !m2.dom().contains(src),
            Err(e) => false,
        },
{
    let m = fs.as_map();
    lemma_nondir_no_descendants(fs@, src);
    let m2 = dirall_map(m, dest.drop_last(), Meta::spec_dir_default()).remove_keys(
        subtree_keys(src),
    ).union_prefer_right(reroot_overlay(m, src, dest));
    crate::vfs::lemma_dirall_facts(m, dest.drop_last(), Meta::spec_dir_default());
    // the overlay carries exactly the binding dest -> m[src]
    assert(reroot_overlay(m, src, dest).dom().contains(dest)) by {
        assert(dest.take(dest.len() as int) =~= dest);
        assert(dest.skip(dest.len() as int) =~= Seq::<Seq<u8>>::empty());
        assert(src + dest.skip(dest.len() as int) =~= src);
    }
    assert(reroot_overlay(m, src, dest)[dest] == m[src]) by {
        assert(src + dest.skip(dest.len() as int) =~= src);
    }
    assert(!m2.dom().contains(src)) by {
        assert(subtree_keys(src).contains(src));
        if reroot_overlay(m, src, dest).dom().contains(src) {
            let tail = src.skip(dest.len() as int);
            if tail.len() > 0 {
                assert(is_strict_prefix(src, src + tail)) by {
                    assert((src + tail).take(src.len() as int) =~= src);
                }
            } else {
                assert(src =~= dest);
            }
        }
    }
}

} // verus!
