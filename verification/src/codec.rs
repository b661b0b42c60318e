use vstd::prelude::*;

use crate::drive::{apply_copy_entry, copy_fold, copy_step};
use crate::errors::Error;
use crate::paths::{display_spec, lemma_parse_display, parse_spec, VfsPath};
use crate::vfs::{map_of, MemFS, Meta, Node, NodeKind, NodeV};

verus! {

/// One member of a tar archive, as plain data: its path in textual form,
/// its kind, its POSIX metadata, and its content or symlink target.
#[derive(Debug)]
pub struct TarEntry {
    pub path: Vec<u8>,
    pub kind: NodeKind,
    pub mode: u32,
    pub uid: u32,
    pub gid: u32,
    pub mtime: u64,
    pub content: Vec<u8>,
    pub target: Vec<u8>,
}

/// The mathematical value of a tar member.
#[verifier::ext_equal]
pub struct TarEntryV {
    pub path: Seq<u8>,
    pub kind: NodeKind,
    pub mode: u32,
    pub uid: u32,
    pub gid: u32,
    pub mtime: u64,
    pub content: Seq<u8>,
    pub target: Seq<u8>,
}

impl TarEntry {
    pub open spec fn v(&self) -> TarEntryV {
        TarEntryV {
            path: self.path@,
            kind: self.kind,
            mode: self.mode,
            uid: self.uid,
            gid: self.gid,
            mtime: self.mtime,
            content: self.content@,
            target: self.target@,
        }
    }
}

/// The values of a member vector.
pub open spec fn tar_entry_views(s: Seq<TarEntry>) -> Seq<TarEntryV> {
    Seq::new(s.len(), |i: int| s[i].v())
}

/// The bytes the tar encoder produces for a member list. They depend on the
/// members alone.
pub uninterp spec fn tar_bytes_of(entries: Seq<TarEntryV>) -> Seq<u8>;

/// The member list a tar archive's bytes carry. It depends on the bytes
/// alone.
pub uninterp spec fn tar_entries_of(b: Seq<u8>) -> Seq<TarEntryV>;

/// Whether `b` parses as a tar archive at all.
pub uninterp spec fn tar_parse_ok(b: Seq<u8>) -> bool;

/// Whether one member can be encoded: the header fields and name are
/// acceptable to the tar encoder. This depends on the member value alone.
pub uninterp spec fn tar_append_ok(e: TarEntryV) -> bool;

/// Every member of the list can be encoded.
pub open spec fn tar_encode_ok(s: Seq<TarEntryV>) -> bool {
    forall|i: int| 0 <= i < s.len() ==> tar_append_ok(#[trigger] s[i])
}

/// The foreign I/O error type, carried through the codec wrappers.
#[verifier::external_type_specification]
#[verifier::external_body]
pub struct ExIoError(std::io::Error);

/// Relies on std::io::Error::to_string: renders a foreign I/O error.
#[verifier::external_body]
fn ioe(e: std::io::Error) -> (r: Error)
    ensures
        r is IoError,
{
    Error::IoError(e.to_string())
}

/// An in-memory tar stream being built: it wraps the `tar` crate's
/// builder, which Verus sees only through `tar_contents`.
#[verifier::external_body]
pub struct TarSink {
    inner: tar::Builder<Vec<u8>>,
}

/// The members appended to a tar sink so far, in order.
pub uninterp spec fn tar_contents(b: TarSink) -> Seq<TarEntryV>;

/// Relies on tar::Builder::new: a fresh builder holds no members.
#[verifier::external_body]
fn tar_builder_new() -> (b: TarSink)
    ensures
        tar_contents(b) == Seq::<TarEntryV>::empty(),
{
    TarSink { inner: tar::Builder::new(Vec::new()) }
}

/// Relies on tar::Builder::append_data: encodes one directory member
/// after those already appended. Whether a member is acceptable depends
/// on its value alone (the in-memory writer cannot fail); member names
/// must be valid UTF-8.
#[verifier::external_body]
fn tar_append_dir(b: &mut TarSink, e: &TarEntry) -> (r: Result<(), Error>)
    requires
        e.kind == NodeKind::Dir,
    ensures
        r is Ok <==> tar_append_ok(e.v()),
        r is Ok ==> tar_contents(*final(b)) == tar_contents(*old(b)).push(e.v()),
{
    let mut h = tar::Header::new_gnu();
    h.set_mode(e.mode);
    h.set_uid(e.uid as u64);
    h.set_gid(e.gid as u64);
    h.set_mtime(e.mtime);
    h.set_entry_type(tar::EntryType::dir());
    h.set_size(0);
    let p = String::from_utf8_lossy(&e.path).trim_start_matches('/').to_string();
    b.inner.append_data(&mut h, &p, std::io::empty()).map_err(ioe)
}

/// Relies on tar::Builder::append_data: encodes one file member with its
/// content after those already appended. Whether a member is acceptable
/// depends on its value alone (the in-memory writer cannot fail).
#[verifier::external_body]
fn tar_append_file(b: &mut TarSink, e: &TarEntry) -> (r: Result<(), Error>)
    requires
        e.kind == NodeKind::File,
    ensures
        r is Ok <==> tar_append_ok(e.v()),
        r is Ok ==> tar_contents(*final(b)) == tar_contents(*old(b)).push(e.v()),
{
    let mut h = tar::Header::new_gnu();
    h.set_mode(e.mode);
    h.set_uid(e.uid as u64);
    h.set_gid(e.gid as u64);
    h.set_mtime(e.mtime);
    h.set_size(e.content.len() as u64);
    let p = String::from_utf8_lossy(&e.path).trim_start_matches('/').to_string();
    b.inner.append_data(&mut h, &p, e.content.as_slice()).map_err(ioe)
}

/// Relies on tar::Builder::append_link: encodes one symlink member with
/// its target after those already appended. Whether a member is
/// acceptable depends on its value alone (the in-memory writer cannot
/// fail).
#[verifier::external_body]
fn tar_append_symlink(b: &mut TarSink, e: &TarEntry) -> (r: Result<(), Error>)
    requires
        e.kind == NodeKind::Symlink,
    ensures
        r is Ok <==> tar_append_ok(e.v()),
        r is Ok ==> tar_contents(*final(b)) == tar_contents(*old(b)).push(e.v()),
{
    let mut h = tar::Header::new_gnu();
    h.set_mode(e.mode);
    h.set_uid(e.uid as u64);
    h.set_gid(e.gid as u64);
    h.set_mtime(e.mtime);
    h.set_entry_type(tar::EntryType::symlink());
    h.set_size(0);
    let p = String::from_utf8_lossy(&e.path).trim_start_matches('/').to_string();
    b.inner.append_link(&mut h, &p, String::from_utf8_lossy(&e.target).into_owned()).map_err(ioe)
}

/// Relies on tar::Builder::into_inner: closes the archive by padding the
/// in-memory buffer, which cannot fail. The bytes depend on the appended
/// members alone.
#[verifier::external_body]
fn tar_finish(b: TarSink) -> (r: Result<Vec<u8>, Error>)
    ensures
        r is Ok,
        r matches Ok(v) ==> v@ == tar_bytes_of(tar_contents(b)),
{
    b.inner.into_inner().map_err(ioe)
}

/// Encodes the members, in order, into a tar archive held in memory. It
/// succeeds exactly when every member is acceptable to the encoder.
pub fn tar_encode(entries: &Vec<TarEntry>) -> (r: Result<Vec<u8>, Error>)
    ensures
        r is Ok <==> tar_encode_ok(tar_entry_views(entries@)),
        r matches Ok(v) ==> v@ == tar_bytes_of(tar_entry_views(entries@)),
{
    let mut b = tar_builder_new();
    let n = entries.len();
    let mut i: usize = 0;
    while i < n
        invariant
            n == entries@.len(),
            i <= n,
            tar_contents(b) =~= tar_entry_views(entries@).take(i as int),
            forall|j: int| 0 <= j < i ==> tar_append_ok(#[trigger] tar_entry_views(entries@)[j]),
        decreases n - i,
    {
        let e = &entries[i];
        let step = match e.kind {
            NodeKind::Dir => tar_append_dir(&mut b, e),
            NodeKind::File => tar_append_file(&mut b, e),
            NodeKind::Symlink => tar_append_symlink(&mut b, e),
        };
        match step {
            Ok(()) => {},
            Err(e2) => {
                proof {
                    assert(!tar_append_ok(tar_entry_views(entries@)[i as int]));
                }
                return Err(e2);
            },
        }
        proof {
            assert(tar_contents(b) =~= tar_entry_views(entries@).take(i + 1));
        }
        i = i + 1;
    }
    proof {
        assert(tar_entry_views(entries@).take(n as int) =~= tar_entry_views(entries@));
    }
    tar_finish(b)
}

/// The tar member header type of the `tar` crate.
#[verifier::external_type_specification]
#[verifier::external_body]
pub struct ExTarHeader(tar::Header);

/// Relies on tar::Header's accessors: assembles a plain member record from
/// a decoded header and the bytes read beside it.
#[verifier::external_body]
fn tar_header_raw(h: &tar::Header, path: Vec<u8>, target: Vec<u8>, content: Vec<u8>) -> (r:
    TarEntry)
    ensures
        r.path@ == path@,
        r.target@ == target@,
        r.content@ == content@,
{
    let kind = if h.entry_type().is_dir() { NodeKind::Dir } else if h.entry_type().is_symlink() { NodeKind::Symlink } else { NodeKind::File };
    TarEntry { path, kind, mode: h.mode().unwrap_or(0o644), uid: h.uid().unwrap_or(0) as u32, gid: h.gid().unwrap_or(0) as u32, mtime: h.mtime().unwrap_or(0), content, target }
}

/// Relies on tar::Archive: reads the members of an archive, in order, into
/// plain records. Whether the bytes parse, and to what, depends on the
/// bytes alone.
#[verifier::external_body]
pub fn tar_decode(data: &[u8]) -> (r: Result<Vec<TarEntry>, Error>)
    ensures
        r is Ok <==> tar_parse_ok(data@),
        r matches Ok(v) ==> tar_entry_views(v@) == tar_entries_of(data@),
{
    let mut ar = tar::Archive::new(data);
    let mut out: Vec<TarEntry> = Vec::new();
    for er in ar.entries().map_err(ioe)? {
        let mut en = er.map_err(ioe)?;
        let h = en.header().clone();
        let (path, target) = (en.path_bytes().to_vec(), en.link_name_bytes().map(|c| c.to_vec()).unwrap_or_default());
        let mut content = Vec::new();
        std::io::Read::read_to_end(&mut en, &mut content).map_err(ioe)?;
        out.push(tar_header_raw(&h, path, target, content));
    }
    Ok(out)
}

/// The tar member a tree entry serialises to.
pub open spec fn entry_to_tar_spec(pv: Seq<Seq<u8>>, nv: NodeV) -> TarEntryV {
    TarEntryV {
        path: display_spec(pv),
        kind: nv.kind(),
        mode: nv.meta().mode,
        uid: nv.meta().uid,
        gid: nv.meta().gid,
        mtime: nv.meta().mtime,
        content: (if nv is File {
            nv->File_content
        } else {
            Seq::empty()
        }),
        target: (if nv is Symlink {
            nv->Symlink_target
        } else {
            Seq::empty()
        }),
    }
}

/// The member list a tree serialises to: its entries in canonical order.
pub open spec fn fs_to_tar_spec(s: Seq<(Seq<Seq<u8>>, NodeV)>) -> Seq<TarEntryV> {
    Seq::new(s.len(), |i: int| entry_to_tar_spec(s[i].0, s[i].1))
}

/// Serialises a tree into a member list, in the canonical order.
pub fn to_tar_entries(fs: &MemFS) -> (r: Vec<TarEntry>)
    requires
        fs.wf(),
    ensures
        tar_entry_views(r@) == fs_to_tar_spec(fs@),
{
    let n = fs.entry_count();
    let mut out: Vec<TarEntry> = Vec::new();
    let mut i: usize = 0;
    while i < n
        invariant
            fs.wf(),
            n == fs@.len(),
            i <= n,
            out@.len() == i,
            forall|j: int|
                0 <= j < i ==> (#[trigger] out@[j]).v() == entry_to_tar_spec(fs@[j].0, fs@[j].1),
        decreases n - i,
    {
        let path = fs.path_at(i);
        let node = fs.node_at(i);
        let pb = path.to_bytes();
        let meta = node.meta();
        let kind = node.kind();
        let (content, target) = match node {
            Node::File { content, .. } => (content, Vec::new()),
            Node::Symlink { target, .. } => (Vec::new(), target),
            Node::Dir { .. } => (Vec::new(), Vec::new()),
        };
        let e = TarEntry {
            path: pb,
            kind,
            mode: meta.mode,
            uid: meta.uid,
            gid: meta.gid,
            mtime: meta.mtime,
            content,
            target,
        };
        proof {
            assert(e.v().path == entry_to_tar_spec(fs@[i as int].0, fs@[i as int].1).path);
            assert(e.v().content == entry_to_tar_spec(fs@[i as int].0, fs@[i as int].1).content);
            assert(e.v().target == entry_to_tar_spec(fs@[i as int].0, fs@[i as int].1).target);
            assert(e.v() == entry_to_tar_spec(fs@[i as int].0, fs@[i as int].1));
        }
        out.push(e);
        i = i + 1;
    }
    proof {
        assert forall|j: int| 0 <= j < n implies #[trigger] tar_entry_views(out@)[j]
            == fs_to_tar_spec(fs@)[j] by {
            assert(out@[j].v() == entry_to_tar_spec(fs@[j].0, fs@[j].1));
        }
        assert(tar_entry_views(out@) =~= fs_to_tar_spec(fs@));
    }
    out
}

/// The node a tar member stands for.
pub open spec fn tar_to_node_spec(e: TarEntryV) -> NodeV {
    let meta = Meta { mode: e.mode, uid: e.uid, gid: e.gid, mtime: e.mtime };
    match e.kind {
        NodeKind::Dir => NodeV::Dir { meta },
        NodeKind::File => NodeV::File { content: e.content, meta },
        NodeKind::Symlink => NodeV::Symlink { target: e.target, meta },
    }
}

/// Rebuilding a tree from the first `i` members: each member is replayed at
/// its parsed path with the policy of `copy_step`; members whose name
/// parses to the root (such as `./`) are skipped.
pub open spec fn tar_rebuild_fold(s: Seq<TarEntryV>, i: int) -> Result<
    Map<Seq<Seq<u8>>, NodeV>,
    Error,
>
    decreases i,
{
    if i <= 0 {
        Ok(Map::empty())
    } else {
        match tar_rebuild_fold(s, i - 1) {
            Err(e) => Err(e),
            Ok(m1) => {
                if parse_spec(s[i - 1].path).len() == 0 {
                    Ok(m1)
                } else {
                    copy_step(m1, parse_spec(s[i - 1].path), tar_to_node_spec(s[i - 1]))
                }
            },
        }
    }
}

/// An error in the rebuild fold is final.
pub proof fn lemma_tar_rebuild_fold_err(s: Seq<TarEntryV>, i: int, n: int)
    requires
        0 <= i <= n,
        tar_rebuild_fold(s, i) is Err,
    ensures
        tar_rebuild_fold(s, n) == tar_rebuild_fold(s, i),
    decreases n - i,
{
    if n > i {
        lemma_tar_rebuild_fold_err(s, i, n - 1);
    }
}

/// Rebuilds a tree from a member list.
pub fn from_tar_entries(entries: &Vec<TarEntry>) -> (r: Result<MemFS, Error>)
    ensures
        match r {
            Ok(fs) => fs.wf() && tar_rebuild_fold(tar_entry_views(entries@), entries@.len() as int)
                == Ok::<Map<Seq<Seq<u8>>, NodeV>, Error>(fs.as_map()),
            Err(e) => tar_rebuild_fold(tar_entry_views(entries@), entries@.len() as int)
                == Err::<Map<Seq<Seq<u8>>, NodeV>, Error>(e),
        },
{
    let ghost sv = tar_entry_views(entries@);
    let mut fs = MemFS::new();
    let n = entries.len();
    let mut i: usize = 0;
    while i < n
        invariant
            fs.wf(),
            n == entries@.len(),
            i <= n,
            sv == tar_entry_views(entries@),
            tar_rebuild_fold(sv, i as int) == Ok::<Map<Seq<Seq<u8>>, NodeV>, Error>(fs.as_map()),
        decreases n - i,
    {
        let e = &entries[i];
        let path = VfsPath::parse(e.path.as_slice());
        proof {
            assert(sv[i as int] == entries@[i as int].v());
        }
        if !path.is_root() {
            let meta = Meta { mode: e.mode, uid: e.uid, gid: e.gid, mtime: e.mtime };
            let node = match e.kind {
                NodeKind::Dir => Node::Dir { meta },
                NodeKind::File => Node::File { content: crate::paths::copy_bytes(&e.content), meta },
                NodeKind::Symlink => Node::Symlink {
                    target: crate::paths::copy_bytes(&e.target),
                    meta,
                },
            };
            proof {
                assert(node.v() == tar_to_node_spec(sv[i as int]));
            }
            match apply_copy_entry(&mut fs, &path, node) {
                Ok(()) => {},
                Err(err) => {
                    proof {
                        lemma_tar_rebuild_fold_err(sv, i as int + 1, n as int);
                    }
                    return Err(err);
                },
            }
        }
        i = i + 1;
    }
    Ok(fs)
}

/// Round trip through the member list: serialising a well-formed tree and
/// rebuilding from the result reproduces the tree's contents, structure and
/// metadata exactly.
pub proof fn lemma_tar_entries_roundtrip(fs: MemFS)
    requires
        fs.wf(),
    ensures
        tar_rebuild_fold(fs_to_tar_spec(fs@), fs@.len() as int) == Ok::<
            Map<Seq<Seq<u8>>, NodeV>,
            Error,
        >(fs.as_map()),
{
    lemma_tar_rebuild_prefix(fs, fs@.len() as int);
    assert(fs@.take(fs@.len() as int) =~= fs@);
}

/// Each prefix of the rebuild fold over a tree's own serialised members
/// equals the copy fold of its entries, which reproduces the tree.
proof fn lemma_tar_rebuild_prefix(fs: MemFS, i: int)
    requires
        fs.wf(),
        0 <= i <= fs@.len(),
    ensures
        tar_rebuild_fold(fs_to_tar_spec(fs@), i) == copy_fold(fs@, i, Map::empty()),
        tar_rebuild_fold(fs_to_tar_spec(fs@), i) == Ok::<Map<Seq<Seq<u8>>, NodeV>, Error>(
            map_of(fs@.take(i)),
        ),
    decreases i,
{
    crate::drive::lemma_copy_fold_identity(fs@, i);
    if i > 0 {
        lemma_tar_rebuild_prefix(fs, i - 1);
        let e = fs_to_tar_spec(fs@)[i - 1];
        let pv = fs@[i - 1].0;
        let nv = fs@[i - 1].1;
        assert(e == entry_to_tar_spec(pv, nv));
        lemma_parse_display(pv);
        assert(parse_spec(e.path) == pv);
        assert(tar_to_node_spec(e) == nv) by {
            match nv {
                NodeV::Dir { meta } => {},
                NodeV::File { content, meta } => {},
                NodeV::Symlink { target, meta } => {},
            }
        }
    }
}

/// One member of an ar archive, as plain data.
#[derive(Debug)]
pub struct ArMember {
    pub name: Vec<u8>,
    pub data: Vec<u8>,
    pub mode: u32,
    pub uid: u32,
    pub gid: u32,
    pub mtime: u64,
}

/// The mathematical value of an ar member.
#[verifier::ext_equal]
pub struct ArMemberV {
    pub name: Seq<u8>,
    pub data: Seq<u8>,
    pub mode: u32,
    pub uid: u32,
    pub gid: u32,
    pub mtime: u64,
}

impl ArMember {
    pub open spec fn v(&self) -> ArMemberV {
        ArMemberV {
            name: self.name@,
            data: self.data@,
            mode: self.mode,
            uid: self.uid,
            gid: self.gid,
            mtime: self.mtime,
        }
    }
}

pub open spec fn ar_member_views(s: Seq<ArMember>) -> Seq<ArMemberV> {
    Seq::new(s.len(), |i: int| s[i].v())
}

/// The bytes the ar encoder produces for a member list. They depend on the
/// members alone.
pub uninterp spec fn ar_bytes_of(members: Seq<ArMemberV>) -> Seq<u8>;

/// The member list an ar archive's bytes carry. It depends on the bytes
/// alone.
pub uninterp spec fn ar_members_of(b: Seq<u8>) -> Seq<ArMemberV>;

/// Whether `b` parses as an ar archive at all.
pub uninterp spec fn ar_parse_ok(b: Seq<u8>) -> bool;

/// Whether a member list is acceptable to the ar encoder. This depends on
/// the member values alone.
pub uninterp spec fn ar_encode_ok(ms: Seq<ArMemberV>) -> bool;

/// Relies on ar::Builder and ar::Header: encodes the members, in order,
/// into a common-format ar archive held in memory. Whether the list is
/// acceptable depends on the member values alone (the in-memory writer
/// cannot fail).
#[verifier::external_body]
pub fn ar_encode(members: &Vec<ArMember>) -> (r: Result<Vec<u8>, Error>)
    ensures
        r is Ok <==> ar_encode_ok(ar_member_views(members@)),
        r matches Ok(v) ==> v@ == ar_bytes_of(ar_member_views(members@)),
{
    let mut b = ar::Builder::new(Vec::new());
    for m in members.iter() {
        let mut h = ar::Header::new(m.name.clone(), m.data.len() as u64);
        h.set_mode(m.mode);
        h.set_uid(m.uid);
        h.set_gid(m.gid);
        h.set_mtime(m.mtime);
        b.append(&h, m.data.as_slice()).map_err(ioe)?;
    }
    b.into_inner().map_err(ioe)
}

/// Relies on ar::Archive: reads the members of an ar archive, in order.
/// Whether the bytes parse, and to what, depends on the bytes alone.
#[verifier::external_body]
pub fn ar_decode(data: &[u8]) -> (r: Result<Vec<ArMember>, Error>)
    ensures
        r is Ok <==> ar_parse_ok(data@),
        r matches Ok(v) ==> ar_member_views(v@) == ar_members_of(data@),
{
    let mut a = ar::Archive::new(data);
    let mut out: Vec<ArMember> = Vec::new();
    while let Some(er) = a.next_entry() {
        let mut e = er.map_err(ioe)?;
        let h = e.header().clone();
        let mut data_v = Vec::new();
        std::io::Read::read_to_end(&mut e, &mut data_v).map_err(ioe)?;
        out.push(ArMember { name: h.identifier().to_vec(), data: data_v, mode: h.mode(), uid: h.uid(), gid: h.gid(), mtime: h.mtime() });
    }
    Ok(out)
}

} // verus!
