use vstd::prelude::*;

use crate::artifact::{
    append_bytes, append_str, chars_bytes, check_deb_name, check_maintainer, check_version,
    bytes_is, deb_arch_ok, deb_name_ok, maint_ok, strings_view, ver_ok,
};
use crate::codec::{
    ar_bytes_of, ar_decode, ar_encode, ar_member_views, ar_members_of, tar_bytes_of, tar_encode,
    to_tar_entries, fs_to_tar_spec, ArMember, ArMemberV,
};
use crate::compression::{compress, gzip_of};
use crate::errors::Error;
use crate::inject::{apply_injections, injections_spec, Injection};
use crate::paths::{display_spec, VfsPath};
use crate::util::{dec_spec, hex_spec, md5_digest, md5_of, to_hex, u64_to_dec};
use crate::vfs::{canon, lemma_canon, size_spec, MemFS, Meta, Node, NodeV};
use vstd::string::{StrSliceExecFns, StringExecFns, StringSliceAdditionalSpecFns};

verus! {

/// The fields of a Debian control block.
#[derive(Debug)]
pub struct ControlFile {
    pub package: String,
    pub version: String,
    pub section: String,
    pub priority: String,
    pub architecture: String,
    pub depends: String,
    pub suggests: String,
    pub conflicts: String,
    pub replaces: String,
    pub installed_size: u64,
    pub maintainer: String,
    pub description: String,
}

/// The rendered control member of a Debian package.
pub open spec fn control_spec(
    name: Seq<char>,
    maint: Seq<char>,
    arch: Seq<char>,
    ver: Seq<char>,
    dep: Seq<char>,
    desc: Seq<char>,
    size: nat,
) -> Seq<u8> {
    chars_bytes(("Package: ")@) + chars_bytes(name) + chars_bytes(("\nMaintainer: ")@)
        + chars_bytes(maint) + chars_bytes(("\nArchitecture: ")@) + chars_bytes(arch)
        + chars_bytes(("\nVersion: ")@) + chars_bytes(ver) + chars_bytes(("\nDepends: ")@)
        + chars_bytes(dep) + chars_bytes(("\nDescription: ")@) + chars_bytes(desc) + chars_bytes(
        ("\nInstalled-Size: ")@,
    ) + dec_spec(size) + chars_bytes(("\n")@)
}

/// One line of the md5sums member: the digest, two spaces, the path.
pub open spec fn md5_line(pv: Seq<Seq<u8>>, content: Seq<u8>) -> Seq<u8> {
    hex_spec(md5_of(content)) + chars_bytes(("  ")@) + display_spec(pv)
}

/// The md5sums member: one line per regular file, in the canonical order,
/// joined by newlines.
pub open spec fn md5sums_spec(s: Seq<(Seq<Seq<u8>>, NodeV)>, i: int) -> Seq<u8>
    decreases i,
{
    if i <= 0 {
        Seq::empty()
    } else {
        let rest = md5sums_spec(s, i - 1);
        if s[i - 1].1 is File {
            if rest.len() == 0 {
                md5_line(s[i - 1].0, s[i - 1].1->File_content)
            } else {
                rest + chars_bytes(("\n")@) + md5_line(s[i - 1].0, s[i - 1].1->File_content)
            }
        } else {
            rest
        }
    }
}

/// The control archive's tree: `control` and `md5sums`, with the optional
/// maintainer scripts.
pub open spec fn control_map_spec(
    ctrl: Seq<u8>,
    md5s: Seq<u8>,
    postinst: Option<Seq<u8>>,
    prerm: Option<Seq<u8>>,
) -> Map<Seq<Seq<u8>>, NodeV> {
    let m0 = Map::<Seq<Seq<u8>>, NodeV>::empty().insert(
        seq![chars_bytes(("control")@)],
        NodeV::File { content: ctrl, meta: Meta::spec_file_default() },
    ).insert(
        seq![chars_bytes(("md5sums")@)],
        NodeV::File { content: md5s, meta: Meta::spec_file_default() },
    );
    let m1 = match postinst {
        Some(b) => m0.insert(
            seq![chars_bytes(("postinst")@)],
            NodeV::File { content: b, meta: Meta::spec_file_default() },
        ),
        None => m0,
    };
    match prerm {
        Some(b) => m1.insert(
            seq![chars_bytes(("prerm")@)],
            NodeV::File { content: b, meta: Meta::spec_file_default() },
        ),
        None => m1,
    }
}

/// An ar member of a Debian package: plain metadata, root-owned.
pub open spec fn deb_member(name: Seq<u8>, data: Seq<u8>) -> ArMemberV {
    ArMemberV { name, data, mode: 0o644u32, uid: 0u32, gid: 0u32, mtime: 0u64 }
}

/// The final `.deb`: an ar archive of the version marker, the control
/// archive and the data archive.
pub open spec fn deb_ar_spec(ctrl_gz: Seq<u8>, data_gz: Seq<u8>) -> Seq<u8> {
    ar_bytes_of(
        seq![
            deb_member(chars_bytes(("debian-binary")@), chars_bytes(("2.0\n")@)),
            deb_member(chars_bytes(("control.tar.gz")@), ctrl_gz),
            deb_member(chars_bytes(("data.tar.gz")@), data_gz),
        ],
    )
}

/// The first member of `s`, from `i` on, whose name starts with `pre`, or
/// `-1`.
pub open spec fn ar_find(s: Seq<ArMemberV>, pre: Seq<u8>, i: int) -> int
    decreases s.len() - i,
{
    if i < 0 || i >= s.len() {
        -1
    } else if crate::compression::starts_with(s[i].name, pre) {
        i
    } else {
        ar_find(s, pre, i + 1)
    }
}

/// A Debian package held as bytes at a host path.
#[derive(Debug)]
pub struct DebArtifact {
    pub name: String,
    pub path: String,
    pub control: Option<ControlFile>,
    pub postinst: Option<String>,
    pub prerm: Option<String>,
}

/// When extracting a `.deb` succeeds: the ar container parses, carries a
/// `data.tar*` member, and that member extracts as a tarball.
pub open spec fn deb_extract_ok(b: Seq<u8>) -> bool {
    let ms = ar_members_of(b);
    let di = ar_find(ms, chars_bytes(("data.tar")@), 0);
    &&& crate::codec::ar_parse_ok(b)
    &&& di >= 0
    &&& crate::artifact::tarball::tarball_extract_ok(ms[di].data)
}

/// The tree a `.deb`'s bytes describe: the first `data.tar*` member of the
/// ar archive, unpacked as a tarball.
pub open spec fn deb_extract_spec(b: Seq<u8>) -> Result<Map<Seq<Seq<u8>>, NodeV>, Error> {
    let ms = ar_members_of(b);
    let di = ar_find(ms, chars_bytes(("data.tar")@), 0);
    if di < 0 {
        Err(Error::NotFound)
    } else {
        crate::artifact::tarball::tarball_extract_spec(ms[di].data)
    }
}

impl DebArtifact {
    pub fn name(&self) -> (r: &String)
        ensures
            r@ == self.name@,
    {
        &self.name
    }

    /// Finds the first member whose name starts with `pre`.
    fn find_member(members: &Vec<ArMember>, pre: &str) -> (r: Option<usize>)
        ensures
            match r {
                Some(i) => i < members@.len() && ar_find(
                    ar_member_views(members@),
                    pre.spec_bytes(),
                    0,
                ) == i as int,
                None => ar_find(ar_member_views(members@), pre.spec_bytes(), 0) == -1,
            },
    {
        let pb = pre.as_bytes();
        let n = members.len();
        let mut i: usize = 0;
        while i < n
            invariant
                n == members@.len(),
                i <= n,
                pb@ == pre.spec_bytes(),
                ar_find(ar_member_views(members@), pre.spec_bytes(), 0) == ar_find(
                    ar_member_views(members@),
                    pre.spec_bytes(),
                    i as int,
                ),
            decreases n - i,
        {
            let name = &members[i].name;
            let mut matches_pre = name.len() >= pb.len();
            let mut j: usize = 0;
            while matches_pre && j < pb.len()
                invariant
                    pb@.len() <= name@.len() || !matches_pre,
                    j <= pb@.len(),
                    matches_pre ==> forall|t: int| 0 <= t < j ==> name@[t] == pb@[t],
                    !matches_pre ==> (name@.len() < pb@.len() || exists|t: int|
                        0 <= t < pb@.len() && name@[t] != pb@[t]),
                decreases pb@.len() - j + (if matches_pre { 1int } else { 0int }),
            {
                if name[j] != pb[j] {
                    proof {
                        assert(0 <= j < pb@.len() && name@[j as int] != pb@[j as int]);
                    }
                    matches_pre = false;
                } else {
                    j = j + 1;
                }
            }
            proof {
                assert(ar_member_views(members@)[i as int] == members@[i as int].v());
                if matches_pre {
                    assert(name@.take(pb@.len() as int) =~= pb@);
                    assert(crate::compression::starts_with(members@[i as int].v().name, pb@));
                } else {
                    if crate::compression::starts_with(members@[i as int].v().name, pb@) {
                        if name@.len() < pb@.len() {
                        } else {
                            let t = choose|t: int| 0 <= t < pb@.len() && name@[t] != pb@[t];
                            assert(name@.take(pb@.len() as int)[t] == name@[t]);
                        }
                        assert(false);
                    }
                }
            }
            if matches_pre {
                return Some(i);
            }
            proof {
                assert(ar_find(ar_member_views(members@), pre.spec_bytes(), i as int) == ar_find(
                    ar_member_views(members@),
                    pre.spec_bytes(),
                    i as int + 1,
                ));
            }
            i = i + 1;
        }
        None
    }

    /// Unpacks the data archive of the `.deb` bytes into a fresh tree. It
    /// succeeds exactly when the container parses, holds a data archive,
    /// and that archive extracts.
    pub fn extract(&self, data: &[u8]) -> (r: Result<MemFS, Error>)
        ensures
            r is Ok <==> deb_extract_ok(data@),
            r matches Ok(fs) ==> fs.wf() && deb_extract_spec(data@) == Ok::<
                Map<Seq<Seq<u8>>, NodeV>,
                Error,
            >(fs.as_map()),
    {
        let members = match ar_decode(data) {
            Ok(ms) => ms,
            Err(e) => {
                return Err(e);
            },
        };
        let di = match DebArtifact::find_member(&members, "data.tar") {
            Some(i) => i,
            None => {
                return Err(Error::NotFound);
            },
        };
        let art = crate::artifact::tarball::TarballArtifact {
            name: String::new(),
            path: String::new(),
        };
        let fs = art.extract(members[di].data.as_slice());
        proof {
            assert(ar_member_views(members@)[di as int] == members@[di as int].v());
        }
        fs
    }

    /// Validates the artifact's shape: the path must end in `.deb`, the
    /// container must parse, and it must carry the version marker, a
    /// control archive and a data archive — exactly these conditions.
    pub fn validate(&self, data: &[u8]) -> (r: Result<(), Error>)
        ensures
            r is Ok <==> (ends_with_bytes(chars_bytes(self.path@), (".deb").spec_bytes())
                && crate::codec::ar_parse_ok(data@) && ar_find(
                ar_members_of(data@),
                chars_bytes(("debian-binary")@),
                0,
            ) >= 0 && ar_find(ar_members_of(data@), chars_bytes(("control.tar")@), 0) >= 0
                && ar_find(ar_members_of(data@), chars_bytes(("data.tar")@), 0) >= 0),
    {
        let pbv = self.path.as_str().as_bytes_vec();
        if !bytes_end_with(&pbv, ".deb") {
            return Err(Error::ValidationFailed(Vec::new()));
        }
        let members = match ar_decode(data) {
            Ok(ms) => ms,
            Err(e) => {
                return Err(e);
            },
        };
        if DebArtifact::find_member(&members, "debian-binary").is_none() {
            return Err(Error::ValidationFailed(Vec::new()));
        }
        if DebArtifact::find_member(&members, "control.tar").is_none() {
            return Err(Error::ValidationFailed(Vec::new()));
        }
        if DebArtifact::find_member(&members, "data.tar").is_none() {
            return Err(Error::ValidationFailed(Vec::new()));
        }
        Ok(())
    }
}

/// `s` ends with the bytes of `suffix`.
pub open spec fn ends_with_bytes(s: Seq<u8>, suffix: Seq<u8>) -> bool {
    s.len() >= suffix.len() && s.skip(s.len() - suffix.len()) == suffix
}

/// Tests whether a byte string ends with the bytes of `suffix`.
pub fn bytes_end_with(v: &Vec<u8>, suffix: &str) -> (r: bool)
    ensures
        r == ends_with_bytes(v@, suffix.spec_bytes()),
{
    let sb = suffix.as_bytes();
    let n = v.len();
    let m = sb.len();
    if n < m {
        return false;
    }
    let mut i: usize = 0;
    while i < m
        invariant
            n == v@.len(),
            m == sb@.len(),
            sb@ == suffix.spec_bytes(),
            m <= n,
            i <= m,
            forall|j: int| 0 <= j < i ==> v@[n - m + j] == sb@[j],
        decreases m - i,
    {
        if v[n - m + i] != sb[i] {
            proof {
                if ends_with_bytes(v@, suffix.spec_bytes()) {
                    assert(v@.skip(n as int - m as int)[i as int] == sb@[i as int]);
                }
            }
            return false;
        }
        i = i + 1;
    }
    proof {
        assert(v@.skip(n as int - m as int) =~= sb@);
    }
    true
}

/// A builder for Debian artifacts.
#[derive(Debug)]
pub struct DebArtifactBuilder {
    pub name: String,
    pub path: String,
    pub control: Option<ControlFile>,
    pub postinst: Option<String>,
    pub prerm: Option<String>,
}

impl DebArtifactBuilder {
    pub fn new(name: &str) -> (r: DebArtifactBuilder)
        ensures
            r.name@ == name@,
            r.path@.len() == 0,
            r.control is None,
            r.postinst is None,
            r.prerm is None,
    {
        DebArtifactBuilder {
            name: String::from_str(name),
            path: String::new(),
            control: None,
            postinst: None,
            prerm: None,
        }
    }

    pub fn path(self, path: &str) -> (r: DebArtifactBuilder)
        ensures
            r.name@ == self.name@,
            r.path@ == path@,
            r.control == self.control,
            r.postinst == self.postinst,
            r.prerm == self.prerm,
    {
        DebArtifactBuilder {
            name: self.name,
            path: String::from_str(path),
            control: self.control,
            postinst: self.postinst,
            prerm: self.prerm,
        }
    }

    pub fn control(self, control: ControlFile) -> (r: DebArtifactBuilder)
        ensures
            r.name@ == self.name@,
            r.path@ == self.path@,
            r.control == Some(control),
            r.postinst == self.postinst,
            r.prerm == self.prerm,
    {
        DebArtifactBuilder {
            name: self.name,
            path: self.path,
            control: Some(control),
            postinst: self.postinst,
            prerm: self.prerm,
        }
    }

    pub fn postinst(self, postinst: &str) -> (r: DebArtifactBuilder)
        ensures
            r.name@ == self.name@,
            r.path@ == self.path@,
            r.control == self.control,
            r.postinst matches Some(p) && p@ == postinst@,
            r.prerm == self.prerm,
    {
        DebArtifactBuilder {
            name: self.name,
            path: self.path,
            control: self.control,
            postinst: Some(String::from_str(postinst)),
            prerm: self.prerm,
        }
    }

    pub fn prerm(self, prerm: &str) -> (r: DebArtifactBuilder)
        ensures
            r.name@ == self.name@,
            r.path@ == self.path@,
            r.control == self.control,
            r.postinst == self.postinst,
            r.prerm matches Some(p) && p@ == prerm@,
    {
        DebArtifactBuilder {
            name: self.name,
            path: self.path,
            control: self.control,
            postinst: self.postinst,
            prerm: Some(String::from_str(prerm)),
        }
    }

    pub fn build(self) -> (r: Result<DebArtifact, Error>)
        ensures
            r matches Ok(a) && a.name@ == self.name@ && a.path@ == self.path@ && a.control
                == self.control && a.postinst == self.postinst && a.prerm == self.prerm,
    {
        Ok(
            DebArtifact {
                name: self.name,
                path: self.path,
                control: self.control,
                postinst: self.postinst,
                prerm: self.prerm,
            },
        )
    }
}

/// Produces a Debian package: a plain ar archive of the version marker, a
/// gzip control archive (control text and md5sums) and a gzip data archive.
#[derive(Debug)]
pub struct DebProducer {
    pub name: String,
    pub path: String,
    pub prerm: Option<String>,
    pub postinst: Option<String>,
    pub injections: Vec<Injection>,
    pub package_name: String,
    pub package_maintainer: String,
    pub package_architecture: String,
    pub package_version: String,
    pub package_depends: String,
    pub package_description: String,
}

/// The validation messages of a Debian producer, one per failed check, in
/// the order the checks run.
pub open spec fn deb_errs(n_ok: bool, m_ok: bool, v_ok: bool, d_ok: bool, a_ok: bool) -> Seq<
    Seq<char>,
> {
    (if n_ok {
        Seq::<Seq<char>>::empty()
    } else {
        seq![("package name is invalid")@]
    }) + (if m_ok {
        Seq::<Seq<char>>::empty()
    } else {
        seq![("package maintainer is invalid")@]
    }) + (if v_ok {
        Seq::<Seq<char>>::empty()
    } else {
        seq![("package version is invalid")@]
    }) + (if d_ok {
        Seq::<Seq<char>>::empty()
    } else {
        seq![("package description must not be empty")@]
    }) + (if a_ok {
        Seq::<Seq<char>>::empty()
    } else {
        seq![("package architecture is invalid")@]
    })
}

/// The control tree of a package over a finished data tree: the rendered
/// control text (carrying the tree's installed size), the md5sums member,
/// and the optional maintainer scripts.
pub open spec fn deb_control_map_of(
    p: DebProducer,
    v: Seq<(Seq<Seq<u8>>, NodeV)>,
    postinst: Option<Seq<u8>>,
    prerm: Option<Seq<u8>>,
) -> Map<Seq<Seq<u8>>, NodeV> {
    let size: nat = if size_spec(v) <= u64::MAX {
        size_spec(v)
    } else {
        u64::MAX as nat
    };
    let ctrl = control_spec(
        p.package_name@,
        p.package_maintainer@,
        p.package_architecture@,
        p.package_version@,
        p.package_depends@,
        p.package_description@,
        size,
    );
    let md5s = md5sums_spec(v, v.len() as int);
    control_map_spec(ctrl, md5s, postinst, prerm)
}

/// The three ar members of a package over a finished data tree: the
/// version marker, the gzip control archive, and the gzip data archive.
pub open spec fn deb_members_of(
    p: DebProducer,
    v: Seq<(Seq<Seq<u8>>, NodeV)>,
    postinst: Option<Seq<u8>>,
    prerm: Option<Seq<u8>>,
) -> Seq<ArMemberV> {
    seq![
        deb_member(chars_bytes(("debian-binary")@), chars_bytes(("2.0\n")@)),
        deb_member(
            chars_bytes(("control.tar.gz")@),
            gzip_of(tar_bytes_of(fs_to_tar_spec(canon(deb_control_map_of(p, v, postinst, prerm))))),
        ),
        deb_member(
            chars_bytes(("data.tar.gz")@),
            gzip_of(tar_bytes_of(fs_to_tar_spec(v))),
        ),
    ]
}

impl DebProducer {
    pub open spec fn wf(&self) -> bool {
        forall|j: int| 0 <= j < self.injections@.len() ==> (#[trigger] self.injections@[j]).wf()
    }

    /// All the producer's metadata checks pass.
    pub open spec fn valid_spec(&self) -> bool {
        &&& deb_name_ok(chars_bytes(self.package_name@))
        &&& maint_ok(chars_bytes(self.package_maintainer@))
        &&& ver_ok(chars_bytes(self.package_version@))
        &&& self.package_description@.len() > 0
        &&& deb_arch_ok(chars_bytes(self.package_architecture@))
    }

    pub fn name(&self) -> (r: &String)
        ensures
            r@ == self.name@,
    {
        &self.name
    }

    /// Pre-flight validation: the package name, maintainer, version,
    /// description and architecture are each checked, and every violation is
    /// reported, not just the first.
    pub fn validate(&self) -> (r: Result<(), Error>)
        ensures
            r is Ok <==> self.valid_spec(),
            r matches Err(e) ==> (e matches Error::ValidationFailed(v) && strings_view(v@)
                == deb_errs(
                deb_name_ok(chars_bytes(self.package_name@)),
                maint_ok(chars_bytes(self.package_maintainer@)),
                ver_ok(chars_bytes(self.package_version@)),
                self.package_description@.len() > 0,
                deb_arch_ok(chars_bytes(self.package_architecture@)),
            )),
    {
        let nb = self.package_name.as_str().as_bytes_vec();
        let n_ok = check_deb_name(&nb);
        let mb = self.package_maintainer.as_str().as_bytes_vec();
        let m_ok = check_maintainer(&mb);
        let vb = self.package_version.as_str().as_bytes_vec();
        let v_ok = check_version(&vb);
        let d_ok = !self.package_description.as_str().is_empty();
        let ab = self.package_architecture.as_str().as_bytes_vec();
        let a_ok = bytes_is(&ab, "amd64") || bytes_is(&ab, "arm64") || bytes_is(&ab, "armel")
            || bytes_is(&ab, "armhf") || bytes_is(&ab, "i386") || bytes_is(&ab, "mips") || bytes_is(
            &ab,
            "mips64el",
        ) || bytes_is(&ab, "mipsel") || bytes_is(&ab, "ppc64el") || bytes_is(&ab, "s390x")
            || bytes_is(&ab, "sh4") || bytes_is(&ab, "sh4eb") || bytes_is(&ab, "sparc") || bytes_is(
            &ab,
            "sparc64",
        );
        if n_ok && m_ok && v_ok && d_ok && a_ok {
            return Ok(());
        }
        let mut errs: Vec<String> = Vec::new();
        if !n_ok {
            errs.push(String::from_str("package name is invalid"));
        }
        if !m_ok {
            errs.push(String::from_str("package maintainer is invalid"));
        }
        if !v_ok {
            errs.push(String::from_str("package version is invalid"));
        }
        if !d_ok {
            errs.push(String::from_str("package description must not be empty"));
        }
        if !a_ok {
            errs.push(String::from_str("package architecture is invalid"));
        }
        proof {
            assert(strings_view(errs@) =~= deb_errs(n_ok, m_ok, v_ok, d_ok, a_ok));
        }
        Err(Error::ValidationFailed(errs))
    }

    /// Renders the control member.
    fn render_control(&self, size: u64) -> (r: Vec<u8>)
        ensures
            r@ == control_spec(
                self.package_name@,
                self.package_maintainer@,
                self.package_architecture@,
                self.package_version@,
                self.package_depends@,
                self.package_description@,
                size as nat,
            ),
    {
        let mut v: Vec<u8> = Vec::new();
        append_str(&mut v, "Package: ");
        append_str(&mut v, self.package_name.as_str());
        append_str(&mut v, "\nMaintainer: ");
        append_str(&mut v, self.package_maintainer.as_str());
        append_str(&mut v, "\nArchitecture: ");
        append_str(&mut v, self.package_architecture.as_str());
        append_str(&mut v, "\nVersion: ");
        append_str(&mut v, self.package_version.as_str());
        append_str(&mut v, "\nDepends: ");
        append_str(&mut v, self.package_depends.as_str());
        append_str(&mut v, "\nDescription: ");
        append_str(&mut v, self.package_description.as_str());
        append_str(&mut v, "\nInstalled-Size: ");
        let dec = u64_to_dec(size);
        append_bytes(&mut v, &dec);
        append_str(&mut v, "\n");
        v
    }

    /// Renders the md5sums member over a finished tree.
    fn render_md5sums(fs: &MemFS) -> (r: Vec<u8>)
        requires
            fs.wf(),
        ensures
            r@ == md5sums_spec(fs@, fs@.len() as int),
    {
        let n = fs.entry_count();
        let mut v: Vec<u8> = Vec::new();
        let mut i: usize = 0;
        while i < n
            invariant
                fs.wf(),
                n == fs@.len(),
                i <= n,
                v@ == md5sums_spec(fs@, i as int),
            decreases n - i,
        {
            let node = fs.node_at(i);
            match node {
                Node::File { content, .. } => {
                    let path = fs.path_at(i);
                    let digest = md5_digest(content.as_slice());
                    let hexd = to_hex(&digest);
                    if v.len() > 0 {
                        append_str(&mut v, "\n");
                    }
                    append_bytes(&mut v, &hexd);
                    append_str(&mut v, "  ");
                    let disp = path.to_bytes();
                    append_bytes(&mut v, &disp);
                    proof {
                        assert(v@ =~= md5sums_spec(fs@, i as int + 1));
                    }
                },
                _ => {},
            }
            i = i + 1;
        }
        v
    }

    /// Applies the injections and produces the full `.deb` byte stream: a
    /// gzip data archive of the finished tree, a gzip control archive with
    /// the rendered control text (carrying the tree's installed size) and
    /// per-file MD5 checksums, and the ar container around them. It
    /// succeeds exactly when the injections do and the data members, the
    /// control members and the ar members are all acceptable to their
    /// encoders.
    #[verifier::rlimit(100)]
    pub fn produce_from(
        &self,
        fs: &mut MemFS,
        postinst: Option<Vec<u8>>,
        prerm: Option<Vec<u8>>,
    ) -> (r: Result<(DebArtifact, Vec<u8>), Error>)
        requires
            old(fs).wf(),
            self.wf(),
        ensures
            final(fs).wf(),
            final(fs).as_map() == injections_spec(
                old(fs).as_map(),
                self.injections@,
                self.injections@.len() as int,
            ).1,
            injections_spec(old(fs).as_map(), self.injections@, self.injections@.len() as int).0
                matches Err(e) ==> r == Err::<(DebArtifact, Vec<u8>), Error>(e),
            ({
                let pv = match postinst {
                    Some(b) => Some(b@),
                    None => None,
                };
                let rv = match prerm {
                    Some(b) => Some(b@),
                    None => None,
                };
                &&& (r is Ok <==> (injections_spec(
                    old(fs).as_map(),
                    self.injections@,
                    self.injections@.len() as int,
                ).0 is Ok && crate::codec::tar_encode_ok(fs_to_tar_spec(final(fs)@))
                    && crate::codec::tar_encode_ok(
                    fs_to_tar_spec(canon(deb_control_map_of(*self, final(fs)@, pv, rv))),
                ) && crate::codec::ar_encode_ok(deb_members_of(*self, final(fs)@, pv, rv))))
                &&& (r matches Ok(pair) ==> ({
                    let size: nat = if size_spec(final(fs)@) <= u64::MAX {
                        size_spec(final(fs)@)
                    } else {
                        u64::MAX as nat
                    };
                    &&& pair.1@ == ar_bytes_of(deb_members_of(*self, final(fs)@, pv, rv))
                    &&& pair.0.name@ == self.name@
                    &&& pair.0.path@ == self.path@
                    &&& pair.0.control matches Some(c) && c.package@ == self.package_name@
                        && c.version@ == self.package_version@ && c.architecture@
                        == self.package_architecture@ && c.maintainer@ == self.package_maintainer@
                        && c.depends@ == self.package_depends@ && c.description@
                        == self.package_description@ && c.installed_size == size
                }))
            }),
    {
        match apply_injections(fs, &self.injections) {
            Ok(()) => {},
            Err(e) => {
                return Err(e);
            },
        }
        // the data archive
        let entries = to_tar_entries(fs);
        let data_tar = match tar_encode(&entries) {
            Ok(t) => t,
            Err(e) => {
                return Err(e);
            },
        };
        let data_gz = match compress(
            crate::compression::CompressionType::Gzip,
            data_tar.as_slice(),
        ) {
            Ok(o) => o,
            Err(e) => {
                return Err(e);
            },
        };
        // the control archive
        let size = fs.size();
        let ctrl = self.render_control(size);
        let md5s = DebProducer::render_md5sums(fs);
        let mut cfs = MemFS::new();
        let pc = VfsPath { segs: vec!["control".as_bytes_vec()] };
        proof {
            crate::artifact::lemma_control_seg();
            assert(pc@ =~= seq![chars_bytes(("control")@)]);
            assert(pc@.drop_last() =~= Seq::<Seq<u8>>::empty());
        }
        match cfs.write_file(&pc, ctrl, Meta::file_default()) {
            Ok(()) => {},
            Err(_) => {
                return Err(Error::IoError(String::new()));
            },
        }
        proof {
            lemma_control_tree_files(cfs.as_map());
        }
        let pm = VfsPath { segs: vec!["md5sums".as_bytes_vec()] };
        proof {
            crate::artifact::lemma_md5sums_seg();
            assert(pm@ =~= seq![chars_bytes(("md5sums")@)]);
            assert(pm@.drop_last() =~= Seq::<Seq<u8>>::empty());
        }
        match cfs.write_file(&pm, md5s, Meta::file_default()) {
            Ok(()) => {},
            Err(_) => {
                return Err(Error::IoError(String::new()));
            },
        }
        proof {
            lemma_control_tree_files(cfs.as_map());
        }
        match postinst {
            Some(b) => {
                let pp = VfsPath { segs: vec!["postinst".as_bytes_vec()] };
                proof {
                    crate::artifact::lemma_postinst_seg();
                    assert(pp@ =~= seq![chars_bytes(("postinst")@)]);
                    assert(pp@.drop_last() =~= Seq::<Seq<u8>>::empty());
                }
                match cfs.write_file(&pp, b, Meta::file_default()) {
                    Ok(()) => {},
                    Err(_) => {
                        return Err(Error::IoError(String::new()));
                    },
                }
            },
            None => {},
        }
        proof {
            lemma_control_tree_files(cfs.as_map());
        }
        match prerm {
            Some(b) => {
                let pp = VfsPath { segs: vec!["prerm".as_bytes_vec()] };
                proof {
                    crate::artifact::lemma_prerm_seg();
                    assert(pp@ =~= seq![chars_bytes(("prerm")@)]);
                    assert(pp@.drop_last() =~= Seq::<Seq<u8>>::empty());
                }
                match cfs.write_file(&pp, b, Meta::file_default()) {
                    Ok(()) => {},
                    Err(_) => {
                        return Err(Error::IoError(String::new()));
                    },
                }
            },
            None => {},
        }
        proof {
            lemma_canon(cfs);
        }
        let centries = to_tar_entries(&cfs);
        let ctrl_tar = match tar_encode(&centries) {
            Ok(t) => t,
            Err(e) => {
                return Err(e);
            },
        };
        let ctrl_gz = match compress(
            crate::compression::CompressionType::Gzip,
            ctrl_tar.as_slice(),
        ) {
            Ok(o) => o,
            Err(e) => {
                return Err(e);
            },
        };
        // the ar container
        let mut members: Vec<ArMember> = Vec::new();
        let mut marker: Vec<u8> = Vec::new();
        append_str(&mut marker, "2.0\n");
        members.push(
            ArMember {
                name: "debian-binary".as_bytes_vec(),
                data: marker,
                mode: 0o644u32,
                uid: 0u32,
                gid: 0u32,
                mtime: 0u64,
            },
        );
        members.push(
            ArMember {
                name: "control.tar.gz".as_bytes_vec(),
                data: ctrl_gz,
                mode: 0o644u32,
                uid: 0u32,
                gid: 0u32,
                mtime: 0u64,
            },
        );
        members.push(
            ArMember {
                name: "data.tar.gz".as_bytes_vec(),
                data: data_gz,
                mode: 0o644u32,
                uid: 0u32,
                gid: 0u32,
                mtime: 0u64,
            },
        );
        proof {
            assert(ar_member_views(members@) =~~= deb_members_of(
                *self,
                fs@,
                match postinst {
                    Some(b) => Some(b@),
                    None => None,
                },
                match prerm {
                    Some(b) => Some(b@),
                    None => None,
                },
            ));
        }
        let deb_bytes = match ar_encode(&members) {
            Ok(b) => b,
            Err(e) => {
                return Err(e);
            },
        };
        let control = ControlFile {
            package: self.package_name.clone(),
            version: self.package_version.clone(),
            section: String::new(),
            priority: String::new(),
            architecture: self.package_architecture.clone(),
            depends: self.package_depends.clone(),
            suggests: String::new(),
            conflicts: String::new(),
            replaces: String::new(),
            installed_size: size,
            maintainer: self.package_maintainer.clone(),
            description: self.package_description.clone(),
        };
        let art = DebArtifact {
            name: self.name.clone(),
            path: self.path.clone(),
            control: Some(control),
            postinst: None,
            prerm: None,
        };
        Ok((art, deb_bytes))
    }
}

/// Every node the control-archive construction stores is a regular file:
/// the writes go to fresh or file-held root-level names, so none can be
/// refused for hitting a directory.
proof fn lemma_control_tree_files(m: Map<Seq<Seq<u8>>, NodeV>)
    requires
        forall|q: Seq<Seq<u8>>| #[trigger] m.dom().contains(q) ==> m[q] is File,
    ensures
        forall|q: Seq<Seq<u8>>| #[trigger] m.dom().contains(q) ==> !(m[q] is Dir),
{
}

/// A builder for Debian producers.
#[derive(Debug)]
pub struct DebProducerBuilder {
    pub name: String,
    pub path: String,
    pub prerm: Option<String>,
    pub postinst: Option<String>,
    pub injections: Vec<Injection>,
    pub package_name: String,
    pub package_maintainer: String,
    pub package_architecture: String,
    pub package_version: String,
    pub package_depends: String,
    pub package_description: String,
}

impl DebProducerBuilder {
    pub fn new(name: &str) -> (r: DebProducerBuilder)
        ensures
            r.name@ == name@,
            r.path@ == ("package.deb")@,
            r.prerm is None,
            r.postinst is None,
            r.injections@.len() == 0,
            r.package_name@.len() == 0,
            r.package_maintainer@.len() == 0,
            r.package_architecture@.len() == 0,
            r.package_version@.len() == 0,
            r.package_depends@.len() == 0,
            r.package_description@.len() == 0,
    {
        DebProducerBuilder {
            name: String::from_str(name),
            path: String::from_str("package.deb"),
            prerm: None,
            postinst: None,
            injections: Vec::new(),
            package_name: String::new(),
            package_maintainer: String::new(),
            package_architecture: String::new(),
            package_version: String::new(),
            package_depends: String::new(),
            package_description: String::new(),
        }
    }


    pub fn path(self, path: &str) -> (r: DebProducerBuilder)
        ensures
            r.path@ == path@,
            r.name@ == self.name@,
            r.prerm == self.prerm,
            r.postinst == self.postinst,
            r.injections == self.injections,
            r.package_name@ == self.package_name@,
            r.package_maintainer@ == self.package_maintainer@,
            r.package_architecture@ == self.package_architecture@,
            r.package_version@ == self.package_version@,
            r.package_depends@ == self.package_depends@,
            r.package_description@ == self.package_description@,
    {
        DebProducerBuilder { name: self.name, path: String::from_str(path), prerm: self.prerm, postinst: self.postinst, injections: self.injections, package_name: self.package_name, package_maintainer: self.package_maintainer, package_architecture: self.package_architecture, package_version: self.package_version, package_depends: self.package_depends, package_description: self.package_description }
    }

    pub fn package_name(self, package_name: &str) -> (r: DebProducerBuilder)
        ensures
            r.package_name@ == package_name@,
            r.name@ == self.name@,
            r.path@ == self.path@,
            r.prerm == self.prerm,
            r.postinst == self.postinst,
            r.injections == self.injections,
            r.package_maintainer@ == self.package_maintainer@,
            r.package_architecture@ == self.package_architecture@,
            r.package_version@ == self.package_version@,
            r.package_depends@ == self.package_depends@,
            r.package_description@ == self.package_description@,
    {
        DebProducerBuilder { name: self.name, path: self.path, prerm: self.prerm, postinst: self.postinst, injections: self.injections, package_name: String::from_str(package_name), package_maintainer: self.package_maintainer, package_architecture: self.package_architecture, package_version: self.package_version, package_depends: self.package_depends, package_description: self.package_description }
    }

    pub fn package_maintainer(self, package_maintainer: &str) -> (r: DebProducerBuilder)
        ensures
            r.package_maintainer@ == package_maintainer@,
            r.name@ == self.name@,
            r.path@ == self.path@,
            r.prerm == self.prerm,
            r.postinst == self.postinst,
            r.injections == self.injections,
            r.package_name@ == self.package_name@,
            r.package_architecture@ == self.package_architecture@,
            r.package_version@ == self.package_version@,
            r.package_depends@ == self.package_depends@,
            r.package_description@ == self.package_description@,
    {
        DebProducerBuilder { name: self.name, path: self.path, prerm: self.prerm, postinst: self.postinst, injections: self.injections, package_name: self.package_name, package_maintainer: String::from_str(package_maintainer), package_architecture: self.package_architecture, package_version: self.package_version, package_depends: self.package_depends, package_description: self.package_description }
    }

    pub fn package_architecture(self, package_architecture: &str) -> (r: DebProducerBuilder)
        ensures
            r.package_architecture@ == package_architecture@,
            r.name@ == self.name@,
            r.path@ == self.path@,
            r.prerm == self.prerm,
            r.postinst == self.postinst,
            r.injections == self.injections,
            r.package_name@ == self.package_name@,
            r.package_maintainer@ == self.package_maintainer@,
            r.package_version@ == self.package_version@,
            r.package_depends@ == self.package_depends@,
            r.package_description@ == self.package_description@,
    {
        DebProducerBuilder { name: self.name, path: self.path, prerm: self.prerm, postinst: self.postinst, injections: self.injections, package_name: self.package_name, package_maintainer: self.package_maintainer, package_architecture: String::from_str(package_architecture), package_version: self.package_version, package_depends: self.package_depends, package_description: self.package_description }
    }

    pub fn package_version(self, package_version: &str) -> (r: DebProducerBuilder)
        ensures
            r.package_version@ == package_version@,
            r.name@ == self.name@,
            r.path@ == self.path@,
            r.prerm == self.prerm,
            r.postinst == self.postinst,
            r.injections == self.injections,
            r.package_name@ == self.package_name@,
            r.package_maintainer@ == self.package_maintainer@,
            r.package_architecture@ == self.package_architecture@,
            r.package_depends@ == self.package_depends@,
            r.package_description@ == self.package_description@,
    {
        DebProducerBuilder { name: self.name, path: self.path, prerm: self.prerm, postinst: self.postinst, injections: self.injections, package_name: self.package_name, package_maintainer: self.package_maintainer, package_architecture: self.package_architecture, package_version: String::from_str(package_version), package_depends: self.package_depends, package_description: self.package_description }
    }

    pub fn package_depends(self, package_depends: &str) -> (r: DebProducerBuilder)
        ensures
            r.package_depends@ == package_depends@,
            r.name@ == self.name@,
            r.path@ == self.path@,
            r.prerm == self.prerm,
            r.postinst == self.postinst,
            r.injections == self.injections,
            r.package_name@ == self.package_name@,
            r.package_maintainer@ == self.package_maintainer@,
            r.package_architecture@ == self.package_architecture@,
            r.package_version@ == self.package_version@,
            r.package_description@ == self.package_description@,
    {
        DebProducerBuilder { name: self.name, path: self.path, prerm: self.prerm, postinst: self.postinst, injections: self.injections, package_name: self.package_name, package_maintainer: self.package_maintainer, package_architecture: self.package_architecture, package_version: self.package_version, package_depends: String::from_str(package_depends), package_description: self.package_description }
    }

    pub fn package_description(self, package_description: &str) -> (r: DebProducerBuilder)
        ensures
            r.package_description@ == package_description@,
            r.name@ == self.name@,
            r.path@ == self.path@,
            r.prerm == self.prerm,
            r.postinst == self.postinst,
            r.injections == self.injections,
            r.package_name@ == self.package_name@,
            r.package_maintainer@ == self.package_maintainer@,
            r.package_architecture@ == self.package_architecture@,
            r.package_version@ == self.package_version@,
            r.package_depends@ == self.package_depends@,
    {
        DebProducerBuilder { name: self.name, path: self.path, prerm: self.prerm, postinst: self.postinst, injections: self.injections, package_name: self.package_name, package_maintainer: self.package_maintainer, package_architecture: self.package_architecture, package_version: self.package_version, package_depends: self.package_depends, package_description: String::from_str(package_description) }
    }
    pub fn prerm(self, prerm: &str) -> (r: DebProducerBuilder)
        ensures
            r.prerm matches Some(v) && v@ == prerm@,
            r.name@ == self.name@,
            r.path@ == self.path@,
            r.postinst == self.postinst,
            r.injections == self.injections,
            r.package_name@ == self.package_name@,
            r.package_maintainer@ == self.package_maintainer@,
            r.package_architecture@ == self.package_architecture@,
            r.package_version@ == self.package_version@,
            r.package_depends@ == self.package_depends@,
            r.package_description@ == self.package_description@,
    {
        DebProducerBuilder { name: self.name, path: self.path, prerm: Some(String::from_str(prerm)), postinst: self.postinst, injections: self.injections, package_name: self.package_name, package_maintainer: self.package_maintainer, package_architecture: self.package_architecture, package_version: self.package_version, package_depends: self.package_depends, package_description: self.package_description }
    }
    pub fn postinst(self, postinst: &str) -> (r: DebProducerBuilder)
        ensures
            r.postinst matches Some(v) && v@ == postinst@,
            r.name@ == self.name@,
            r.path@ == self.path@,
            r.prerm == self.prerm,
            r.injections == self.injections,
            r.package_name@ == self.package_name@,
            r.package_maintainer@ == self.package_maintainer@,
            r.package_architecture@ == self.package_architecture@,
            r.package_version@ == self.package_version@,
            r.package_depends@ == self.package_depends@,
            r.package_description@ == self.package_description@,
    {
        DebProducerBuilder { name: self.name, path: self.path, prerm: self.prerm, postinst: Some(String::from_str(postinst)), injections: self.injections, package_name: self.package_name, package_maintainer: self.package_maintainer, package_architecture: self.package_architecture, package_version: self.package_version, package_depends: self.package_depends, package_description: self.package_description }
    }
    pub fn inject(self, injection: Injection) -> (r: DebProducerBuilder)
        ensures
            r.injections@ == self.injections@.push(injection),
            r.name@ == self.name@,
            r.path@ == self.path@,
            r.prerm == self.prerm,
            r.postinst == self.postinst,
            r.package_name@ == self.package_name@,
            r.package_maintainer@ == self.package_maintainer@,
            r.package_architecture@ == self.package_architecture@,
            r.package_version@ == self.package_version@,
            r.package_depends@ == self.package_depends@,
            r.package_description@ == self.package_description@,
    {
        let mut injections = self.injections;
        injections.push(injection);
        DebProducerBuilder { name: self.name, path: self.path, prerm: self.prerm, postinst: self.postinst, injections, package_name: self.package_name, package_maintainer: self.package_maintainer, package_architecture: self.package_architecture, package_version: self.package_version, package_depends: self.package_depends, package_description: self.package_description }
    }

    pub fn build(self) -> (r: Result<DebProducer, Error>)
        ensures
            r matches Ok(p) && p.name@ == self.name@ && p.path@ == self.path@ && p.prerm
                == self.prerm && p.postinst == self.postinst && p.injections == self.injections
                && p.package_name@ == self.package_name@ && p.package_maintainer@
                == self.package_maintainer@ && p.package_architecture@
                == self.package_architecture@ && p.package_version@ == self.package_version@
                && p.package_depends@ == self.package_depends@ && p.package_description@
                == self.package_description@,
    {
        Ok(
            DebProducer {
                name: self.name,
                path: self.path,
                prerm: self.prerm,
                postinst: self.postinst,
                injections: self.injections,
                package_name: self.package_name,
                package_maintainer: self.package_maintainer,
                package_architecture: self.package_architecture,
                package_version: self.package_version,
                package_depends: self.package_depends,
                package_description: self.package_description,
            },
        )
    }
}

} // verus!
