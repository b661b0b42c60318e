use vstd::prelude::*;

use crate::artifact::{
    append_bytes, append_str, bytes_is, chars_bytes, check_pkg_name, check_version, pkg_name_ok,
    strings_view, ver_ok,
};
use crate::artifact::deb::{bytes_end_with, ends_with_bytes};
use crate::artifact::tarball::tarball_extract_spec;
use crate::codec::{
    fs_to_tar_spec, tar_bytes_of, tar_decode, tar_encode, tar_entries_of, to_tar_entries,
};
use crate::compression::{compress, decompress, detect_compression_type, zstd_of, CompressionType};
use crate::errors::Error;
use crate::inject::{apply_injections, injections_spec, Injection};
use crate::paths::VfsPath;
use crate::util::dec_spec;
use crate::vfs::{size_spec, MemFS, Meta, NodeV};
use vstd::string::{StrSliceExecFns, StringExecFns, StringSliceAdditionalSpecFns};

verus! {

/// The parsed fields of an Arch `.PKGINFO` member.
#[derive(Debug)]
pub struct Pkginfo {
    pub pkgname: String,
    pub pkgbase: String,
    pub pkgver: String,
    pub pkgdesc: String,
    pub builddate: u64,
    pub packager: String,
    pub size: u64,
    pub arch: String,
    pub provides: Vec<String>,
}

/// The rendered `.PKGINFO` member.
pub open spec fn pkginfo_spec(
    name: Seq<char>,
    ver: Seq<char>,
    desc: Seq<char>,
    time: nat,
    author: Seq<char>,
    size: nat,
    arch: Seq<char>,
) -> Seq<u8> {
    chars_bytes(("# generated by peckish\npkgname = ")@) + chars_bytes(name) + chars_bytes(
        ("\npkgbase = ")@,
    ) + chars_bytes(name) + chars_bytes(("\npkgver = ")@) + chars_bytes(ver) + chars_bytes(
        ("\npkgdesc = ")@,
    ) + chars_bytes(desc) + chars_bytes(("\nbuilddate = ")@) + dec_spec(time) + chars_bytes(
        ("\npackager = ")@,
    ) + chars_bytes(author) + chars_bytes(("\nsize = ")@) + dec_spec(size) + chars_bytes(
        ("\narch = ")@,
    ) + chars_bytes(arch) + chars_bytes(("\nprovides = ")@) + chars_bytes(name) + chars_bytes(
        ("\n")@,
    )
}

/// An Arch package: a zstd tarball with a `.PKGINFO` member in the root.
#[derive(Debug)]
pub struct ArchArtifact {
    pub name: String,
    pub path: String,
    pub pkginfo: Option<Pkginfo>,
}

impl ArchArtifact {
    pub fn name(&self) -> (r: &String)
        ensures
            r@ == self.name@,
    {
        &self.name
    }

    /// Unpacks the package bytes — a compressed tarball — into a tree. It
    /// succeeds exactly when the bytes decompress, parse and replay.
    pub fn extract(&self, data: &[u8]) -> (r: Result<MemFS, Error>)
        ensures
            r is Ok <==> crate::artifact::tarball::tarball_extract_ok(data@),
            r matches Ok(fs) ==> fs.wf() && tarball_extract_spec(data@) == Ok::<
                Map<Seq<Seq<u8>>, NodeV>,
                Error,
            >(fs.as_map()),
    {
        let t = crate::artifact::tarball::TarballArtifact { name: String::new(), path: String::new() };
        t.extract(data)
    }

    /// Validates the artifact's shape: the path must end in `.pkg.tar`,
    /// the bytes must decompress and parse, and the archive must contain a
    /// `.PKGINFO` member — exactly these conditions.
    pub fn validate(&self, data: &[u8]) -> (r: Result<(), Error>)
        ensures
            r is Ok <==> (ends_with_bytes(chars_bytes(self.path@), (".pkg.tar").spec_bytes())
                && crate::compression::decompress_ok(crate::compression::detect_spec(data@), data@)
                && crate::codec::tar_parse_ok(
                crate::compression::decompress_spec(crate::compression::detect_spec(data@), data@),
            ) && (exists|i: int|
                0 <= i < tar_entries_of(
                    crate::compression::decompress_spec(
                        crate::compression::detect_spec(data@),
                        data@,
                    ),
                ).len() && ends_with_bytes(
                    #[trigger] tar_entries_of(
                        crate::compression::decompress_spec(
                            crate::compression::detect_spec(data@),
                            data@,
                        ),
                    )[i].path,
                    (".PKGINFO").spec_bytes(),
                ))),
    {
        let pbv = self.path.as_str().as_bytes_vec();
        if !bytes_end_with(&pbv, ".pkg.tar") {
            return Err(Error::ValidationFailed(Vec::new()));
        }
        let kind = detect_compression_type(data);
        let plain = match decompress(kind, data) {
            Ok(p) => p,
            Err(e) => {
                return Err(e);
            },
        };
        let entries = match tar_decode(plain.as_slice()) {
            Ok(es) => es,
            Err(e) => {
                return Err(e);
            },
        };
        let ghost tv = tar_entries_of(plain@);
        let n = entries.len();
        let mut i: usize = 0;
        while i < n
            invariant
                n == entries@.len(),
                i <= n,
                ends_with_bytes(chars_bytes(self.path@), (".pkg.tar").spec_bytes()),
                crate::compression::decompress_ok(crate::compression::detect_spec(data@), data@),
                crate::codec::tar_parse_ok(
                    crate::compression::decompress_spec(
                        crate::compression::detect_spec(data@),
                        data@,
                    ),
                ),
                crate::codec::tar_entry_views(entries@) == tv,
                tv == tar_entries_of(
                    crate::compression::decompress_spec(
                        crate::compression::detect_spec(data@),
                        data@,
                    ),
                ),
                forall|j: int|
                    0 <= j < i ==> !ends_with_bytes(
                        (#[trigger] tv[j]).path,
                        (".PKGINFO").spec_bytes(),
                    ),
            decreases n - i,
        {
            if bytes_end_with(&entries[i].path, ".PKGINFO") {
                proof {
                    assert(tv[i as int] == entries@[i as int].v());
                    assert(ends_with_bytes(
                        tar_entries_of(
                            crate::compression::decompress_spec(
                                crate::compression::detect_spec(data@),
                                data@,
                            ),
                        )[i as int].path,
                        (".PKGINFO").spec_bytes(),
                    ));
                }
                return Ok(());
            }
            proof {
                assert(tv[i as int] == entries@[i as int].v());
            }
            i = i + 1;
        }
        Err(Error::ValidationFailed(Vec::new()))
    }
}

/// A builder for Arch artifacts.
#[derive(Debug)]
pub struct ArchArtifactBuilder {
    pub name: String,
    pub path: String,
    pub pkginfo: Option<Pkginfo>,
}

impl ArchArtifactBuilder {
    pub fn new(name: &str) -> (r: ArchArtifactBuilder)
        ensures
            r.name@ == name@,
            r.path@.len() == 0,
            r.pkginfo is None,
    {
        ArchArtifactBuilder { name: String::from_str(name), path: String::new(), pkginfo: None }
    }

    pub fn path(self, path: &str) -> (r: ArchArtifactBuilder)
        ensures
            r.name@ == self.name@,
            r.path@ == path@,
            r.pkginfo == self.pkginfo,
    {
        ArchArtifactBuilder { name: self.name, path: String::from_str(path), pkginfo: self.pkginfo }
    }

    pub fn pkginfo(self, pkginfo: Pkginfo) -> (r: ArchArtifactBuilder)
        ensures
            r.name@ == self.name@,
            r.path@ == self.path@,
            r.pkginfo == Some(pkginfo),
    {
        ArchArtifactBuilder { name: self.name, path: self.path, pkginfo: Some(pkginfo) }
    }

    pub fn build(self) -> (r: Result<ArchArtifact, Error>)
        ensures
            r matches Ok(a) && a.name@ == self.name@ && a.path@ == self.path@ && a.pkginfo
                == self.pkginfo,
    {
        Ok(ArchArtifact { name: self.name, path: self.path, pkginfo: self.pkginfo })
    }
}

/// The validation messages of an Arch producer, in check order.
pub open spec fn arch_errs(n_ok: bool, v_ok: bool, d_ok: bool, a_ok: bool, ar_ok: bool) -> Seq<
    Seq<char>,
> {
    (if n_ok {
        Seq::<Seq<char>>::empty()
    } else {
        seq![("package name is invalid")@]
    }) + (if v_ok {
        Seq::<Seq<char>>::empty()
    } else {
        seq![("package version is invalid")@]
    }) + (if d_ok {
        Seq::<Seq<char>>::empty()
    } else {
        seq![("package description is empty")@]
    }) + (if a_ok {
        Seq::<Seq<char>>::empty()
    } else {
        seq![("package author is empty")@]
    }) + (if ar_ok {
        Seq::<Seq<char>>::empty()
    } else {
        seq![("package architecture is invalid")@]
    })
}

/// Produces an Arch package: a zstd tarball carrying a generated
/// `.PKGINFO` in its root.
#[derive(Debug)]
pub struct ArchProducer {
    pub name: String,
    pub package_name: String,
    pub package_ver: String,
    pub package_desc: String,
    pub package_author: String,
    pub package_arch: String,
    pub path: String,
    pub injections: Vec<Injection>,
}

impl ArchProducer {
    pub open spec fn wf(&self) -> bool {
        forall|j: int| 0 <= j < self.injections@.len() ==> (#[trigger] self.injections@[j]).wf()
    }

    /// All the producer's metadata checks pass.
    pub open spec fn valid_spec(&self) -> bool {
        &&& pkg_name_ok(chars_bytes(self.package_name@))
        &&& ver_ok(chars_bytes(self.package_ver@))
        &&& self.package_desc@.len() > 0
        &&& self.package_author@.len() > 0
        &&& (chars_bytes(self.package_arch@) == ("any").spec_bytes() || chars_bytes(
            self.package_arch@,
        ) == ("x86_64").spec_bytes())
    }

    pub fn name(&self) -> (r: &String)
        ensures
            r@ == self.name@,
    {
        &self.name
    }

    /// Pre-flight validation, accumulating every violation found.
    pub fn validate(&self) -> (r: Result<(), Error>)
        ensures
            r is Ok <==> self.valid_spec(),
            r matches Err(e) ==> (e matches Error::ValidationFailed(v) && strings_view(v@)
                == arch_errs(
                pkg_name_ok(chars_bytes(self.package_name@)),
                ver_ok(chars_bytes(self.package_ver@)),
                self.package_desc@.len() > 0,
                self.package_author@.len() > 0,
                chars_bytes(self.package_arch@) == ("any").spec_bytes() || chars_bytes(
                    self.package_arch@,
                ) == ("x86_64").spec_bytes(),
            )),
    {
        let nb = self.package_name.as_str().as_bytes_vec();
        let n_ok = check_pkg_name(&nb);
        let vb = self.package_ver.as_str().as_bytes_vec();
        let v_ok = check_version(&vb);
        let d_ok = !self.package_desc.as_str().is_empty();
        let a_ok = !self.package_author.as_str().is_empty();
        let arb = self.package_arch.as_str().as_bytes_vec();
        let ar_ok = bytes_is(&arb, "any") || bytes_is(&arb, "x86_64");
        if n_ok && v_ok && d_ok && a_ok && ar_ok {
            return Ok(());
        }
        let mut errs: Vec<String> = Vec::new();
        if !n_ok {
            errs.push(String::from_str("package name is invalid"));
        }
        if !v_ok {
            errs.push(String::from_str("package version is invalid"));
        }
        if !d_ok {
            errs.push(String::from_str("package description is empty"));
        }
        if !a_ok {
            errs.push(String::from_str("package author is empty"));
        }
        if !ar_ok {
            errs.push(String::from_str("package architecture is invalid"));
        }
        proof {
            assert(strings_view(errs@) =~= arch_errs(n_ok, v_ok, d_ok, a_ok, ar_ok));
        }
        Err(Error::ValidationFailed(errs))
    }

    /// Renders the `.PKGINFO` member.
    fn render_pkginfo(&self, builddate: u64, size: u64) -> (r: Vec<u8>)
        ensures
            r@ == pkginfo_spec(
                self.package_name@,
                self.package_ver@,
                self.package_desc@,
                builddate as nat,
                self.package_author@,
                size as nat,
                self.package_arch@,
            ),
    {
        let mut v: Vec<u8> = Vec::new();
        append_str(&mut v, "# generated by peckish\npkgname = ");
        append_str(&mut v, self.package_name.as_str());
        append_str(&mut v, "\npkgbase = ");
        append_str(&mut v, self.package_name.as_str());
        append_str(&mut v, "\npkgver = ");
        append_str(&mut v, self.package_ver.as_str());
        append_str(&mut v, "\npkgdesc = ");
        append_str(&mut v, self.package_desc.as_str());
        append_str(&mut v, "\nbuilddate = ");
        let bd = crate::util::u64_to_dec(builddate);
        append_bytes(&mut v, &bd);
        append_str(&mut v, "\npackager = ");
        append_str(&mut v, self.package_author.as_str());
        append_str(&mut v, "\nsize = ");
        let sz = crate::util::u64_to_dec(size);
        append_bytes(&mut v, &sz);
        append_str(&mut v, "\narch = ");
        append_str(&mut v, self.package_arch.as_str());
        append_str(&mut v, "\nprovides = ");
        append_str(&mut v, self.package_name.as_str());
        append_str(&mut v, "\n");
        v
    }

    /// Applies the injections, writes the generated `.PKGINFO` (carrying
    /// the injected tree's size and the given build date), and serialises
    /// the tree as a zstd tarball. It succeeds exactly when the injections
    /// do, no directory stands at `.PKGINFO`, and every entry is
    /// acceptable to the tar encoder.
    #[verifier::rlimit(100)]
    pub fn produce_from(&self, fs: &mut MemFS, builddate: u64) -> (r: Result<
        (ArchArtifact, Vec<u8>),
        Error,
    >)
        requires
            old(fs).wf(),
            self.wf(),
        ensures
            final(fs).wf(),
            ({
                let sp = injections_spec(
                    old(fs).as_map(),
                    self.injections@,
                    self.injections@.len() as int,
                );
                sp.0 matches Err(e) ==> (r == Err::<(ArchArtifact, Vec<u8>), Error>(e)
                    && final(fs).as_map() == sp.1)
            }),
            r is Ok <==> ({
                let sp = injections_spec(
                    old(fs).as_map(),
                    self.injections@,
                    self.injections@.len() as int,
                );
                &&& sp.0 is Ok
                &&& !(sp.1.dom().contains(seq![chars_bytes((".PKGINFO")@)]) && sp.1[seq![
                    chars_bytes((".PKGINFO")@),
                ]] is Dir)
                &&& crate::codec::tar_encode_ok(fs_to_tar_spec(final(fs)@))
            }),
            injections_spec(old(fs).as_map(), self.injections@, self.injections@.len() as int).0
                is Ok ==> (r matches Ok(pair) ==> ({
                let m1 = injections_spec(
                    old(fs).as_map(),
                    self.injections@,
                    self.injections@.len() as int,
                ).1;
                let size: nat = if size_spec(crate::vfs::canon(m1)) <= u64::MAX {
                    size_spec(crate::vfs::canon(m1))
                } else {
                    u64::MAX as nat
                };
                let info = pkginfo_spec(
                    self.package_name@,
                    self.package_ver@,
                    self.package_desc@,
                    builddate as nat,
                    self.package_author@,
                    size,
                    self.package_arch@,
                );
                &&& final(fs).as_map() == m1.insert(
                    seq![chars_bytes((".PKGINFO")@)],
                    NodeV::File { content: info, meta: Meta::spec_file_default() },
                )
                &&& pair.1@ == zstd_of(tar_bytes_of(fs_to_tar_spec(final(fs)@)))
                &&& pair.0.name@ == self.name@
                &&& pair.0.path@ == self.path@
                &&& pair.0.pkginfo matches Some(p) && p.pkgname@ == self.package_name@
                    && p.pkgver@ == self.package_ver@ && p.builddate == builddate && p.size == size
                    && p.arch@ == self.package_arch@
            })),
    {
        match apply_injections(fs, &self.injections) {
            Ok(()) => {},
            Err(e) => {
                return Err(e);
            },
        }
        proof {
            crate::vfs::lemma_canon(*fs);
        }
        let size = fs.size();
        let info = self.render_pkginfo(builddate, size);
        let ghost infov = info@;
        let pk = VfsPath { segs: vec![".PKGINFO".as_bytes_vec()] };
        proof {
            crate::artifact::lemma_pkginfo_seg();
            assert(pk@ =~= seq![chars_bytes((".PKGINFO")@)]);
            assert(pk@.drop_last() =~= Seq::<Seq<u8>>::empty());
        }
        match fs.write_file(&pk, info, Meta::file_default()) {
            Ok(()) => {},
            Err(_) => {
                return Err(Error::IoError(String::new()));
            },
        }
        let entries = to_tar_entries(fs);
        let tb = match tar_encode(&entries) {
            Ok(t) => t,
            Err(e) => {
                return Err(e);
            },
        };
        let out = match compress(CompressionType::Zstd, tb.as_slice()) {
            Ok(o) => o,
            Err(e) => {
                return Err(e);
            },
        };
        let mut provides: Vec<String> = Vec::new();
        provides.push(self.package_name.clone());
        let pkginfo = Pkginfo {
            pkgname: self.package_name.clone(),
            pkgbase: self.package_name.clone(),
            pkgver: self.package_ver.clone(),
            pkgdesc: self.package_desc.clone(),
            builddate,
            packager: self.package_author.clone(),
            size,
            arch: self.package_arch.clone(),
            provides,
        };
        let art = ArchArtifact {
            name: self.name.clone(),
            path: self.path.clone(),
            pkginfo: Some(pkginfo),
        };
        Ok((art, out))
    }
}

/// A builder for Arch producers.
#[derive(Debug)]
pub struct ArchProducerBuilder {
    pub name: String,
    pub package_name: String,
    pub package_ver: String,
    pub package_desc: String,
    pub package_author: String,
    pub package_arch: String,
    pub path: String,
    pub injections: Vec<Injection>,
}

impl ArchProducerBuilder {
    pub fn new(name: &str) -> (r: ArchProducerBuilder)
        ensures
            r.name@ == name@,
            r.package_name@.len() == 0,
            r.package_ver@.len() == 0,
            r.package_desc@.len() == 0,
            r.package_author@.len() == 0,
            r.package_arch@.len() == 0,
            r.path@.len() == 0,
            r.injections@.len() == 0,
    {
        ArchProducerBuilder {
            name: String::from_str(name),
            package_name: String::new(),
            package_ver: String::new(),
            package_desc: String::new(),
            package_author: String::new(),
            package_arch: String::new(),
            path: String::new(),
            injections: Vec::new(),
        }
    }


    pub fn package_name(self, package_name: &str) -> (r: ArchProducerBuilder)
        ensures
            r.package_name@ == package_name@,
            r.name@ == self.name@,
            r.package_ver@ == self.package_ver@,
            r.package_desc@ == self.package_desc@,
            r.package_author@ == self.package_author@,
            r.package_arch@ == self.package_arch@,
            r.path@ == self.path@,
            r.injections == self.injections,
    {
        ArchProducerBuilder { name: self.name, package_name: String::from_str(package_name), package_ver: self.package_ver, package_desc: self.package_desc, package_author: self.package_author, package_arch: self.package_arch, path: self.path, injections: self.injections }
    }

    pub fn package_ver(self, package_ver: &str) -> (r: ArchProducerBuilder)
        ensures
            r.package_ver@ == package_ver@,
            r.name@ == self.name@,
            r.package_name@ == self.package_name@,
            r.package_desc@ == self.package_desc@,
            r.package_author@ == self.package_author@,
            r.package_arch@ == self.package_arch@,
            r.path@ == self.path@,
            r.injections == self.injections,
    {
        ArchProducerBuilder { name: self.name, package_name: self.package_name, package_ver: String::from_str(package_ver), package_desc: self.package_desc, package_author: self.package_author, package_arch: self.package_arch, path: self.path, injections: self.injections }
    }

    pub fn package_desc(self, package_desc: &str) -> (r: ArchProducerBuilder)
        ensures
            r.package_desc@ == package_desc@,
            r.name@ == self.name@,
            r.package_name@ == self.package_name@,
            r.package_ver@ == self.package_ver@,
            r.package_author@ == self.package_author@,
            r.package_arch@ == self.package_arch@,
            r.path@ == self.path@,
            r.injections == self.injections,
    {
        ArchProducerBuilder { name: self.name, package_name: self.package_name, package_ver: self.package_ver, package_desc: String::from_str(package_desc), package_author: self.package_author, package_arch: self.package_arch, path: self.path, injections: self.injections }
    }

    pub fn package_author(self, package_author: &str) -> (r: ArchProducerBuilder)
        ensures
            r.package_author@ == package_author@,
            r.name@ == self.name@,
            r.package_name@ == self.package_name@,
            r.package_ver@ == self.package_ver@,
            r.package_desc@ == self.package_desc@,
            r.package_arch@ == self.package_arch@,
            r.path@ == self.path@,
            r.injections == self.injections,
    {
        ArchProducerBuilder { name: self.name, package_name: self.package_name, package_ver: self.package_ver, package_desc: self.package_desc, package_author: String::from_str(package_author), package_arch: self.package_arch, path: self.path, injections: self.injections }
    }

    pub fn package_arch(self, package_arch: &str) -> (r: ArchProducerBuilder)
        ensures
            r.package_arch@ == package_arch@,
            r.name@ == self.name@,
            r.package_name@ == self.package_name@,
            r.package_ver@ == self.package_ver@,
            r.package_desc@ == self.package_desc@,
            r.package_author@ == self.package_author@,
            r.path@ == self.path@,
            r.injections == self.injections,
    {
        ArchProducerBuilder { name: self.name, package_name: self.package_name, package_ver: self.package_ver, package_desc: self.package_desc, package_author: self.package_author, package_arch: String::from_str(package_arch), path: self.path, injections: self.injections }
    }

    pub fn path(self, path: &str) -> (r: ArchProducerBuilder)
        ensures
            r.path@ == path@,
            r.name@ == self.name@,
            r.package_name@ == self.package_name@,
            r.package_ver@ == self.package_ver@,
            r.package_desc@ == self.package_desc@,
            r.package_author@ == self.package_author@,
            r.package_arch@ == self.package_arch@,
            r.injections == self.injections,
    {
        ArchProducerBuilder { name: self.name, package_name: self.package_name, package_ver: self.package_ver, package_desc: self.package_desc, package_author: self.package_author, package_arch: self.package_arch, path: String::from_str(path), injections: self.injections }
    }
    pub fn inject(self, injection: Injection) -> (r: ArchProducerBuilder)
        ensures
            r.injections@ == self.injections@.push(injection),
            r.name@ == self.name@,
            r.package_name@ == self.package_name@,
            r.package_ver@ == self.package_ver@,
            r.package_desc@ == self.package_desc@,
            r.package_author@ == self.package_author@,
            r.package_arch@ == self.package_arch@,
            r.path@ == self.path@,
    {
        let mut injections = self.injections;
        injections.push(injection);
        ArchProducerBuilder { name: self.name, package_name: self.package_name, package_ver: self.package_ver, package_desc: self.package_desc, package_author: self.package_author, package_arch: self.package_arch, path: self.path, injections }
    }

    pub fn build(self) -> (r: Result<ArchProducer, Error>)
        ensures
            r matches Ok(p) && p.name@ == self.name@ && p.package_name@ == self.package_name@
                && p.package_ver@ == self.package_ver@ && p.package_desc@ == self.package_desc@
                && p.package_author@ == self.package_author@ && p.package_arch@
                == self.package_arch@ && p.path@ == self.path@ && p.injections == self.injections,
    {
        Ok(
            ArchProducer {
                name: self.name,
                package_name: self.package_name,
                package_ver: self.package_ver,
                package_desc: self.package_desc,
                package_author: self.package_author,
                package_arch: self.package_arch,
                path: self.path,
                injections: self.injections,
            },
        )
    }
}

} // verus!
