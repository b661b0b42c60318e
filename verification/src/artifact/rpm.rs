use vstd::prelude::*;

use crate::artifact::{check_pkg_name, check_version, chars_bytes, pkg_name_ok, strings_view, ver_ok};
use crate::codec::{fs_to_tar_spec, to_tar_entries, TarEntry};
use crate::errors::Error;
use crate::inject::{apply_injections, injections_spec, Injection};
use crate::vfs::MemFS;
use vstd::string::{StrSliceExecFns, StringExecFns, StringSliceAdditionalSpecFns};

verus! {

/// An RPM package held at a host path. The RPM lead/header binary layout
/// is a leaf codec outside this library; the artifact carries the
/// descriptor.
#[derive(Debug)]
pub struct RpmArtifact {
    pub name: String,
    pub path: String,
    pub spec_info: Option<String>,
}

impl RpmArtifact {
    pub fn name(&self) -> (r: &String)
        ensures
            r@ == self.name@,
    {
        &self.name
    }

    /// Pre-flight validation: the path's existence is checked at the I/O
    /// boundary, so the descriptor itself is always acceptable.
    pub fn validate(&self) -> (r: Result<(), Error>)
        ensures
            r is Ok,
    {
        Ok(())
    }
}

/// A builder for RPM artifacts.
#[derive(Debug)]
pub struct RpmArtifactBuilder {
    pub name: String,
    pub path: String,
}

impl RpmArtifactBuilder {
    pub fn new(name: &str) -> (r: RpmArtifactBuilder)
        ensures
            r.name@ == name@,
            r.path@.len() == 0,
    {
        RpmArtifactBuilder { name: String::from_str(name), path: String::new() }
    }

    pub fn path(self, path: &str) -> (r: RpmArtifactBuilder)
        ensures
            r.name@ == self.name@,
            r.path@ == path@,
    {
        RpmArtifactBuilder { name: self.name, path: String::from_str(path) }
    }

    pub fn build(self) -> (r: Result<RpmArtifact, Error>)
        ensures
            r matches Ok(a) && a.name@ == self.name@ && a.path@ == self.path@ && a.spec_info
                is None,
    {
        Ok(RpmArtifact { name: self.name, path: self.path, spec_info: None })
    }
}

/// The validation messages of an RPM producer, in check order.
pub open spec fn rpm_errs(n_ok: bool, v_ok: bool, d_ok: bool) -> Seq<Seq<char>> {
    (if n_ok {
        Seq::<Seq<char>>::empty()
    } else {
        seq![("package name is invalid")@]
    }) + (if v_ok {
        Seq::<Seq<char>>::empty()
    } else {
        seq![("package version is invalid")@]
    }) + (if d_ok {
        Seq::<Seq<char>>::empty()
    } else {
        seq![("package description is empty")@]
    })
}

/// Produces an RPM package. The library prepares the payload — the
/// injected tree, listed in canonical order — and the binary RPM encoding
/// around it happens at the I/O boundary.
#[derive(Debug)]
pub struct RpmProducer {
    pub name: String,
    pub path: String,
    pub package_name: String,
    pub package_version: String,
    pub package_license: String,
    pub package_arch: String,
    pub package_description: String,
    pub dependencies: Vec<String>,
    pub injections: Vec<Injection>,
}

impl RpmProducer {
    pub open spec fn wf(&self) -> bool {
        forall|j: int| 0 <= j < self.injections@.len() ==> (#[trigger] self.injections@[j]).wf()
    }

    pub open spec fn valid_spec(&self) -> bool {
        &&& pkg_name_ok(chars_bytes(self.package_name@))
        &&& ver_ok(chars_bytes(self.package_version@))
        &&& self.package_description@.len() > 0
    }

    pub fn name(&self) -> (r: &String)
        ensures
            r@ == self.name@,
    {
        &self.name
    }

    /// Pre-flight validation, accumulating every violation found.
    pub fn validate(&self) -> (r: Result<(), Error>)
        ensures
            r is Ok <==> self.valid_spec(),
            r matches Err(e) ==> (e matches Error::ValidationFailed(v) && strings_view(v@)
                == rpm_errs(
                pkg_name_ok(chars_bytes(self.package_name@)),
                ver_ok(chars_bytes(self.package_version@)),
                self.package_description@.len() > 0,
            )),
    {
        let nb = self.package_name.as_str().as_bytes_vec();
        let n_ok = check_pkg_name(&nb);
        let vb = self.package_version.as_str().as_bytes_vec();
        let v_ok = check_version(&vb);
        let d_ok = !self.package_description.as_str().is_empty();
        if n_ok && v_ok && d_ok {
            return Ok(());
        }
        let mut errs: Vec<String> = Vec::new();
        if !n_ok {
            errs.push(String::from_str("package name is invalid"));
        }
        if !v_ok {
            errs.push(String::from_str("package version is invalid"));
        }
        if !d_ok {
            errs.push(String::from_str("package description is empty"));
        }
        proof {
            assert(strings_view(errs@) =~= rpm_errs(n_ok, v_ok, d_ok));
        }
        Err(Error::ValidationFailed(errs))
    }

    /// Applies the injections and lists the payload in canonical order,
    /// ready for the RPM encoder at the I/O boundary.
    pub fn produce_plan(&self, fs: &mut MemFS) -> (r: Result<Vec<TarEntry>, Error>)
        requires
            old(fs).wf(),
            self.wf(),
        ensures
            final(fs).wf(),
            final(fs).as_map() == injections_spec(
                old(fs).as_map(),
                self.injections@,
                self.injections@.len() as int,
            ).1,
            injections_spec(old(fs).as_map(), self.injections@, self.injections@.len() as int).0
                matches Err(e) ==> r == Err::<Vec<TarEntry>, Error>(e),
            injections_spec(old(fs).as_map(), self.injections@, self.injections@.len() as int).0
                is Ok ==> (r matches Ok(es) && crate::codec::tar_entry_views(es@)
                == fs_to_tar_spec(final(fs)@)),
    {
        match apply_injections(fs, &self.injections) {
            Ok(()) => {},
            Err(e) => {
                return Err(e);
            },
        }
        Ok(to_tar_entries(fs))
    }
}

/// A builder for RPM producers.
#[derive(Debug)]
pub struct RpmProducerBuilder {
    pub name: String,
    pub path: String,
    pub package_name: String,
    pub package_version: String,
    pub package_license: String,
    pub package_arch: String,
    pub package_description: String,
    pub dependencies: Vec<String>,
    pub injections: Vec<Injection>,
}

impl RpmProducerBuilder {
    pub fn new(name: &str) -> (r: RpmProducerBuilder)
        ensures
            r.name@ == name@,
            r.path@.len() == 0,
            r.package_name@.len() == 0,
            r.package_version@.len() == 0,
            r.package_license@.len() == 0,
            r.package_arch@.len() == 0,
            r.package_description@.len() == 0,
            r.dependencies@.len() == 0,
            r.injections@.len() == 0,
    {
        RpmProducerBuilder {
            name: String::from_str(name),
            path: String::new(),
            package_name: String::new(),
            package_version: String::new(),
            package_license: String::new(),
            package_arch: String::new(),
            package_description: String::new(),
            dependencies: Vec::new(),
            injections: Vec::new(),
        }
    }

pub fn path(&mut self, path: &str)
        ensures
            final(self).path@ == path@,
            final(self).name@ == old(self).name@,
            final(self).injections == old(self).injections,
            final(self).dependencies == old(self).dependencies,
    {
        self.path = String::from_str(path);
    }

    pub fn package_name(&mut self, package_name: &str)
        ensures
            final(self).package_name@ == package_name@,
            final(self).name@ == old(self).name@,
            final(self).injections == old(self).injections,
            final(self).dependencies == old(self).dependencies,
    {
        self.package_name = String::from_str(package_name);
    }

    pub fn package_version(&mut self, package_version: &str)
        ensures
            final(self).package_version@ == package_version@,
            final(self).name@ == old(self).name@,
            final(self).injections == old(self).injections,
            final(self).dependencies == old(self).dependencies,
    {
        self.package_version = String::from_str(package_version);
    }

    pub fn package_license(&mut self, package_license: &str)
        ensures
            final(self).package_license@ == package_license@,
            final(self).name@ == old(self).name@,
            final(self).injections == old(self).injections,
            final(self).dependencies == old(self).dependencies,
    {
        self.package_license = String::from_str(package_license);
    }

    pub fn package_arch(&mut self, package_arch: &str)
        ensures
            final(self).package_arch@ == package_arch@,
            final(self).name@ == old(self).name@,
            final(self).injections == old(self).injections,
            final(self).dependencies == old(self).dependencies,
    {
        self.package_arch = String::from_str(package_arch);
    }

    pub fn package_description(&mut self, package_description: &str)
        ensures
            final(self).package_description@ == package_description@,
            final(self).name@ == old(self).name@,
            final(self).injections == old(self).injections,
            final(self).dependencies == old(self).dependencies,
    {
        self.package_description = String::from_str(package_description);
    }

    /// Adds one dependency.
    pub fn dependency(&mut self, dependency: &str)
        ensures
            final(self).dependencies@.len() == old(self).dependencies@.len() + 1,
            final(self).dependencies@.last()@ == dependency@,
            final(self).name@ == old(self).name@,
            final(self).injections == old(self).injections,
    {
        self.dependencies.push(String::from_str(dependency));
    }

    /// Replaces the dependency list.
    pub fn dependencies(&mut self, dependencies: Vec<String>)
        ensures
            final(self).dependencies == dependencies,
            final(self).name@ == old(self).name@,
            final(self).injections == old(self).injections,
    {
        self.dependencies = dependencies;
    }

    /// Adds one injection.
    pub fn injection(&mut self, injection: Injection)
        ensures
            final(self).injections@ == old(self).injections@.push(injection),
            final(self).name@ == old(self).name@,
            final(self).dependencies == old(self).dependencies,
    {
        self.injections.push(injection);
    }

    /// Adds one injection (alias kept for interface parity).
    pub fn inject(&mut self, injection: Injection)
        ensures
            final(self).injections@ == old(self).injections@.push(injection),
            final(self).name@ == old(self).name@,
            final(self).dependencies == old(self).dependencies,
    {
        self.injections.push(injection);
    }

    pub fn build(self) -> (r: Result<RpmProducer, Error>)
        ensures
            r matches Ok(p) && p.name@ == self.name@ && p.path@ == self.path@ && p.package_name@
                == self.package_name@ && p.package_version@ == self.package_version@
                && p.package_license@ == self.package_license@ && p.package_arch@
                == self.package_arch@ && p.package_description@ == self.package_description@
                && p.dependencies == self.dependencies && p.injections == self.injections,
    {
        Ok(
            RpmProducer {
                name: self.name,
                path: self.path,
                package_name: self.package_name,
                package_version: self.package_version,
                package_license: self.package_license,
                package_arch: self.package_arch,
                package_description: self.package_description,
                dependencies: self.dependencies,
                injections: self.injections,
            },
        )
    }
}

} // verus!
