use vstd::prelude::*;

use crate::errors::Error;
use crate::inject::{apply_injections, injections_spec, Injection};
use crate::vfs::{size_spec, MemFS};
use vstd::string::StringExecFns;

verus! {

/// A block filesystem image at a host path. The block-level encoder is a
/// leaf codec outside this library; the artifact carries the descriptor.
#[derive(Debug)]
pub struct Ext4Artifact {
    pub name: String,
    pub path: String,
}

impl Ext4Artifact {
    pub fn name(&self) -> (r: &String)
        ensures
            r@ == self.name@,
    {
        &self.name
    }

    pub fn validate(&self) -> (r: Result<(), Error>)
        ensures
            r is Ok,
    {
        Ok(())
    }
}

/// A builder for block image artifacts.
#[derive(Debug)]
pub struct Ext4ArtifactBuilder {
    pub name: String,
    pub path: String,
}

impl Ext4ArtifactBuilder {
    pub fn new(name: &str) -> (r: Ext4ArtifactBuilder)
        ensures
            r.name@ == name@,
            r.path@.len() == 0,
    {
        Ext4ArtifactBuilder { name: String::from_str(name), path: String::new() }
    }

    pub fn path(self, path: &str) -> (r: Ext4ArtifactBuilder)
        ensures
            r.name@ == self.name@,
            r.path@ == path@,
    {
        Ext4ArtifactBuilder { name: self.name, path: String::from_str(path) }
    }

    pub fn build(self) -> (r: Result<Ext4Artifact, Error>)
        ensures
            r matches Ok(a) && a.name@ == self.name@ && a.path@ == self.path@,
    {
        Ok(Ext4Artifact { name: self.name, path: self.path })
    }
}

/// Produces a block image. The library applies the injections and sizes
/// the image — the tree's bytes plus a two-gibibyte headroom — and the
/// block encoder at the I/O boundary writes it.
#[derive(Debug)]
pub struct Ext4Producer {
    pub name: String,
    pub path: String,
    pub injections: Vec<Injection>,
}

impl Ext4Producer {
    pub open spec fn wf(&self) -> bool {
        forall|j: int| 0 <= j < self.injections@.len() ==> (#[trigger] self.injections@[j]).wf()
    }

    pub fn name(&self) -> (r: &String)
        ensures
            r@ == self.name@,
    {
        &self.name
    }

    pub fn validate(&self) -> (r: Result<(), Error>)
        ensures
            r is Ok,
    {
        Ok(())
    }

    /// Applies the injections and computes the image size to allocate: the
    /// tree's total bytes plus two gibibytes of headroom, saturating.
    pub fn produce_plan(&self, fs: &mut MemFS) -> (r: Result<u64, Error>)
        requires
            old(fs).wf(),
            self.wf(),
        ensures
            final(fs).wf(),
            final(fs).as_map() == injections_spec(
                old(fs).as_map(),
                self.injections@,
                self.injections@.len() as int,
            ).1,
            injections_spec(old(fs).as_map(), self.injections@, self.injections@.len() as int).0
                matches Err(e) ==> r == Err::<u64, Error>(e),
            injections_spec(old(fs).as_map(), self.injections@, self.injections@.len() as int).0
                is Ok ==> (r matches Ok(sz) && ({
                let margin: nat = 0x80000000nat;
                let want = size_spec(final(fs)@) + margin;
                sz == (if want <= u64::MAX {
                    want
                } else {
                    u64::MAX as nat
                })
            })),
    {
        match apply_injections(fs, &self.injections) {
            Ok(()) => {},
            Err(e) => {
                return Err(e);
            },
        }
        let size = fs.size();
        let margin: u64 = 0x80000000;
        if size > u64::MAX - margin {
            proof {
                assert(size_spec(final(fs)@) > u64::MAX - 0x80000000nat);
            }
            Ok(u64::MAX)
        } else {
            Ok(size + margin)
        }
    }
}

/// A builder for block image producers.
#[derive(Debug)]
pub struct Ext4ProducerBuilder {
    pub name: String,
    pub path: String,
    pub injections: Vec<Injection>,
}

impl Ext4ProducerBuilder {
    pub fn new(name: &str) -> (r: Ext4ProducerBuilder)
        ensures
            r.name@ == name@,
            r.path@.len() == 0,
            r.injections@.len() == 0,
    {
        Ext4ProducerBuilder { name: String::from_str(name), path: String::new(), injections: Vec::new() }
    }

    pub fn path(self, path: &str) -> (r: Ext4ProducerBuilder)
        ensures
            r.name@ == self.name@,
            r.path@ == path@,
            r.injections == self.injections,
    {
        Ext4ProducerBuilder { name: self.name, path: String::from_str(path), injections: self.injections }
    }

    pub fn inject(self, injection: Injection) -> (r: Ext4ProducerBuilder)
        ensures
            r.name@ == self.name@,
            r.path@ == self.path@,
            r.injections@ == self.injections@.push(injection),
    {
        let mut injections = self.injections;
        injections.push(injection);
        Ext4ProducerBuilder { name: self.name, path: self.path, injections }
    }

    pub fn build(self) -> (r: Result<Ext4Producer, Error>)
        ensures
            r matches Ok(p) && p.name@ == self.name@ && p.path@ == self.path@ && p.injections
                == self.injections,
    {
        Ok(Ext4Producer { name: self.name, path: self.path, injections: self.injections })
    }
}

} // verus!
