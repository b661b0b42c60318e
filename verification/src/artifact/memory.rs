use vstd::prelude::*;

use crate::drive::{copy_fold, DiskDrive};
use crate::errors::Error;
use crate::inject::Injection;
use crate::vfs::{FsEntry, MemFS, NodeV};
use vstd::string::StringExecFns;

verus! {

/// An artifact that lives entirely in memory: a named tree.
#[derive(Debug)]
pub struct MemoryArtifact {
    pub name: String,
    pub fs: MemFS,
}

impl MemoryArtifact {
    pub fn name(&self) -> (r: &String)
        ensures
            r@ == self.name@,
    {
        &self.name
    }

    /// Extracting a memory artifact copies its tree.
    pub fn extract(&self) -> (r: MemFS)
        requires
            self.fs.wf(),
        ensures
            r.wf(),
            r@ == self.fs@,
    {
        let n = self.fs.entry_count();
        let mut entries: Vec<FsEntry> = Vec::new();
        let mut i: usize = 0;
        while i < n
            invariant
                self.fs.wf(),
                n == self.fs@.len(),
                i <= n,
                entries@.len() == i,
                forall|j: int| 0 <= j < i ==> (#[trigger] entries@[j]).v() == self.fs@[j],
            decreases n - i,
        {
            let path = self.fs.path_at(i);
            let node = self.fs.node_at(i);
            proof {
                assert(self.fs@[i as int] == (self.fs@[i as int].0, self.fs@[i as int].1));
            }
            entries.push(FsEntry { path, node });
            i = i + 1;
        }
        let r = MemFS { entries };
        proof {
            assert forall|j: int| 0 <= j < n implies #[trigger] r@[j] == self.fs@[j] by {
                assert(r@[j] == r.entries@[j].v());
            }
            assert(r@ =~= self.fs@);
        }
        r
    }

    /// A memory artifact is always valid.
    pub fn validate(&self) -> (r: Result<(), Error>)
        ensures
            r is Ok,
    {
        Ok(())
    }
}

/// A producer that replays its input into a fresh in-memory tree.
#[derive(Debug)]
pub struct MemoryProducer {
    pub name: String,
    pub injections: Vec<Injection>,
}

impl MemoryProducer {
    pub fn name(&self) -> (r: &String)
        ensures
            r@ == self.name@,
    {
        &self.name
    }

    /// Copies the input tree into a fresh tree held by a memory artifact.
    /// It succeeds exactly when the copy fold does, and then holds exactly
    /// its tree.
    pub fn produce_from(&self, prev: &MemFS) -> (r: Result<MemoryArtifact, Error>)
        requires
            prev.wf(),
        ensures
            copy_fold(prev@, prev@.len() as int, Map::empty()) matches Ok(m) ==> (r matches Ok(a)
                && a.fs.wf() && a.name@ == self.name@ && a.fs.as_map() == m),
            copy_fold(prev@, prev@.len() as int, Map::empty()) matches Err(e) ==> (r matches Err(
                e2,
            ) && e2 == e),
    {
        let mut fs = MemFS::new();
        let drive = DiskDrive::new();
        match drive.copy_between(prev, &mut fs) {
            Ok(()) => {},
            Err(e) => {
                return Err(e);
            },
        }
        Ok(MemoryArtifact { name: self.name.clone(), fs })
    }

    pub fn validate(&self) -> (r: Result<(), Error>)
        ensures
            r is Ok,
    {
        Ok(())
    }
}

/// An artifact with no content at all: it extracts to an empty tree.
#[derive(Debug)]
pub struct EmptyArtifact {
    pub name: String,
}

impl EmptyArtifact {
    pub fn new(name: &str) -> (r: EmptyArtifact)
        ensures
            r.name@ == name@,
    {
        EmptyArtifact { name: String::from_str(name) }
    }

    pub fn name(&self) -> (r: &String)
        ensures
            r@ == self.name@,
    {
        &self.name
    }

    pub fn extract(&self) -> (r: MemFS)
        ensures
            r.wf(),
            r@.len() == 0,
            r.as_map() == Map::<Seq<Seq<u8>>, NodeV>::empty(),
    {
        MemFS::new()
    }

    /// An empty artifact occupies no host paths.
    pub fn paths(&self) -> (r: Option<Vec<String>>)
        ensures
            r is None,
    {
        None
    }

    pub fn validate(&self) -> (r: Result<(), Error>)
        ensures
            r is Ok,
    {
        Ok(())
    }
}

} // verus!
