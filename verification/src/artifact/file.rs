use vstd::prelude::*;

use crate::drive::{copy_sub_fold, DiskDrive};
use crate::errors::Error;
use crate::inject::{apply_injections, injections_spec, Injection};
use crate::paths::{parse_spec, VfsPath};
use crate::vfs::{MemFS, NodeV};
use vstd::string::{StrSliceExecFns, StringExecFns};

verus! {

/// A set of paths of the host filesystem, as an artifact. The host tree
/// itself is read at the I/O boundary and handed in as another `MemFS`.
#[derive(Debug)]
pub struct FileArtifact {
    pub name: String,
    pub paths: Vec<String>,
}

/// Extracting a file artifact: each configured path's subtree is copied
/// from the host tree into the fresh tree, at the same path.
pub open spec fn file_extract_fold(
    hostv: Seq<(Seq<Seq<u8>>, NodeV)>,
    m: Map<Seq<Seq<u8>>, NodeV>,
    paths: Seq<String>,
    i: int,
) -> Result<Map<Seq<Seq<u8>>, NodeV>, Error>
    decreases i,
{
    if i <= 0 {
        Ok(m)
    } else {
        match file_extract_fold(hostv, m, paths, i - 1) {
            Err(e) => Err(e),
            Ok(m1) => {
                let pv = parse_spec(crate::artifact::chars_bytes(paths[i - 1]@));
                if pv.len() == 0 {
                    Err(Error::WrongType)
                } else {
                    copy_sub_fold(hostv, hostv.len() as int, m1, pv, pv)
                }
            },
        }
    }
}

/// An error in the extraction fold is final.
pub proof fn lemma_file_extract_fold_err(
    hostv: Seq<(Seq<Seq<u8>>, NodeV)>,
    m: Map<Seq<Seq<u8>>, NodeV>,
    paths: Seq<String>,
    i: int,
    n: int,
)
    requires
        0 <= i <= n,
        file_extract_fold(hostv, m, paths, i) is Err,
    ensures
        file_extract_fold(hostv, m, paths, n) == file_extract_fold(hostv, m, paths, i),
    decreases n - i,
{
    if n > i {
        lemma_file_extract_fold_err(hostv, m, paths, i, n - 1);
    }
}

impl FileArtifact {
    pub fn name(&self) -> (r: &String)
        ensures
            r@ == self.name@,
    {
        &self.name
    }

    /// Copies the configured paths out of the host tree into a fresh tree.
    /// It succeeds exactly when the fold over the configured paths does,
    /// and then returns exactly its tree.
    pub fn extract(&self, host: &MemFS) -> (r: Result<MemFS, Error>)
        requires
            host.wf(),
        ensures
            file_extract_fold(host@, Map::empty(), self.paths@, self.paths@.len() as int) matches
                Ok(m) ==> (r matches Ok(fs) && fs.wf() && fs.as_map() == m),
            file_extract_fold(host@, Map::empty(), self.paths@, self.paths@.len() as int) matches
                Err(e) ==> (r matches Err(e2) && e2 == e),
    {
        let mut fs = MemFS::new();
        let drive = DiskDrive::new();
        let n = self.paths.len();
        let mut i: usize = 0;
        while i < n
            invariant
                host.wf(),
                fs.wf(),
                n == self.paths@.len(),
                i <= n,
                file_extract_fold(host@, Map::empty(), self.paths@, i as int) == Ok::<
                    Map<Seq<Seq<u8>>, NodeV>,
                    Error,
                >(fs.as_map()),
            decreases n - i,
        {
            let pb = self.paths[i].as_str().as_bytes_vec();
            let pv = VfsPath::parse(pb.as_slice());
            if pv.is_root() {
                proof {
                    lemma_file_extract_fold_err(
                        host@,
                        Map::empty(),
                        self.paths@,
                        i as int + 1,
                        n as int,
                    );
                }
                return Err(Error::WrongType);
            }
            match drive.copy_from_src_to_dest(host, &mut fs, &pv, &pv) {
                Ok(()) => {},
                Err(e) => {
                    proof {
                        lemma_file_extract_fold_err(
                            host@,
                            Map::empty(),
                            self.paths@,
                            i as int + 1,
                            n as int,
                        );
                    }
                    return Err(e);
                },
            }
            i = i + 1;
        }
        Ok(fs)
    }
}

/// A builder for file artifacts.
#[derive(Debug)]
pub struct FileArtifactBuilder {
    pub name: String,
    pub paths: Vec<String>,
}

impl FileArtifactBuilder {
    pub fn new(name: &str) -> (r: FileArtifactBuilder)
        ensures
            r.name@ == name@,
            r.paths@.len() == 0,
    {
        FileArtifactBuilder { name: String::from_str(name), paths: Vec::new() }
    }

    pub fn add_path(&mut self, path: &str)
        ensures
            final(self).name@ == old(self).name@,
            final(self).paths@.len() == old(self).paths@.len() + 1,
            forall|j: int|
                0 <= j < old(self).paths@.len() ==> final(self).paths@[j] == old(self).paths@[j],
            final(self).paths@.last()@ == path@,
    {
        self.paths.push(String::from_str(path));
    }

    pub fn build(self) -> (r: Result<FileArtifact, Error>)
        ensures
            r matches Ok(a) && a.name@ == self.name@ && a.paths == self.paths,
    {
        Ok(FileArtifact { name: self.name, paths: self.paths })
    }
}

/// Produces a plain file tree at a host path from a tree. The library
/// applies the injections and hands back the finished tree; writing it out
/// is the caller's I/O.
#[derive(Debug)]
pub struct FileProducer {
    pub name: String,
    pub path: String,
    pub preserve_empty_directories: Option<bool>,
    pub injections: Vec<Injection>,
}

impl FileProducer {
    pub open spec fn wf(&self) -> bool {
        forall|j: int| 0 <= j < self.injections@.len() ==> (#[trigger] self.injections@[j]).wf()
    }

    pub fn name(&self) -> (r: &String)
        ensures
            r@ == self.name@,
    {
        &self.name
    }

    /// Pre-flight validation: the output directory is created at the I/O
    /// boundary, so nothing constrains the configuration itself.
    pub fn validate(&self) -> (r: Result<(), Error>)
        ensures
            r is Ok,
    {
        Ok(())
    }

    /// Applies the producer's injections; the finished tree in `fs` is what
    /// the caller materialises at the output path.
    pub fn produce_from(&self, fs: &mut MemFS) -> (r: Result<FileArtifact, Error>)
        requires
            old(fs).wf(),
            self.wf(),
        ensures
            final(fs).wf(),
            final(fs).as_map() == injections_spec(
                old(fs).as_map(),
                self.injections@,
                self.injections@.len() as int,
            ).1,
            injections_spec(old(fs).as_map(), self.injections@, self.injections@.len() as int).0
                matches Err(e) ==> r == Err::<FileArtifact, Error>(e),
            injections_spec(old(fs).as_map(), self.injections@, self.injections@.len() as int).0
                is Ok ==> (r matches Ok(a) && a.name@ == self.path@ && a.paths@.len() == 1
                && a.paths@[0]@ == self.path@),
    {
        match apply_injections(fs, &self.injections) {
            Ok(()) => {},
            Err(e) => {
                return Err(e);
            },
        }
        let mut paths: Vec<String> = Vec::new();
        paths.push(self.path.clone());
        Ok(FileArtifact { name: self.path.clone(), paths })
    }
}

/// A builder for file producers.
#[derive(Debug)]
pub struct FileProducerBuilder {
    pub name: String,
    pub path: String,
    pub preserve_empty_directories: Option<bool>,
    pub injections: Vec<Injection>,
}

impl FileProducerBuilder {
    pub fn new(name: &str) -> (r: FileProducerBuilder)
        ensures
            r.name@ == name@,
            r.path@.len() == 0,
            r.preserve_empty_directories is None,
            r.injections@.len() == 0,
    {
        FileProducerBuilder {
            name: String::from_str(name),
            path: String::new(),
            preserve_empty_directories: None,
            injections: Vec::new(),
        }
    }

    pub fn path(self, path: &str) -> (r: FileProducerBuilder)
        ensures
            r.name@ == self.name@,
            r.path@ == path@,
            r.preserve_empty_directories == self.preserve_empty_directories,
            r.injections == self.injections,
    {
        FileProducerBuilder {
            name: self.name,
            path: String::from_str(path),
            preserve_empty_directories: self.preserve_empty_directories,
            injections: self.injections,
        }
    }

    pub fn preserve_empty_directories(self, preserve: bool) -> (r: FileProducerBuilder)
        ensures
            r.name@ == self.name@,
            r.path@ == self.path@,
            r.preserve_empty_directories == Some(preserve),
            r.injections == self.injections,
    {
        FileProducerBuilder {
            name: self.name,
            path: self.path,
            preserve_empty_directories: Some(preserve),
            injections: self.injections,
        }
    }

    pub fn inject(self, injection: Injection) -> (r: FileProducerBuilder)
        ensures
            r.name@ == self.name@,
            r.path@ == self.path@,
            r.preserve_empty_directories == self.preserve_empty_directories,
            r.injections@ == self.injections@.push(injection),
    {
        let mut injections = self.injections;
        injections.push(injection);
        FileProducerBuilder {
            name: self.name,
            path: self.path,
            preserve_empty_directories: self.preserve_empty_directories,
            injections,
        }
    }

    pub fn build(self) -> (r: Result<FileProducer, Error>)
        ensures
            r matches Ok(p) && p.name@ == self.name@ && p.path@ == self.path@
                && p.preserve_empty_directories == self.preserve_empty_directories && p.injections
                == self.injections,
    {
        Ok(
            FileProducer {
                name: self.name,
                path: self.path,
                preserve_empty_directories: self.preserve_empty_directories,
                injections: self.injections,
            },
        )
    }
}

} // verus!
