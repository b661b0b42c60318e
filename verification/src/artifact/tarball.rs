use vstd::prelude::*;

use crate::codec::{
    from_tar_entries, tar_bytes_of, tar_decode, tar_encode, tar_entries_of, tar_rebuild_fold,
    to_tar_entries, fs_to_tar_spec,
};
use crate::compression::{compress, compress_spec, decompress, decompress_spec, detect_compression_type, detect_spec, CompressionType};
use crate::errors::Error;
use crate::inject::{apply_injections, injections_spec, Injection};
use crate::vfs::{MemFS, NodeV};
use vstd::string::StringExecFns;

verus! {

/// A tarball: a tar stream, possibly compressed, held as an artifact at a
/// host path.
#[derive(Debug)]
pub struct TarballArtifact {
    pub name: String,
    pub path: String,
}

/// The tree a tarball's bytes describe: its codec is sniffed, the stream is
/// decompressed, and the members are replayed into a fresh tree.
pub open spec fn tarball_extract_spec(b: Seq<u8>) -> Result<
    Map<Seq<Seq<u8>>, NodeV>,
    Error,
> {
    let plain = decompress_spec(detect_spec(b), b);
    let es = tar_entries_of(plain);
    tar_rebuild_fold(es, es.len() as int)
}

/// When extracting a tarball succeeds: the stream decompresses, the plain
/// bytes parse as a tar archive, and the members replay without conflict.
pub open spec fn tarball_extract_ok(b: Seq<u8>) -> bool {
    let plain = decompress_spec(detect_spec(b), b);
    let es = tar_entries_of(plain);
    &&& crate::compression::decompress_ok(detect_spec(b), b)
    &&& crate::codec::tar_parse_ok(plain)
    &&& tar_rebuild_fold(es, es.len() as int) is Ok
}

impl TarballArtifact {
    pub fn name(&self) -> (r: &String)
        ensures
            r@ == self.name@,
    {
        &self.name
    }

    /// Unpacks the archive bytes into a fresh virtual filesystem. It
    /// succeeds exactly when the bytes decompress, parse and replay.
    pub fn extract(&self, data: &[u8]) -> (r: Result<MemFS, Error>)
        ensures
            r is Ok <==> tarball_extract_ok(data@),
            r matches Ok(fs) ==> fs.wf() && tarball_extract_spec(data@) == Ok::<
                Map<Seq<Seq<u8>>, NodeV>,
                Error,
            >(fs.as_map()),
    {
        let kind = detect_compression_type(data);
        let plain = match decompress(kind, data) {
            Ok(p) => p,
            Err(e) => {
                return Err(e);
            },
        };
        let entries = match tar_decode(plain.as_slice()) {
            Ok(es) => es,
            Err(e) => {
                return Err(e);
            },
        };
        from_tar_entries(&entries)
    }
}

/// A builder for tarball artifacts.
#[derive(Debug)]
pub struct TarballArtifactBuilder {
    pub name: String,
    pub path: String,
}

impl TarballArtifactBuilder {
    pub fn new(name: &str) -> (r: TarballArtifactBuilder)
        ensures
            r.name@ == name@,
            r.path@.len() == 0,
    {
        TarballArtifactBuilder { name: String::from_str(name), path: String::new() }
    }

    pub fn path(self, path: &str) -> (r: TarballArtifactBuilder)
        ensures
            r.name@ == self.name@,
            r.path@ == path@,
    {
        TarballArtifactBuilder { name: self.name, path: String::from_str(path) }
    }

    pub fn build(self) -> (r: Result<TarballArtifact, Error>)
        ensures
            r matches Ok(a) && a.name@ == self.name@ && a.path@ == self.path@,
    {
        Ok(TarballArtifact { name: self.name, path: self.path })
    }
}

/// Produces a tarball, optionally compressed, from a tree.
#[derive(Debug)]
pub struct TarballProducer {
    pub name: String,
    pub path: String,
    pub compression: CompressionType,
    pub injections: Vec<Injection>,
}

impl TarballProducer {
    /// All the producer's injections are well formed.
    pub open spec fn wf(&self) -> bool {
        forall|j: int| 0 <= j < self.injections@.len() ==> (#[trigger] self.injections@[j]).wf()
    }

    pub fn name(&self) -> (r: &String)
        ensures
            r@ == self.name@,
    {
        &self.name
    }

    /// Pre-flight validation: a tarball producer constrains nothing beyond
    /// what its output path's filesystem will enforce at write time.
    pub fn validate(&self) -> (r: Result<(), Error>)
        ensures
            r is Ok,
    {
        Ok(())
    }

    /// Applies the producer's injections to the tree, then serialises it,
    /// in the canonical entry order, into a tar stream compressed with the
    /// producer's codec. It succeeds exactly when the injections do and
    /// every entry is acceptable to the tar encoder.
    pub fn produce_from(&self, fs: &mut MemFS) -> (r: Result<(TarballArtifact, Vec<u8>), Error>)
        requires
            old(fs).wf(),
            self.wf(),
        ensures
            final(fs).wf(),
            final(fs).as_map() == injections_spec(
                old(fs).as_map(),
                self.injections@,
                self.injections@.len() as int,
            ).1,
            r is Ok <==> (injections_spec(
                old(fs).as_map(),
                self.injections@,
                self.injections@.len() as int,
            ).0 is Ok && crate::codec::tar_encode_ok(fs_to_tar_spec(final(fs)@))),
            injections_spec(old(fs).as_map(), self.injections@, self.injections@.len() as int).0
                matches Err(e) ==> r == Err::<(TarballArtifact, Vec<u8>), Error>(e),
            r matches Ok(pair) ==> pair.1@ == compress_spec(
                self.compression,
                tar_bytes_of(fs_to_tar_spec(final(fs)@)),
            ) && pair.0.name@ == self.path@ && pair.0.path@ == self.path@,
    {
        match apply_injections(fs, &self.injections) {
            Ok(()) => {},
            Err(e) => {
                return Err(e);
            },
        }
        let entries = to_tar_entries(fs);
        let tb = match tar_encode(&entries) {
            Ok(t) => t,
            Err(e) => {
                return Err(e);
            },
        };
        let out = match compress(self.compression, tb.as_slice()) {
            Ok(o) => o,
            Err(e) => {
                return Err(e);
            },
        };
        let art = TarballArtifact { name: self.path.clone(), path: self.path.clone() };
        Ok((art, out))
    }
}

/// A builder for tarball producers.
#[derive(Debug)]
pub struct TarballProducerBuilder {
    pub name: String,
    pub path: String,
    pub compression: CompressionType,
    pub injections: Vec<Injection>,
}

impl TarballProducerBuilder {
    pub fn new(name: &str) -> (r: TarballProducerBuilder)
        ensures
            r.name@ == name@,
            r.path@.len() == 0,
            r.compression == CompressionType::Uncompressed,
            r.injections@.len() == 0,
    {
        TarballProducerBuilder {
            name: String::from_str(name),
            path: String::new(),
            compression: CompressionType::Uncompressed,
            injections: Vec::new(),
        }
    }

    pub fn path(self, path: &str) -> (r: TarballProducerBuilder)
        ensures
            r.name@ == self.name@,
            r.path@ == path@,
            r.compression == self.compression,
            r.injections == self.injections,
    {
        TarballProducerBuilder {
            name: self.name,
            path: String::from_str(path),
            compression: self.compression,
            injections: self.injections,
        }
    }

    pub fn compression(self, compression: CompressionType) -> (r: TarballProducerBuilder)
        ensures
            r.name@ == self.name@,
            r.path@ == self.path@,
            r.compression == compression,
            r.injections == self.injections,
    {
        TarballProducerBuilder {
            name: self.name,
            path: self.path,
            compression,
            injections: self.injections,
        }
    }

    pub fn inject(self, injection: Injection) -> (r: TarballProducerBuilder)
        ensures
            r.name@ == self.name@,
            r.path@ == self.path@,
            r.compression == self.compression,
            r.injections@ == self.injections@.push(injection),
    {
        let mut injections = self.injections;
        injections.push(injection);
        TarballProducerBuilder {
            name: self.name,
            path: self.path,
            compression: self.compression,
            injections,
        }
    }

    pub fn build(self) -> (r: Result<TarballProducer, Error>)
        ensures
            r matches Ok(p) && p.name@ == self.name@ && p.path@ == self.path@ && p.compression
                == self.compression && p.injections == self.injections,
    {
        Ok(
            TarballProducer {
                name: self.name,
                path: self.path,
                compression: self.compression,
                injections: self.injections,
            },
        )
    }
}

} // verus!
