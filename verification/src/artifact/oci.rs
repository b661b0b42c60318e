use vstd::prelude::*;

use crate::artifact::docker::first_colon;
use crate::errors::Error;
use vstd::string::StringSliceAdditionalSpecFns;
use crate::inject::Injection;

verus! {

/// An OCI image layout held as a tarball at a host path. The manifest and
/// blob JSON shapes are leaf codecs outside this library.
#[derive(Debug)]
pub struct OciArtifact {
    pub name: String,
    pub path: String,
}

impl OciArtifact {
    pub fn name(&self) -> (r: &String)
        ensures
            r@ == self.name@,
    {
        &self.name
    }

    pub fn validate(&self) -> (r: Result<(), Error>)
        ensures
            r is Ok,
    {
        Ok(())
    }
}

/// The blob path a digest reference addresses: `algorithm:hash` becomes
/// `/blobs/algorithm/hash`.
pub open spec fn blob_to_path_spec(digest: Seq<u8>) -> Seq<u8> {
    let c = first_colon(digest, 0);
    if c < 0 {
        ("/blobs/").spec_bytes() + digest
    } else {
        ("/blobs/").spec_bytes() + digest.take(c) + seq![47u8] + digest.skip(c + 1)
    }
}

/// Renders the blob path of a digest reference.
pub fn blob_to_path(digest: &[u8]) -> (r: Vec<u8>)
    ensures
        r@ == blob_to_path_spec(digest@),
{
    let (algo, hash) = split_digest(digest);
    let mut out: Vec<u8> = Vec::new();
    crate::artifact::append_str(&mut out, "/blobs/");
    crate::artifact::append_bytes(&mut out, &algo);
    proof {
        if first_colon(digest@, 0) >= 0 {
            assert(out@ =~= ("/blobs/").spec_bytes() + digest@.take(first_colon(digest@, 0)));
        }
    }
    if hash.is_some() {
        out.push(47);
        let h = hash.unwrap();
        crate::artifact::append_bytes(&mut out, &h);
        proof {
            let c = first_colon(digest@, 0);
            assert(out@ =~= ("/blobs/").spec_bytes() + digest@.take(c) + seq![47u8] + digest@.skip(
                c + 1,
            ));
        }
    }
    out
}

/// Splits a digest reference at its first `:`.
fn split_digest(digest: &[u8]) -> (r: (Vec<u8>, Option<Vec<u8>>))
    ensures
        ({
            let c = first_colon(digest@, 0);
            if c < 0 {
                r.0@ == digest@ && r.1 is None
            } else {
                r.0@ == digest@.take(c) && (r.1 matches Some(h) && h@ == digest@.skip(c + 1))
            }
        }),
{
    let n = digest.len();
    let mut i: usize = 0;
    while i < n
        invariant
            n == digest@.len(),
            i <= n,
            first_colon(digest@, 0) == first_colon(digest@, i as int),
        decreases n - i,
    {
        if digest[i] == 58 {
            let mut algo: Vec<u8> = Vec::new();
            let mut j: usize = 0;
            while j < i
                invariant
                    i < digest@.len(),
                    j <= i,
                    algo@ =~= digest@.take(i as int).take(j as int),
                decreases i - j,
            {
                algo.push(digest[j]);
                proof {
                    assert(algo@ =~= digest@.take(i as int).take(j + 1));
                }
                j = j + 1;
            }
            let mut hash: Vec<u8> = Vec::new();
            let mut k: usize = i + 1;
            while k < n
                invariant
                    i < n == digest@.len(),
                    i + 1 <= k <= n,
                    hash@ =~= digest@.skip(i as int + 1).take(k - i - 1),
                decreases n - k,
            {
                hash.push(digest[k]);
                proof {
                    assert(hash@ =~= digest@.skip(i as int + 1).take(k - i));
                }
                k = k + 1;
            }
            proof {
                assert(digest@.take(i as int).take(i as int) =~= digest@.take(i as int));
                assert(digest@.skip(i as int + 1).take(n - i - 1) =~= digest@.skip(i as int + 1));
            }
            return (algo, Some(hash));
        }
        i = i + 1;
    }
    (crate::paths::copy_bytes_slice(digest), None)
}

/// Produces an OCI layout from a tree; the blob and manifest JSON encoding
/// happens at the I/O boundary.
#[derive(Debug)]
pub struct OciProducer {
    pub name: String,
    pub path: String,
    pub architecture: String,
    pub injections: Vec<Injection>,
}

impl OciProducer {
    pub open spec fn wf(&self) -> bool {
        forall|j: int| 0 <= j < self.injections@.len() ==> (#[trigger] self.injections@[j]).wf()
    }

    pub fn name(&self) -> (r: &String)
        ensures
            r@ == self.name@,
    {
        &self.name
    }

    pub fn validate(&self) -> (r: Result<(), Error>)
        ensures
            r is Ok,
    {
        Ok(())
    }

    /// Applies the injections and produces the layer blob of the layout: a
    /// gzip tarball of the finished tree, its SHA-256 digest reference in
    /// lowercase hexadecimal, and the blob path that digest addresses. It
    /// succeeds exactly when the injections do and every entry is
    /// acceptable to the tar encoder. The manifest and index JSON around
    /// the blob are encoded at the I/O boundary.
    pub fn produce_blob(&self, fs: &mut crate::vfs::MemFS) -> (r: Result<
        (Vec<u8>, Vec<u8>, Vec<u8>),
        Error,
    >)
        requires
            old(fs).wf(),
            self.wf(),
        ensures
            final(fs).wf(),
            final(fs).as_map() == crate::inject::injections_spec(
                old(fs).as_map(),
                self.injections@,
                self.injections@.len() as int,
            ).1,
            r is Ok <==> (crate::inject::injections_spec(
                old(fs).as_map(),
                self.injections@,
                self.injections@.len() as int,
            ).0 is Ok && crate::codec::tar_encode_ok(
                crate::codec::fs_to_tar_spec(final(fs)@),
            )),
            crate::inject::injections_spec(
                old(fs).as_map(),
                self.injections@,
                self.injections@.len() as int,
            ).0 matches Err(e) ==> r == Err::<(Vec<u8>, Vec<u8>, Vec<u8>), Error>(e),
            crate::inject::injections_spec(
                old(fs).as_map(),
                self.injections@,
                self.injections@.len() as int,
            ).0 is Ok ==> (r matches Ok(t) ==> ({
                let blob = crate::compression::gzip_of(
                    crate::codec::tar_bytes_of(crate::codec::fs_to_tar_spec(final(fs)@)),
                );
                let digest = ("sha256:").spec_bytes() + crate::util::hex_spec(
                    crate::util::sha256_of(blob),
                );
                &&& t.0@ == blob
                &&& t.1@ == digest
                &&& t.2@ == blob_to_path_spec(digest)
            })),
    {
        match crate::inject::apply_injections(fs, &self.injections) {
            Ok(()) => {},
            Err(e) => {
                return Err(e);
            },
        }
        let entries = crate::codec::to_tar_entries(fs);
        let tb = match crate::codec::tar_encode(&entries) {
            Ok(t) => t,
            Err(e) => {
                return Err(e);
            },
        };
        let blob = match crate::compression::compress(
            crate::compression::CompressionType::Gzip,
            tb.as_slice(),
        ) {
            Ok(b) => b,
            Err(e) => {
                return Err(e);
            },
        };
        let sha = crate::util::sha256_digest_bytes(blob.as_slice());
        let hexd = crate::util::to_hex(&sha);
        let mut digest: Vec<u8> = Vec::new();
        crate::artifact::append_str(&mut digest, "sha256:");
        crate::artifact::append_bytes(&mut digest, &hexd);
        let path = blob_to_path(digest.as_slice());
        Ok((blob, digest, path))
    }
}

} // verus!
