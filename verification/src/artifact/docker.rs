use vstd::prelude::*;

use crate::artifact::chars_bytes;
use crate::errors::Error;
use crate::inject::Injection;
use vstd::string::{StrSliceExecFns, StringExecFns, StringSliceAdditionalSpecFns};

verus! {

/// A container image held by a local daemon. Talking to the daemon is I/O
/// glue outside this library; the artifact carries the descriptor.
#[derive(Debug)]
pub struct DockerArtifact {
    pub name: String,
    pub image: String,
}

/// The position of the first `:` in `b`, or `-1`.
pub open spec fn first_colon(b: Seq<u8>, i: int) -> int
    decreases b.len() - i,
{
    if i < 0 || i >= b.len() {
        -1
    } else if b[i] == 58 {
        i
    } else {
        first_colon(b, i + 1)
    }
}

/// Splitting an image reference at its first `:`: the repository part and
/// the tag; a reference without a tag gets `latest`.
pub open spec fn split_image_spec(b: Seq<u8>) -> (Seq<u8>, Seq<u8>) {
    let c = first_colon(b, 0);
    if c < 0 {
        (b, ("latest").spec_bytes())
    } else {
        (b.take(c), b.skip(c + 1))
    }
}

/// Splits an image reference into its repository and its tag.
pub fn split_image_name_into_repo_and_tag(image: &[u8]) -> (r: (Vec<u8>, Vec<u8>))
    ensures
        r.0@ == split_image_spec(image@).0,
        r.1@ == split_image_spec(image@).1,
{
    let n = image.len();
    let mut i: usize = 0;
    while i < n
        invariant
            n == image@.len(),
            i <= n,
            first_colon(image@, 0) == first_colon(image@, i as int),
        decreases n - i,
    {
        if image[i] == 58 {
            let mut repo: Vec<u8> = Vec::new();
            let mut j: usize = 0;
            while j < i
                invariant
                    i < image@.len(),
                    j <= i,
                    repo@ =~= image@.take(i as int).take(j as int),
                decreases i - j,
            {
                repo.push(image[j]);
                proof {
                    assert(repo@ =~= image@.take(i as int).take(j + 1));
                }
                j = j + 1;
            }
            let mut tag: Vec<u8> = Vec::new();
            let mut k: usize = i + 1;
            while k < n
                invariant
                    i < n == image@.len(),
                    i + 1 <= k <= n,
                    tag@ =~= image@.skip(i as int + 1).take(k - i - 1),
                decreases n - k,
            {
                tag.push(image[k]);
                proof {
                    assert(tag@ =~= image@.skip(i as int + 1).take(k - i));
                }
                k = k + 1;
            }
            proof {
                assert(image@.take(i as int).take(i as int) =~= image@.take(i as int));
                assert(image@.skip(i as int + 1).take(n - i - 1) =~= image@.skip(i as int + 1));
            }
            return (repo, tag);
        }
        i = i + 1;
    }
    let repo = crate::paths::copy_bytes_slice(image);
    let mut tag: Vec<u8> = Vec::new();
    crate::artifact::append_str(&mut tag, "latest");
    proof {
        assert(tag@ =~= ("latest").spec_bytes());
    }
    (repo, tag)
}

/// Unioning the image's layers, in order, onto one tree: each layer is
/// replayed with the copy engine's policy.
pub open spec fn layers_fold(
    layers: Seq<crate::vfs::MemFS>,
    i: int,
    m: Map<Seq<Seq<u8>>, crate::vfs::NodeV>,
) -> Result<Map<Seq<Seq<u8>>, crate::vfs::NodeV>, Error>
    decreases i,
{
    if i <= 0 {
        Ok(m)
    } else {
        match layers_fold(layers, i - 1, m) {
            Err(e) => Err(e),
            Ok(m1) => crate::drive::copy_fold(layers[i - 1]@, layers[i - 1]@.len() as int, m1),
        }
    }
}

impl DockerArtifact {
    pub fn name(&self) -> (r: &String)
        ensures
            r@ == self.name@,
    {
        &self.name
    }

    /// Builds the image's filesystem from its layer trees, each already
    /// unpacked from its tarball at the I/O boundary: the layers are
    /// unioned in order onto a fresh tree. It succeeds exactly when the
    /// layer fold does, and then returns exactly its tree.
    pub fn extract_layers(&self, layers: &Vec<crate::vfs::MemFS>) -> (r: Result<
        crate::vfs::MemFS,
        Error,
    >)
        requires
            forall|j: int| 0 <= j < layers@.len() ==> (#[trigger] layers@[j]).wf(),
        ensures
            layers_fold(layers@, layers@.len() as int, Map::empty()) matches Ok(m) ==> (r matches
                Ok(fs) && fs.wf() && fs.as_map() == m),
            layers_fold(layers@, layers@.len() as int, Map::empty()) matches Err(e) ==> (r matches
                Err(e2) && e2 == e),
    {
        let mut fs = crate::vfs::MemFS::new();
        let drive = crate::drive::DiskDrive::new();
        let n = layers.len();
        let mut i: usize = 0;
        while i < n
            invariant
                fs.wf(),
                n == layers@.len(),
                i <= n,
                forall|j: int| 0 <= j < layers@.len() ==> (#[trigger] layers@[j]).wf(),
                layers_fold(layers@, i as int, Map::empty()) == Ok::<
                    Map<Seq<Seq<u8>>, crate::vfs::NodeV>,
                    Error,
                >(fs.as_map()),
            decreases n - i,
        {
            match drive.copy_between(&layers[i], &mut fs) {
                Ok(()) => {},
                Err(e) => {
                    proof {
                        lemma_layers_fold_err(layers@, i as int + 1, n as int, Map::empty());
                    }
                    return Err(e);
                },
            }
            i = i + 1;
        }
        Ok(fs)
    }

    pub fn validate(&self) -> (r: Result<(), Error>)
        ensures
            r is Ok,
    {
        Ok(())
    }
}

/// A builder for container image artifacts.
#[derive(Debug)]
pub struct DockerArtifactBuilder {
    pub name: String,
    pub image: String,
}

impl DockerArtifactBuilder {
    pub fn new(name: &str) -> (r: DockerArtifactBuilder)
        ensures
            r.name@ == name@,
            r.image@.len() == 0,
    {
        DockerArtifactBuilder { name: String::from_str(name), image: String::new() }
    }

    pub fn image(self, image: &str) -> (r: DockerArtifactBuilder)
        ensures
            r.name@ == self.name@,
            r.image@ == image@,
    {
        DockerArtifactBuilder { name: self.name, image: String::from_str(image) }
    }

    pub fn build(self) -> (r: Result<DockerArtifact, Error>)
        ensures
            r matches Ok(a) && a.name@ == self.name@ && a.image@ == self.image@,
    {
        Ok(DockerArtifact { name: self.name, image: self.image })
    }
}

/// A character allowed in an image reference: lowercase, digit, `.`, `_`,
/// `-` or `/`.
pub open spec fn image_char(c: u8) -> bool {
    crate::artifact::is_lower_digit(c) || c == 46 || c == 95 || c == 45 || c == 47
}

/// The accepted shape of an image reference with a tag: a nonempty
/// repository of image characters, one `:`, and a nonempty tag of image
/// characters.
pub open spec fn image_ref_ok(b: Seq<u8>) -> bool {
    &&& first_colon(b, 0) > 0
    &&& first_colon(b, 0) < b.len() - 1
    &&& forall|i: int|
        0 <= i < b.len() && i != first_colon(b, 0) ==> image_char(#[trigger] b[i]) && b[i] != 58
}

/// Produces a container image from a tree; the daemon-facing transfer is
/// I/O glue outside this library.
#[derive(Debug)]
pub struct DockerProducer {
    pub name: String,
    pub image: String,
    pub base_image: Option<String>,
    pub cmd: Option<Vec<String>>,
    pub injections: Vec<Injection>,
}

impl DockerProducer {
    pub fn name(&self) -> (r: &String)
        ensures
            r@ == self.name@,
    {
        &self.name
    }

    /// Pre-flight validation of the image references: each must be
    /// `repository:tag` over the image character set.
    pub fn validate(&self) -> (r: Result<(), Error>)
        ensures
            r is Ok <==> (image_ref_ok(chars_bytes(self.image@)) && (self.base_image matches Some(
                bi,
            ) ==> image_ref_ok(chars_bytes(bi@)))),
    {
        let ib = self.image.as_str().as_bytes_vec();
        if !check_image_ref(&ib) {
            return Err(Error::ValidationFailed(Vec::new()));
        }
        match &self.base_image {
            Some(bi) => {
                let bb = bi.as_str().as_bytes_vec();
                if !check_image_ref(&bb) {
                    return Err(Error::ValidationFailed(Vec::new()));
                }
            },
            None => {},
        }
        Ok(())
    }
}

/// Checks an image reference against the accepted shape.
pub fn check_image_ref(b: &Vec<u8>) -> (r: bool)
    ensures
        r == image_ref_ok(b@),
{
    let n = b.len();
    let mut ci: usize = 0;
    let mut found = false;
    let mut i: usize = 0;
    while i < n
        invariant
            n == b@.len(),
            i <= n,
            found ==> ci < i && b@[ci as int] == 58 && first_colon(b@, 0) == ci as int,
            !found ==> first_colon(b@, 0) == first_colon(b@, i as int),
        decreases n - i,
    {
        if !found && b[i] == 58 {
            ci = i;
            found = true;
        }
        i = i + 1;
    }
    if !found {
        proof {
            assert(first_colon(b@, 0) == -1);
        }
        return false;
    }
    if ci == 0 || ci >= n - 1 {
        return false;
    }
    let mut j: usize = 0;
    while j < n
        invariant
            n == b@.len(),
            j <= n,
            0 < ci < n - 1,
            b@[ci as int] == 58,
            first_colon(b@, 0) == ci as int,
            forall|t: int|
                0 <= t < j && t != ci ==> image_char(#[trigger] b@[t]) && b@[t] != 58,
        decreases n - j,
    {
        if j != ci {
            let c = b[j];
            let ok = 97 <= c && c <= 122 || 48 <= c && c <= 57 || c == 46 || c == 95 || c == 45
                || c == 47;
            if !ok || c == 58 {
                return false;
            }
        }
        j = j + 1;
    }
    true
}

/// A builder for container image producers.
#[derive(Debug)]
pub struct DockerProducerBuilder {
    pub name: String,
    pub image: String,
    pub base_image: Option<String>,
    pub entrypoint: Option<Vec<String>>,
    pub injections: Vec<Injection>,
}

impl DockerProducerBuilder {
    pub fn new(name: &str) -> (r: DockerProducerBuilder)
        ensures
            r.name@ == name@,
            r.image@.len() == 0,
            r.base_image is None,
            r.entrypoint is None,
            r.injections@.len() == 0,
    {
        DockerProducerBuilder {
            name: String::from_str(name),
            image: String::new(),
            base_image: None,
            entrypoint: None,
            injections: Vec::new(),
        }
    }

    pub fn image(self, image: &str) -> (r: DockerProducerBuilder)
        ensures
            r.name@ == self.name@,
            r.image@ == image@,
            r.base_image == self.base_image,
            r.entrypoint == self.entrypoint,
            r.injections == self.injections,
    {
        DockerProducerBuilder {
            name: self.name,
            image: String::from_str(image),
            base_image: self.base_image,
            entrypoint: self.entrypoint,
            injections: self.injections,
        }
    }

    pub fn base_image(self, base_image: &str) -> (r: DockerProducerBuilder)
        ensures
            r.name@ == self.name@,
            r.image@ == self.image@,
            r.base_image matches Some(b) && b@ == base_image@,
            r.entrypoint == self.entrypoint,
            r.injections == self.injections,
    {
        DockerProducerBuilder {
            name: self.name,
            image: self.image,
            base_image: Some(String::from_str(base_image)),
            entrypoint: self.entrypoint,
            injections: self.injections,
        }
    }

    pub fn entrypoint(self, entrypoint: Vec<String>) -> (r: DockerProducerBuilder)
        ensures
            r.name@ == self.name@,
            r.image@ == self.image@,
            r.base_image == self.base_image,
            r.entrypoint == Some(entrypoint),
            r.injections == self.injections,
    {
        DockerProducerBuilder {
            name: self.name,
            image: self.image,
            base_image: self.base_image,
            entrypoint: Some(entrypoint),
            injections: self.injections,
        }
    }

    pub fn inject(self, injection: Injection) -> (r: DockerProducerBuilder)
        ensures
            r.name@ == self.name@,
            r.image@ == self.image@,
            r.base_image == self.base_image,
            r.entrypoint == self.entrypoint,
            r.injections@ == self.injections@.push(injection),
    {
        let mut injections = self.injections;
        injections.push(injection);
        DockerProducerBuilder {
            name: self.name,
            image: self.image,
            base_image: self.base_image,
            entrypoint: self.entrypoint,
            injections,
        }
    }

    pub fn build(self) -> (r: Result<DockerProducer, Error>)
        ensures
            r matches Ok(p) && p.name@ == self.name@ && p.image@ == self.image@ && p.base_image
                == self.base_image && p.cmd == self.entrypoint && p.injections == self.injections,
    {
        Ok(
            DockerProducer {
                name: self.name,
                image: self.image,
                base_image: self.base_image,
                cmd: self.entrypoint,
                injections: self.injections,
            },
        )
    }
}


/// An error in the layer fold is final.
proof fn lemma_layers_fold_err(
    layers: Seq<crate::vfs::MemFS>,
    i: int,
    n: int,
    m: Map<Seq<Seq<u8>>, crate::vfs::NodeV>,
)
    requires
        0 <= i <= n,
        layers_fold(layers, i, m) is Err,
    ensures
        layers_fold(layers, n, m) == layers_fold(layers, i, m),
    decreases n - i,
{
    if n > i {
        lemma_layers_fold_err(layers, i, n - 1, m);
    }
}

} // verus!
