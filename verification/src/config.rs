use vstd::prelude::*;

use crate::artifact::arch::{ArchArtifact, ArchProducer};
use crate::artifact::deb::{DebArtifact, DebProducer};
use crate::artifact::docker::{DockerArtifact, DockerProducer};
use crate::artifact::ext4::{Ext4Artifact, Ext4Producer};
use crate::artifact::file::{FileArtifact, FileProducer};
use crate::artifact::rpm::{RpmArtifact, RpmProducer};
use crate::artifact::tarball::{TarballArtifact, TarballProducer};
use crate::artifact::{bytes_is, chars_bytes};
use crate::errors::Error;
use vstd::string::{StrSliceExecFns, StringExecFns, StringSliceAdditionalSpecFns};

verus! {

/// A configured input artifact: one of the closed set of formats.
#[derive(Debug)]
pub enum ConfiguredArtifact {
    File(FileArtifact),
    Tarball(TarballArtifact),
    Docker(DockerArtifact),
    Arch(ArchArtifact),
    Deb(DebArtifact),
    Rpm(RpmArtifact),
    Ext4(Ext4Artifact),
}

impl ConfiguredArtifact {
    /// The display name of the configured artifact.
    pub fn name(&self) -> (r: &String)
        ensures
            match self {
                ConfiguredArtifact::File(a) => r@ == a.name@,
                ConfiguredArtifact::Tarball(a) => r@ == a.name@,
                ConfiguredArtifact::Docker(a) => r@ == a.name@,
                ConfiguredArtifact::Arch(a) => r@ == a.name@,
                ConfiguredArtifact::Deb(a) => r@ == a.name@,
                ConfiguredArtifact::Rpm(a) => r@ == a.name@,
                ConfiguredArtifact::Ext4(a) => r@ == a.name@,
            },
    {
        match self {
            ConfiguredArtifact::File(a) => &a.name,
            ConfiguredArtifact::Tarball(a) => &a.name,
            ConfiguredArtifact::Docker(a) => &a.name,
            ConfiguredArtifact::Arch(a) => &a.name,
            ConfiguredArtifact::Deb(a) => &a.name,
            ConfiguredArtifact::Rpm(a) => &a.name,
            ConfiguredArtifact::Ext4(a) => &a.name,
        }
    }
}

/// A configured output producer: one of the closed set of formats.
#[derive(Debug)]
pub enum ConfiguredProducer {
    File(FileProducer),
    Tarball(TarballProducer),
    Docker(DockerProducer),
    Arch(ArchProducer),
    Deb(DebProducer),
    Rpm(RpmProducer),
    Ext4(Ext4Producer),
}

impl ConfiguredProducer {
    /// The display name of the configured producer.
    pub fn name(&self) -> (r: &String)
        ensures
            match self {
                ConfiguredProducer::File(p) => r@ == p.name@,
                ConfiguredProducer::Tarball(p) => r@ == p.name@,
                ConfiguredProducer::Docker(p) => r@ == p.name@,
                ConfiguredProducer::Arch(p) => r@ == p.name@,
                ConfiguredProducer::Deb(p) => r@ == p.name@,
                ConfiguredProducer::Rpm(p) => r@ == p.name@,
                ConfiguredProducer::Ext4(p) => r@ == p.name@,
            },
    {
        match self {
            ConfiguredProducer::File(p) => &p.name,
            ConfiguredProducer::Tarball(p) => &p.name,
            ConfiguredProducer::Docker(p) => &p.name,
            ConfiguredProducer::Arch(p) => &p.name,
            ConfiguredProducer::Deb(p) => &p.name,
            ConfiguredProducer::Rpm(p) => &p.name,
            ConfiguredProducer::Ext4(p) => &p.name,
        }
    }

    /// Pre-flight validation of the configured producer, dispatching to the
    /// format's own checks.
    pub fn validate(&self) -> (r: Result<(), Error>)
        ensures
            match self {
                ConfiguredProducer::Deb(p) => r is Ok <==> p.valid_spec(),
                ConfiguredProducer::Arch(p) => r is Ok <==> p.valid_spec(),
                ConfiguredProducer::Rpm(p) => r is Ok <==> p.valid_spec(),
                ConfiguredProducer::Docker(p) => r is Ok <==> (
                crate::artifact::docker::image_ref_ok(chars_bytes(p.image@)) && (p.base_image
                    matches Some(bi) ==> crate::artifact::docker::image_ref_ok(chars_bytes(bi@)))),
                _ => r is Ok,
            },
    {
        match self {
            ConfiguredProducer::File(p) => p.validate(),
            ConfiguredProducer::Tarball(p) => p.validate(),
            ConfiguredProducer::Docker(p) => p.validate(),
            ConfiguredProducer::Arch(p) => p.validate(),
            ConfiguredProducer::Deb(p) => p.validate(),
            ConfiguredProducer::Rpm(p) => p.validate(),
            ConfiguredProducer::Ext4(p) => p.validate(),
        }
    }
}

/// A fully parsed pipeline configuration: the input artifact, the ordered
/// producers, and whether each stage feeds the next (`chain`) or every
/// stage consumes the original input.
#[derive(Debug)]
pub struct PeckishConfig {
    pub input: ConfiguredArtifact,
    pub output: Vec<ConfiguredProducer>,
    pub chain: bool,
}

/// The package architecture token each format expects for a configured
/// architecture.
pub fn convert_architecture(producer: &ConfiguredProducer, arch: &str) -> (r: Result<
    String,
    Error,
>)
    ensures
        ({
            let ab = chars_bytes(arch@);
            match producer {
                ConfiguredProducer::Arch(_) => {
                    if ab == ("x86_64").spec_bytes() || ab == ("amd64").spec_bytes() {
                        r matches Ok(s) && s@ == ("x86_64")@
                    } else if ab == ("any").spec_bytes() {
                        r matches Ok(s) && s@ == ("any")@
                    } else {
                        r is Err
                    }
                },
                ConfiguredProducer::Deb(_) => {
                    if ab == ("x86_64").spec_bytes() || ab == ("amd64").spec_bytes() {
                        r matches Ok(s) && s@ == ("amd64")@
                    } else if ab == ("any").spec_bytes() {
                        r matches Ok(s) && s@ == ("all")@
                    } else {
                        r matches Ok(s) && s@ == arch@
                    }
                },
                ConfiguredProducer::Rpm(_) => {
                    if ab == ("x86_64").spec_bytes() || ab == ("amd64").spec_bytes() {
                        r matches Ok(s) && s@ == ("x86_64")@
                    } else if ab == ("any").spec_bytes() {
                        r matches Ok(s) && s@ == ("noarch")@
                    } else {
                        r matches Ok(s) && s@ == arch@
                    }
                },
                _ => r matches Ok(s) && s@ == arch@,
            }
        }),
{
    let ab = arch.as_bytes_vec();
    match producer {
        ConfiguredProducer::Arch(_) => {
            if bytes_is(&ab, "x86_64") || bytes_is(&ab, "amd64") {
                Ok(String::from_str("x86_64"))
            } else if bytes_is(&ab, "any") {
                Ok(String::from_str("any"))
            } else {
                Err(Error::ValidationFailed(Vec::new()))
            }
        },
        ConfiguredProducer::Deb(_) => {
            if bytes_is(&ab, "x86_64") || bytes_is(&ab, "amd64") {
                Ok(String::from_str("amd64"))
            } else if bytes_is(&ab, "any") {
                Ok(String::from_str("all"))
            } else {
                Ok(String::from_str(arch))
            }
        },
        ConfiguredProducer::Rpm(_) => {
            if bytes_is(&ab, "x86_64") || bytes_is(&ab, "amd64") {
                Ok(String::from_str("x86_64"))
            } else if bytes_is(&ab, "any") {
                Ok(String::from_str("noarch"))
            } else {
                Ok(String::from_str(arch))
            }
        },
        _ => Ok(String::from_str(arch)),
    }
}

} // verus!
