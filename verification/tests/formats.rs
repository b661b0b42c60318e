use peckish::artifact::docker::{split_image_name_into_repo_and_tag, DockerArtifact};
use peckish::artifact::file::FileArtifact;
use peckish::artifact::oci::{blob_to_path, OciProducer};
use peckish::config::{convert_architecture, ConfiguredProducer};
use peckish::errors::Error;
use peckish::pipeline::PipelineStep;
use peckish::inject::Injection;
use peckish::paths::VfsPath;
use peckish::vfs::{MemFS, Meta, NodeKind};

fn p(s: &str) -> VfsPath {
    VfsPath::parse(s.as_bytes())
}

fn meta(mode: u32) -> Meta {
    Meta { mode, uid: 0, gid: 0, mtime: 0 }
}

#[test]
fn test_oci_producer() {
    let mut fs = MemFS::new();
    fs.write_file(
        &p("/usr/local/bin/podman_hello_world"),
        b"hello world".to_vec(),
        meta(0o755),
    )
    .unwrap();
    let producer = OciProducer {
        name: "test".to_string(),
        path: "oci.tar".to_string(),
        architecture: "amd64".to_string(),
        injections: Vec::new(),
    };
    producer.validate().unwrap();
    let (blob, digest, path) = producer.produce_blob(&mut fs).unwrap();
    // the digest names the blob, not the input
    let d = <sha2::Sha256 as sha2::Digest>::digest(&blob);
    let mut expected = "sha256:".to_string();
    for byte in d.iter() {
        expected.push_str(&format!("{:02x}", byte));
    }
    assert_eq!(String::from_utf8(digest.clone()).unwrap(), expected);
    assert_eq!(path, blob_to_path(&digest));
    assert!(String::from_utf8(path).unwrap().starts_with("/blobs/sha256/"));
}

#[test]
fn test_oci_artifact() {
    // the blob round-trips as a gzip tarball
    let mut fs = MemFS::new();
    fs.write_file(
        &p("/usr/local/bin/podman_hello_world"),
        b"hello world".to_vec(),
        meta(0o755),
    )
    .unwrap();
    let producer = OciProducer {
        name: "test".to_string(),
        path: "oci.tar".to_string(),
        architecture: "amd64".to_string(),
        injections: Vec::new(),
    };
    let (blob, _digest, _path) = producer.produce_blob(&mut fs).unwrap();
    let back = peckish::artifact::tarball::TarballArtifact {
        name: "blob".to_string(),
        path: String::new(),
    }
    .extract(&blob)
    .unwrap();
    assert_eq!(
        back.read_file(&p("/usr/local/bin/podman_hello_world")).unwrap(),
        b"hello world".to_vec()
    );
}

#[test]
fn test_blob_to_path_splits_digest() {
    assert_eq!(blob_to_path(b"sha256:abc123"), b"/blobs/sha256/abc123".to_vec());
}

#[test]
fn test_docker_artifact_works() {
    // layers union in order: later layers overwrite earlier files
    let art = DockerArtifact {
        name: "alpine-artifact".to_string(),
        image: "alpine:latest".to_string(),
    };
    let mut l1 = MemFS::new();
    l1.write_file(&p("/bin/sh"), b"v1".to_vec(), meta(0o755)).unwrap();
    l1.write_file(&p("/etc/os"), b"alpine".to_vec(), meta(0o644)).unwrap();
    let mut l2 = MemFS::new();
    l2.write_file(&p("/bin/sh"), b"v2".to_vec(), meta(0o755)).unwrap();
    let layers = vec![l1, l2];
    let fs = art.extract_layers(&layers).unwrap();
    assert_eq!(fs.read_file(&p("/bin/sh")).unwrap(), b"v2".to_vec());
    assert_eq!(fs.read_file(&p("/etc/os")).unwrap(), b"alpine".to_vec());

    let (repo, tag) = split_image_name_into_repo_and_tag(b"peckish-dev/repackaged:latest");
    assert_eq!(repo, b"peckish-dev/repackaged".to_vec());
    assert_eq!(tag, b"latest".to_vec());
    let (repo2, tag2) = split_image_name_into_repo_and_tag(b"alpine");
    assert_eq!(repo2, b"alpine".to_vec());
    assert_eq!(tag2, b"latest".to_vec());
}

#[test]
fn test_file_artifact_extract_from_host_tree() {
    // the host tree is read at the boundary; the library copies the
    // configured paths out of it
    let mut host = MemFS::new();
    host.write_file(&p("/work/Cargo.toml"), b"[package]".to_vec(), meta(0o644)).unwrap();
    host.write_file(&p("/work/src/lib.rs"), b"pub fn f() {}".to_vec(), meta(0o644)).unwrap();
    host.write_file(&p("/elsewhere"), b"x".to_vec(), meta(0o644)).unwrap();
    let art = FileArtifact {
        name: "work".to_string(),
        paths: vec!["/work".to_string()],
    };
    let fs = art.extract(&host).unwrap();
    assert_eq!(fs.read_file(&p("/work/Cargo.toml")).unwrap(), b"[package]".to_vec());
    assert_eq!(fs.read_file(&p("/work/src/lib.rs")).unwrap(), b"pub fn f() {}".to_vec());
    assert_eq!(fs.kind_of(&p("/elsewhere")), None);
}

#[test]
fn test_host_file_injection_with_host_tree() {
    let mut host = MemFS::new();
    host.write_file(&p("/assets/icon.png"), b"PNG".to_vec(), meta(0o644)).unwrap();
    let mut fs = MemFS::new();
    let inj = Injection::HostFile {
        src: b"/assets/icon.png".to_vec(),
        dest: p("/usr/share/icon.png"),
    };
    // without a host tree the injection is refused
    assert_eq!(inj.inject(&mut fs), Err(Error::UnsupportedOperation));
    inj.inject_with_host(&mut fs, &host).unwrap();
    assert_eq!(fs.read_file(&p("/usr/share/icon.png")).unwrap(), b"PNG".to_vec());
}

#[test]
fn test_convert_architecture_per_format() {
    let arch = ConfiguredProducer::Arch(
        peckish::artifact::arch::ArchProducerBuilder::new("a").build().unwrap(),
    );
    let deb = ConfiguredProducer::Deb(
        peckish::artifact::deb::DebProducerBuilder::new("d").build().unwrap(),
    );
    let rpm = ConfiguredProducer::Rpm(
        peckish::artifact::rpm::RpmProducerBuilder::new("r").build().unwrap(),
    );
    assert_eq!(convert_architecture(&arch, "amd64").unwrap(), "x86_64");
    assert_eq!(convert_architecture(&arch, "any").unwrap(), "any");
    assert!(convert_architecture(&arch, "mips").is_err());
    assert_eq!(convert_architecture(&deb, "x86_64").unwrap(), "amd64");
    assert_eq!(convert_architecture(&deb, "any").unwrap(), "all");
    assert_eq!(convert_architecture(&deb, "s390x").unwrap(), "s390x");
    assert_eq!(convert_architecture(&rpm, "amd64").unwrap(), "x86_64");
    assert_eq!(convert_architecture(&rpm, "any").unwrap(), "noarch");
}

#[test]
fn test_symlink_injection_over_existing_path_already_exists() {
    let mut fs = MemFS::new();
    fs.write_file(&p("/taken"), b"x".to_vec(), meta(0o644)).unwrap();
    let inj = Injection::Symlink { src: p("/target"), dest: p("/taken") };
    assert_eq!(inj.inject(&mut fs), Err(Error::AlreadyExists));
}

#[test]
fn test_corrupt_stream_reports_io_error() {
    // a gzip magic with a garbage body cannot be recompressed
    let garbage = vec![0x1f, 0x8b, 0xde, 0xad, 0xbe, 0xef];
    match peckish::compression::Context::autocompress(
        garbage,
        peckish::compression::CompressionType::Zstd,
    ) {
        Err(Error::IoError(_)) => {},
        other => panic!("expected an IoError, got {:?}", other),
    }
}

#[test]
fn test_docker_producer_validate_image_shapes() {
    let mut b = peckish::artifact::docker::DockerProducerBuilder::new("d");
    b = b.image("repo/name:tag");
    let producer = b.build().unwrap();
    assert!(producer.validate().is_ok());
    let bad = peckish::artifact::docker::DockerProducerBuilder::new("d")
        .image("no-tag")
        .build()
        .unwrap();
    assert!(bad.validate().is_err());
}

#[test]
fn test_rpm_producer_plan_lists_payload() {
    let mut fs = MemFS::new();
    fs.write_file(&p("/usr/bin/x"), b"bin".to_vec(), meta(0o755)).unwrap();
    let mut b = peckish::artifact::rpm::RpmProducerBuilder::new("r");
    b.package_name("tool");
    b.package_version("1.0-1");
    b.package_description("a tool");
    let producer = b.build().unwrap();
    producer.validate().unwrap();
    let plan = producer.produce_plan(&mut fs).unwrap();
    // two directories and the file, in canonical order
    assert_eq!(plan.len(), 3);
    assert_eq!(plan[2].path, b"/usr/bin/x".to_vec());
    assert_eq!(plan[2].content, b"bin".to_vec());
    assert_eq!(plan[2].mode, 0o755);
}

#[test]
fn test_sha256_digest_string_matches_direct_digest() {
    let hex = peckish::util::sha256_digest_string("peckish");
    let d = <sha2::Sha256 as sha2::Digest>::digest(b"peckish");
    let mut expected = String::new();
    for byte in d.iter() {
        expected.push_str(&format!("{:02x}", byte));
    }
    assert_eq!(String::from_utf8(hex).unwrap(), expected);
}

#[test]
fn test_pipeline_phases_run_in_order_and_abort_on_failure() {
    let p = peckish::pipeline::Pipeline::new(None);
    // two stages, all phases succeeding
    let mut s = PipelineStep::ValidateInput;
    let expected = [
        PipelineStep::ValidateProducer(0),
        PipelineStep::Extract(0),
        PipelineStep::Produce(0),
        PipelineStep::ValidateOutput(0),
        PipelineStep::ValidateProducer(1),
        PipelineStep::Extract(1),
        PipelineStep::Produce(1),
        PipelineStep::ValidateOutput(1),
        PipelineStep::Done,
    ];
    for e in expected {
        s = p.advance(2, s, true);
        assert_eq!(s, e);
    }
    // a failure anywhere aborts the run for good
    let failed = p.advance(2, PipelineStep::Produce(0), false);
    assert_eq!(failed, PipelineStep::Failed);
    assert_eq!(p.advance(2, failed, true), PipelineStep::Failed);
    // an empty pipeline finishes after validating its input
    assert_eq!(p.advance(0, PipelineStep::ValidateInput, true), PipelineStep::Done);
}

#[test]
fn test_empty_artifact_has_no_paths() {
    let e = peckish::artifact::memory::EmptyArtifact::new("nothing");
    assert!(e.paths().is_none());
    assert_eq!(e.extract().entry_count(), 0);
}
