use peckish::artifact::deb::DebProducerBuilder;
use peckish::artifact::memory::MemoryArtifact;
use peckish::artifact::tarball::{TarballArtifact, TarballProducerBuilder};
use peckish::compression::CompressionType;
use peckish::errors::Error;
use peckish::inject::Injection;
use peckish::paths::VfsPath;
use peckish::vfs::{MemFS, Meta, Node, NodeKind};

fn p(s: &str) -> VfsPath {
    VfsPath::parse(s.as_bytes())
}

fn meta(mode: u32) -> Meta {
    Meta { mode, uid: 0, gid: 0, mtime: 0 }
}

fn sample_tree() -> MemFS {
    let mut fs = MemFS::new();
    fs.write_file(&p("/bin/hello"), b"hello".to_vec(), meta(0o755)).unwrap();
    fs.write_file(&p("/etc/conf/app.conf"), b"key=value\n".to_vec(), meta(0o600)).unwrap();
    fs.write_file(&p("/etc/empty"), Vec::new(), meta(0o644)).unwrap();
    fs.symlink(b"/bin/hello".to_vec(), &p("/bin/hi"), meta(0o777)).unwrap();
    fs
}

fn trees_equal(a: &MemFS, b: &MemFS) -> bool {
    if a.entry_count() != b.entry_count() {
        return false;
    }
    for i in 0..a.entry_count() {
        if a.path_at(i).to_bytes() != b.path_at(i).to_bytes() {
            return false;
        }
        let (na, nb) = (a.node_at(i), b.node_at(i));
        let same = match (na, nb) {
            (Node::Dir { meta: ma }, Node::Dir { meta: mb }) => ma == mb,
            (
                Node::File { content: ca, meta: ma },
                Node::File { content: cb, meta: mb },
            ) => ca == cb && ma == mb,
            (
                Node::Symlink { target: ta, meta: ma },
                Node::Symlink { target: tb, meta: mb },
            ) => ta == tb && ma == mb,
            _ => false,
        };
        if !same {
            return false;
        }
    }
    true
}

#[test]
fn test_tarball_roundtrip_plain() {
    // produce a tarball from a tree and extract it back: contents,
    // structure and permission bits survive exactly
    let src = sample_tree();
    let mut work = MemoryArtifact { name: "src".to_string(), fs: src }.extract();
    let producer = TarballProducerBuilder::new("t")
        .path("out.tar")
        .compression(CompressionType::Uncompressed)
        .build()
        .unwrap();
    let (_art, bytes) = producer.produce_from(&mut work).unwrap();

    let tar = TarballArtifact { name: "t".to_string(), path: "out.tar".to_string() };
    let back = tar.extract(&bytes).unwrap();
    assert!(trees_equal(&work, &back));
}

#[test]
fn test_tarball_roundtrip_gzip() {
    let src = sample_tree();
    let mut work = MemoryArtifact { name: "src".to_string(), fs: src }.extract();
    let producer = TarballProducerBuilder::new("t")
        .path("out.tar.gz")
        .compression(CompressionType::Gzip)
        .build()
        .unwrap();
    let (_art, bytes) = producer.produce_from(&mut work).unwrap();
    let tar = TarballArtifact { name: "t".to_string(), path: "out.tar.gz".to_string() };
    let back = tar.extract(&bytes).unwrap();
    assert!(trees_equal(&work, &back));
}

#[test]
fn test_deterministic_traversal_two_produces_byte_identical() {
    // two consecutive productions from the same tree give byte-identical
    // archives
    let src = sample_tree();
    let art = MemoryArtifact { name: "a".to_string(), fs: src };
    let mut w1 = art.extract();
    let mut w2 = art.extract();
    let producer = TarballProducerBuilder::new("t")
        .path("out.tar")
        .compression(CompressionType::Uncompressed)
        .build()
        .unwrap();
    let (_a1, b1) = producer.produce_from(&mut w1).unwrap();
    let producer2 = TarballProducerBuilder::new("t")
        .path("out.tar")
        .compression(CompressionType::Uncompressed)
        .build()
        .unwrap();
    let (_a2, b2) = producer2.produce_from(&mut w2).unwrap();
    assert_eq!(b1, b2);
}

#[test]
fn test_pipeline_fanout_two_tarballs_identical() {
    // chain=false: both producers consume the same input and produce
    // identical content
    let src = sample_tree();
    let a1 = MemoryArtifact { name: "i".to_string(), fs: src };
    let mut w1 = a1.extract();
    let mut w2 = a1.extract();
    let p1 = TarballProducerBuilder::new("one")
        .path("one.tar")
        .compression(CompressionType::Uncompressed)
        .build()
        .unwrap();
    let p2 = TarballProducerBuilder::new("two")
        .path("two.tar")
        .compression(CompressionType::Uncompressed)
        .build()
        .unwrap();
    let (_x, b1) = p1.produce_from(&mut w1).unwrap();
    let (_y, b2) = p2.produce_from(&mut w2).unwrap();
    assert_eq!(b1, b2);
}

#[test]
fn test_pipeline_chain_unpack_equals_input() {
    // chain=true: a tarball stage followed by an unpacking stage ends at
    // the original tree
    let src = sample_tree();
    let art = MemoryArtifact { name: "i".to_string(), fs: src };
    let mut work = art.extract();
    let producer = TarballProducerBuilder::new("one")
        .path("one.tar")
        .compression(CompressionType::Uncompressed)
        .build()
        .unwrap();
    let (tar_art, bytes) = producer.produce_from(&mut work).unwrap();
    let unpacked = TarballArtifact { name: tar_art.name, path: tar_art.path }
        .extract(&bytes)
        .unwrap();
    assert!(trees_equal(&art.fs, &unpacked));
}

#[test]
fn test_debian_roundtrip() {
    // one file bin/hello (mode 0755), packaged as a .deb and extracted back
    let mut fs = MemFS::new();
    fs.write_file(&p("/bin/hello"), b"hello".to_vec(), meta(0o755)).unwrap();

    let mut builder = DebProducerBuilder::new("deb-producer");
    builder.package_name = "test".to_string();
    builder.package_maintainer = "test maintainer <test@example.invalid>".to_string();
    builder.package_architecture = "amd64".to_string();
    builder.package_version = "0.0.1-1".to_string();
    builder.package_depends = "".to_string();
    builder.package_description = "test package".to_string();
    builder.path = "test.deb".to_string();
    let producer = builder.build().unwrap();
    producer.validate().unwrap();

    let (art, deb_bytes) = producer.produce_from(&mut fs, None, None).unwrap();
    let control = art.control.unwrap();
    assert_eq!(control.package, "test");
    assert_eq!(control.version, "0.0.1-1");
    assert_eq!(control.architecture, "amd64");
    assert_eq!(control.installed_size, 5);

    // the data tree round-trips with content and mode intact
    let back_art = peckish::artifact::deb::DebArtifactBuilder::new("deb")
        .path("test.deb")
        .build()
        .unwrap();
    back_art.validate(&deb_bytes).unwrap();
    let back = back_art.extract(&deb_bytes).unwrap();
    assert_eq!(back.read_file(&p("/bin/hello")).unwrap(), b"hello".to_vec());
    match back.node_of(&p("/bin/hello")).unwrap() {
        Node::File { meta: m, .. } => assert_eq!(m.mode, 0o755),
        _ => panic!("expected a file"),
    }

    // the control member carries the expected fields and checksum line
    let members = peckish::codec::ar_decode(&deb_bytes).unwrap();
    assert_eq!(members[0].name, b"debian-binary".to_vec());
    assert_eq!(members[0].data, b"2.0\n".to_vec());
    assert_eq!(members[1].name, b"control.tar.gz".to_vec());
    let ctrl_tar =
        peckish::compression::decompress(CompressionType::Gzip, &members[1].data).unwrap();
    let ctrl_entries = peckish::codec::tar_decode(&ctrl_tar).unwrap();
    let control_text = String::from_utf8(
        ctrl_entries.iter().find(|e| e.path.ends_with(b"control")).unwrap().content.clone(),
    )
    .unwrap();
    assert!(control_text.contains("Package: test"));
    assert!(control_text.contains("Version: 0.0.1-1"));
    assert!(control_text.contains("Architecture: amd64"));
    assert!(control_text.contains("Installed-Size: 5"));
    let md5s = String::from_utf8(
        ctrl_entries.iter().find(|e| e.path.ends_with(b"md5sums")).unwrap().content.clone(),
    )
    .unwrap();
    let expected_md5 = format!("{:x}", md5::compute(b"hello"));
    assert_eq!(md5s, format!("{}  /bin/hello", expected_md5));
}

#[test]
fn test_invalid_package_metadata_fails_validation() {
    // a package name with a space and capitals must fail validation with a
    // name violation, before any output is attempted
    let mut builder = DebProducerBuilder::new("deb-producer");
    builder.package_name = "INVALID NAME".to_string();
    builder.package_maintainer = "someone".to_string();
    builder.package_architecture = "amd64".to_string();
    builder.package_version = "0.0.1-1".to_string();
    builder.package_depends = "".to_string();
    builder.package_description = "test package".to_string();
    let producer = builder.build().unwrap();
    match producer.validate() {
        Err(Error::ValidationFailed(msgs)) => {
            assert!(msgs.iter().any(|m| m.contains("name")));
        },
        other => panic!("expected a validation failure, got {:?}", other),
    }
}

#[test]
fn test_arch_produce_carries_pkginfo() {
    let mut fs = MemFS::new();
    fs.write_file(&p("/usr/bin/tool"), b"#!bin".to_vec(), meta(0o755)).unwrap();
    let mut builder = peckish::artifact::arch::ArchProducerBuilder::new("arch-producer");
    builder.package_name = "tool".to_string();
    builder.package_ver = "1.0-1".to_string();
    builder.package_desc = "a tool".to_string();
    builder.package_author = "someone".to_string();
    builder.package_arch = "x86_64".to_string();
    builder.path = "tool.pkg.tar".to_string();
    let producer = builder.build().unwrap();
    producer.validate().unwrap();
    let (art, bytes) = producer.produce_from(&mut fs, 1700000000).unwrap();
    let info = art.pkginfo.unwrap();
    assert_eq!(info.pkgname, "tool");
    assert_eq!(info.size, 5);

    // the produced package extracts back and contains the generated
    // .PKGINFO beside the payload
    let back = peckish::artifact::arch::ArchArtifactBuilder::new("a")
        .path("tool.pkg.tar")
        .build()
        .unwrap();
    back.validate(&bytes).unwrap();
    let tree = back.extract(&bytes).unwrap();
    assert_eq!(tree.read_file(&p("/usr/bin/tool")).unwrap(), b"#!bin".to_vec());
    let pkginfo = String::from_utf8(tree.read_file(&p("/.PKGINFO")).unwrap()).unwrap();
    assert!(pkginfo.contains("pkgname = tool"));
    assert!(pkginfo.contains("size = 5"));
    assert!(pkginfo.contains("builddate = 1700000000"));
}

#[test]
fn test_move_injection_works() {
    let mut fs = MemFS::new();
    fs.write_file(&p("/Cargo.toml"), b"[package]".to_vec(), meta(0o644)).unwrap();
    let producer = TarballProducerBuilder::new("cargo dot toml output")
        .path("cargo.toml.moveinject.tar")
        .inject(Injection::Move { src: p("Cargo.toml"), dest: p("Cargo-2.toml") })
        .build()
        .unwrap();
    let (_art, bytes) = producer.produce_from(&mut fs).unwrap();
    let back = TarballArtifact { name: "unwrapper".to_string(), path: String::new() }
        .extract(&bytes)
        .unwrap();
    assert_eq!(back.kind_of(&p("/Cargo-2.toml")), Some(NodeKind::File));
    assert_eq!(back.kind_of(&p("/Cargo.toml")), None);
}

#[test]
fn test_copy_injection_works() {
    let mut fs = MemFS::new();
    fs.write_file(&p("/Cargo.toml"), b"[package]".to_vec(), meta(0o644)).unwrap();
    let producer = TarballProducerBuilder::new("cargo dot toml output")
        .path("cargo.toml.copyinject.tar")
        .inject(Injection::Copy { src: p("Cargo.toml"), dest: p("Cargo-2.toml") })
        .build()
        .unwrap();
    let (_art, bytes) = producer.produce_from(&mut fs).unwrap();
    let back = TarballArtifact { name: "unwrapper".to_string(), path: String::new() }
        .extract(&bytes)
        .unwrap();
    assert_eq!(back.kind_of(&p("/Cargo-2.toml")), Some(NodeKind::File));
    assert_eq!(back.kind_of(&p("/Cargo.toml")), Some(NodeKind::File));
}

#[test]
fn test_symlink_injection_works() {
    let mut fs = MemFS::new();
    fs.write_file(&p("/Cargo.toml"), b"[package]".to_vec(), meta(0o644)).unwrap();
    let producer = TarballProducerBuilder::new("cargo dot toml output")
        .path("cargo.toml.symlinkinject.tar")
        .inject(Injection::Symlink { src: p("Cargo.toml"), dest: p("Cargo-2.toml") })
        .build()
        .unwrap();
    let (_art, bytes) = producer.produce_from(&mut fs).unwrap();
    let back = TarballArtifact { name: "unwrapper".to_string(), path: String::new() }
        .extract(&bytes)
        .unwrap();
    assert_eq!(back.kind_of(&p("/Cargo-2.toml")), Some(NodeKind::Symlink));
    assert_eq!(back.kind_of(&p("/Cargo.toml")), Some(NodeKind::File));
}

#[test]
fn test_touch_injection_works() {
    let mut fs = MemFS::new();
    fs.write_file(&p("/Cargo.toml"), b"[package]".to_vec(), meta(0o644)).unwrap();
    let producer = TarballProducerBuilder::new("cargo dot toml output")
        .path("cargo.toml.touchinject.tar")
        .inject(Injection::Touch { path: p("Cargo-2.toml") })
        .build()
        .unwrap();
    let (_art, bytes) = producer.produce_from(&mut fs).unwrap();
    let back = TarballArtifact { name: "unwrapper".to_string(), path: String::new() }
        .extract(&bytes)
        .unwrap();
    assert_eq!(back.kind_of(&p("/Cargo-2.toml")), Some(NodeKind::File));
    assert_eq!(back.kind_of(&p("/Cargo.toml")), Some(NodeKind::File));
}

#[test]
fn test_delete_injection_works() {
    let mut fs = MemFS::new();
    fs.write_file(&p("/Cargo.toml"), b"[package]".to_vec(), meta(0o644)).unwrap();
    fs.write_file(&p("/other"), b"o".to_vec(), meta(0o644)).unwrap();
    let producer = TarballProducerBuilder::new("cargo dot toml output")
        .path("cargo.toml.deleteinject.tar")
        .inject(Injection::Delete { path: p("Cargo.toml") })
        .build()
        .unwrap();
    let (_art, bytes) = producer.produce_from(&mut fs).unwrap();
    let back = TarballArtifact { name: "unwrapper".to_string(), path: String::new() }
        .extract(&bytes)
        .unwrap();
    assert_eq!(back.kind_of(&p("/Cargo.toml")), None);
    assert_eq!(back.kind_of(&p("/other")), Some(NodeKind::File));
}

#[test]
fn test_create_inject_works() {
    let mut fs = MemFS::new();
    fs.write_file(&p("/Cargo.toml"), b"[package]".to_vec(), meta(0o644)).unwrap();
    let producer = TarballProducerBuilder::new("cargo dot toml output")
        .path("cargo.toml.createinject.tar")
        .inject(Injection::Create { path: p("Cargo-2.toml"), content: b"test".to_vec() })
        .build()
        .unwrap();
    let (_art, bytes) = producer.produce_from(&mut fs).unwrap();
    let back = TarballArtifact { name: "unwrapper".to_string(), path: String::new() }
        .extract(&bytes)
        .unwrap();
    assert_eq!(back.read_file(&p("/Cargo-2.toml")).unwrap(), b"test".to_vec());
    assert_eq!(back.kind_of(&p("/Cargo.toml")), Some(NodeKind::File));
}
