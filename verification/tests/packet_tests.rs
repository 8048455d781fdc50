use numan::packet::Packet;
use numan::version::Version;

#[test]
fn packet_from_path() {
    let p = Packet::new("dir/sub/pkg.1.2.3.nupkg").unwrap();
    assert_eq!(p.key.as_str(), "pkg");
    assert_eq!(p.version, Version::new(1, 2, 3));
    assert_eq!(p.path.as_str(), "dir/sub");
}

#[test]
fn packet_key_may_hold_dots() {
    let p = Packet::new("d/my.lib.1.2.3.nupkg").unwrap();
    assert_eq!(p.key.as_str(), "my.lib");
    assert_eq!(p.version, Version::new(1, 2, 3));
}

#[test]
fn packet_without_directory() {
    let p = Packet::new("pkg.1.2.3.nupkg").unwrap();
    assert_eq!(p.key.as_str(), "pkg");
    assert_eq!(p.path.as_str(), "");
}

#[test]
fn packet_bad_name_fails() {
    assert!(Packet::new("d/foo.bar.nupkg").is_none());
    assert!(Packet::new("d/.nupkg").is_none());
}

#[test]
fn upload_path_names_the_archive() {
    let p = Packet::new("d/pkg.1.2.3.nupkg").unwrap();
    assert_eq!(p.upload_path().as_str(), "d/pkg.1.2.3.nupkg");
}

#[test]
fn upload_path_reparses_to_same_record() {
    let p = Packet::new("some/dir/my.lib.4.5.6.nupkg").unwrap();
    let back = Packet::new(p.upload_path().as_str()).unwrap();
    assert_eq!(back.key, p.key);
    assert_eq!(back.version, p.version);
    assert_eq!(back.path, p.path);
}
