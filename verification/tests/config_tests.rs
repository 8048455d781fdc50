use numan::config::{logout, regular_key, resolve_key, try_remember_packet, Configuration};
use numan::version::Version;

#[test]
fn empty_configuration() {
    let c = Configuration::new();
    assert!(c.key.is_none());
    assert!(c.packets.is_empty());
}

#[test]
fn remember_appends_new_directory() {
    let mut c = Configuration::new();
    try_remember_packet("d/pkg.1.0.0.nupkg", &mut c);
    assert_eq!(c.packets.len(), 1);
    assert_eq!(c.packets[0].key.as_str(), "pkg");
    assert_eq!(c.packets[0].version, Version::new(1, 0, 0));
    assert_eq!(c.packets[0].path.as_str(), "d");
}

#[test]
fn remember_raises_to_greater_version() {
    let mut c = Configuration::new();
    try_remember_packet("d/pkg.1.0.0.nupkg", &mut c);
    try_remember_packet("d/pkg.1.2.0.nupkg", &mut c);
    assert_eq!(c.packets.len(), 1);
    assert_eq!(c.packets[0].version, Version::new(1, 2, 0));
}

#[test]
fn remember_never_downgrades() {
    let mut c = Configuration::new();
    try_remember_packet("d/pkg.2.0.0.nupkg", &mut c);
    try_remember_packet("d/pkg.1.9.9.nupkg", &mut c);
    assert_eq!(c.packets.len(), 1);
    assert_eq!(c.packets[0].version, Version::new(2, 0, 0));
}

#[test]
fn remember_is_idempotent() {
    let mut c = Configuration::new();
    try_remember_packet("d/pkg.1.0.0.nupkg", &mut c);
    try_remember_packet("d/pkg.1.0.0.nupkg", &mut c);
    assert_eq!(c.packets.len(), 1);
    assert_eq!(c.packets[0].version, Version::new(1, 0, 0));
    assert_eq!(c.packets[0].key.as_str(), "pkg");
}

#[test]
fn remember_keeps_the_stored_key() {
    let mut c = Configuration::new();
    try_remember_packet("d/old.1.0.0.nupkg", &mut c);
    try_remember_packet("d/renamed.3.0.0.nupkg", &mut c);
    assert_eq!(c.packets.len(), 1);
    assert_eq!(c.packets[0].key.as_str(), "old");
    assert_eq!(c.packets[0].version, Version::new(3, 0, 0));
}

#[test]
fn remember_tracks_directories_separately() {
    let mut c = Configuration::new();
    try_remember_packet("a/pkg.1.0.0.nupkg", &mut c);
    try_remember_packet("b/pkg.2.0.0.nupkg", &mut c);
    assert_eq!(c.packets.len(), 2);
    assert_eq!(c.packets[0].path.as_str(), "a");
    assert_eq!(c.packets[1].path.as_str(), "b");
}

#[test]
fn regular_key_stores_the_key() {
    let mut c = Configuration::new();
    try_remember_packet("d/pkg.1.0.0.nupkg", &mut c);
    regular_key(&String::from("example-key-0000"), &mut c);
    assert_eq!(c.key.as_deref(), Some("example-key-0000"));
    assert_eq!(c.packets.len(), 1);
}

#[test]
fn logout_clears_only_the_key() {
    let mut c = Configuration::new();
    regular_key(&String::from("k"), &mut c);
    try_remember_packet("d/pkg.1.0.0.nupkg", &mut c);
    logout(&mut c);
    assert!(c.key.is_none());
    assert_eq!(c.packets.len(), 1);
}

#[test]
fn resolve_key_prefers_the_flag() {
    let r = resolve_key(&Some(String::from("flag")), &Some(String::from("stored")));
    assert_eq!(r.as_deref(), Some("flag"));
}

#[test]
fn resolve_key_falls_back_to_stored() {
    let r = resolve_key(&None, &Some(String::from("stored")));
    assert_eq!(r.as_deref(), Some("stored"));
}

#[test]
fn resolve_key_none_when_nothing_given() {
    assert!(resolve_key(&None, &None).is_none());
}
