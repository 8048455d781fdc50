use numan::config::{try_remember_packet, Configuration};
use numan::flow::{conv, settle_upload, show_config_text, validate_archive_path, UploadOutcome};
use numan::packet::Packet;
use numan::scan::{check_summary, count_updates, find_packets, newer_version};
use numan::version::Version;

#[test]
fn find_packets_filters_by_extension() {
    let names = vec![
        String::from("notes.txt"),
        String::from("pkg.1.2.0.nupkg"),
        String::from("subdir"),
    ];
    let found = find_packets("d", &names);
    assert_eq!(found.len(), 1);
    assert_eq!(found[0].key.as_str(), "pkg");
    assert_eq!(found[0].version, Version::new(1, 2, 0));
    assert_eq!(found[0].path.as_str(), "d");
}

#[test]
fn find_packets_empty_listing() {
    let found = find_packets("d", &Vec::new());
    assert!(found.is_empty());
}

#[test]
fn newer_version_none_on_empty_scan() {
    assert!(newer_version(&Version::new(1, 0, 0), &Vec::new()).is_none());
}

#[test]
fn newer_version_none_when_nothing_newer() {
    let scanned = find_packets("d", &vec![String::from("pkg.0.9.9.nupkg")]);
    assert!(newer_version(&Version::new(1, 0, 0), &scanned).is_none());
}

#[test]
fn newer_version_finds_the_update() {
    let scanned = find_packets("d", &vec![String::from("pkg.1.2.0.nupkg")]);
    let i = newer_version(&Version::new(1, 0, 0), &scanned).unwrap();
    assert_eq!(scanned[i].version, Version::new(1, 2, 0));
}

#[test]
fn newer_version_picks_the_maximum_not_the_first() {
    let scanned = find_packets(
        "d",
        &vec![
            String::from("pkg.1.1.0.nupkg"),
            String::from("pkg.1.5.0.nupkg"),
            String::from("pkg.1.3.0.nupkg"),
        ],
    );
    let i = newer_version(&Version::new(1, 0, 0), &scanned).unwrap();
    assert_eq!(scanned[i].version, Version::new(1, 5, 0));
}

#[test]
fn check_reports_nothing_for_empty_config() {
    let c = Configuration::new();
    let count = count_updates(&c.packets, &Vec::new());
    assert_eq!(count, 0);
    assert_eq!(check_summary(count).as_str(), "No newer versions found.");
}

#[test]
fn check_counts_one_update() {
    let mut c = Configuration::new();
    try_remember_packet("d/pkg.1.0.0.nupkg", &mut c);
    let scan = find_packets("d", &vec![String::from("pkg.1.2.0.nupkg")]);
    let i = newer_version(&c.packets[0].version, &scan).unwrap();
    assert_eq!(scan[i].version, Version::new(1, 2, 0));
    let count = count_updates(&c.packets, &vec![scan]);
    assert_eq!(count, 1);
    assert_eq!(check_summary(count).as_str(), "1 Updates found");
}

#[test]
fn check_summary_renders_the_count() {
    assert_eq!(check_summary(0).as_str(), "No newer versions found.");
    assert_eq!(check_summary(2).as_str(), "2 Updates found");
    assert_eq!(check_summary(12).as_str(), "12 Updates found");
}

#[test]
fn settle_upload_overlook_never_touches_config() {
    let mut c = Configuration::new();
    let sent = settle_upload("d/pkg.1.0.0.nupkg", true, UploadOutcome::Accepted, &mut c);
    assert!(sent);
    assert!(c.key.is_none());
    assert!(c.packets.is_empty());
}

#[test]
fn settle_upload_accepted_remembers() {
    let mut c = Configuration::new();
    let sent = settle_upload("d/pkg.1.0.0.nupkg", false, UploadOutcome::Accepted, &mut c);
    assert!(sent);
    assert_eq!(c.packets.len(), 1);
    assert_eq!(c.packets[0].version, Version::new(1, 0, 0));
}

#[test]
fn settle_upload_refused_is_not_success_and_records_nothing() {
    let mut c = Configuration::new();
    let sent = settle_upload("d/pkg.1.0.0.nupkg", false, UploadOutcome::Refused, &mut c);
    assert!(!sent);
    assert!(c.packets.is_empty());
}

#[test]
fn settle_upload_transport_failure_is_not_sent() {
    let mut c = Configuration::new();
    let sent = settle_upload("d/pkg.1.0.0.nupkg", false, UploadOutcome::TransportFailed, &mut c);
    assert!(!sent);
    assert!(c.packets.is_empty());
}

#[test]
fn validate_exit_codes() {
    assert_eq!(validate_archive_path(false, false, "a.1.2.3.nupkg"), 1);
    assert_eq!(validate_archive_path(true, false, "a.1.2.3.nupkg"), 2);
    assert_eq!(validate_archive_path(true, true, "notes.txt"), 3);
    assert_eq!(validate_archive_path(true, true, "a.1.2.3.nupkg"), 0);
}

#[test]
fn conv_rotates_last_to_front() {
    let mut s = String::from("abc");
    conv(&mut s);
    assert_eq!(s.as_str(), "cab");
    conv(&mut s);
    conv(&mut s);
    assert_eq!(s.as_str(), "abc");
}

#[test]
fn show_config_text_defaults() {
    assert_eq!(show_config_text(None).as_str(), "Not configured yet");
    assert_eq!(show_config_text(Some(String::from("{}"))).as_str(), "{}");
}
