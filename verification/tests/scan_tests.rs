use gtmov::scan::{
    check_scan_path, genre_error_event, source_step, SourceStep, source_error_event, sse_event, volume_label, FileStep,
    Presence, ScanProgress, Volume,
};

#[test]
fn event_framing() {
    assert_eq!(sse_event("{\"total\":3}"), "data: {\"total\":3}\n\n");
}

#[test]
fn refuses_missing_directory() {
    assert_eq!(
        check_scan_path("/nope", false, false),
        Some("data: {\"error\":\"Path '/nope' does not exist or is not a directory\"}\n\n".to_string())
    );
    assert!(check_scan_path("/file", true, false).is_some());
    assert_eq!(check_scan_path("/movies", true, true), None);
}

#[test]
fn startup_errors() {
    assert_eq!(genre_error_event("db locked"), "data: {\"error\":\"Failed to save genres: db locked\"}\n\n");
    assert_eq!(source_error_event("oops"), "data: {\"error\":\"Failed to create source: oops\"}\n\n");
}

#[test]
fn a_whole_scan() {
    let mut p = ScanProgress::new(4);
    assert_eq!(p.total_message(), "{\"total\":4}");
    match p.record_presence(Presence::Present, "Old \"One\"") {
        FileStep::Report(m) => assert_eq!(
            m,
            "{\"processed\":1,\"total\":4,\"added\":0,\"skipped\":1,\"current\":\"Old \\\"One\\\"\"}"
        ),
        _ => panic!("expected a report"),
    }
    assert!(matches!(p.record_presence(Presence::Unknown, "Broken"), FileStep::Skip));
    assert!(matches!(p.record_presence(Presence::Absent, "New"), FileStep::LookUp));
    assert_eq!(
        p.record_lookup(true, "New"),
        "{\"processed\":3,\"total\":4,\"added\":1,\"skipped\":1,\"current\":\"New\"}"
    );
    assert!(matches!(p.record_presence(Presence::Absent, "Lost"), FileStep::LookUp));
    assert_eq!(
        p.record_lookup(false, "Lost"),
        "{\"processed\":4,\"total\":4,\"added\":1,\"skipped\":1,\"current\":\"Lost\"}"
    );
    assert_eq!(p.done_message(), "{\"done\":true,\"added\":1,\"skipped\":1}");
}

#[test]
fn empty_scan() {
    let p = ScanProgress::new(0);
    assert_eq!(p.total_message(), "{\"total\":0}");
    assert_eq!(p.done_message(), "{\"done\":true,\"added\":0,\"skipped\":0}");
}

fn vol(mount: &str, name: &str) -> Volume {
    Volume { mount_point: mount.to_string(), name: name.to_string() }
}

#[test]
fn volume_labels_go_by_whole_components() {
    let vols = vec![vol("/media/disk2", "Second"), vol("/media/disk", "Films"), vol("/", "")];
    assert_eq!(volume_label("/media/disk/movies", &vols), Some("Films".to_string()));
    assert_eq!(volume_label("/media/disk2/x", &vols), Some("Second".to_string()));
    assert_eq!(volume_label("/home/me", &vols), None);
    assert_eq!(volume_label("relative/path", &vols), None);
}

#[test]
fn a_folder_is_recorded_once() {
    assert!(matches!(source_step(Some(7)), SourceStep::Reuse(7)));
    assert!(matches!(source_step(None), SourceStep::Record));
}

#[test]
fn counts_track_outcomes() {
    let mut p = ScanProgress::new(3);
    assert!(matches!(p.record_presence(Presence::Absent, "a"), FileStep::LookUp));
    p.record_lookup(false, "a");
    assert!(matches!(p.record_presence(Presence::Unknown, "b"), FileStep::Skip));
    assert_eq!(p.processed_count(), 2);
    assert!(matches!(p.record_presence(Presence::Present, "c"), FileStep::Report(_)));
    assert_eq!(p.processed_count(), 3);
    assert_eq!(p.done_message(), "{\"done\":true,\"added\":0,\"skipped\":1}");
}

#[test]
fn rescan_of_stored_files_adds_nothing() {
    let mut p = ScanProgress::new(3);
    let mut last = String::new();
    for title in ["a", "b", "c"] {
        match p.record_presence(Presence::Present, title) {
            FileStep::Report(m) => last = m,
            _ => panic!("a stored file is reported"),
        }
    }
    assert_eq!(last, "{\"processed\":3,\"total\":3,\"added\":0,\"skipped\":3,\"current\":\"c\"}");
    assert_eq!(p.done_message(), "{\"done\":true,\"added\":0,\"skipped\":3}");
}
