use tracey::engine::{LatestVersion, Subscriber};
use tracey::engine::{Overlays, Publication, Scheduler};

#[test]
fn the_version_advances_only_with_the_content() {
    let mut publication = Publication::first(0xabc);
    assert_eq!(publication.version, 1);
    assert!(!publication.publish(0xabc));
    assert_eq!(publication.version, 1);
    assert!(publication.publish(0xdef));
    assert_eq!(publication, Publication { version: 2, content_hash: 0xdef });
    assert!(!publication.publish(0xdef));
    assert!(publication.publish(0xabc));
    assert_eq!(publication, Publication { version: 3, content_hash: 0xabc });
}

#[test]
fn versions_never_fall() {
    let mut publication = Publication::first(1);
    let mut seen = vec![publication];
    for hash in [1u64, 2, 2, 3, 1, 1, 4] {
        publication.publish(hash);
        seen.push(publication);
    }
    for pair in seen.windows(2) {
        assert!(pair[0].version <= pair[1].version);
        if pair[0].content_hash == pair[1].content_hash {
            assert_eq!(pair[0].version, pair[1].version);
        } else {
            assert_eq!(pair[0].version + 1, pair[1].version);
        }
    }
    assert_eq!(publication.version, 5);
}

#[test]
fn a_request_starts_a_rebuild_when_idle() {
    let mut scheduler = Scheduler::new();
    assert!(!scheduler.running);
    let job = scheduler.request(vec!["/repo/a.rs".to_string()]).expect("a rebuild starts");
    assert!(!job.everything);
    assert_eq!(job.paths, vec!["/repo/a.rs".to_string()]);
    assert!(scheduler.running);
    assert!(!scheduler.dirty);
    assert!(scheduler.finished().is_none());
    assert!(!scheduler.running);
}

#[test]
fn an_empty_request_rebuilds_everything() {
    let mut scheduler = Scheduler::new();
    let job = scheduler.request(vec![]).expect("a rebuild starts");
    assert!(job.everything);
    assert!(job.paths.is_empty());
}

#[test]
fn requests_during_a_rebuild_are_coalesced() {
    let mut scheduler = Scheduler::new();
    assert!(scheduler.request(vec!["/a".to_string()]).is_some());
    assert!(scheduler.request(vec!["/b".to_string()]).is_none());
    assert!(scheduler.request(vec!["/c".to_string(), "/d".to_string()]).is_none());
    assert!(scheduler.running && scheduler.dirty);
    let next = scheduler.finished().expect("the changes are rebuilt");
    assert!(!next.everything);
    assert_eq!(next.paths, vec!["/b".to_string(), "/c".to_string(), "/d".to_string()]);
    assert!(scheduler.running);
    assert!(!scheduler.dirty);
    assert!(scheduler.finished().is_none());
    assert!(!scheduler.running);
}

#[test]
fn a_pending_request_for_everything_wins() {
    let mut scheduler = Scheduler::new();
    scheduler.request(vec!["/a".to_string()]);
    scheduler.request(vec!["/b".to_string()]);
    scheduler.request(vec![]);
    let next = scheduler.finished().expect("the changes are rebuilt");
    assert!(next.everything);
    assert_eq!(next.paths, vec!["/b".to_string()]);
    scheduler.request(vec!["/c".to_string()]);
    let next = scheduler.finished().expect("the changes are rebuilt");
    assert!(!next.everything);
    assert_eq!(next.paths, vec!["/c".to_string()]);
}

#[test]
fn overlays_stand_in_for_files() {
    let mut overlays = Overlays::new();
    assert_eq!(overlays.get("/repo/a.rs"), None);
    assert_eq!(overlays.read("/repo/a.rs", Some("disk")), Some("disk"));
    assert_eq!(overlays.read("/repo/a.rs", None), None);

    overlays.vfs_open("/repo/a.rs", "buffer");
    assert_eq!(overlays.get("/repo/a.rs"), Some("buffer"));
    assert_eq!(overlays.read("/repo/a.rs", Some("disk")), Some("buffer"));
    assert_eq!(overlays.read("/repo/a.rs", None), Some("buffer"));
    assert_eq!(overlays.read("/repo/b.rs", Some("disk b")), Some("disk b"));

    overlays.vfs_change("/repo/a.rs", "edited");
    overlays.vfs_open("/repo/b.rs", "second");
    assert_eq!(overlays.get("/repo/a.rs"), Some("edited"));
    assert_eq!(overlays.get("/repo/b.rs"), Some("second"));
    assert_eq!(overlays.entries.len(), 2);

    overlays.vfs_close("/repo/a.rs");
    assert_eq!(overlays.read("/repo/a.rs", Some("disk")), Some("disk"));
    assert_eq!(overlays.get("/repo/b.rs"), Some("second"));
    overlays.vfs_close("/repo/missing.rs");
    assert_eq!(overlays.entries.len(), 1);
}

#[test]
fn subscribers_act_on_new_versions_only() {
    let mut subscriber = Subscriber::new();
    assert!(subscriber.accept(1));
    assert!(!subscriber.accept(1));
    assert!(subscriber.accept(2));
    assert!(subscriber.accept(1));
    assert_eq!(subscriber.last_version, Some(1));

    let mut channel = LatestVersion::new();
    assert_eq!(channel.receive(), None);
    channel.send(3);
    channel.send(5);
    assert_eq!(channel.receive(), Some(5));
    assert_eq!(channel.receive(), None);
}
