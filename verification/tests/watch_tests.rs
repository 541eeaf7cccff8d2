use shelf::keep_awake::caffeinate_args;
use shelf::watch::{is_watched_media, watch_event_for, FsChange, WatchEvent};

#[test]
fn caffeinate_flags_are_unprivileged() {
    let args = caffeinate_args();
    assert_eq!(args, ["-i", "-m", "-s"]);
    for flag in args {
        assert!(matches!(flag, "-i" | "-m" | "-s"), "unexpected caffeinate flag: {flag}");
    }
}

#[test]
fn watched_changes_are_filtered_by_type() {
    assert!(is_watched_media("/a/B.PDF"));
    assert!(!is_watched_media("/a/b.txt"));
    assert!(matches!(watch_event_for(FsChange::Create, "/a/1.mp4"), Some(WatchEvent::Added(p)) if p == "/a/1.mp4"));
    assert!(matches!(watch_event_for(FsChange::Modify, "/a/1.pdf"), Some(WatchEvent::Modified(_))));
    assert!(watch_event_for(FsChange::Create, "/a/1.jpg").is_none());
    assert!(matches!(watch_event_for(FsChange::Remove, "/a/dir"), Some(WatchEvent::Removed(_))));
    assert!(watch_event_for(FsChange::Other, "/a/1.pdf").is_none());
}
