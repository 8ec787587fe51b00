use folder_watcher::protocol::Event;
use folder_watcher::server::handle_command_text;
use folder_watcher::watcher::{
    create_event_channel, initial_event_batch, relative_to, scan_event_for, signal_event,
    WatchError, WatchManager,
};

#[test]
fn test_relative_to() {
    assert_eq!(relative_to("/a/b", "/a/b/c.mp4"), "c.mp4");
    assert_eq!(relative_to("/a/b", "/a/b/sub/c.mp4"), "sub/c.mp4");
    // A path outside the root falls back to the absolute path.
    assert_eq!(relative_to("/a/b", "/elsewhere/c.mp4"), "/elsewhere/c.mp4");
    assert_eq!(relative_to("/a/b", "/a/b"), "/a/b");
}

#[test]
fn test_scan_decisions() {
    // A hidden file, a non-media file and a media file: only the media
    // file yields an event, and a directory always does.
    assert_eq!(scan_event_for("w", "/r", "/r/.hidden.mp4", false), None);
    assert_eq!(scan_event_for("w", "/r", "/r/notes.txt", false), None);
    assert_eq!(
        scan_event_for("w", "/r", "/r/clip.mp4", false),
        Some(Event::FileAdded {
            watch_id: "w".to_string(),
            path: "/r/clip.mp4".to_string(),
            relative: "clip.mp4".to_string(),
        })
    );
    assert_eq!(
        scan_event_for("w", "/r", "/r/sub", true),
        Some(Event::DirAdded {
            watch_id: "w".to_string(),
            path: "/r/sub".to_string(),
            relative: "sub".to_string(),
        })
    );
    assert_eq!(scan_event_for("w", "/r", "/r/.git", true), None);
}

#[test]
fn test_signal_decisions() {
    // Present directory.
    assert!(matches!(
        signal_event("w", "/r", "/r/d", true, true),
        Some(Event::DirAdded { .. })
    ));
    // Present media file.
    assert!(matches!(
        signal_event("w", "/r", "/r/a.mp4", true, false),
        Some(Event::FileAdded { .. })
    ));
    // Present non-media file: silently dropped.
    assert_eq!(signal_event("w", "/r", "/r/a.txt", true, false), None);
    // Vanished media path.
    assert!(matches!(
        signal_event("w", "/r", "/r/a.mp4", false, false),
        Some(Event::FileRemoved { .. })
    ));
    // Vanished non-media path is reported as a removed directory.
    assert!(matches!(
        signal_event("w", "/r", "/r/gone", false, false),
        Some(Event::DirRemoved { .. })
    ));
    // Hidden paths never produce events.
    assert_eq!(signal_event("w", "/r", "/r/.cache", true, true), None);
    assert_eq!(signal_event("w", "/r", "/r/.cache", false, false), None);
}

#[test]
fn test_initial_event_batch_ready_first() {
    let scan = vec![
        Event::DirAdded {
            watch_id: "w".to_string(),
            path: "/r/d".to_string(),
            relative: "d".to_string(),
        },
        Event::FileAdded {
            watch_id: "w".to_string(),
            path: "/r/d/x.mp4".to_string(),
            relative: "d/x.mp4".to_string(),
        },
    ];
    let batch = initial_event_batch("w", scan.clone());
    assert_eq!(batch.len(), 3);
    assert_eq!(batch[0], Event::Ready { watch_id: "w".to_string() });
    assert_eq!(batch[1], scan[0]);
    assert_eq!(batch[2], scan[1]);
}

#[test]
fn test_add_watch_nonexistent_path() {
    let (tx, rx) = create_event_channel();
    let mut m = WatchManager::new(tx, 100);
    let r = m.add_watch("w1".to_string(), "/no/such/path/anywhere".to_string());
    assert!(matches!(r, Err(WatchError::NotFound { .. })));
    // No subscription, no scan: nothing was emitted and nothing listed.
    assert!(rx.try_recv().is_err());
    assert!(m.list_watches().is_empty());
}

#[test]
fn test_remove_watch_not_present() {
    let (tx, _rx) = create_event_channel();
    let mut m = WatchManager::new(tx, 100);
    let r = m.remove_watch("missing");
    assert!(matches!(r, Err(WatchError::NotFound { .. })));
}

#[test]
fn test_add_conflict_keeps_original() {
    let (tx, rx) = create_event_channel();
    let mut m = WatchManager::new(tx, 100);
    assert!(m.add_watch("a".to_string(), "src".to_string()).is_ok());
    // The Ready event is delivered before any scan result.
    let first = rx.recv().unwrap();
    assert_eq!(first, Event::Ready { watch_id: "a".to_string() });
    // A second add with the same id fails with Conflict...
    let r = m.add_watch("a".to_string(), "tests".to_string());
    assert!(matches!(r, Err(WatchError::Conflict { .. })));
    // ...and the original watch is untouched.
    let listed = m.list_watches();
    assert_eq!(listed.len(), 1);
    assert_eq!(listed[0].id, "a");
    assert_eq!(listed[0].path, "src");
}

#[test]
fn test_list_after_add_add_remove() {
    let (tx, _rx) = create_event_channel();
    let mut m = WatchManager::new(tx, 100);
    assert!(m.add_watch("a".to_string(), "src".to_string()).is_ok());
    assert!(m.add_watch("b".to_string(), "tests".to_string()).is_ok());
    // Both adds with distinct ids succeeded and both appear.
    let listed = m.list_watches();
    assert_eq!(listed.len(), 2);
    assert!(listed.iter().any(|w| w.id == "a" && w.path == "src"));
    assert!(listed.iter().any(|w| w.id == "b" && w.path == "tests"));
    // Removing A leaves exactly B.
    assert!(m.remove_watch("a").is_ok());
    let listed = m.list_watches();
    assert_eq!(listed.len(), 1);
    assert_eq!(listed[0].id, "b");
    assert_eq!(listed[0].path, "tests");
    // Removing A again fails.
    assert!(matches!(m.remove_watch("a"), Err(WatchError::NotFound { .. })));
}

#[test]
fn test_shutdown_clears_all() {
    let (tx, _rx) = create_event_channel();
    let mut m = WatchManager::new(tx, 100);
    assert!(m.add_watch("a".to_string(), "src".to_string()).is_ok());
    m.shutdown();
    assert!(m.list_watches().is_empty());
}

#[test]
fn test_error_messages() {
    let conflict = WatchError::Conflict { id: "w1".to_string() };
    assert_eq!(conflict.message(), "Watch with id 'w1' already exists");
    let (tx, _rx) = create_event_channel();
    let mut m = WatchManager::new(tx, 100);
    match m.add_watch("w".to_string(), "/no/such/dir".to_string()) {
        Err(e) => assert_eq!(e.message(), "Path does not exist: /no/such/dir"),
        Ok(_) => panic!("expected a missing-path failure"),
    }
    match m.remove_watch("ghost") {
        Err(e) => assert_eq!(e.message(), "Watch with id 'ghost' not found"),
        Ok(_) => panic!("expected a missing-id failure"),
    }
    let nad = WatchError::NotADirectory { path: "/a/file.txt".to_string() };
    assert_eq!(nad.message(), "Path is not a directory: /a/file.txt");
    let sub = WatchError::SubscriptionFailed { message: "no inotify".to_string() };
    assert_eq!(sub.message(), "no inotify");
}

#[test]
fn test_handle_command_text() {
    let (tx, rx) = create_event_channel();
    let mut m = WatchManager::new(tx, 100);
    // A malformed frame answers with an untagged Error and continues.
    assert!(!handle_command_text(&mut m, "not a command"));
    match rx.recv().unwrap() {
        Event::Error { watch_id, .. } => assert!(watch_id.is_none()),
        other => panic!("unexpected event {:?}", other),
    }
    // Adding a missing path answers with an Error tagged with the id.
    assert!(!handle_command_text(
        &mut m,
        "{\"cmd\":\"ADD_WATCH\",\"path\":\"/no/such/dir\",\"id\":\"w9\"}"
    ));
    match rx.recv().unwrap() {
        Event::Error { watch_id, .. } => assert_eq!(watch_id.as_deref(), Some("w9")),
        other => panic!("unexpected event {:?}", other),
    }
    // Listing answers with a snapshot.
    assert!(!handle_command_text(&mut m, "{\"cmd\":\"LIST_WATCHES\"}"));
    match rx.recv().unwrap() {
        Event::WatchList { watches } => assert!(watches.is_empty()),
        other => panic!("unexpected event {:?}", other),
    }
    // Shutdown asks the loops to stop and touches nothing.
    assert!(handle_command_text(&mut m, "{\"cmd\":\"SHUTDOWN\"}"));
}
