use folder_watcher::codec::{decode_command, decode_event, encode_command, encode_event};
use folder_watcher::protocol::{Command, Event, WatchInfo};

#[test]
fn test_serialize_add_watch_command() {
    let cmd = Command::AddWatch {
        path: "/test/path".to_string(),
        id: "watch-1".to_string(),
    };
    let json = encode_command(&cmd);
    assert!(json.contains("\"cmd\":\"ADD_WATCH\""));
    assert!(json.contains("\"path\":\"/test/path\""));
    assert!(json.contains("\"id\":\"watch-1\""));
}

#[test]
fn test_deserialize_add_watch_command() {
    let json = r#"{"cmd":"ADD_WATCH","path":"/test/path","id":"watch-1"}"#;
    let cmd = decode_command(json).unwrap();
    match cmd {
        Command::AddWatch { path, id } => {
            assert_eq!(path, "/test/path");
            assert_eq!(id, "watch-1");
        }
        _ => panic!("Expected AddWatch command"),
    }
}

#[test]
fn test_serialize_file_added_event() {
    let event = Event::FileAdded {
        watch_id: "watch-1".to_string(),
        path: "/full/path/file.mp4".to_string(),
        relative: "file.mp4".to_string(),
    };
    let json = encode_event(&event);
    assert!(json.contains("\"event\":\"FILE_ADDED\""));
    assert!(json.contains("\"watch_id\":\"watch-1\""));
}

#[test]
fn test_serialize_error_without_watch_id() {
    let event = Event::Error {
        message: "Something went wrong".to_string(),
        watch_id: None,
    };
    let json = encode_event(&event);
    assert!(!json.contains("watch_id"));
}

#[test]
fn test_serialize_error_with_watch_id() {
    let event = Event::Error {
        message: "Permission denied".to_string(),
        watch_id: Some("watch-1".to_string()),
    };
    let json = encode_event(&event);
    assert!(json.contains("\"watch_id\":\"watch-1\""));
}

#[test]
fn test_command_round_trip_all_variants() {
    let cmds = vec![
        Command::AddWatch { path: "/a/b".to_string(), id: "w1".to_string() },
        Command::AddWatch { path: "with \"quotes\" \\ here".to_string(), id: "".to_string() },
        Command::RemoveWatch { id: "w1".to_string() },
        Command::ListWatches,
        Command::Shutdown,
    ];
    for c in cmds {
        let json = encode_command(&c);
        assert_eq!(decode_command(&json), Some(c), "{}", json);
    }
}

#[test]
fn test_event_round_trip_all_variants() {
    let events = vec![
        Event::FileAdded {
            watch_id: "w".to_string(),
            path: "/r/x.mp4".to_string(),
            relative: "x.mp4".to_string(),
        },
        Event::DirAdded {
            watch_id: "w".to_string(),
            path: "/r/d".to_string(),
            relative: "d".to_string(),
        },
        Event::FileRemoved {
            watch_id: "w\\2".to_string(),
            path: "/r/\"q\".mp3".to_string(),
            relative: "\"q\".mp3".to_string(),
        },
        Event::DirRemoved {
            watch_id: "w".to_string(),
            path: "/r/old".to_string(),
            relative: "old".to_string(),
        },
        Event::Ready { watch_id: "w".to_string() },
        Event::WatchList { watches: vec![] },
        Event::WatchList {
            watches: vec![WatchInfo { id: "a".to_string(), path: "/p/a".to_string() }],
        },
        Event::WatchList {
            watches: vec![
                WatchInfo { id: "a".to_string(), path: "/p/a".to_string() },
                WatchInfo { id: "b".to_string(), path: "/p/b".to_string() },
            ],
        },
        Event::Error { message: "boom".to_string(), watch_id: None },
        Event::Error { message: "boom".to_string(), watch_id: Some("w".to_string()) },
        Event::Error { message: "watch_id".to_string(), watch_id: None },
    ];
    for e in events {
        let json = encode_event(&e);
        assert_eq!(decode_event(&json), Some(e), "{}", json);
    }
}

#[test]
fn test_decode_rejects_malformed() {
    assert_eq!(decode_command(""), None);
    assert_eq!(decode_command("not json"), None);
    assert_eq!(decode_command("{\"cmd\":\"NO_SUCH\"}"), None);
    assert_eq!(decode_command("{\"cmd\":\"ADD_WATCH\",\"path\":\"/a\""), None);
    assert_eq!(decode_event("{\"event\":\"UNKNOWN\"}"), None);
}

#[test]
fn test_encoding_is_valid_json() {
    let event = Event::FileAdded {
        watch_id: "w-1".to_string(),
        path: "/r/a \"b\"/x.mp4".to_string(),
        relative: "a \"b\"/x.mp4".to_string(),
    };
    let json = encode_event(&event);
    let v: serde_json::Value = serde_json::from_str(&json).unwrap();
    assert_eq!(v["event"], "FILE_ADDED");
    assert_eq!(v["watch_id"], "w-1");
    assert_eq!(v["path"], "/r/a \"b\"/x.mp4");
    assert_eq!(v["relative"], "a \"b\"/x.mp4");

    let none = Event::Error { message: "m".to_string(), watch_id: None };
    let v: serde_json::Value = serde_json::from_str(&encode_event(&none)).unwrap();
    assert_eq!(v["event"], "ERROR");
    assert!(v.get("watch_id").is_none());

    let cmd = Command::AddWatch { path: "/test/path".to_string(), id: "watch-1".to_string() };
    let v: serde_json::Value = serde_json::from_str(&encode_command(&cmd)).unwrap();
    assert_eq!(v["cmd"], "ADD_WATCH");
    assert_eq!(v["path"], "/test/path");
}
