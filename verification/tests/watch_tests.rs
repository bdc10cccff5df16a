use literm::sandbox::FsService;
use literm::watch::{
    change_json, error_event_json, parse_watch_request, unwatched_json, watching_json,
    WatchRequest, WatchSession, WatchStep,
};

#[test]
fn watch_request_parses_with_fields_in_either_order() {
    match parse_watch_request("{\"action\":\"watch\",\"path\":\".\"}") {
        WatchRequest::Watch { path } => assert_eq!(path, "."),
        _ => panic!("expected a watch request"),
    }
    match parse_watch_request("{\"path\":\"logs\",\"action\":\"unwatch\"}") {
        WatchRequest::Unwatch { path } => assert_eq!(path, "logs"),
        _ => panic!("expected an unwatch request"),
    }
}

#[test]
fn watch_request_accepts_whitespace_and_escapes() {
    match parse_watch_request(" { \"action\" : \"watch\" , \"path\" : \"a\\\\b \\\"c\\\"\" } ") {
        WatchRequest::Watch { path } => assert_eq!(path, "a\\b \"c\""),
        _ => panic!("expected a watch request"),
    }
    match parse_watch_request("{\"action\":\"watch\",\"path\":\"a\\nb\\tc\"}") {
        WatchRequest::Watch { path } => assert_eq!(path, "a\nb\tc"),
        _ => panic!("expected a watch request"),
    }
}

#[test]
fn malformed_payloads_are_invalid() {
    assert!(matches!(parse_watch_request(""), WatchRequest::Invalid));
    assert!(matches!(parse_watch_request("watch ."), WatchRequest::Invalid));
    assert!(matches!(parse_watch_request("{\"action\":\"watch\"}"), WatchRequest::Invalid));
    assert!(matches!(
        parse_watch_request("{\"action\":\"sleep\",\"path\":\".\"}"),
        WatchRequest::Invalid
    ));
    assert!(matches!(
        parse_watch_request("{\"action\":\"watch\",\"path\":\".\"} trailing"),
        WatchRequest::Invalid
    ));
    assert!(matches!(
        parse_watch_request("{\"action\":\"watch\",\"path\":\".\""),
        WatchRequest::Invalid
    ));
}

#[test]
fn reply_texts_are_exact() {
    assert_eq!(watching_json("."), "{\"event\":\"watching\",\"path\":\".\"}");
    assert_eq!(unwatched_json("logs"), "{\"event\":\"unwatched\",\"path\":\"logs\"}");
    assert_eq!(
        error_event_json("file watching disabled"),
        "{\"event\":\"error\",\"message\":\"file watching disabled\"}"
    );
    assert_eq!(
        change_json("new.txt", 1234567),
        "{\"event\":\"change\",\"path\":\"new.txt\",\"timestamp\":1234567}"
    );
    assert_eq!(change_json("a\"b", 0), "{\"event\":\"change\",\"path\":\"a\\\"b\",\"timestamp\":0}");
}

#[test]
fn disabled_watching_is_refused_and_nothing_is_registered() {
    let fs = FsService::new("/tmp").unwrap();
    let mut session = WatchSession::new();
    match session.handle_message(&fs, false, true, "{\"action\":\"watch\",\"path\":\".\"}") {
        WatchStep::Reply { reply } => {
            assert_eq!(reply, "{\"event\":\"error\",\"message\":\"file watching disabled\"}");
        }
        _ => panic!("expected an error reply"),
    }
}

#[test]
fn invalid_payload_is_answered_with_the_error_event() {
    let fs = FsService::new("/tmp").unwrap();
    let mut session = WatchSession::new();
    match session.handle_message(&fs, true, true, "nonsense") {
        WatchStep::Reply { reply } => {
            assert_eq!(reply, "{\"event\":\"error\",\"message\":\"invalid payload\"}");
        }
        _ => panic!("expected an error reply"),
    }
}

#[test]
fn escaping_watch_path_is_an_invalid_path() {
    let fs = FsService::new("/tmp").unwrap();
    let mut session = WatchSession::new();
    match session.handle_message(&fs, true, true, "{\"action\":\"watch\",\"path\":\"../etc\"}") {
        WatchStep::Reply { reply } => {
            assert_eq!(reply, "{\"event\":\"error\",\"message\":\"invalid path\"}");
        }
        _ => panic!("expected an error reply"),
    }
}

#[test]
fn watching_twice_acknowledges_twice_and_unwatch_cancels() {
    let fs = FsService::new("/tmp").unwrap();
    let mut session = WatchSession::new();
    let msg = "{\"action\":\"watch\",\"path\":\".\"}";
    let (canon1, rel1) = match session.handle_message(&fs, true, true, msg) {
        WatchStep::Register { canonical, rel } => (canonical, rel),
        _ => panic!("expected a registration"),
    };
    assert_eq!(rel1, ".");
    assert_eq!(canon1, fs.root());
    let ack1 = session.commit_watch(canon1.as_str(), rel1.as_str(), true);
    assert_eq!(ack1, "{\"event\":\"watching\",\"path\":\".\"}");

    // The second watch of the same path is acknowledged again.
    let (canon2, rel2) = match session.handle_message(&fs, true, true, msg) {
        WatchStep::Register { canonical, rel } => (canonical, rel),
        _ => panic!("expected a registration"),
    };
    assert_eq!(canon2, canon1);
    let ack2 = session.commit_watch(canon2.as_str(), rel2.as_str(), true);
    assert_eq!(ack2, ack1);

    // The one subscription answers the event lookup.
    let rel = session.lookup_event_rel(&fs, "/tmp", Some(&canon1)).unwrap();
    assert_eq!(rel, ".");

    // One unwatch cancels the subscription entirely.
    match session.handle_message(&fs, true, true, "{\"action\":\"unwatch\",\"path\":\".\"}") {
        WatchStep::Unregister { canonical, was_watched, reply } => {
            assert_eq!(canonical, canon1);
            assert!(was_watched);
            assert_eq!(reply, "{\"event\":\"unwatched\",\"path\":\".\"}");
        }
        _ => panic!("expected an unregistration"),
    }
    // After it, the path is no longer a subscription: only the sandbox
    // fallback can name it now.
    let rel_after = session.lookup_event_rel(&fs, "/tmp/x", Some(&format!("{canon1}/x")));
    assert_eq!(rel_after.unwrap(), "x");
}

#[test]
fn unwatch_of_an_unresolvable_path_is_silent() {
    let fs = FsService::new("/tmp").unwrap();
    let mut session = WatchSession::new();
    let step = session.handle_message(
        &fs,
        true,
        true,
        "{\"action\":\"unwatch\",\"path\":\"no-such-entry-here\"}",
    );
    assert!(matches!(step, WatchStep::Silent));
}

#[test]
fn unwatched_paths_fall_back_to_the_sandbox_rendering() {
    let fs = FsService::new("/tmp").unwrap();
    let session = WatchSession::new();
    let root = fs.root();
    // A created file below the root is reported relative to it.
    let rel = session.lookup_event_rel(&fs, "/tmp/new.txt", Some(&format!("{root}/new.txt")));
    assert_eq!(rel.unwrap(), "new.txt");
    // A path outside the sandbox is dropped.
    let none = session.lookup_event_rel(&fs, "/etc/passwd", Some(&"/etc/passwd".to_string()));
    assert!(none.is_none());
    // Without a canonical form, the delivered path itself is tried.
    let rel2 = session.lookup_event_rel(&fs, &format!("{root}/a.txt"), None);
    assert_eq!(rel2.unwrap(), "a.txt");
}

#[test]
fn failed_registration_reports_and_records_nothing() {
    let fs = FsService::new("/tmp").unwrap();
    let mut session = WatchSession::new();
    let reply = session.commit_watch("/tmp/gone", "gone", false);
    assert_eq!(reply, "{\"event\":\"error\",\"message\":\"watch failed\"}");
    let found = session.lookup_event_rel(&fs, "/tmp/gone", Some(&"/tmp/gone".to_string()));
    // Not a subscription: only the sandbox fallback answers.
    assert_eq!(found.unwrap(), "gone");
}
