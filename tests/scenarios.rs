use bytes::Bytes;
use segment::command::respond;
use segment::connection::{connection_step, ConnectionAction, ConnectionEvent};
use segment::frame::Frame;
use segment::keyspace::{Evictor, KeyspaceManager};

fn request(words: &[&str]) -> Frame {
    Frame::Array(words.iter().map(|w| Frame::String(w.to_string())).collect())
}

fn send(manager: &mut KeyspaceManager, words: &[&str]) -> Frame {
    respond(manager, request(words))
}

fn is_parse_error(f: &Frame) -> bool {
    matches!(f, Frame::Error(m) if m.starts_with("ERRPARSE"))
}

#[test]
fn create_set_get_del_round() {
    let mut m = KeyspaceManager::new(1024);
    assert_eq!(send(&mut m, &["CREATE", "foo"]), Frame::Integer(1));
    assert_eq!(send(&mut m, &["CREATE", "foo"]), Frame::Integer(0));
    assert_eq!(send(&mut m, &["SET", "foo", "k", "v"]), Frame::Integer(1));
    assert_eq!(send(&mut m, &["GET", "foo", "k"]), Frame::Blob(Bytes::from("v")));
    assert_eq!(send(&mut m, &["GET", "foo", "absent"]), Frame::Null);
    assert_eq!(send(&mut m, &["DEL", "foo", "k"]), Frame::Integer(1));
    assert_eq!(send(&mut m, &["DEL", "foo", "k"]), Frame::Integer(0));
}

#[test]
fn create_lru_with_sample_size_then_get_absent() {
    let mut m = KeyspaceManager::new(1024);
    assert_eq!(send(&mut m, &["CREATE", "bar", "EV", "LRU", "SS", "100"]), Frame::Integer(1));
    assert_eq!(send(&mut m, &["GET", "bar", "x"]), Frame::Null);
    assert_eq!(m.settings("bar"), Ok((Evictor::Lru, 100)));
}

#[test]
fn create_lru_defaults_sample_size_and_noop_rejects_it() {
    let mut m = KeyspaceManager::new(1024);
    assert_eq!(send(&mut m, &["CREATE", "baz", "EV", "LRU"]), Frame::Integer(1));
    assert_eq!(m.settings("baz"), Ok((Evictor::Lru, 3)));
    let reply = send(&mut m, &["CREATE", "baz", "SS", "100"]);
    assert_eq!(
        reply,
        Frame::Error(
            "ERRPARSE Invalid command, 'SAMPLE SIZE' not applicable for 'NOOP' evictor".to_string()
        )
    );
    assert!(is_parse_error(&reply));
}

#[test]
fn create_with_non_numeric_sample_size_is_parse_error() {
    let mut m = KeyspaceManager::new(1024);
    let reply = send(&mut m, &["CREATE", "qux", "EV", "RANDOM", "SS", "abc"]);
    assert_eq!(
        reply,
        Frame::Error("ERRPARSE Invalid value 'ABC' for 'SAMPLE SIZE'".to_string())
    );
    assert!(m.settings("qux").is_err());
}

#[test]
fn set_on_missing_keyspace_is_exec_error() {
    let mut m = KeyspaceManager::new(1024);
    assert_eq!(
        send(&mut m, &["SET", "ghost", "k", "v"]),
        Frame::Error("ERREXEC keyspace 'ghost' does not exist".to_string())
    );
    assert_eq!(
        send(&mut m, &["GET", "ghost", "k"]),
        Frame::Error("ERREXEC keyspace 'ghost' does not exist".to_string())
    );
    assert_eq!(
        send(&mut m, &["DEL", "ghost", "k"]),
        Frame::Error("ERREXEC keyspace 'ghost' does not exist".to_string())
    );
}

#[test]
fn lru_under_pressure_drops_keys_and_keeps_hot_ones() {
    // a cap of zero megabytes keeps the keyspace under pressure all the time
    let mut m = KeyspaceManager::new(0);
    assert_eq!(send(&mut m, &["CREATE", "cache", "EV", "LRU", "SS", "20"]), Frame::Integer(1));
    for i in 0..1000 {
        let key = format!("key{}", i);
        assert_eq!(send(&mut m, &["SET", "cache", &key, "value"]), Frame::Integer(1));
    }
    let hot: Vec<String> = (0..1000).step_by(100).map(|i| format!("key{}", i)).collect();
    let mut counts = Vec::new();
    for _round in 0..9 {
        for _pass in 0..100 {
            for k in &hot {
                assert_eq!(send(&mut m, &["GET", "cache", k]), Frame::Blob(Bytes::from("value")));
            }
            m.sample_and_evict("cache", 1).unwrap();
        }
        let mut present = 0;
        for i in 0..1000 {
            let key = format!("key{}", i);
            if send(&mut m, &["GET", "cache", &key]) != Frame::Null {
                present += 1;
            }
        }
        counts.push(present);
    }
    for w in counts.windows(2) {
        assert!(w[1] < w[0], "key count did not drop: {:?}", counts);
    }
    for k in &hot {
        assert_eq!(send(&mut m, &["GET", "cache", k]), Frame::Blob(Bytes::from("value")));
    }
}

#[test]
fn commands_are_case_insensitive() {
    let mut m = KeyspaceManager::new(1024);
    assert_eq!(send(&mut m, &["create", "foo", "ev", "random"]), Frame::Integer(1));
    assert_eq!(m.settings("foo"), Ok((Evictor::Random, 3)));
    assert_eq!(send(&mut m, &["set", "foo", "k", "v"]), Frame::Integer(1));
    assert_eq!(send(&mut m, &["Get", "foo", "k"]), Frame::Blob(Bytes::from("v")));
}

#[test]
fn blob_arguments_are_accepted() {
    let mut m = KeyspaceManager::new(1024);
    let create = Frame::Array(vec![
        Frame::Blob(Bytes::from("CREATE")),
        Frame::Blob(Bytes::from("ks")),
    ]);
    assert_eq!(respond(&mut m, create), Frame::Integer(1));
    let set = Frame::Array(vec![
        Frame::String("SET".to_string()),
        Frame::String("ks".to_string()),
        Frame::Blob(Bytes::from("key")),
        Frame::Blob(Bytes::from_static(b"\xff\x00bin")),
    ]);
    assert_eq!(respond(&mut m, set), Frame::Integer(1));
    assert_eq!(
        send(&mut m, &["GET", "ks", "key"]),
        Frame::Blob(Bytes::from_static(b"\xff\x00bin"))
    );
    let bad = Frame::Array(vec![
        Frame::String("GET".to_string()),
        Frame::Blob(Bytes::from_static(b"\xff")),
        Frame::String("key".to_string()),
    ]);
    assert_eq!(
        respond(&mut m, bad),
        Frame::Error("ERRPARSE Failed to parse frame as string".to_string())
    );
}

#[test]
fn connection_steps() {
    let mut m = KeyspaceManager::new(1024);
    assert!(matches!(connection_step(&mut m, ConnectionEvent::Shutdown), ConnectionAction::Stop));
    assert!(matches!(connection_step(&mut m, ConnectionEvent::PeerClosed), ConnectionAction::Stop));
    match connection_step(&mut m, ConnectionEvent::ReadFailed("ERRPROTOCOL Invalid frame".to_string())) {
        ConnectionAction::Reply { reply, start_evictor } => {
            assert_eq!(reply, Frame::Error("ERRPROTOCOL Invalid frame".to_string()));
            assert_eq!(start_evictor, None);
        }
        ConnectionAction::Stop => panic!("a failed read does not end the connection"),
    }
    let cases: Vec<(&[&str], Frame, Option<String>)> = vec![
        (&["CREATE", "lru", "EV", "LRU"], Frame::Integer(1), Some("lru".to_string())),
        (&["CREATE", "lru", "EV", "LRU"], Frame::Integer(0), None),
        (&["CREATE", "plain"], Frame::Integer(1), None),
        (&["GET", "lru", "k"], Frame::Null, None),
    ];
    for (words, expected, start) in cases {
        match connection_step(&mut m, ConnectionEvent::Request(request(words))) {
            ConnectionAction::Reply { reply, start_evictor } => {
                assert_eq!(reply, expected);
                assert_eq!(start_evictor, start);
            }
            ConnectionAction::Stop => panic!("a request does not end the connection"),
        }
    }
}
