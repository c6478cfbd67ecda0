use bytes::Bytes;
use segment::command::{new, Command, Create, ErrorKind, SetValue};
use segment::keyspace::Evictor;
use segment::frame::Frame;

fn words(ws: &[&str]) -> Frame {
    Frame::Array(ws.iter().map(|w| Frame::String(w.to_string())).collect())
}

fn kind_of(f: Frame) -> (ErrorKind, String, String) {
    let e = new(f).unwrap_err();
    let message = e.message();
    (e.kind, e.detail, message)
}

#[test]
fn each_command_error_has_its_message() {
    let cases: Vec<(Frame, ErrorKind, &str)> = vec![
        (Frame::Null, ErrorKind::NotAnArray, "ERRPARSE Failed to parse frame as array"),
        (Frame::Array(vec![]), ErrorKind::NoCommand, "ERRPARSE No command was provided to be executed"),
        (Frame::Array(vec![Frame::Integer(1)]), ErrorKind::NotAString, "ERRPARSE Failed to parse frame as string"),
        (words(&["frob"]), ErrorKind::UnknownCommand, "ERRPARSE Unknown command 'FROB'"),
        (words(&["get"]), ErrorKind::MissingKeyspace, "ERRPARSE Invalid command, missing argument 'KEYSPACE'"),
        (words(&["get", "ks"]), ErrorKind::MissingKey, "ERRPARSE Invalid command, missing argument 'KEY'"),
        (words(&["set", "ks", "k"]), ErrorKind::MissingValue, "ERRPARSE Invalid command, missing argument 'VALUE'"),
        (words(&["get", "ks", "k", "x"]), ErrorKind::WrongArityGet, "ERRPARSE Invalid command, wrong number of arguments for 'GET'"),
        (words(&["set", "ks", "k", "v", "x"]), ErrorKind::WrongAritySet, "ERRPARSE Invalid command, wrong number of arguments for 'SET'"),
        (words(&["del", "ks", "k", "x"]), ErrorKind::WrongArityDel, "ERRPARSE Invalid command, wrong number of arguments for 'DEL'"),
        (words(&["create", "ks", "ev"]), ErrorKind::WrongArityCreate, "ERRPARSE Invalid command, wrong number of arguments for 'CREATE'"),
        (words(&["create", "ks", "ev", "fifo"]), ErrorKind::InvalidEvictor, "ERRPARSE Invalid value 'FIFO' for 'EVICTOR'"),
        (words(&["create", "ks", "ss", "-1", "ev", "lru"]), ErrorKind::InvalidSampleSize, "ERRPARSE Invalid value '-1' for 'SAMPLE SIZE'"),
        (words(&["create", "ks", "size", "3"]), ErrorKind::InvalidOption, "ERRPARSE Invalid argument 'SIZE'"),
        (words(&["create", "ks", "ss", "3"]), ErrorKind::SampleSizeWithNoop, "ERRPARSE Invalid command, 'SAMPLE SIZE' not applicable for 'NOOP' evictor"),
    ];
    for (frame, kind, message) in cases {
        let (k, _, m) = kind_of(frame);
        assert_eq!(k, kind);
        assert_eq!(m, message);
    }
}

#[test]
fn set_value_must_be_text_or_blob() {
    let f = Frame::Array(vec![
        Frame::String("SET".to_string()),
        Frame::String("ks".to_string()),
        Frame::String("k".to_string()),
        Frame::Integer(5),
    ]);
    let (k, _, m) = kind_of(f);
    assert_eq!(k, ErrorKind::NotABlob);
    assert_eq!(m, "ERRPARSE Failed to parse frame as blob");
}

#[test]
fn create_takes_at_most_two_option_pairs() {
    let (k, _, _) = kind_of(words(&["create", "ks", "ev", "lru", "ss", "1", "ev"]));
    assert_eq!(k, ErrorKind::WrongArityCreate);
    let (k, _, _) = kind_of(words(&["create", "ks", "ev", "lru", "ss", "1", "ev", "noop"]));
    assert_eq!(k, ErrorKind::WrongArityCreate);
}

#[test]
fn create_reads_plus_signed_and_zero_sample_sizes() {
    assert_eq!(
        new(words(&["create", "ks", "ss", "+5", "ev", "random"])).unwrap(),
        Command::Create(Create {
            keyspace: "ks".to_string(),
            evictor: Evictor::Random,
            max_memory_sample_size: Some(5)
        })
    );
    assert_eq!(
        new(words(&["create", "ks", "EV", "Lru", "SS", "0"])).unwrap(),
        Command::Create(Create {
            keyspace: "ks".to_string(),
            evictor: Evictor::Lru,
            max_memory_sample_size: Some(0)
        })
    );
}

#[test]
fn set_takes_string_values_as_their_bytes() {
    assert_eq!(
        new(words(&["set", "ks", "k", "caf\u{e9}"])).unwrap(),
        Command::SetValue(SetValue {
            key: "k".to_string(),
            value: Bytes::from("caf\u{e9}"),
            keyspace: "ks".to_string()
        })
    );
}
