use bytes::Bytes;
use segment::command::{apply_option, command_named, CommandWord, Create, ErrorKind, Parser};
use segment::keyspace::Evictor;
use segment::frame::Frame;

#[test]
fn parser_needs_an_array() {
    assert_eq!(Parser::new(Frame::Null).err().unwrap().kind, ErrorKind::NotAnArray);
}

#[test]
fn parser_reads_arguments_in_order() {
    let mut p = Parser::new(Frame::Array(vec![
        Frame::String("42abc".to_string()),
        Frame::Blob(Bytes::from("-7")),
        Frame::Integer(9),
        Frame::Null,
        Frame::String("text".to_string()),
        Frame::Blob(Bytes::from("b")),
    ]))
    .ok()
    .unwrap();
    assert_eq!(p._next_integer().unwrap(), Some(42));
    assert_eq!(p._next_integer().unwrap(), Some(-7));
    assert_eq!(p._next_integer().unwrap(), Some(9));
    assert_eq!(p._next_integer().unwrap_err().kind, ErrorKind::NotAnInteger);
    assert!(!p.consumed());
    assert_eq!(p.next_blob().unwrap(), Some(Bytes::from("text")));
    assert_eq!(p.next_string().unwrap(), Some("b".to_string()));
    assert!(p.consumed());
    assert_eq!(p.next_string().unwrap(), None);
    assert_eq!(p.next_blob().unwrap(), None);
    assert_eq!(p._next_integer().unwrap(), None);
}

#[test]
fn create_reads_every_argument() {
    let mut p = Parser::new(Frame::Array(vec![
        Frame::String("baz".to_string()),
        Frame::String("ev".to_string()),
        Frame::String("lru".to_string()),
    ]))
    .ok()
    .unwrap();
    assert_eq!(
        Create::parse(&mut p).unwrap(),
        Create {
            keyspace: "baz".to_string(),
            evictor: Evictor::Lru,
            max_memory_sample_size: Some(3)
        }
    );
    assert!(p.consumed());
}

#[test]
fn option_pairs_read_uppercased_words() {
    assert_eq!(apply_option("EV", "LRU", Evictor::Noop, None).unwrap(), (Evictor::Lru, None));
    assert_eq!(apply_option("SS", "7", Evictor::Lru, Some(3)).unwrap(), (Evictor::Lru, Some(7)));
    assert_eq!(apply_option("EV", "FIFO", Evictor::Noop, None).unwrap_err().kind, ErrorKind::InvalidEvictor);
    assert_eq!(apply_option("SS", "X", Evictor::Noop, None).unwrap_err().kind, ErrorKind::InvalidSampleSize);
    assert_eq!(apply_option("ev", "LRU", Evictor::Noop, None).unwrap_err().kind, ErrorKind::InvalidOption);
}

#[test]
fn command_words_are_matched_exactly() {
    assert_eq!(command_named("GET"), Some(CommandWord::Get));
    assert_eq!(command_named("SET"), Some(CommandWord::SetValue));
    assert_eq!(command_named("DEL"), Some(CommandWord::Del));
    assert_eq!(command_named("CREATE"), Some(CommandWord::Create));
    assert_eq!(command_named("get"), None);
    assert_eq!(command_named("FROB"), None);
}
