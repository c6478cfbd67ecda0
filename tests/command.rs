use bytes::Bytes;
use segment::command::{new, Command, Create, Del, Get, SetValue};
use segment::frame::{parse, Cursor, Frame};
use segment::keyspace::{Evictor, MAX_MEMORY_SAMPLE_SIZE};

fn get_frame(data: &[u8]) -> Frame {
    let mut cursor = Cursor::new(data);
    parse(&mut cursor).unwrap()
}

#[test]
fn new_non_array_frame_error() {
    let frame = get_frame(b"$create\r\n");
    assert!(new(frame).is_err())
}

#[test]
fn new_empty_array_frame_error() {
    let frame = get_frame(b"#0\r\n");
    assert!(new(frame).is_err())
}

#[test]
fn new_unknow_command_error() {
    let frame = get_frame(b"#1\r\n$foo\r\n");
    assert!(new(frame).is_err())
}

#[test]
fn new_create_without_keyspace_error() {
    assert!(new(get_frame(b"#1\r\n$create\r\n")).is_err())
}

#[test]
fn new_create_with_keyspace_no_error() {
    assert_eq!(
        new(get_frame(b"#2\r\n$create\r\n$foo\r\n")).unwrap(),
        Command::Create(Create {
            keyspace: String::from("foo"),
            evictor: Evictor::Noop,
            max_memory_sample_size: None
        })
    )
}

#[test]
fn new_create_noop_evictor_implicit_with_sample_size_error() {
    assert!(new(get_frame(b"#4\r\n$create\r\n$foo\r\n$ss\r\n$100\r\n")).is_err())
}

#[test]
fn new_create_noop_evictor_explicit_with_sample_size_error() {
    assert!(new(get_frame(
        b"#6\r\n$create\r\n$foo\r\n$ss\r\n$100\r\n$ev\r\n$noop\r\n"
    ))
    .is_err())
}

#[test]
fn new_create_lru_evictor_with_sample_size_no_error() {
    assert_eq!(
        new(get_frame(
            b"#6\r\n$create\r\n$foo\r\n$ss\r\n$100\r\n$ev\r\n$lru\r\n"
        ))
        .unwrap(),
        Command::Create(Create {
            keyspace: String::from("foo"),
            evictor: Evictor::Lru,
            max_memory_sample_size: Some(100)
        })
    )
}

#[test]
fn new_create_lru_evictor_without_sample_size_no_error() {
    assert_eq!(
        new(get_frame(b"#4\r\n$create\r\n$foo\r\n$ev\r\n$lru\r\n")).unwrap(),
        Command::Create(Create {
            keyspace: String::from("foo"),
            evictor: Evictor::Lru,
            max_memory_sample_size: Some(MAX_MEMORY_SAMPLE_SIZE)
        })
    )
}

#[test]
fn new_create_random_evictor_with_sample_size_no_error() {
    assert_eq!(
        new(get_frame(
            b"#6\r\n$create\r\n$foo\r\n$ss\r\n$100\r\n$ev\r\n$random\r\n"
        ))
        .unwrap(),
        Command::Create(Create {
            keyspace: String::from("foo"),
            evictor: Evictor::Random,
            max_memory_sample_size: Some(100)
        })
    )
}

#[test]
fn new_create_random_evictor_without_sample_size_no_error() {
    assert_eq!(
        new(get_frame(b"#4\r\n$create\r\n$foo\r\n$ev\r\n$random\r\n")).unwrap(),
        Command::Create(Create {
            keyspace: String::from("foo"),
            evictor: Evictor::Random,
            max_memory_sample_size: Some(MAX_MEMORY_SAMPLE_SIZE)
        })
    )
}

#[test]
fn new_create_invlaid_sample_size_error() {
    assert!(new(get_frame(
        b"#6\r\n$create\r\n$foo\r\n$ss\r\n$abc\r\n$ev\r\n$random\r\n"
    ))
    .is_err())
}

#[test]
fn new_create_negative_sample_size_error() {
    assert!(new(get_frame(
        b"#6\r\n$create\r\n$foo\r\n$ss\r\n$-10000\r\n$ev\r\n$random\r\n"
    ))
    .is_err())
}

#[test]
fn new_create_extra_args_error() {
    assert!(new(get_frame(
        b"#8\r\n$create\r\n$foo\r\n$ss\r\n$100\r\n$ev\r\n$random\r\n$foo\r\n$bar\r\n"
    ))
    .is_err())
}

#[test]
fn new_set_without_keyspace_error() {
    assert!(new(get_frame(b"#1\r\n$set\r\n")).is_err())
}

#[test]
fn new_set_without_key_error() {
    assert!(new(get_frame(b"#2\r\n$set\r\n$keyspace\r\n")).is_err())
}

#[test]
fn new_set_without_value_error() {
    assert!(new(get_frame(b"#3\r\n$set\r\n$keyspace\r\n$foo\r\n")).is_err())
}

#[test]
fn new_set_no_error() {
    assert_eq!(
        new(get_frame(b"#4\r\n$set\r\n$keyspace\r\n$foo\r\n$bar\r\n")).unwrap(),
        Command::SetValue(SetValue {
            keyspace: String::from("keyspace"),
            key: String::from("foo"),
            value: Bytes::from("bar")
        })
    )
}

#[test]
fn new_set_extra_args_error() {
    assert!(new(get_frame(
        b"#5\r\n$set\r\n$keyspace\r\n$foo\r\n$bar\r\n$random\r\n"
    ))
    .is_err())
}

#[test]
fn new_get_without_keyspace_error() {
    assert!(new(get_frame(b"#1\r\n$get\r\n")).is_err())
}

#[test]
fn new_get_without_key_error() {
    assert!(new(get_frame(b"#2\r\n$get\r\n$keyspace\r\n")).is_err())
}

#[test]
fn new_get_no_error() {
    assert_eq!(
        new(get_frame(b"#3\r\n$get\r\n$keyspace\r\n$foo\r\n")).unwrap(),
        Command::Get(Get {
            keyspace: String::from("keyspace"),
            key: String::from("foo")
        })
    )
}

#[test]
fn new_get_extra_args_error() {
    assert!(new(get_frame(b"#4\r\n$get\r\n$keyspace\r\n$foo\r\n$bar\r\n")).is_err())
}

#[test]
fn new_del_without_keyspace_error() {
    assert!(new(get_frame(b"#1\r\n$del\r\n")).is_err())
}

#[test]
fn new_del_without_key_error() {
    assert!(new(get_frame(b"#2\r\n$del\r\n$keyspace\r\n")).is_err())
}

#[test]
fn new_del_no_error() {
    assert_eq!(
        new(get_frame(b"#3\r\n$del\r\n$keyspace\r\n$foo\r\n")).unwrap(),
        Command::Del(Del {
            keyspace: String::from("keyspace"),
            key: String::from("foo")
        })
    )
}

#[test]
fn new_del_extra_args_error() {
    assert!(new(get_frame(b"#4\r\n$del\r\n$keyspace\r\n$foo\r\n$bar\r\n")).is_err())
}
