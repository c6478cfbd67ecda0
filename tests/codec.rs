use bytes::Bytes;
use segment::connection::{parse_frame, peer_closed, ConnectionError};
use segment::encode::{serialize, write_blob, write_error, write_integer, write_null, write_string};
use segment::frame::{parse, Cursor, Frame, ParseError};

fn samples() -> Vec<Frame> {
    vec![
        Frame::String("hello world".to_string()),
        Frame::String(String::new()),
        Frame::String("h\u{e9}llo \u{2603}".to_string()),
        Frame::Error("ERRPARSE oops".to_string()),
        Frame::Integer(0),
        Frame::Integer(-42),
        Frame::Integer(i64::MIN),
        Frame::Integer(i64::MAX),
        Frame::Null,
        Frame::Blob(Bytes::from("seg\r\nment")),
        Frame::Blob(Bytes::new()),
        Frame::Array(vec![]),
        Frame::Array(vec![
            Frame::String("set".to_string()),
            Frame::Blob(Bytes::from("a\r\nb")),
            Frame::Integer(7),
            Frame::Null,
        ]),
    ]
}

#[test]
fn written_frames_read_back() {
    for f in samples() {
        let mut bytes = serialize(&f);
        let len = bytes.len();
        bytes.extend_from_slice(b"#2\r\ntrailing");
        let mut cursor = Cursor::new(&bytes);
        assert_eq!(parse(&mut cursor), Ok(f));
        assert_eq!(cursor.position(), len);
    }
}

#[test]
fn read_frames_write_back_canonically() {
    let mut cursor = Cursor::new(b"%00042\r\n");
    let f = parse(&mut cursor).unwrap();
    assert_eq!(f, Frame::Integer(42));
    assert_eq!(serialize(&f), b"%42\r\n".to_vec());
    let mut again = Cursor::new(b"*-1\r\nxx");
    let null = parse(&mut again).unwrap();
    assert_eq!(serialize(&null), b"*-1\r\n\r\n".to_vec());
}

#[test]
fn cut_short_frames_are_incomplete_and_do_not_move() {
    for f in samples() {
        let bytes = serialize(&f);
        for k in 0..bytes.len() {
            let mut cursor = Cursor::new(&bytes[..k]);
            assert_eq!(parse(&mut cursor), Err(ParseError::IncompleteFrame), "{:?} cut at {}", f, k);
            assert_eq!(cursor.position(), 0);
        }
    }
}

#[test]
fn serializer_formats() {
    assert_eq!(serialize(&Frame::Integer(-1000)), b"%-1000\r\n".to_vec());
    assert_eq!(serialize(&Frame::Blob(Bytes::from("abc"))), b"*3\r\nabc\r\n".to_vec());
    assert_eq!(serialize(&Frame::Null), b"*-1\r\n\r\n".to_vec());
    assert_eq!(
        serialize(&Frame::Array(vec![Frame::String("foo".to_string()), Frame::Integer(1)])),
        b"#2\r\n$foo\r\n%1\r\n".to_vec()
    );
    let mut out = Vec::new();
    write_string(&mut out, "a");
    write_error(&mut out, "e");
    write_integer(&mut out, 12);
    write_null(&mut out);
    write_blob(&mut out, &Bytes::from("xy"));
    assert_eq!(out, b"$a\r\n!e\r\n%12\r\n*-1\r\n\r\n*2\r\nxy\r\n".to_vec());
}

#[test]
fn integers_read_leading_digits_with_sign() {
    let cases: Vec<(&[u8], Result<Frame, ParseError>)> = vec![
        (b"%+7\r\n", Ok(Frame::Integer(7))),
        (b"%-\r\n", Err(ParseError::InvalidFrame)),
        (b"%+\r\n", Err(ParseError::InvalidFrame)),
        (b"#+\r\n", Err(ParseError::InvalidFrame)),
        (b"*-\r\n\r\n", Err(ParseError::InvalidFrame)),
        (b"*+3\r\nabc\r\n", Ok(Frame::Blob(Bytes::from("abc")))),
        (b"%100abc\r\n", Ok(Frame::Integer(100))),
        (b"%9223372036854775808\r\n", Err(ParseError::InvalidFrame)),
        (b"%-9223372036854775808\r\n", Ok(Frame::Integer(i64::MIN))),
    ];
    for (bytes, expected) in cases {
        let mut cursor = Cursor::new(bytes);
        assert_eq!(parse(&mut cursor), expected);
    }
}

#[test]
fn malformed_text_is_invalid() {
    let mut cursor = Cursor::new(b"$\xff\xfe\r\n$ok\r\n");
    assert_eq!(parse(&mut cursor), Err(ParseError::InvalidFrame));
    assert_eq!(cursor.position(), 5);
    assert_eq!(parse(&mut cursor), Ok(Frame::String("ok".to_string())));
}

#[test]
fn incomplete_array_leaves_the_cursor_at_its_start() {
    let mut cursor = Cursor::new(b"#2\r\n$a\r\n$b");
    assert_eq!(parse(&mut cursor), Err(ParseError::IncompleteFrame));
    assert_eq!(cursor.position(), 0);
}

#[test]
fn buffer_reading_reports_what_to_drop() {
    let (r, n) = parse_frame(b"$hi\r\n$next");
    assert_eq!(r, Ok(Some(Frame::String("hi".to_string()))));
    assert_eq!(n, 5);
    let (r, n) = parse_frame(b"$hi");
    assert_eq!(r, Ok(None));
    assert_eq!(n, 0);
    let (r, n) = parse_frame(b"?bad\r\n$hi\r\n");
    assert_eq!(r, Err(ParseError::InvalidFrame));
    assert_eq!(n, 6);
}

#[test]
fn peer_close_is_clean_only_with_an_empty_buffer() {
    assert_eq!(peer_closed(0), Ok(None));
    assert_eq!(peer_closed(3), Err(ConnectionError::ResetByPeer));
    assert_eq!(ConnectionError::ResetByPeer.message(), "connection reset by peer");
}

#[test]
fn protocol_error_messages() {
    assert_eq!(
        ParseError::IncompleteFrame.message(),
        "ERRPROTOCOL Incomplete frame, make sure that the frame is CRLF terminated"
    );
    assert_eq!(ParseError::InvalidFrame.message(), "ERRPROTOCOL Invalid frame");
}

#[test]
fn integer_stops_at_the_first_non_digit() {
    let mut cursor = Cursor::new(b"%100.5\r\n");
    assert_eq!(parse(&mut cursor), Ok(Frame::Integer(100)));
    let mut cursor = Cursor::new(b"%abc\r\n");
    assert_eq!(parse(&mut cursor), Err(ParseError::InvalidFrame));
}

#[test]
fn every_prefix_of_a_frame_is_incomplete() {
    let inputs: Vec<&[u8]> = vec![
        b"%007\r\n",
        b"*-1\r\nhello world\r\n",
        b"*7\r\nseg\r\nment\r\n",
        b"#2\r\n$a\r\n*-1\r\nxy",
    ];
    for input in inputs {
        let mut whole = Cursor::new(input);
        assert!(parse(&mut whole).is_ok());
        let end = whole.position();
        for k in 0..end {
            let mut cursor = Cursor::new(&input[..k]);
            assert_eq!(parse(&mut cursor), Err(ParseError::IncompleteFrame));
            assert_eq!(cursor.position(), 0);
        }
    }
}
