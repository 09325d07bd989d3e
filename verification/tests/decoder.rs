use mini_resp::decode::{take_bytes, take_number, take_till_crlf, DecodeError, Decoder, MAX_DEPTH};
use mini_resp::resp::Msg;

fn owned(s: &str) -> String {
    s.to_string()
}

/// Decodes one message and returns it with the bytes that are left.
fn decode_one(input: &[u8]) -> (Option<Result<Msg, DecodeError>>, Vec<u8>) {
    let mut bytes = input.iter().copied();
    let r = Msg::decode(&mut bytes);
    (r, bytes.collect())
}

fn decode_ok(input: &[u8]) -> Msg {
    match decode_one(input) {
        (Some(Ok(msg)), rest) => {
            assert_eq!(rest, Vec::<u8>::new());
            msg
        }
        other => panic!("no message: {:?}", other),
    }
}

fn decode_err(input: &[u8]) -> DecodeError {
    match decode_one(input).0 {
        Some(Err(e)) => e,
        other => panic!("no error: {:?}", other),
    }
}

#[test]
fn decode_ping_with_argument() {
    assert_eq!(
        decode_ok(b"*2\r\n$4\r\nPING\r\n$5\r\nhello\r\n"),
        Msg::Array(vec![Msg::BulkString(owned("PING")), Msg::BulkString(owned("hello"))])
    );
}

#[test]
fn decode_null_array() {
    assert_eq!(decode_ok(b"*-1\r\n"), Msg::Null);
}

#[test]
fn decode_null_bulk_string() {
    assert_eq!(decode_ok(b"$-1\r\n"), Msg::Null);
}

#[test]
fn decode_any_negative_length_is_null() {
    assert_eq!(decode_ok(b"$-5\r\n"), Msg::Null);
    assert_eq!(decode_ok(b"*-9223372036854775808\r\n"), Msg::Null);
}

#[test]
fn decode_simple_string() {
    assert_eq!(decode_ok(b"+OK\r\n"), Msg::SimpleString(owned("OK")));
    assert_eq!(decode_ok(b"+\r\n"), Msg::SimpleString(owned("")));
    assert_eq!(decode_ok(b"+hello world\r\n"), Msg::SimpleString(owned("hello world")));
}

#[test]
fn decode_simple_string_keeps_a_lone_line_feed() {
    assert_eq!(decode_ok(b"+a\nb\r\n"), Msg::SimpleString(owned("a\nb")));
}

#[test]
fn decode_error_message() {
    assert_eq!(decode_ok(b"-ERR bad thing\r\n"), Msg::Error(owned("ERR bad thing")));
}

#[test]
fn decode_integer() {
    assert_eq!(decode_ok(b":0\r\n"), Msg::Integer(0));
    assert_eq!(decode_ok(b":1000\r\n"), Msg::Integer(1000));
    assert_eq!(decode_ok(b":-17\r\n"), Msg::Integer(-17));
    assert_eq!(decode_ok(b":+17\r\n"), Msg::Integer(17));
    assert_eq!(decode_ok(b":9223372036854775807\r\n"), Msg::Integer(i64::MAX));
    assert_eq!(decode_ok(b":-9223372036854775808\r\n"), Msg::Integer(i64::MIN));
}

#[test]
fn decode_bulk_string() {
    assert_eq!(decode_ok(b"$5\r\nhello\r\n"), Msg::BulkString(owned("hello")));
    assert_eq!(decode_ok(b"$0\r\n\r\n"), Msg::BulkString(owned("")));
}

#[test]
fn decode_bulk_string_may_hold_line_breaks() {
    assert_eq!(decode_ok(b"$4\r\na\r\nb\r\n"), Msg::BulkString(owned("a\r\nb")));
}

#[test]
fn decode_bulk_string_of_several_bytes_per_character() {
    assert_eq!(decode_ok(b"$5\r\n\xc3\xa9\xe2\x82\xac\r\n"), Msg::BulkString(owned("é€")));
}

#[test]
fn decode_bulk_string_longer_than_a_signed_byte_can_count() {
    let payload = "y".repeat(200);
    let mut input = b"$200\r\n".to_vec();
    input.extend_from_slice(payload.as_bytes());
    input.extend_from_slice(b"\r\n");
    assert_eq!(decode_ok(&input), Msg::BulkString(payload));
}

#[test]
fn decode_array_longer_than_a_signed_byte_can_count() {
    let mut input = b"*130\r\n".to_vec();
    for _ in 0..130 {
        input.extend_from_slice(b":1\r\n");
    }
    let expected: Vec<Msg> = (0..130).map(|_| Msg::Integer(1)).collect();
    assert_eq!(decode_ok(&input), Msg::Array(expected));
}

#[test]
fn decode_empty_array() {
    assert_eq!(decode_ok(b"*0\r\n"), Msg::Array(vec![]));
}

#[test]
fn decode_nested_mixed_array() {
    assert_eq!(
        decode_ok(b"*3\r\n:1\r\n*2\r\n+a\r\n$-1\r\n-e\r\n"),
        Msg::Array(vec![
            Msg::Integer(1),
            Msg::Array(vec![Msg::SimpleString(owned("a")), Msg::Null]),
            Msg::Error(owned("e")),
        ])
    );
}

#[test]
fn decode_at_end_of_stream_is_none() {
    assert_eq!(decode_one(b""), (None, vec![]));
}

#[test]
fn decode_leaves_what_follows_the_frame() {
    let (r, rest) = decode_one(b"+OK\r\n:1\r\n");
    assert_eq!(r, Some(Ok(Msg::SimpleString(owned("OK")))));
    assert_eq!(rest, b":1\r\n".to_vec());
}

#[test]
fn decode_unexpected_leading_byte() {
    let (r, rest) = decode_one(b"?abc\r\n");
    assert_eq!(r, Some(Err(DecodeError::UnexpectedByte(b'?'))));
    assert_eq!(rest, b"abc\r\n".to_vec());
    assert_eq!(decode_err(b"\r\n"), DecodeError::UnexpectedByte(b'\r'));
    assert_eq!(decode_err(b"P"), DecodeError::UnexpectedByte(b'P'));
}

#[test]
fn decode_line_without_line_feed() {
    // The carriage return and the byte after it are taken from the source.
    let (r, rest) = decode_one(b"+abc\rX+OK\r\n");
    assert_eq!(r, Some(Err(DecodeError::MissingCrlf)));
    assert_eq!(rest, b"+OK\r\n".to_vec());
}

#[test]
fn decode_line_cut_short() {
    assert_eq!(decode_one(b"+abc"), (Some(Err(DecodeError::MissingCrlf)), vec![]));
    assert_eq!(decode_one(b"+abc\r"), (Some(Err(DecodeError::MissingCrlf)), vec![]));
    assert_eq!(decode_one(b"+"), (Some(Err(DecodeError::MissingCrlf)), vec![]));
    assert_eq!(decode_one(b":12"), (Some(Err(DecodeError::MissingCrlf)), vec![]));
    assert_eq!(decode_one(b"$"), (Some(Err(DecodeError::MissingCrlf)), vec![]));
}

#[test]
fn decode_line_of_invalid_text() {
    let (r, rest) = decode_one(b"+\xff\xfe\r\n:1\r\n");
    assert_eq!(r, Some(Err(DecodeError::InvalidText)));
    assert_eq!(rest, b":1\r\n".to_vec());
    assert_eq!(decode_err(b"-\xc3\r\n"), DecodeError::InvalidText);
    // An overlong encoding and a surrogate are no text either.
    assert_eq!(decode_err(b"+\xc0\x80\r\n"), DecodeError::InvalidText);
    assert_eq!(decode_err(b"+\xed\xa0\x80\r\n"), DecodeError::InvalidText);
}

#[test]
fn decode_missing_line_end_comes_before_invalid_text() {
    assert_eq!(decode_err(b"+\xff\rX"), DecodeError::MissingCrlf);
}

#[test]
fn decode_invalid_numbers() {
    assert_eq!(decode_err(b":\r\n"), DecodeError::InvalidNumber);
    assert_eq!(decode_err(b":abc\r\n"), DecodeError::InvalidNumber);
    assert_eq!(decode_err(b":-\r\n"), DecodeError::InvalidNumber);
    assert_eq!(decode_err(b":1 \r\n"), DecodeError::InvalidNumber);
    assert_eq!(decode_err(b":9223372036854775808\r\n"), DecodeError::InvalidNumber);
    assert_eq!(decode_err(b"$x\r\n"), DecodeError::InvalidNumber);
    assert_eq!(decode_err(b"$\r\n"), DecodeError::InvalidNumber);
    assert_eq!(decode_err(b"*1.5\r\n"), DecodeError::InvalidNumber);
    assert_eq!(decode_err(b"*99999999999999999999\r\n"), DecodeError::InvalidNumber);
}

#[test]
fn decode_number_of_invalid_text() {
    assert_eq!(decode_err(b":\xff\r\n"), DecodeError::InvalidText);
    assert_eq!(decode_err(b"$\xff\r\n"), DecodeError::InvalidText);
}

#[test]
fn decode_bulk_string_with_bad_terminator() {
    let (r, rest) = decode_one(b"$3\r\nabcXY+OK\r\n");
    assert_eq!(r, Some(Err(DecodeError::BadTerminator)));
    assert_eq!(rest, b"+OK\r\n".to_vec());
    assert_eq!(decode_err(b"$3\r\nabc\rX"), DecodeError::BadTerminator);
    assert_eq!(decode_err(b"$3\r\nabc\n\r"), DecodeError::BadTerminator);
    assert_eq!(decode_err(b"$5\r\nhello world\r\n"), DecodeError::BadTerminator);
}

#[test]
fn decode_bulk_string_cut_short() {
    assert_eq!(decode_one(b"$3\r\nab"), (Some(Err(DecodeError::BadTerminator)), vec![]));
    assert_eq!(decode_one(b"$3\r\nabc"), (Some(Err(DecodeError::BadTerminator)), vec![]));
    assert_eq!(decode_one(b"$3\r\nabc\r"), (Some(Err(DecodeError::BadTerminator)), vec![]));
    assert_eq!(decode_one(b"$3\r\n"), (Some(Err(DecodeError::BadTerminator)), vec![]));
}

#[test]
fn decode_bulk_string_of_invalid_text() {
    // The frame is taken from the source in full; the next frame follows.
    let (r, rest) = decode_one(b"$2\r\n\xff\xfe\r\n+OK\r\n");
    assert_eq!(r, Some(Err(DecodeError::InvalidText)));
    assert_eq!(rest, b"+OK\r\n".to_vec());
}

#[test]
fn decode_bad_terminator_comes_before_invalid_text() {
    assert_eq!(decode_err(b"$2\r\n\xff\xfeXY"), DecodeError::BadTerminator);
}

#[test]
fn decode_truncated_array() {
    assert_eq!(
        decode_one(b"*2\r\n:1\r\n"),
        (Some(Err(DecodeError::TruncatedArray { index: 1, len: 2 })), vec![])
    );
    assert_eq!(decode_err(b"*3\r\n"), DecodeError::TruncatedArray { index: 0, len: 3 });
}

#[test]
fn decode_array_with_failing_element() {
    let (r, rest) = decode_one(b"*3\r\n:1\r\n?x:2\r\n");
    assert_eq!(
        r,
        Some(Err(DecodeError::Element {
            index: 1,
            len: 3,
            cause: Box::new(DecodeError::UnexpectedByte(b'?')),
        }))
    );
    assert_eq!(rest, b"x:2\r\n".to_vec());
}

#[test]
fn decode_array_with_failing_element_in_nested_array() {
    assert_eq!(
        decode_err(b"*1\r\n*2\r\n:1\r\n:x\r\n"),
        DecodeError::Element {
            index: 0,
            len: 1,
            cause: Box::new(DecodeError::Element {
                index: 1,
                len: 2,
                cause: Box::new(DecodeError::InvalidNumber),
            }),
        }
    );
    assert_eq!(
        decode_err(b"*1\r\n*2\r\n:1\r\n"),
        DecodeError::Element {
            index: 0,
            len: 1,
            cause: Box::new(DecodeError::TruncatedArray { index: 1, len: 2 }),
        }
    );
}

fn nested(levels: usize) -> (Vec<u8>, Msg) {
    let mut bytes = Vec::new();
    let mut msg = Msg::Integer(1);
    for _ in 0..levels {
        bytes.extend_from_slice(b"*1\r\n");
        msg = Msg::Array(vec![msg]);
    }
    bytes.extend_from_slice(b":1\r\n");
    (bytes, msg)
}

#[test]
fn decode_accepts_the_deepest_nesting() {
    assert_eq!(MAX_DEPTH, 32);
    let (bytes, msg) = nested(MAX_DEPTH);
    assert_eq!(decode_ok(&bytes), msg);
}

#[test]
fn decode_rejects_deeper_nesting() {
    let (bytes, _) = nested(MAX_DEPTH + 1);
    let mut expected = DecodeError::DepthExceeded;
    for _ in 0..MAX_DEPTH {
        expected = DecodeError::Element { index: 0, len: 1, cause: Box::new(expected) };
    }
    let (r, rest) = decode_one(&bytes);
    assert_eq!(r, Some(Err(expected)));
    // The header of the array that is too deep was read, its element was not.
    assert_eq!(rest, b":1\r\n".to_vec());
}

#[test]
fn decode_bounded_counts_levels_of_arrays() {
    let mut flat = b"*1\r\n:1\r\n".iter().copied();
    assert_eq!(Msg::decode_bounded(&mut flat, 0), Some(Err(DecodeError::DepthExceeded)));
    let mut flat = b"*1\r\n:1\r\n".iter().copied();
    assert_eq!(Msg::decode_bounded(&mut flat, 1), Some(Ok(Msg::Array(vec![Msg::Integer(1)]))));
    let mut plain = b":1\r\n".iter().copied();
    assert_eq!(Msg::decode_bounded(&mut plain, 0), Some(Ok(Msg::Integer(1))));
    let mut empty = b"*0\r\n".iter().copied();
    assert_eq!(Msg::decode_bounded(&mut empty, 0), Some(Err(DecodeError::DepthExceeded)));
    let mut null = b"*-1\r\n".iter().copied();
    assert_eq!(Msg::decode_bounded(&mut null, 0), Some(Ok(Msg::Null)));
    let mut two = b"*1\r\n*0\r\n".iter().copied();
    assert_eq!(
        Msg::decode_bounded(&mut two, 1),
        Some(Err(DecodeError::Element {
            index: 0,
            len: 1,
            cause: Box::new(DecodeError::DepthExceeded),
        }))
    );
}

#[test]
fn decode_with_first_byte_reads_the_body() {
    let mut body = b"5\r\nhello\r\n+x".iter().copied();
    assert_eq!(
        Msg::decode_with_first_byte(b'$', &mut body, MAX_DEPTH),
        Ok(Msg::BulkString(owned("hello")))
    );
    assert_eq!(body.collect::<Vec<u8>>(), b"+x".to_vec());
    let mut body = b"abc".iter().copied();
    assert_eq!(
        Msg::decode_with_first_byte(b'!', &mut body, MAX_DEPTH),
        Err(DecodeError::UnexpectedByte(b'!'))
    );
    assert_eq!(body.collect::<Vec<u8>>(), b"abc".to_vec());
}

#[test]
fn decoder_reads_frame_after_frame() {
    let input = b"+OK\r\n:5\r\n$-1\r\n*1\r\n$1\r\nx\r\n";
    let mut decoder = Msg::decoder(input.iter().copied());
    assert_eq!(decoder.next(), Some(Ok(Msg::SimpleString(owned("OK")))));
    assert_eq!(decoder.next(), Some(Ok(Msg::Integer(5))));
    assert_eq!(decoder.next(), Some(Ok(Msg::Null)));
    assert_eq!(decoder.next(), Some(Ok(Msg::Array(vec![Msg::BulkString(owned("x"))]))));
    assert_eq!(decoder.next(), None);
    assert_eq!(decoder.next(), None);
}

#[test]
fn decoder_goes_on_after_a_malformed_frame() {
    let input = b"$3\r\nabcXY*1\r\n$4\r\nPING\r\n";
    let mut decoder: Decoder<_> = Msg::decoder(input.iter().copied());
    assert_eq!(decoder.next(), Some(Err(DecodeError::BadTerminator)));
    assert_eq!(decoder.next(), Some(Ok(Msg::Array(vec![Msg::BulkString(owned("PING"))]))));
    assert_eq!(decoder.next(), None);
}

#[test]
fn decoder_with_its_own_depth_limit() {
    let input = b"*1\r\n*1\r\n:1\r\n:2\r\n*1\r\n:3\r\n";
    let mut decoder = Decoder::with_max_depth(input.iter().copied(), 1);
    assert_eq!(
        decoder.next(),
        Some(Err(DecodeError::Element {
            index: 0,
            len: 1,
            cause: Box::new(DecodeError::DepthExceeded),
        }))
    );
    // The element of the inner array is still in the source.
    assert_eq!(decoder.next(), Some(Ok(Msg::Integer(1))));
    assert_eq!(decoder.next(), Some(Ok(Msg::Integer(2))));
    assert_eq!(decoder.next(), Some(Ok(Msg::Array(vec![Msg::Integer(3)]))));
    assert_eq!(decoder.next(), None);
}

#[test]
fn take_till_crlf_returns_the_text_before_the_line_end() {
    let mut bytes = b"abc\r\ndef".iter().copied();
    assert_eq!(take_till_crlf(&mut bytes), Ok(owned("abc")));
    assert_eq!(bytes.collect::<Vec<u8>>(), b"def".to_vec());
    let mut bytes = b"\r\n".iter().copied();
    assert_eq!(take_till_crlf(&mut bytes), Ok(owned("")));
    let mut bytes = b"abc\n\r\n".iter().copied();
    assert_eq!(take_till_crlf(&mut bytes), Ok(owned("abc\n")));
    let mut bytes = b"abc\r\r\n".iter().copied();
    assert_eq!(take_till_crlf(&mut bytes), Err(DecodeError::MissingCrlf));
    assert_eq!(bytes.collect::<Vec<u8>>(), b"\n".to_vec());
    let mut bytes = b"".iter().copied();
    assert_eq!(take_till_crlf(&mut bytes), Err(DecodeError::MissingCrlf));
}

#[test]
fn take_number_reads_a_decimal_line() {
    let mut bytes = b"-12\r\nrest".iter().copied();
    assert_eq!(take_number(&mut bytes), Ok(-12));
    assert_eq!(bytes.collect::<Vec<u8>>(), b"rest".to_vec());
    let mut bytes = b"12x\r\nrest".iter().copied();
    assert_eq!(take_number(&mut bytes), Err(DecodeError::InvalidNumber));
    assert_eq!(bytes.collect::<Vec<u8>>(), b"rest".to_vec());
}

#[test]
fn take_bytes_stops_at_the_end_of_the_source() {
    let mut bytes = b"abcdef".iter().copied();
    assert_eq!(take_bytes(&mut bytes, 0), Vec::<u8>::new());
    assert_eq!(take_bytes(&mut bytes, 4), b"abcd".to_vec());
    assert_eq!(take_bytes(&mut bytes, 4), b"ef".to_vec());
    assert_eq!(take_bytes(&mut bytes, u64::MAX), Vec::<u8>::new());
}

fn round_trip(msg: Msg) {
    let mut bytes = msg.encode();
    bytes.extend_from_slice(b"tail");
    let mut source = bytes.into_iter();
    assert_eq!(Msg::decode(&mut source), Some(Ok(msg)));
    assert_eq!(source.collect::<Vec<u8>>(), b"tail".to_vec());
}

#[test]
fn decode_reads_back_what_encode_writes() {
    round_trip(Msg::Null);
    round_trip(Msg::Integer(0));
    round_trip(Msg::Integer(i64::MIN));
    round_trip(Msg::Integer(i64::MAX));
    round_trip(Msg::SimpleString(owned("")));
    round_trip(Msg::SimpleString(owned("PONG")));
    round_trip(Msg::SimpleString(owned("grüße, 世界")));
    round_trip(Msg::Error(owned("ERR no such thing")));
    round_trip(Msg::BulkString(owned("")));
    round_trip(Msg::BulkString(owned("with\r\nline break")));
    round_trip(Msg::BulkString("z".repeat(1000)));
    round_trip(Msg::Array(vec![]));
    round_trip(Msg::Array(vec![Msg::Array(vec![]), Msg::Array(vec![Msg::Null])]));
    round_trip(Msg::Array(vec![
        Msg::BulkString(owned("SET")),
        Msg::BulkString(owned("key")),
        Msg::Integer(-5),
        Msg::Array(vec![Msg::SimpleString(owned("a")), Msg::Error(owned("b")), Msg::Null]),
    ]));
    round_trip(nested(MAX_DEPTH).1);
}

#[test]
fn decode_does_not_read_back_text_with_a_carriage_return() {
    let bytes = Msg::SimpleString(owned("a\r\nb")).encode();
    let mut source = bytes.into_iter();
    assert_eq!(Msg::decode(&mut source), Some(Ok(Msg::SimpleString(owned("a")))));
}
