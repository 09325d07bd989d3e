use mini_resp::cmd::CmdError;
use mini_resp::conn::{answer, step, ConnAction, ConnEvent, ConnState};
use mini_resp::decode::DecodeError;
use mini_resp::resp::Msg;

fn bulk_string(s: &str) -> Msg {
    Msg::BulkString(s.to_string())
}

/// Runs a connection over `input`. The output takes `capacity` writes and fails after that.
/// Returns what was written and what was reported.
fn serve(input: &[u8], capacity: usize) -> (Vec<u8>, Vec<DecodeError>, ConnState) {
    let mut decoder = Msg::decoder(input.iter().copied());
    let mut written: Vec<u8> = Vec::new();
    let mut reported: Vec<DecodeError> = Vec::new();
    let mut writes = 0;
    let mut state = ConnState::Reading;
    let mut action = ConnAction::Read;
    loop {
        let event = match action {
            ConnAction::Read => ConnEvent::Frame(decoder.next()),
            ConnAction::Report(e) => {
                reported.push(e);
                ConnEvent::Frame(decoder.next())
            }
            ConnAction::Write { bytes, .. } => {
                if writes < capacity {
                    writes += 1;
                    written.extend_from_slice(&bytes);
                    ConnEvent::Written(true)
                } else {
                    ConnEvent::Written(false)
                }
            }
            ConnAction::Close => break,
        };
        let next = step(state, event);
        state = next.0;
        action = next.1;
    }
    (written, reported, state)
}

#[test]
fn end_of_stream_closes_the_connection() {
    assert_eq!(
        step(ConnState::Reading, ConnEvent::Frame(None)),
        (ConnState::Terminated, ConnAction::Close)
    );
}

#[test]
fn malformed_frame_is_reported_and_reading_goes_on() {
    assert_eq!(
        step(ConnState::Reading, ConnEvent::Frame(Some(Err(DecodeError::BadTerminator)))),
        (ConnState::Reading, ConnAction::Report(DecodeError::BadTerminator))
    );
}

#[test]
fn command_is_answered_with_its_response() {
    let request = Msg::Array(vec![bulk_string("PING"), bulk_string("hello")]);
    assert_eq!(
        step(ConnState::Reading, ConnEvent::Frame(Some(Ok(request)))),
        (
            ConnState::Writing,
            ConnAction::Write {
                response: bulk_string("hello"),
                bytes: b"$5\r\nhello\r\n".to_vec(),
                rejected: None,
            }
        )
    );
}

#[test]
fn request_that_is_no_command_is_answered_with_null() {
    let request = Msg::Array(vec![bulk_string("FOO")]);
    assert_eq!(
        step(ConnState::Reading, ConnEvent::Frame(Some(Ok(request)))),
        (
            ConnState::Writing,
            ConnAction::Write {
                response: Msg::Null,
                bytes: b"$-1\r\n".to_vec(),
                rejected: Some(CmdError::UnknownCommand("FOO".to_string())),
            }
        )
    );
    assert_eq!(
        answer(&Msg::Integer(3)),
        ConnAction::Write {
            response: Msg::Null,
            bytes: b"$-1\r\n".to_vec(),
            rejected: Some(CmdError::TypeMismatch(mini_resp::resp::TypeMismatch {
                expected: mini_resp::resp::Kind::Array,
                actual: mini_resp::resp::Kind::Integer,
            })),
        }
    );
}

#[test]
fn full_write_goes_back_to_reading() {
    assert_eq!(
        step(ConnState::Writing, ConnEvent::Written(true)),
        (ConnState::Reading, ConnAction::Read)
    );
}

#[test]
fn failed_write_terminates_the_connection() {
    for state in [ConnState::Reading, ConnState::Writing, ConnState::Terminated] {
        assert_eq!(
            step(state, ConnEvent::Written(false)),
            (ConnState::Terminated, ConnAction::Close)
        );
    }
}

#[test]
fn terminated_connection_stays_terminated() {
    assert_eq!(
        step(ConnState::Terminated, ConnEvent::Frame(Some(Ok(Msg::Null)))),
        (ConnState::Terminated, ConnAction::Close)
    );
    assert_eq!(
        step(ConnState::Terminated, ConnEvent::Written(true)),
        (ConnState::Terminated, ConnAction::Close)
    );
    assert_eq!(
        step(ConnState::Terminated, ConnEvent::Frame(None)),
        (ConnState::Terminated, ConnAction::Close)
    );
}

#[test]
fn event_out_of_turn_terminates_the_connection() {
    assert_eq!(
        step(ConnState::Reading, ConnEvent::Written(true)),
        (ConnState::Terminated, ConnAction::Close)
    );
    assert_eq!(
        step(ConnState::Writing, ConnEvent::Frame(Some(Ok(Msg::Null)))),
        (ConnState::Terminated, ConnAction::Close)
    );
    assert_eq!(
        step(ConnState::Writing, ConnEvent::Frame(None)),
        (ConnState::Terminated, ConnAction::Close)
    );
}

#[test]
fn connection_answers_ping_after_a_malformed_frame() {
    // A bulk string with a bad terminator, then a well-formed PING.
    let (written, reported, state) = serve(b"$3\r\nabcXY*1\r\n$4\r\nPING\r\n", 10);
    assert_eq!(reported, vec![DecodeError::BadTerminator]);
    assert_eq!(written, b"+PONG\r\n".to_vec());
    assert_eq!(state, ConnState::Terminated);
}

#[test]
fn connection_answers_each_request_in_order() {
    let input = b"*1\r\n$4\r\nPING\r\n*2\r\n$4\r\nECHO\r\n$2\r\nhi\r\n*1\r\n$3\r\nFOO\r\n:5\r\n";
    let (written, reported, state) = serve(input, 10);
    assert_eq!(reported, vec![]);
    assert_eq!(written, b"+PONG\r\n$2\r\nhi\r\n$-1\r\n$-1\r\n".to_vec());
    assert_eq!(state, ConnState::Terminated);
}

#[test]
fn connection_on_an_empty_stream_writes_nothing() {
    let (written, reported, state) = serve(b"", 10);
    assert_eq!(written, Vec::<u8>::new());
    assert_eq!(reported, vec![]);
    assert_eq!(state, ConnState::Terminated);
}

#[test]
fn connection_ends_at_the_first_failed_write() {
    let input = b"*1\r\n$4\r\nPING\r\n*1\r\n$4\r\nPING\r\n*1\r\n$4\r\nPING\r\n";
    let (written, _, state) = serve(input, 1);
    assert_eq!(written, b"+PONG\r\n".to_vec());
    assert_eq!(state, ConnState::Terminated);
    let (written, _, state) = serve(input, 0);
    assert_eq!(written, Vec::<u8>::new());
    assert_eq!(state, ConnState::Terminated);
}
