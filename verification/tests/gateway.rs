use session_log::gateway::{
    results_location, Action, Connection, Event, Frame, Phase, RESULTS_HEADER,
};
use session_log::session::{Session, SessionId};

const A: &str = "123e4567-e89b-42d3-a456-426614174000";

fn handshaking(echo_binary: bool) -> Connection {
    Connection::accept(Session::open(SessionId::parse(A).unwrap()), echo_binary)
}

fn open(echo_binary: bool) -> Connection {
    let mut connection = handshaking(echo_binary);
    assert_eq!(connection.step(Event::HandshakeCompleted), Action::Receive);
    connection
}

#[test]
fn results_location_joins_base_and_identifier() {
    let id = SessionId::parse(A).unwrap();
    assert_eq!(
        results_location("http://127.0.0.1:3000", &id),
        "http://127.0.0.1:3000/123e4567-e89b-42d3-a456-426614174000"
    );
    assert_eq!(results_location("", &id), format!("/{}", A));
    assert_eq!(RESULTS_HEADER, "x-results-url");
}

#[test]
fn connection_starts_handshaking() {
    let connection = handshaking(false);
    assert_eq!(connection.phase(), Phase::Handshaking);
    assert_eq!(connection.session().sequence(), 0);
    assert_eq!(connection.session().id().as_str(), A);
}

#[test]
fn completed_handshake_opens() {
    let mut connection = handshaking(false);
    assert_eq!(connection.step(Event::HandshakeCompleted), Action::Receive);
    assert_eq!(connection.phase(), Phase::Open);
}

#[test]
fn failed_handshake_closes_without_persisting() {
    let mut connection = handshaking(false);
    assert_eq!(connection.step(Event::HandshakeFailed), Action::Release);
    assert_eq!(connection.phase(), Phase::Closed);
    assert_eq!(connection.session().sequence(), 0);
    assert_eq!(connection.step(Event::Received(Frame::Text("late".to_string()))), Action::Done);
}

#[test]
fn frame_before_the_handshake_closes() {
    let mut connection = handshaking(false);
    assert_eq!(
        connection.step(Event::Received(Frame::Text("early".to_string()))),
        Action::Release
    );
    assert_eq!(connection.phase(), Phase::Closed);
}

#[test]
fn text_frame_is_put_under_the_next_key() {
    let mut connection = open(false);
    let action = connection.step(Event::Received(Frame::Text("hello\n".to_string())));
    assert_eq!(
        action,
        Action::Put {
            key: b"123e4567-e89b-42d3-a456-426614174000-00000000000000000000".to_vec(),
            value: b"hello\n".to_vec(),
        }
    );
    assert_eq!(connection.phase(), Phase::Open);
    assert_eq!(connection.session().sequence(), 0);
}

#[test]
fn stored_record_is_flushed_before_it_is_echoed() {
    let mut connection = open(false);
    connection.step(Event::Received(Frame::Text("hello\n".to_string())));
    assert_eq!(connection.step(Event::Stored), Action::Flush);
    assert_eq!(connection.session().sequence(), 0);
    assert_eq!(connection.phase(), Phase::Open);
}

#[test]
fn flushed_frame_is_echoed_and_counted() {
    let mut connection = open(false);
    connection.step(Event::Received(Frame::Text("hello\n".to_string())));
    assert_eq!(connection.step(Event::Stored), Action::Flush);
    assert_eq!(
        connection.step(Event::Flushed),
        Action::Send(Frame::Text("hello\n".to_string()))
    );
    assert_eq!(connection.session().sequence(), 1);
    let action = connection.step(Event::Received(Frame::Text("world\r\n".to_string())));
    assert_eq!(
        action,
        Action::Put {
            key: b"123e4567-e89b-42d3-a456-426614174000-00000000000000000001".to_vec(),
            value: b"world\r\n".to_vec(),
        }
    );
}

#[test]
fn text_of_several_bytes_per_character_is_stored_as_its_bytes() {
    let mut connection = open(false);
    let action = connection.step(Event::Received(Frame::Text("grüße →".to_string())));
    assert_eq!(
        action,
        Action::Put {
            key: b"123e4567-e89b-42d3-a456-426614174000-00000000000000000000".to_vec(),
            value: "grüße →".as_bytes().to_vec(),
        }
    );
}

#[test]
fn failed_put_closes_and_does_not_count() {
    let mut connection = open(false);
    connection.step(Event::Received(Frame::Text("lost".to_string())));
    assert_eq!(connection.step(Event::PersistFailed), Action::Close);
    assert_eq!(connection.phase(), Phase::Closing);
    assert_eq!(connection.session().sequence(), 0);
    assert_eq!(connection.step(Event::CloseSent), Action::Release);
    assert_eq!(connection.phase(), Phase::Closed);
    assert_eq!(connection.step(Event::Stored), Action::Done);
    assert_eq!(connection.step(Event::Flushed), Action::Done);
    assert_eq!(connection.session().sequence(), 0);
}

#[test]
fn failed_flush_closes_and_does_not_count() {
    let mut connection = open(false);
    connection.step(Event::Received(Frame::Text("lost".to_string())));
    assert_eq!(connection.step(Event::Stored), Action::Flush);
    assert_eq!(connection.step(Event::PersistFailed), Action::Close);
    assert_eq!(connection.phase(), Phase::Closing);
    assert_eq!(connection.session().sequence(), 0);
    assert_eq!(connection.step(Event::CloseSent), Action::Release);
    assert_eq!(connection.session().sequence(), 0);
}

#[test]
fn flush_report_before_the_put_report_closes() {
    let mut connection = open(false);
    connection.step(Event::Received(Frame::Text("x".to_string())));
    assert_eq!(connection.step(Event::Flushed), Action::Close);
    assert_eq!(connection.session().sequence(), 0);
    let mut twice = open(false);
    twice.step(Event::Received(Frame::Text("x".to_string())));
    assert_eq!(twice.step(Event::Stored), Action::Flush);
    assert_eq!(twice.step(Event::Stored), Action::Close);
    assert_eq!(twice.session().sequence(), 0);
}

#[test]
fn ping_is_answered_with_the_same_payload() {
    let mut connection = open(false);
    assert_eq!(
        connection.step(Event::Received(Frame::Ping(vec![1, 2, 3]))),
        Action::Send(Frame::Pong(vec![1, 2, 3]))
    );
    assert_eq!(connection.phase(), Phase::Open);
    assert_eq!(connection.session().sequence(), 0);
}

#[test]
fn pong_is_ignored() {
    let mut connection = open(false);
    assert_eq!(connection.step(Event::Received(Frame::Pong(vec![9]))), Action::Receive);
    assert_eq!(connection.phase(), Phase::Open);
}

#[test]
fn binary_frame_is_ignored_and_takes_no_sequence_number() {
    let mut connection = open(false);
    assert_eq!(connection.step(Event::Received(Frame::Binary(vec![0, 255]))), Action::Receive);
    assert_eq!(connection.session().sequence(), 0);
    let action = connection.step(Event::Received(Frame::Text("first".to_string())));
    assert_eq!(
        action,
        Action::Put {
            key: b"123e4567-e89b-42d3-a456-426614174000-00000000000000000000".to_vec(),
            value: b"first".to_vec(),
        }
    );
}

#[test]
fn binary_frame_is_echoed_where_configured() {
    let mut connection = open(true);
    assert_eq!(
        connection.step(Event::Received(Frame::Binary(vec![0, 255]))),
        Action::Send(Frame::Binary(vec![0, 255]))
    );
    assert_eq!(connection.session().sequence(), 0);
    assert_eq!(connection.phase(), Phase::Open);
}

#[test]
fn close_frame_is_acknowledged_and_released() {
    let mut connection = open(false);
    assert_eq!(connection.step(Event::Received(Frame::Close)), Action::Close);
    assert_eq!(connection.phase(), Phase::Closing);
    assert_eq!(connection.step(Event::CloseSent), Action::Release);
    assert_eq!(connection.phase(), Phase::Closed);
    assert_eq!(connection.step(Event::CloseSent), Action::Done);
    assert_eq!(connection.phase(), Phase::Closed);
}

#[test]
fn end_of_stream_closes() {
    let mut connection = open(false);
    assert_eq!(connection.step(Event::StreamEnded), Action::Close);
    assert_eq!(connection.phase(), Phase::Closing);
}

#[test]
fn transport_error_closes() {
    let mut connection = open(false);
    assert_eq!(connection.step(Event::TransportFailed), Action::Close);
    assert_eq!(connection.phase(), Phase::Closing);
    assert_eq!(connection.step(Event::TransportFailed), Action::Release);
}

#[test]
fn transport_error_while_persisting_drops_the_frame() {
    let mut connection = open(false);
    connection.step(Event::Received(Frame::Text("x".to_string())));
    assert_eq!(connection.step(Event::TransportFailed), Action::Close);
    assert_eq!(connection.session().sequence(), 0);
    assert_eq!(connection.phase(), Phase::Closing);
}

#[test]
fn event_out_of_turn_closes() {
    let mut connection = open(false);
    assert_eq!(connection.step(Event::Flushed), Action::Close);
    assert_eq!(connection.phase(), Phase::Closing);
    let mut persisting = open(false);
    persisting.step(Event::Received(Frame::Text("a".to_string())));
    assert_eq!(
        persisting.step(Event::Received(Frame::Text("b".to_string()))),
        Action::Close
    );
    assert_eq!(persisting.session().sequence(), 0);
}

#[test]
fn connection_continues_from_the_counter_of_its_session() {
    let mut session = Session::open(SessionId::parse(A).unwrap());
    assert!(!session.is_exhausted());
    assert_eq!(session.next_sequence(), 0);
    let mut connection = Connection::accept(session, false);
    connection.step(Event::HandshakeCompleted);
    let action = connection.step(Event::Received(Frame::Text("second".to_string())));
    assert_eq!(
        action,
        Action::Put {
            key: b"123e4567-e89b-42d3-a456-426614174000-00000000000000000001".to_vec(),
            value: b"second".to_vec(),
        }
    );
}
