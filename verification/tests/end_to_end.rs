use std::collections::BTreeMap;

use session_log::analysis::render_page;
use session_log::gateway::{Action, Connection, Event, Frame, Phase};
use session_log::retrieval::{get_transcript, plain_reply, scan_prefix_for, NotFound};
use session_log::session::SessionRegistry;
use session_log::store::Record;

type Store = BTreeMap<Vec<u8>, Vec<u8>>;

fn scan(store: &Store, prefix: &[u8]) -> Vec<Record> {
    store
        .range(prefix.to_vec()..)
        .take_while(|(key, _)| key.starts_with(prefix))
        .map(|(key, value)| Record { key: key.clone(), value: value.clone() })
        .collect()
}

fn open(registry: &mut SessionRegistry) -> Connection {
    let session = registry.new_session().expect("a fresh identifier");
    let mut connection = Connection::accept(session, false);
    assert_eq!(connection.step(Event::HandshakeCompleted), Action::Receive);
    connection
}

fn send(store: &mut Store, connection: &mut Connection, frame: Frame) -> Vec<Frame> {
    let mut sent = Vec::new();
    let mut action = connection.step(Event::Received(frame));
    loop {
        match action {
            Action::Put { key, value } => {
                assert!(store.insert(key, value).is_none());
                action = connection.step(Event::Stored);
            }
            Action::Flush => {
                action = connection.step(Event::Flushed);
            }
            Action::Send(frame) => {
                sent.push(frame);
                return sent;
            }
            Action::Close => {
                action = connection.step(Event::CloseSent);
            }
            Action::Receive | Action::Release | Action::Done => return sent,
        }
    }
}

fn text(line: &str) -> Frame {
    Frame::Text(line.to_string())
}

fn retrieve(store: &Store, id: &str) -> Result<Vec<u8>, NotFound> {
    let prefix = match scan_prefix_for(id) {
        Some(prefix) => prefix,
        None => return Err(NotFound),
    };
    let records = scan(store, &prefix);
    get_transcript(id, &records).map(|transcript| transcript.body(b"\n"))
}

#[test]
fn hello_world_is_read_back_in_order() {
    let mut registry = SessionRegistry::new();
    let mut store = Store::new();
    let mut connection = open(&mut registry);
    let id = connection.session().id().as_str().to_string();
    assert_eq!(send(&mut store, &mut connection, text("hello\n")), vec![text("hello\n")]);
    assert_eq!(send(&mut store, &mut connection, text("world\n")), vec![text("world\n")]);
    assert_eq!(send(&mut store, &mut connection, Frame::Close), vec![]);
    assert_eq!(connection.phase(), Phase::Closed);
    assert!(registry.retire(connection.session().id()));
    assert_eq!(retrieve(&store, &id), Ok(b"hello\nworld".to_vec()));
    let reply = plain_reply(&id, &scan(&store, id.as_bytes()));
    assert_eq!(reply.status, 200);
    assert_eq!(reply.body, b"hello\nworld".to_vec());
}

#[test]
fn stored_values_are_what_was_received() {
    let mut registry = SessionRegistry::new();
    let mut store = Store::new();
    let mut connection = open(&mut registry);
    let id = connection.session().id().as_str().to_string();
    send(&mut store, &mut connection, text("hello\n"));
    send(&mut store, &mut connection, text("world\r\n"));
    let records = scan(&store, id.as_bytes());
    assert_eq!(records.len(), 2);
    assert_eq!(records[0].value, b"hello\n".to_vec());
    assert_eq!(records[1].value, b"world\r\n".to_vec());
    let transcript = get_transcript(&id, &records).unwrap();
    assert_eq!(transcript.record(0), b"hello\n");
    assert_eq!(transcript.record(1), b"world\r\n");
}

#[test]
fn unknown_session_is_not_found() {
    let mut registry = SessionRegistry::new();
    let mut store = Store::new();
    let mut connection = open(&mut registry);
    send(&mut store, &mut connection, text("hello\n"));
    assert_eq!(retrieve(&store, "123e4567-e89b-42d3-a456-426614174000"), Err(NotFound));
    assert_eq!(retrieve(&Store::new(), "123e4567-e89b-42d3-a456-426614174000"), Err(NotFound));
}

#[test]
fn sentinel_is_not_found_whatever_the_store_holds() {
    let mut registry = SessionRegistry::new();
    let mut store = Store::new();
    assert_eq!(retrieve(&store, "0"), Err(NotFound));
    for _ in 0..20 {
        let mut connection = open(&mut registry);
        send(&mut store, &mut connection, text("filler\n"));
    }
    assert_eq!(retrieve(&store, "0"), Err(NotFound));
    let everything = scan(&store, b"");
    assert_eq!(everything.len(), 20);
    assert_eq!(get_transcript("0", &everything), Err(NotFound));
    assert_eq!(plain_reply("0", &everything).status, 404);
}

#[test]
fn two_interleaved_sessions_keep_their_own_order() {
    let mut registry = SessionRegistry::new();
    let mut store = Store::new();
    let mut first = open(&mut registry);
    let mut second = open(&mut registry);
    let first_id = first.session().id().as_str().to_string();
    let second_id = second.session().id().as_str().to_string();
    assert_ne!(first_id, second_id);
    send(&mut store, &mut first, text("a1\n"));
    send(&mut store, &mut second, text("b1\n"));
    send(&mut store, &mut second, text("b2\n"));
    send(&mut store, &mut first, text("a2\n"));
    send(&mut store, &mut first, text("a3\n"));
    send(&mut store, &mut second, text("b3\n"));
    assert_eq!(retrieve(&store, &first_id), Ok(b"a1\na2\na3".to_vec()));
    assert_eq!(retrieve(&store, &second_id), Ok(b"b1\nb2\nb3".to_vec()));
}

#[test]
fn many_records_are_read_back_in_send_order() {
    let mut registry = SessionRegistry::new();
    let mut store = Store::new();
    let mut connection = open(&mut registry);
    let id = connection.session().id().as_str().to_string();
    let mut expected: Vec<String> = Vec::new();
    for n in 0..120 {
        let line = format!("line {}", n);
        send(&mut store, &mut connection, text(&format!("{}\n", line)));
        expected.push(line);
    }
    assert_eq!(connection.session().sequence(), 120);
    let records = scan(&store, id.as_bytes());
    assert_eq!(records.len(), 120);
    for (n, record) in records.iter().enumerate() {
        assert_eq!(record.key, format!("{}-{:020}", id, n).into_bytes());
    }
    assert_eq!(retrieve(&store, &id), Ok(expected.join("\n").into_bytes()));
}

#[test]
fn same_input_on_two_sessions_gives_disjoint_logs() {
    let mut registry = SessionRegistry::new();
    let mut store = Store::new();
    let mut first = open(&mut registry);
    let mut second = open(&mut registry);
    for line in ["x\n", "y\n", "z\n"] {
        send(&mut store, &mut first, text(line));
    }
    for line in ["x\n", "y\n", "z\n"] {
        send(&mut store, &mut second, text(line));
    }
    assert_eq!(store.len(), 6);
    let first_keys: Vec<Vec<u8>> =
        scan(&store, first.session().id().as_str().as_bytes()).into_iter().map(|r| r.key).collect();
    let second_keys: Vec<Vec<u8>> =
        scan(&store, second.session().id().as_str().as_bytes()).into_iter().map(|r| r.key).collect();
    assert_eq!(first_keys.len(), 3);
    assert_eq!(second_keys.len(), 3);
    for key in &first_keys {
        assert!(!second_keys.contains(key));
    }
}

#[test]
fn pings_and_binary_frames_leave_no_gap() {
    let mut registry = SessionRegistry::new();
    let mut store = Store::new();
    let mut connection = open(&mut registry);
    let id = connection.session().id().as_str().to_string();
    send(&mut store, &mut connection, text("one\n"));
    assert_eq!(
        send(&mut store, &mut connection, Frame::Ping(vec![7])),
        vec![Frame::Pong(vec![7])]
    );
    send(&mut store, &mut connection, Frame::Binary(vec![1, 2, 3]));
    send(&mut store, &mut connection, text("two\n"));
    let records = scan(&store, id.as_bytes());
    assert_eq!(records.len(), 2);
    assert_eq!(records[0].key, format!("{}-{:020}", id, 0).into_bytes());
    assert_eq!(records[1].key, format!("{}-{:020}", id, 1).into_bytes());
    assert_eq!(retrieve(&store, &id), Ok(b"one\ntwo".to_vec()));
}

#[test]
fn retrieval_twice_gives_the_same_bytes() {
    let mut registry = SessionRegistry::new();
    let mut store = Store::new();
    let mut connection = open(&mut registry);
    let id = connection.session().id().as_str().to_string();
    send(&mut store, &mut connection, text("hello\n"));
    send(&mut store, &mut connection, text("world\n"));
    let first = retrieve(&store, &id);
    let second = retrieve(&store, &id);
    assert_eq!(first, second);
    assert_eq!(first, Ok(b"hello\nworld".to_vec()));
}

#[test]
fn retrieval_during_a_session_sees_what_is_written_so_far() {
    let mut registry = SessionRegistry::new();
    let mut store = Store::new();
    let mut connection = open(&mut registry);
    let id = connection.session().id().as_str().to_string();
    assert_eq!(retrieve(&store, &id), Err(NotFound));
    send(&mut store, &mut connection, text("hello\n"));
    assert_eq!(retrieve(&store, &id), Ok(b"hello".to_vec()));
    send(&mut store, &mut connection, text("world\n"));
    assert_eq!(retrieve(&store, &id), Ok(b"hello\nworld".to_vec()));
}

#[test]
fn failed_write_is_not_echoed_and_leaves_the_log_as_it_was() {
    let mut registry = SessionRegistry::new();
    let mut store = Store::new();
    let mut connection = open(&mut registry);
    let id = connection.session().id().as_str().to_string();
    send(&mut store, &mut connection, text("kept\n"));
    let action = connection.step(Event::Received(text("lost\n")));
    assert!(matches!(action, Action::Put { .. }));
    assert_eq!(connection.step(Event::PersistFailed), Action::Close);
    assert_eq!(connection.step(Event::CloseSent), Action::Release);
    assert_eq!(connection.phase(), Phase::Closed);
    assert_eq!(connection.session().sequence(), 1);
    assert_eq!(retrieve(&store, &id), Ok(b"kept".to_vec()));
}

#[test]
fn page_degrades_to_the_raw_transcript() {
    let mut registry = SessionRegistry::new();
    let mut store = Store::new();
    let mut connection = open(&mut registry);
    let id = connection.session().id().as_str().to_string();
    send(&mut store, &mut connection, text("hello\n"));
    send(&mut store, &mut connection, text("world\n"));
    let records = scan(&store, id.as_bytes());
    let body = get_transcript(&id, &records).unwrap().body(b"<br>");
    let transcript = String::from_utf8_lossy(&body).to_string();
    assert_eq!(transcript, "hello<br>world");
    let page = render_page(None, None, &transcript);
    assert!(page.contains("<div><code>hello<br>world</code></div>"));
    assert!(!page.contains("<div><p>"));
}
