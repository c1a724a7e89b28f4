use session_log::retrieval::{
    get_transcript, is_sentinel, liveness_reply, plain_reply, scan_prefix_for,
    strip_line_terminator, Layout, NotFound, Reply, STATUS_NOT_FOUND, STATUS_OK,
};
use session_log::store::Record;

const A: &str = "123e4567-e89b-42d3-a456-426614174000";

fn record(sequence: u64, value: &str) -> Record {
    Record {
        key: format!("{}-{:020}", A, sequence).into_bytes(),
        value: value.as_bytes().to_vec(),
    }
}

#[test]
fn line_feed_is_stripped() {
    assert_eq!(strip_line_terminator(b"hello\n"), b"hello");
}

#[test]
fn carriage_return_line_feed_is_stripped() {
    assert_eq!(strip_line_terminator(b"hello\r\n"), b"hello");
}

#[test]
fn only_one_terminator_is_stripped() {
    assert_eq!(strip_line_terminator(b"hello\n\n"), b"hello\n");
    assert_eq!(strip_line_terminator(b"hello\r\n\r\n"), b"hello\r\n");
    assert_eq!(strip_line_terminator(b"hello\n\r\n"), b"hello\n");
}

#[test]
fn value_without_terminator_is_kept() {
    assert_eq!(strip_line_terminator(b"hello"), b"hello");
    assert_eq!(strip_line_terminator(b""), b"");
    assert_eq!(strip_line_terminator(b"hello\r"), b"hello\r");
    assert_eq!(strip_line_terminator(b"\nhello"), b"\nhello");
}

#[test]
fn terminator_alone_becomes_empty() {
    assert_eq!(strip_line_terminator(b"\n"), b"");
    assert_eq!(strip_line_terminator(b"\r\n"), b"");
}

#[test]
fn separators() {
    assert_eq!(Layout::Plain.separator(), b"\n".to_vec());
    assert_eq!(Layout::Rendered.separator(), b"<br>".to_vec());
}

#[test]
fn sentinel_is_the_single_zero() {
    assert!(is_sentinel("0"));
    assert!(!is_sentinel(""));
    assert!(!is_sentinel("00"));
    assert!(!is_sentinel("1"));
    assert!(!is_sentinel(A));
}

#[test]
fn scan_prefix_is_the_identifier() {
    assert_eq!(scan_prefix_for(A), Some(A.as_bytes().to_vec()));
}

#[test]
fn no_scan_for_the_sentinel() {
    assert_eq!(scan_prefix_for("0"), None);
}

#[test]
fn no_scan_for_text_that_is_no_identifier() {
    assert_eq!(scan_prefix_for(""), None);
    assert_eq!(scan_prefix_for("1"), None);
    assert_eq!(scan_prefix_for("123e4567"), None);
    assert_eq!(scan_prefix_for("123E4567-E89B-42D3-A456-426614174000"), None);
}

#[test]
fn retrieve_sentinel_is_not_found() {
    assert_eq!(get_transcript("0", &vec![]), Err(NotFound));
    let records = vec![record(0, "a\n"), record(1, "b\n")];
    assert_eq!(get_transcript("0", &records), Err(NotFound));
    assert_eq!(plain_reply("0", &records).status, 404);
}

#[test]
fn retrieve_unknown_session_is_not_found() {
    assert_eq!(get_transcript(A, &vec![]), Err(NotFound));
    assert_eq!(
        plain_reply(A, &vec![]),
        Reply { status: STATUS_NOT_FOUND, body: vec![] }
    );
}

#[test]
fn retrieve_with_text_that_is_no_identifier_is_not_found() {
    let records = vec![record(0, "a\n")];
    assert_eq!(get_transcript("123e4567", &records), Err(NotFound));
    assert_eq!(get_transcript("", &records), Err(NotFound));
}

#[test]
fn transcript_holds_the_values_in_scan_order() {
    let records = vec![record(0, "hello\n"), record(1, "world\n")];
    let transcript = get_transcript(A, &records).expect("known");
    assert_eq!(transcript.len(), 2);
    assert_eq!(transcript.record(0), b"hello\n");
    assert_eq!(transcript.record(1), b"world\n");
}

#[test]
fn body_joins_lines_with_the_separator() {
    let records = vec![record(0, "hello\n"), record(1, "world\n")];
    let transcript = get_transcript(A, &records).unwrap();
    assert_eq!(transcript.body(b"\n"), b"hello\nworld".to_vec());
    assert_eq!(transcript.body(b"<br>"), b"hello<br>world".to_vec());
    assert_eq!(transcript.body(b""), b"helloworld".to_vec());
}

#[test]
fn body_of_one_record_has_no_separator() {
    let transcript = get_transcript(A, &vec![record(0, "only\r\n")]).unwrap();
    assert_eq!(transcript.body(b"\n"), b"only".to_vec());
}

#[test]
fn body_keeps_empty_lines() {
    let records = vec![record(0, "\n"), record(1, "x"), record(2, "")];
    let transcript = get_transcript(A, &records).unwrap();
    assert_eq!(transcript.body(b"\n"), b"\nx\n".to_vec());
}

#[test]
fn plain_reply_carries_the_transcript() {
    let records = vec![record(0, "hello\n"), record(1, "world\n")];
    assert_eq!(
        plain_reply(A, &records),
        Reply { status: STATUS_OK, body: b"hello\nworld".to_vec() }
    );
    assert_eq!(STATUS_OK, 200);
    assert_eq!(STATUS_NOT_FOUND, 404);
}

#[test]
fn liveness_is_acknowledged() {
    assert_eq!(liveness_reply(), Reply { status: 200, body: b"ok".to_vec() });
}
