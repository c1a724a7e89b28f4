//! What holds of the engine as a whole: of the keys it mints, of a store that
//! takes the records it asks to persist, and of the transcripts read back.
//!
//! The store is the model of `crate::store`; a connection is driven as
//! `ingest` says, by a driver whose every put and flush succeeds.

use vstd::prelude::*;
use vstd::utf8::encode_utf8;
use crate::gateway::{step_spec, ActionView, ConnectionView, EventView, FrameView};
use crate::key::{key_of, lemma_key_injective, lemma_sequence_of_key, sequence_limit, sequence_of};
use crate::order::has_prefix;
use crate::retrieval::{plain_reply_of, transcript_of, NotFound, STATUS_NOT_FOUND};
use crate::session::{id_bytes, is_session_text, lemma_id_bytes, lemma_id_bytes_injective, sentinel};
use crate::store::{
    holds_log, is_prefix_scan, lemma_fresh_session_has_empty_log, lemma_put_elsewhere_keeps_log,
    lemma_put_elsewhere_keeps_scan, lemma_put_extends_log, lemma_scan_is_log, lemma_scan_unique,
    put, values, Durable,
};

verus! {

/// A connection, the store it writes to, and the values written so far.
pub struct Ingested {
    pub connection: ConnectionView,
    pub store: Durable,
    pub written: Seq<Seq<u8>>,
}

/// What one received frame leads to when the store takes every put and
/// flush: the machine answers the frame; if it asks for a record to be put, the
/// record is put and that reported, and the flush it then asks for is done and
/// reported.
pub open spec fn receive(before: Ingested, frame: FrameView) -> Ingested {
    let (asked, action) = step_spec(before.connection, EventView::Received(frame));
    match action {
        ActionView::Put { key, value } => {
            let (put_done, then) = step_spec(asked, EventView::Stored);
            match then {
                ActionView::Flush => Ingested {
                    connection: step_spec(put_done, EventView::Flushed).0,
                    store: before.store.after_put(key, value).after_flush(),
                    written: before.written.push(value),
                },
                _ => Ingested {
                    connection: put_done,
                    store: before.store.after_put(key, value),
                    written: before.written,
                },
            }
        },
        _ => Ingested { connection: asked, ..before },
    }
}

/// What a run of received frames leads to, frame after frame.
pub open spec fn ingest(start: Ingested, frames: Seq<FrameView>) -> Ingested
    decreases frames.len(),
{
    if frames.len() == 0 {
        start
    } else {
        receive(ingest(start, frames.drop_last()), frames.last())
    }
}

/// A connection at rest on top of a store: the store holds, under the
/// connection's identifier, exactly `log`, and the connection's counter is
/// the length of `log`.
pub open spec fn in_step(connection: ConnectionView, store: Durable, log: Seq<Seq<u8>>) -> bool {
    &&& connection.wf()
    &&& connection.pending is None
    &&& connection.sequence == log.len()
    &&& holds_log(store.current, id_bytes(connection.id), log)
}

/// The text frames with the payloads `texts`.
pub open spec fn text_frames(texts: Seq<Seq<char>>) -> Seq<FrameView> {
    texts.map_values(|text: Seq<char>| FrameView::Text(text))
}

/// The values under which the payloads `texts` are stored: their bytes.
pub open spec fn stored(texts: Seq<Seq<char>>) -> Seq<Seq<u8>> {
    texts.map_values(|text: Seq<char>| encode_utf8(text))
}

/// The counter moves only when the flush after a pending record's put is
/// reported, and then by one. A record is asked to be put only for a text
/// frame on an open connection, under the key of the counter's value; a flush
/// is asked for only when a put is reported, and a text frame is echoed only
/// when its flush is reported.
pub proof fn lemma_step_counts_persisted(c: ConnectionView, event: EventView)
    requires
        c.wf(),
    ensures
        ({
            let (after, action) = step_spec(c, event);
            &&& after.wf()
            &&& after.id == c.id
            &&& after.sequence == if c.phase is Open && c.stored && event is Flushed {
                c.sequence + 1
            } else {
                c.sequence
            }
            &&& action is Put ==> {
                &&& c.phase is Open
                &&& event matches EventView::Received(FrameView::Text(text))
                &&& action == (ActionView::Put {
                    key: key_of(id_bytes(c.id), c.sequence),
                    value: encode_utf8(text),
                })
                &&& after.pending == Some(text)
                &&& !after.stored
            }
            &&& action is Flush ==> c.phase is Open && c.pending is Some && !c.stored && event is Stored
            &&& action matches ActionView::Send(FrameView::Text(text)) ==> c.phase is Open && c.stored
                && c.pending == Some(text) && event is Flushed
        }),
{
}

/// Once a put or a flush has failed the connection is closing, its counter is
/// where it was, the frame is not echoed, and from then on the connection asks
/// for no record to be put.
pub proof fn lemma_failure_ends_writing(c: ConnectionView, later: EventView)
    requires
        c.wf(),
        c.phase is Open,
        c.pending is Some,
    ensures
        ({
            let (failed, action) = step_spec(c, EventView::PersistFailed);
            &&& failed.phase is Closing
            &&& action is Close
            &&& failed.sequence == c.sequence
            &&& !(step_spec(failed, later).1 is Put)
            &&& !(step_spec(step_spec(failed, later).0, later).1 is Put)
            &&& step_spec(failed, later).0.phase is Closed
        }),
{
}

/// A connection that is closing or closed stays out of the store.
pub proof fn lemma_closed_stays_closed(c: ConnectionView, event: EventView)
    requires
        c.phase is Closing || c.phase is Closed,
    ensures
        step_spec(c, event).0.phase is Closed,
        step_spec(c, event).0.sequence == c.sequence,
        !(step_spec(c, event).1 is Put),
{
}

/// Frames other than text frames are never persisted and take no sequence
/// number.
pub proof fn lemma_only_text_is_persisted(c: ConnectionView, frame: FrameView)
    requires
        !(frame is Text),
    ensures
        !(step_spec(c, EventView::Received(frame)).1 is Put),
        step_spec(c, EventView::Received(frame)).0.sequence == c.sequence,
{
}

proof fn lemma_receive_in_step(before: Ingested, log: Seq<Seq<u8>>, frame: FrameView)
    requires
        in_step(before.connection, before.store, log),
    ensures
        ({
            let after = receive(before, frame);
            let added = after.written.skip(before.written.len() as int);
            &&& after.connection.id == before.connection.id
            &&& after.written.take(before.written.len() as int) == before.written
            &&& added.len() <= 1
            &&& in_step(after.connection, after.store, log + added)
            &&& added.len() == 1 ==> {
                &&& frame matches FrameView::Text(text)
                &&& added[0] == encode_utf8(text)
                &&& !before.store.current.contains_key(
                    key_of(id_bytes(before.connection.id), log.len()),
                )
                &&& after.store.current == put(
                    before.store.current,
                    key_of(id_bytes(before.connection.id), log.len()),
                    added[0],
                )
                &&& after.store.settled()
            }
            &&& added.len() == 0 ==> after.store == before.store
            &&& (before.connection.phase is Open && before.connection.sequence < u64::MAX && frame is Text)
                ==> added.len() == 1 && after.connection.phase is Open
        }),
{
    let c = before.connection;
    let after = receive(before, frame);
    let added = after.written.skip(before.written.len() as int);
    let (asked, action) = step_spec(c, EventView::Received(frame));
    assert(after.written.take(before.written.len() as int) =~= before.written);
    match action {
        ActionView::Put { key, value } => {
            lemma_put_extends_log(before.store.current, id_bytes(c.id), log, value);
            assert(added =~= seq![value]);
            assert(log + added =~= log.push(value));
        },
        _ => {
            assert(added =~= Seq::<Seq<u8>>::empty());
            assert(log + added =~= log);
        },
    }
}

/// Gap-freedom and uniqueness. Start from a connection at rest whose log the
/// store holds. After any run of frames the store holds, under the
/// connection's identifier, the old log followed by the values written in the
/// run, one record for each sequence number from zero up to the counter and
/// none beside them; the counter has advanced by the number of values
/// written.
pub proof fn lemma_ingest_extends_log(start: Ingested, log: Seq<Seq<u8>>, frames: Seq<FrameView>)
    requires
        in_step(start.connection, start.store, log),
    ensures
        ({
            let end = ingest(start, frames);
            let added = end.written.skip(start.written.len() as int);
            &&& end.connection.id == start.connection.id
            &&& start.written.len() <= end.written.len()
            &&& end.written.take(start.written.len() as int) == start.written
            &&& in_step(end.connection, end.store, log + added)
            &&& end.connection.sequence == start.connection.sequence + added.len()
        }),
    decreases frames.len(),
{
    if frames.len() == 0 {
        assert(start.written.skip(start.written.len() as int) =~= Seq::<Seq<u8>>::empty());
        assert(log + Seq::<Seq<u8>>::empty() =~= log);
        assert(start.written.take(start.written.len() as int) =~= start.written);
    } else {
        let n = start.written.len() as int;
        let mid = ingest(start, frames.drop_last());
        lemma_ingest_extends_log(start, log, frames.drop_last());
        let mid_added = mid.written.skip(n);
        lemma_receive_in_step(mid, log + mid_added, frames.last());
        let end = receive(mid, frames.last());
        let last_added = end.written.skip(mid.written.len() as int);
        let added = end.written.skip(n);
        assert(added =~= mid_added + last_added) by {
            assert(end.written.take(mid.written.len() as int) == mid.written);
            assert forall|i: int| 0 <= i < mid_added.len() implies added[i] == mid_added[i] by {
                assert(end.written.take(mid.written.len() as int)[i + n] == mid.written[i + n]);
            }
        }
        assert(log + added =~= (log + mid_added) + last_added);
        assert(end.written.take(n) =~= start.written) by {
            assert(mid.written.take(n) == start.written);
            assert(end.written.take(mid.written.len() as int) == mid.written);
            assert forall|i: int| 0 <= i < n implies end.written[i] == start.written[i] by {
                assert(end.written.take(mid.written.len() as int)[i] == mid.written[i]);
                assert(mid.written.take(n)[i] == start.written[i]);
            }
        }
    }
}

/// The sequence numbers that a session's records carry are those below the
/// number of its records, each once.
pub proof fn lemma_log_has_no_gap(store: Map<Seq<u8>, Seq<u8>>, id: Seq<char>, log: Seq<Seq<u8>>)
    requires
        is_session_text(id),
        holds_log(store, id_bytes(id), log),
    ensures
        forall|n: nat|
            n < log.len() ==> store.contains_key(#[trigger] key_of(id_bytes(id), n)) && sequence_of(
                key_of(id_bytes(id), n),
            ) == n,
        forall|k: Seq<u8>|
            #![trigger store.contains_key(k)]
            store.contains_key(k) && has_prefix(k, id_bytes(id)) ==> sequence_of(k) < log.len() && k
                == key_of(id_bytes(id), sequence_of(k)),
{
    lemma_id_bytes(id);
    assert forall|n: nat| n < log.len() implies store.contains_key(
        #[trigger] key_of(id_bytes(id), n),
    ) && sequence_of(key_of(id_bytes(id), n)) == n by {
        lemma_sequence_of_key(id_bytes(id), n);
    }
    assert forall|k: Seq<u8>|
        #![trigger store.contains_key(k)]
        store.contains_key(k) && has_prefix(k, id_bytes(id)) implies sequence_of(k) < log.len() && k
        == key_of(id_bytes(id), sequence_of(k)) by {
        let n = choose|n: nat| n < log.len() && k == key_of(id_bytes(id), n);
        lemma_sequence_of_key(id_bytes(id), n);
    }
}

/// Text frames sent one after the other to an open connection are all
/// written, in the order in which they were sent, as long as the counter has
/// room for them.
pub proof fn lemma_ingest_writes_texts(start: Ingested, log: Seq<Seq<u8>>, texts: Seq<Seq<char>>)
    requires
        in_step(start.connection, start.store, log),
        start.connection.phase is Open,
        start.connection.sequence + texts.len() <= u64::MAX,
    ensures
        ({
            let end = ingest(start, text_frames(texts));
            &&& end.connection.phase is Open
            &&& end.written == start.written + stored(texts)
            &&& in_step(end.connection, end.store, log + stored(texts))
        }),
    decreases texts.len(),
{
    let frames = text_frames(texts);
    lemma_ingest_extends_log(start, log, frames);
    if texts.len() == 0 {
        assert(ingest(start, frames) == start);
        assert(start.written + stored(texts) =~= start.written);
        assert(log + stored(texts) =~= log);
    } else {
        let fewer = texts.drop_last();
        assert(frames.drop_last() =~= text_frames(fewer));
        lemma_ingest_writes_texts(start, log, fewer);
        let mid = ingest(start, text_frames(fewer));
        lemma_receive_in_step(mid, log + stored(fewer), frames.last());
        let end = receive(mid, frames.last());
        let added = end.written.skip(mid.written.len() as int);
        assert(added =~= seq![encode_utf8(texts.last())]);
        assert(end.written =~= mid.written + added) by {
            assert(end.written.take(mid.written.len() as int) == mid.written);
            assert forall|i: int| 0 <= i < mid.written.len() implies end.written[i]
                == mid.written[i] by {
                assert(end.written.take(mid.written.len() as int)[i] == mid.written[i]);
            }
        }
        assert(stored(texts) =~= stored(fewer) + added);
        assert(end.written =~= start.written + stored(texts));
        assert(log + stored(texts) =~= (log + stored(fewer)) + added);
    }
}

/// Ordering. A session is opened on a store that holds nothing under its
/// identifier, and `texts`, at least one, are sent to it as text frames one
/// after the other. Then the transcript read back holds exactly these
/// records, each as it was sent, in the order of sending.
pub proof fn lemma_transcript_is_what_was_sent(
    start: Ingested,
    texts: Seq<Seq<char>>,
    scan: Seq<(Seq<u8>, Seq<u8>)>,
)
    requires
        start.connection.wf(),
        start.connection.phase is Open,
        start.connection.pending is None,
        start.connection.sequence == 0,
        forall|k: Seq<u8>|
            #[trigger] start.store.current.contains_key(k) ==> !has_prefix(
                k,
                id_bytes(start.connection.id),
            ),
        0 < texts.len() <= u64::MAX,
        is_prefix_scan(
            ingest(start, text_frames(texts)).store.current,
            id_bytes(start.connection.id),
            scan,
        ),
    ensures
        scan.len() == texts.len(),
        transcript_of(start.connection.id, scan) == Ok::<Seq<Seq<u8>>, NotFound>(
            stored(texts),
        ),
{
    let id = id_bytes(start.connection.id);
    let empty = Seq::<Seq<u8>>::empty();
    lemma_fresh_session_has_empty_log(start.store.current, id);
    lemma_ingest_writes_texts(start, empty, texts);
    lemma_ingest_extends_log(start, empty, text_frames(texts));
    assert(empty + stored(texts) =~= stored(texts));
    let end = ingest(start, text_frames(texts));
    assert(in_step(end.connection, end.store, stored(texts)));
    lemma_scan_is_log(end.store.current, id, stored(texts), scan);
    assert(start.connection.id != sentinel());
}

/// Uniqueness across sessions. Two sessions with different identifiers share
/// no key, whatever their sequence numbers: their logs are disjoint.
pub proof fn lemma_sessions_share_no_key(a: Seq<char>, i: nat, b: Seq<char>, j: nat)
    requires
        is_session_text(a),
        is_session_text(b),
        a != b,
        i < sequence_limit(),
        j < sequence_limit(),
    ensures
        key_of(id_bytes(a), i) != key_of(id_bytes(b), j),
{
    lemma_id_bytes(a);
    lemma_id_bytes(b);
    if key_of(id_bytes(a), i) == key_of(id_bytes(b), j) {
        lemma_key_injective(id_bytes(a), i, id_bytes(b), j);
        lemma_id_bytes_injective(a, b);
    }
}

/// Uniqueness in the store. The key under which a connection at rest asks for
/// a record to be put is not in the store yet: no record is ever overwritten.
pub proof fn lemma_put_goes_to_a_fresh_key(
    connection: ConnectionView,
    store: Durable,
    log: Seq<Seq<u8>>,
    event: EventView,
)
    requires
        in_step(connection, store, log),
    ensures
        step_spec(connection, event).1 matches ActionView::Put { key, value }
            ==> !store.current.contains_key(key),
{
    match step_spec(connection, event).1 {
        ActionView::Put { key, value } => {
            lemma_put_extends_log(store.current, id_bytes(connection.id), log, value);
        },
        _ => {},
    }
}

/// Uniqueness within a session. Two records of one session have the same key
/// only if they have the same sequence number.
pub proof fn lemma_session_keys_differ(id: Seq<char>, i: nat, j: nat)
    requires
        i < sequence_limit(),
        j < sequence_limit(),
        i != j,
    ensures
        key_of(id_bytes(id), i) != key_of(id_bytes(id), j),
{
    if key_of(id_bytes(id), i) == key_of(id_bytes(id), j) {
        lemma_key_injective(id_bytes(id), i, id_bytes(id), j);
    }
}

/// Isolation. Whatever frames another session receives, the scan for this
/// session's identifier returns what it returned before, and the store holds
/// this session's log as before.
pub proof fn lemma_other_session_is_untouched(
    id: Seq<char>,
    scan: Seq<(Seq<u8>, Seq<u8>)>,
    other: Ingested,
    other_log: Seq<Seq<u8>>,
    frames: Seq<FrameView>,
)
    requires
        is_session_text(id),
        id != other.connection.id,
        in_step(other.connection, other.store, other_log),
        is_prefix_scan(other.store.current, id_bytes(id), scan),
    ensures
        is_prefix_scan(ingest(other, frames).store.current, id_bytes(id), scan),
    decreases frames.len(),
{
    if frames.len() > 0 {
        let mid = ingest(other, frames.drop_last());
        lemma_other_session_is_untouched(id, scan, other, other_log, frames.drop_last());
        lemma_ingest_extends_log(other, other_log, frames.drop_last());
        let mid_log = other_log + mid.written.skip(other.written.len() as int);
        lemma_receive_in_step(mid, mid_log, frames.last());
        let end = receive(mid, frames.last());
        let added = end.written.skip(mid.written.len() as int);
        if added.len() == 1 {
            lemma_id_bytes(id);
            lemma_id_bytes(other.connection.id);
            if id_bytes(id) == id_bytes(other.connection.id) {
                lemma_id_bytes_injective(id, other.connection.id);
            }
            lemma_put_elsewhere_keeps_scan(
                mid.store.current,
                id_bytes(id),
                scan,
                id_bytes(other.connection.id),
                mid_log.len(),
                added[0],
            );
        }
    }
}

/// Isolation of the logs. A record written for another session leaves this
/// session's log in the store as it was.
pub proof fn lemma_other_write_keeps_log(
    store: Map<Seq<u8>, Seq<u8>>,
    id: Seq<char>,
    log: Seq<Seq<u8>>,
    other: Seq<char>,
    sequence: nat,
    value: Seq<u8>,
)
    requires
        is_session_text(id),
        is_session_text(other),
        id != other,
        holds_log(store, id_bytes(id), log),
    ensures
        holds_log(put(store, key_of(id_bytes(other), sequence), value), id_bytes(id), log),
{
    lemma_id_bytes(id);
    lemma_id_bytes(other);
    if id_bytes(id) == id_bytes(other) {
        lemma_id_bytes_injective(id, other);
    }
    lemma_put_elsewhere_keeps_log(store, id_bytes(id), log, id_bytes(other), sequence, value);
}

/// Idempotent retrieval. Two retrievals of the same session from the same
/// store get the same scan, hence the same transcript and the same reply,
/// byte for byte.
pub proof fn lemma_retrieval_repeats(
    store: Map<Seq<u8>, Seq<u8>>,
    id: Seq<char>,
    first: Seq<(Seq<u8>, Seq<u8>)>,
    second: Seq<(Seq<u8>, Seq<u8>)>,
)
    requires
        is_prefix_scan(store, id_bytes(id), first),
        is_prefix_scan(store, id_bytes(id), second),
    ensures
        first == second,
        transcript_of(id, first) == transcript_of(id, second),
        plain_reply_of(id, first) == plain_reply_of(id, second),
{
    lemma_scan_unique(store, id_bytes(id), first, second);
}

/// The reserved identifier is not found, whatever the store holds.
pub proof fn lemma_sentinel_is_not_found(scan: Seq<(Seq<u8>, Seq<u8>)>)
    ensures
        transcript_of(sentinel(), scan) is Err,
        plain_reply_of(sentinel(), scan).0 == STATUS_NOT_FOUND,
{
}

/// A session of which the store holds no record is not found.
pub proof fn lemma_unknown_is_not_found(
    store: Map<Seq<u8>, Seq<u8>>,
    id: Seq<char>,
    scan: Seq<(Seq<u8>, Seq<u8>)>,
)
    requires
        forall|k: Seq<u8>| #[trigger] store.contains_key(k) ==> !has_prefix(k, id_bytes(id)),
        is_prefix_scan(store, id_bytes(id), scan),
    ensures
        transcript_of(id, scan) is Err,
        plain_reply_of(id, scan).0 == STATUS_NOT_FOUND,
{
    if scan.len() > 0 {
        assert(store.contains_key(scan[0].0));
    }
}

/// Durability at rest. If nothing was unflushed when a run of frames began,
/// nothing is unflushed when it ends: a crash then loses no record, and every
/// scan after the restart returns what it returned before.
pub proof fn lemma_acknowledged_records_survive_crash(
    start: Ingested,
    log: Seq<Seq<u8>>,
    frames: Seq<FrameView>,
)
    requires
        in_step(start.connection, start.store, log),
        start.store.settled(),
    ensures
        ingest(start, frames).store.settled(),
        ingest(start, frames).store.after_crash().current == ingest(start, frames).store.current,
    decreases frames.len(),
{
    if frames.len() > 0 {
        let mid = ingest(start, frames.drop_last());
        lemma_acknowledged_records_survive_crash(start, log, frames.drop_last());
        lemma_ingest_extends_log(start, log, frames.drop_last());
        let mid_log = log + mid.written.skip(start.written.len() as int);
        lemma_receive_in_step(mid, mid_log, frames.last());
        let end = receive(mid, frames.last());
        let added = end.written.skip(mid.written.len() as int);
        if added.len() != 1 {
            assert(added.len() == 0);
        }
    }
}

/// Durability in flight. A crash between the put of a record and its flush
/// loses that record and no other: the store is back where it was before the
/// put, and the session's log is what had been acknowledged.
pub proof fn lemma_crash_loses_only_the_record_in_flight(
    store: Durable,
    id: Seq<u8>,
    log: Seq<Seq<u8>>,
    key: Seq<u8>,
    value: Seq<u8>,
)
    requires
        store.settled(),
        holds_log(store.current, id, log),
    ensures
        store.after_put(key, value).after_crash().current == store.current,
        holds_log(store.after_put(key, value).after_crash().current, id, log),
{
}

} // verus!
