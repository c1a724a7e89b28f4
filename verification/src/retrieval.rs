//! The read side: from a session identifier and the records that the scan for
//! it returned, the transcript of the session and the reply to the request.

use vstd::prelude::*;
use vstd::slice::{slice_subrange, slice_to_vec};
use vstd::string::*;
use crate::session::{id_bytes, is_session_text, sentinel, SessionId};
use crate::store::{entries, values, Record};

verus! {

/// The status of a reply that carries a transcript or the liveness
/// acknowledgment.
pub const STATUS_OK: u16 = 200;

/// The status of a reply to a request for a session that is not known.
pub const STATUS_NOT_FOUND: u16 = 404;

/// The session asked for is not known: its identifier is the reserved one, is
/// no session identifier at all, or has no record.
#[derive(Debug, Clone, Copy, PartialEq, Eq)]
pub struct NotFound;

/// A record's value without its line terminator: one trailing `\r\n`, or else
/// one trailing `\n`, is left off.
pub open spec fn line_of(value: Seq<u8>) -> Seq<u8> {
    let n = value.len() as int;
    if n >= 2 && value[n - 2] == 0x0d && value[n - 1] == 0x0a {
        value.take(n - 2)
    } else if n >= 1 && value[n - 1] == 0x0a {
        value.take(n - 1)
    } else {
        value
    }
}

/// The lines of `records`, each without its line terminator, with `separator`
/// between every two of them.
pub open spec fn joined(records: Seq<Seq<u8>>, separator: Seq<u8>) -> Seq<u8>
    decreases records.len(),
{
    if records.len() == 0 {
        Seq::empty()
    } else if records.len() == 1 {
        line_of(records[0])
    } else {
        joined(records.drop_last(), separator) + separator + line_of(records.last())
    }
}

/// The transcript that a request for `session_id` is owed, given the entries
/// that the scan for it returned: their values in scan order. There is none
/// for the reserved identifier, for text that is no session identifier, and
/// for a session without records.
pub open spec fn transcript_of(session_id: Seq<char>, scan: Seq<(Seq<u8>, Seq<u8>)>) -> Result<
    Seq<Seq<u8>>,
    NotFound,
> {
    if session_id == sentinel() || !is_session_text(session_id) || scan.len() == 0 {
        Err(NotFound)
    } else {
        Ok(values(scan))
    }
}

/// The reply to a plain-text request: status and body.
pub open spec fn plain_reply_of(session_id: Seq<char>, scan: Seq<(Seq<u8>, Seq<u8>)>) -> (
    u16,
    Seq<u8>,
) {
    match transcript_of(session_id, scan) {
        Ok(records) => (STATUS_OK, joined(records, separator_of(Layout::Plain))),
        Err(_) => (STATUS_NOT_FOUND, Seq::empty()),
    }
}

/// The bytes that acknowledge a liveness request: `ok`.
pub open spec fn liveness_ack() -> Seq<u8> {
    seq![0x6f, 0x6b]
}

/// How a transcript is laid out.
#[derive(Debug, Clone, Copy, PartialEq, Eq)]
pub enum Layout {
    /// Plain text: one record per line.
    Plain,
    /// Inside a rendered page: a line-break element between records.
    Rendered,
}

/// The separator of a layout: a newline, or the element `<br>`.
pub open spec fn separator_of(layout: Layout) -> Seq<u8> {
    match layout {
        Layout::Plain => seq![0x0a],
        Layout::Rendered => seq![0x3c, 0x62, 0x72, 0x3e],
    }
}

impl Layout {
    /// The bytes put between two records.
    pub fn separator(&self) -> (r: Vec<u8>)
        ensures
            r@ == separator_of(*self),
    {
        let mut r: Vec<u8> = Vec::new();
        match self {
            Layout::Plain => {
                r.push(0x0a);
            },
            Layout::Rendered => {
                r.push(0x3c);
                r.push(0x62);
                r.push(0x72);
                r.push(0x3e);
            },
        }
        assert(r@ =~= separator_of(*self));
        r
    }
}

/// A record's value without its line terminator.
pub fn strip_line_terminator(value: &[u8]) -> (line: &[u8])
    ensures
        line@ == line_of(value@),
{
    let n = value.len();
    if n >= 2 && value[n - 2] == 0x0d && value[n - 1] == 0x0a {
        slice_subrange(value, 0, n - 2)
    } else if n >= 1 && value[n - 1] == 0x0a {
        slice_subrange(value, 0, n - 1)
    } else {
        assert(value@.subrange(0, n as int) =~= value@);
        slice_subrange(value, 0, n)
    }
}

fn extend(out: &mut Vec<u8>, bytes: &[u8])
    ensures
        final(out)@ == old(out)@ + bytes@,
{
    let mut copy = slice_to_vec(bytes);
    out.append(&mut copy);
}

/// Whether `text` is the reserved identifier.
pub fn is_sentinel(text: &str) -> (r: bool)
    ensures
        r == (text@ == sentinel()),
{
    let r = text.unicode_len() == 1 && text.get_char(0) == '0';
    assert(r ==> text@ =~= sentinel());
    r
}

/// The prefix to scan the store for, for a request for `session_id`; `None`
/// where the request is answered as not found without a scan: for the
/// reserved identifier and for text that is no session identifier.
pub fn scan_prefix_for(session_id: &str) -> (prefix: Option<Vec<u8>>)
    ensures
        prefix is Some <==> session_id@ != sentinel() && is_session_text(session_id@),
        prefix matches Some(bytes) ==> bytes@ == id_bytes(session_id@),
{
    if is_sentinel(session_id) {
        return None;
    }
    match SessionId::parse(session_id) {
        Some(id) => Some(id.to_bytes()),
        None => None,
    }
}

/// The records of one session in the order in which they were written.
#[derive(Debug, PartialEq, Eq)]
pub struct Transcript {
    records: Vec<Vec<u8>>,
}

impl View for Transcript {
    type V = Seq<Seq<u8>>;

    closed spec fn view(&self) -> Seq<Seq<u8>> {
        self.records@.map_values(|record: Vec<u8>| record@)
    }
}

impl Transcript {
    /// The number of records.
    pub fn len(&self) -> (n: usize)
        ensures
            n == self@.len(),
    {
        self.records.len()
    }

    /// The value of the record at `index`, as it was received.
    pub fn record(&self, index: usize) -> (value: &[u8])
        requires
            index < self@.len(),
        ensures
            value@ == self@[index as int],
    {
        self.records[index].as_slice()
    }

    /// The transcript as one body: the records without their line
    /// terminators, `separator` between every two of them.
    pub fn body(&self, separator: &[u8]) -> (body: Vec<u8>)
        ensures
            body@ == joined(self@, separator@),
    {
        let mut body: Vec<u8> = Vec::new();
        let mut i: usize = 0;
        while i < self.records.len()
            invariant
                i <= self.records.len(),
                body@ == joined(self@.take(i as int), separator@),
            decreases self.records.len() - i,
        {
            if i > 0 {
                extend(&mut body, separator);
            }
            extend(&mut body, strip_line_terminator(self.records[i].as_slice()));
            proof {
                let longer = self@.take(i + 1);
                assert(longer.drop_last() =~= self@.take(i as int));
                assert(longer.last() == self@[i as int]);
                if i == 0 {
                    assert(body@ =~= line_of(self@[0]));
                }
            }
            i += 1;
        }
        assert(self@.take(i as int) =~= self@);
        body
    }
}

/// The transcript of the session `session_id`, from the records that the
/// store's scan for `scan_prefix_for(session_id)` returned.
pub fn get_transcript(session_id: &str, records: &Vec<Record>) -> (r: Result<Transcript, NotFound>)
    ensures
        match r {
            Ok(transcript) => transcript_of(session_id@, entries(records@)) == Ok::<
                Seq<Seq<u8>>,
                NotFound,
            >(transcript@),
            Err(_) => transcript_of(session_id@, entries(records@)) is Err,
        },
{
    if is_sentinel(session_id) || SessionId::parse(session_id).is_none() || records.len() == 0 {
        return Err(NotFound);
    }
    let mut copied: Vec<Vec<u8>> = Vec::new();
    let mut i: usize = 0;
    while i < records.len()
        invariant
            i <= records.len(),
            copied@.len() == i,
            forall|j: int| 0 <= j < i ==> (#[trigger] copied@[j])@ == records@[j].value@,
        decreases records.len() - i,
    {
        copied.push(slice_to_vec(records[i].value.as_slice()));
        i += 1;
    }
    let transcript = Transcript { records: copied };
    assert(transcript@ =~= values(entries(records@)));
    Ok(transcript)
}

/// An answer to a request: the status and the body.
#[derive(Debug, PartialEq, Eq)]
pub struct Reply {
    pub status: u16,
    pub body: Vec<u8>,
}

impl View for Reply {
    type V = (u16, Seq<u8>);

    open spec fn view(&self) -> (u16, Seq<u8>) {
        (self.status, self.body@)
    }
}

/// The reply to a plain-text request for `session_id`, from the records that
/// the scan returned: the transcript with a newline between records, or not
/// found.
pub fn plain_reply(session_id: &str, records: &Vec<Record>) -> (reply: Reply)
    ensures
        reply@ == plain_reply_of(session_id@, entries(records@)),
{
    match get_transcript(session_id, records) {
        Ok(transcript) => {
            let separator = Layout::Plain.separator();
            Reply { status: STATUS_OK, body: transcript.body(separator.as_slice()) }
        },
        Err(_) => Reply { status: STATUS_NOT_FOUND, body: Vec::new() },
    }
}

/// The reply to a liveness request.
pub fn liveness_reply() -> (reply: Reply)
    ensures
        reply@ == (STATUS_OK, liveness_ack()),
{
    let mut body: Vec<u8> = Vec::new();
    body.push(0x6f);
    body.push(0x6b);
    assert(body@ =~= liveness_ack());
    Reply { status: STATUS_OK, body }
}

} // verus!
