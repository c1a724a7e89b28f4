//! Session identifiers, the per-session sequence counter, and the registry of
//! live sessions.

use vstd::prelude::*;
use vstd::string::*;
use vstd::utf8::*;

verus! {

/// The length of a session identifier, in characters and in bytes.
pub const ID_LEN: usize = 36;

/// The reserved identifier that never names a session.
pub open spec fn sentinel() -> Seq<char> {
    seq!['0']
}

/// A lower-case hexadecimal digit.
pub open spec fn is_lower_hex(c: char) -> bool {
    ('0' <= c && c <= '9') || ('a' <= c && c <= 'f')
}

/// The positions of a session identifier that hold a hyphen.
pub open spec fn is_hyphen_position(i: int) -> bool {
    i == 8 || i == 13 || i == 18 || i == 23
}

/// The shape of every session identifier: 36 characters, hyphens at positions
/// 8, 13, 18 and 23, lower-case hexadecimal digits everywhere else.
pub open spec fn is_session_text(s: Seq<char>) -> bool {
    &&& s.len() == ID_LEN
    &&& forall|i: int|
        0 <= i < ID_LEN ==> if is_hyphen_position(i) {
            #[trigger] s[i] == '-'
        } else {
            is_lower_hex(s[i])
        }
}

/// The bytes under which an identifier appears in the store: its UTF-8
/// encoding.
pub open spec fn id_bytes(text: Seq<char>) -> Seq<u8> {
    encode_utf8(text)
}

/// An identifier is encoded one byte per character.
pub proof fn lemma_id_bytes(text: Seq<char>)
    requires
        is_session_text(text),
    ensures
        id_bytes(text).len() == ID_LEN,
        forall|i: int| 0 <= i < ID_LEN ==> #[trigger] id_bytes(text)[i] == text[i] as u8,
{
    assert(is_ascii_chars(text)) by {
        assert forall|i: int| 0 <= i < text.len() implies '\0' <= #[trigger] text[i] <= '\u{7f}' by {
            if is_hyphen_position(i) {
                assert(text[i] == '-');
            } else {
                assert(is_lower_hex(text[i]));
            }
        }
    }
    is_ascii_chars_encode_utf8(text);
}

/// Two identifiers with the same bytes are the same identifier.
pub proof fn lemma_id_bytes_injective(a: Seq<char>, b: Seq<char>)
    requires
        id_bytes(a) == id_bytes(b),
    ensures
        a == b,
{
    encode_utf8_decode_utf8(a);
    encode_utf8_decode_utf8(b);
}

/// The identifier of one session: opaque to its holder, unique among the
/// sessions of a registry, and of the one shape `is_session_text`.
#[derive(Debug, PartialEq, Eq)]
pub struct SessionId {
    text: String,
}

impl View for SessionId {
    type V = Seq<char>;

    closed spec fn view(&self) -> Seq<char> {
        self.text@
    }
}

impl SessionId {
    #[verifier::type_invariant]
    spec fn shaped(&self) -> bool {
        is_session_text(self.text@)
    }

    /// The bytes under which this identifier appears in the store.
    pub open spec fn bytes(&self) -> Seq<u8> {
        id_bytes(self@)
    }

    /// Reads an identifier from text; `None` unless the text has the shape of
    /// a session identifier.
    pub fn parse(text: &str) -> (r: Option<SessionId>)
        ensures
            r is Some <==> is_session_text(text@),
            r matches Some(id) ==> id@ == text@,
    {
        if text.unicode_len() != ID_LEN {
            return None;
        }
        let mut i: usize = 0;
        while i < ID_LEN
            invariant
                i <= ID_LEN,
                text@.len() == ID_LEN,
                forall|j: int|
                    0 <= j < i ==> if is_hyphen_position(j) {
                        #[trigger] text@[j] == '-'
                    } else {
                        is_lower_hex(text@[j])
                    },
            decreases ID_LEN - i,
        {
            let c = text.get_char(i);
            let ok = if i == 8 || i == 13 || i == 18 || i == 23 {
                c == '-'
            } else {
                ('0' <= c && c <= '9') || ('a' <= c && c <= 'f')
            };
            if !ok {
                return None;
            }
            i += 1;
        }
        Some(SessionId { text: String::from_str(text) })
    }

    /// A new identifier drawn at random.
    pub fn generate() -> (id: SessionId)
        ensures
            is_session_text(id@),
    {
        SessionId { text: random_uuid_text() }
    }

    /// The identifier as text.
    pub fn as_str(&self) -> (r: &str)
        ensures
            r@ == self@,
            is_session_text(self@),
    {
        proof {
            use_type_invariant(self);
        }
        self.text.as_str()
    }

    /// The identifier as the bytes that start each of its keys.
    pub fn to_bytes(&self) -> (r: Vec<u8>)
        ensures
            r@ == self.bytes(),
            is_session_text(self@),
    {
        proof {
            use_type_invariant(self);
        }
        self.text.as_str().as_bytes_vec()
    }

    /// Whether two identifiers name the same session.
    pub fn same_as(&self, other: &SessionId) -> (r: bool)
        ensures
            r == (self@ == other@),
    {
        self.text == other.text
    }

    /// A copy of this identifier.
    pub fn duplicate(&self) -> (r: SessionId)
        ensures
            r@ == self@,
    {
        proof {
            use_type_invariant(self);
        }
        SessionId { text: self.text.clone() }
    }
}

/// `uuid::Uuid::new_v4`, a random version-4 UUID, written out by `to_string`.
/// The text is the hyphenated lower-case form: 32 hexadecimal digits in groups
/// of 8, 4, 4, 4 and 12. Nothing is claimed about which UUID is drawn.
#[verifier::external_body]
fn random_uuid_text() -> (text: String)
    ensures
        is_session_text(text@),
{
    uuid::Uuid::new_v4().to_string()
}

/// What a session is, to its contracts.
pub struct SessionView {
    /// The identifier, as text.
    pub id: Seq<char>,
    /// The number of records the session has persisted: the sequence number
    /// of the next one.
    pub sequence: nat,
}

/// One connection's session: its identifier and the counter from which the
/// key of its next record is made.
#[derive(Debug, PartialEq, Eq)]
pub struct Session {
    id: SessionId,
    sequence: u64,
}

impl View for Session {
    type V = SessionView;

    closed spec fn view(&self) -> SessionView {
        SessionView { id: self.id@, sequence: self.sequence as nat }
    }
}

impl Session {
    /// The session of a connection that was just opened under `id`: nothing
    /// persisted yet.
    pub fn open(id: SessionId) -> (session: Session)
        ensures
            session@.id == id@,
            session@.sequence == 0,
    {
        Session { id, sequence: 0 }
    }

    /// The identifier of the session.
    pub fn id(&self) -> (id: &SessionId)
        ensures
            id@ == self@.id,
            is_session_text(self@.id),
    {
        proof {
            use_type_invariant(&self.id);
        }
        &self.id
    }

    /// The sequence number that the next record of the session gets.
    pub fn sequence(&self) -> (sequence: u64)
        ensures
            sequence == self@.sequence,
    {
        self.sequence
    }

    /// Whether the counter has reached its last value, after which the
    /// session can number no further record.
    pub fn is_exhausted(&self) -> (r: bool)
        ensures
            r == (self@.sequence >= u64::MAX),
    {
        self.sequence == u64::MAX
    }

    /// Hands out the sequence number of the record that was just persisted and
    /// advances the counter by one: 0 on the first call, one more on each call
    /// after it.
    pub fn next_sequence(&mut self) -> (sequence: u64)
        requires
            old(self)@.sequence < u64::MAX,
        ensures
            sequence == old(self)@.sequence,
            final(self)@.sequence == old(self)@.sequence + 1,
            final(self)@.id == old(self)@.id,
    {
        let sequence = self.sequence;
        self.sequence = sequence + 1;
        sequence
    }
}

/// How often `SessionRegistry::new_session` draws an identifier before it
/// gives up.
pub const MINT_ATTEMPTS: usize = 16;

/// Some live session has an identifier of the shape that a draw gives: only
/// then can a draw collide.
pub open spec fn can_collide(live: Set<Seq<char>>) -> bool {
    exists|text: Seq<char>| is_session_text(text) && #[trigger] live.contains(text)
}

/// The sessions that are live: one identifier for each open connection, no
/// identifier twice.
pub struct SessionRegistry {
    live: Vec<SessionId>,
}

impl View for SessionRegistry {
    type V = Set<Seq<char>>;

    closed spec fn view(&self) -> Set<Seq<char>> {
        Set::new(|text: Seq<char>| exists|i: int| 0 <= i < self.live.len() && self.live[i]@ == text)
    }
}

impl SessionRegistry {
    /// No identifier is registered twice. Every registry that this module
    /// hands out is well formed, and every operation keeps it so.
    pub closed spec fn wf(&self) -> bool {
        forall|i: int, j: int|
            0 <= i < j < self.live.len() ==> #[trigger] self.live[i]@ != #[trigger] self.live[j]@
    }

    /// A registry with no live session.
    pub fn new() -> (registry: SessionRegistry)
        ensures
            registry.wf(),
            registry@ == Set::<Seq<char>>::empty(),
    {
        let registry = SessionRegistry { live: Vec::new() };
        assert(registry@ =~= Set::<Seq<char>>::empty());
        registry
    }

    fn position(&self, id: &SessionId) -> (r: Option<usize>)
        ensures
            r is Some <==> self@.contains(id@),
            r matches Some(i) ==> i < self.live.len() && self.live[i as int]@ == id@,
    {
        let mut i: usize = 0;
        while i < self.live.len()
            invariant
                i <= self.live.len(),
                forall|j: int| 0 <= j < i ==> self.live[j]@ != id@,
            decreases self.live.len() - i,
        {
            if self.live[i].same_as(id) {
                return Some(i);
            }
            i += 1;
        }
        None
    }

    /// Whether a session with this identifier is live.
    pub fn is_live(&self, id: &SessionId) -> (r: bool)
        ensures
            r == self@.contains(id@),
    {
        self.position(id).is_some()
    }

    /// Takes `candidate` as the identifier of a new session, unless a live
    /// session has it already: then nothing changes and the answer is `None`.
    pub fn enroll(&mut self, candidate: SessionId) -> (r: Option<Session>)
        requires
            old(self).wf(),
        ensures
            final(self).wf(),
            r is None <==> old(self)@.contains(candidate@),
            r is None ==> final(self)@ == old(self)@,
            r matches Some(session) ==> {
                &&& session@.id == candidate@
                &&& session@.sequence == 0
                &&& is_session_text(candidate@)
                &&& final(self)@ == old(self)@.insert(candidate@)
            },
    {
        if self.position(&candidate).is_some() {
            return None;
        }
        let session = Session::open(candidate.duplicate());
        proof {
            use_type_invariant(&candidate);
        }
        let ghost before = self.live@;
        self.live.push(candidate);
        proof {
            assert forall|text: Seq<char>| final(self)@.contains(text) <==> old(self)@.insert(
                candidate@,
            ).contains(text) by {
                if old(self)@.contains(text) {
                    let i = choose|i: int| 0 <= i < before.len() && before[i]@ == text;
                    assert(self.live[i]@ == text);
                }
                if text == candidate@ {
                    assert(self.live[before.len() as int]@ == text);
                }
            }
            assert(self@ =~= old(self)@.insert(candidate@));
        }
        Some(session)
    }

    /// Opens a session under a fresh random identifier. An identifier that a
    /// live session already has is discarded and another one drawn, up to
    /// `MINT_ATTEMPTS` times; `None` if every draw collided. A draw collides
    /// only with the identifier of a live session, so a registry without live
    /// sessions always opens one.
    pub fn new_session(&mut self) -> (r: Option<Session>)
        requires
            old(self).wf(),
        ensures
            final(self).wf(),
            r is None ==> final(self)@ == old(self)@,
            r is None ==> can_collide(old(self)@),
            old(self)@ == Set::<Seq<char>>::empty() ==> r is Some,
            r matches Some(session) ==> {
                &&& is_session_text(session@.id)
                &&& session@.sequence == 0
                &&& !old(self)@.contains(session@.id)
                &&& final(self)@ == old(self)@.insert(session@.id)
            },
    {
        let mut attempt: usize = 0;
        while attempt < MINT_ATTEMPTS
            invariant
                attempt <= MINT_ATTEMPTS,
                self.wf(),
                self@ == old(self)@,
                attempt > 0 ==> can_collide(old(self)@),
            decreases MINT_ATTEMPTS - attempt,
        {
            let candidate = SessionId::generate();
            let ghost drawn = candidate@;
            let enrolled = self.enroll(candidate);
            if enrolled.is_some() {
                return enrolled;
            }
            assert(is_session_text(drawn) && old(self)@.contains(drawn));
            attempt += 1;
        }
        None
    }

    /// Forgets the session with this identifier, when its connection is
    /// closed. Says whether it was live.
    pub fn retire(&mut self, id: &SessionId) -> (was_live: bool)
        requires
            old(self).wf(),
        ensures
            final(self).wf(),
            was_live == old(self)@.contains(id@),
            final(self)@ == old(self)@.remove(id@),
    {
        let ghost before = self.live@;
        match self.position(id) {
            None => {
                assert(self@ =~= old(self)@.remove(id@));
                false
            },
            Some(at) => {
                let _ = self.live.remove(at);
                proof {
                    assert forall|text: Seq<char>| final(self)@.contains(text) <==> old(self)@.remove(
                        id@,
                    ).contains(text) by {
                        if final(self)@.contains(text) {
                            let i = choose|i: int| 0 <= i < self.live.len() && self.live[i]@ == text;
                            if i < at {
                                assert(before[i]@ == text);
                            } else {
                                assert(before[i + 1]@ == text);
                            }
                        }
                        if old(self)@.remove(id@).contains(text) {
                            let i = choose|i: int| 0 <= i < before.len() && before[i]@ == text;
                            if i < at {
                                assert(self.live[i]@ == text);
                            } else {
                                assert(self.live[i - 1]@ == text);
                            }
                        }
                    }
                    assert(self@ =~= old(self)@.remove(id@));
                }
                true
            },
        }
    }
}

} // verus!
