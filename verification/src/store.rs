//! What the engine relies on from the durable ordered store, as a model: a map
//! from keys to values, a point insert, and a scan that returns the entries
//! under a prefix in ascending key order.

use vstd::prelude::*;
use crate::key::{
    key_of, lemma_key_has_prefix, lemma_key_injective, lemma_key_order, lemma_key_prefix_is_own,
    sequence_limit,
};
use crate::order::{has_prefix, lemma_lex_lt_asymmetric, lemma_lex_lt_irreflexive, lex_lt};

verus! {

/// One entry of the store, as a scan hands it out.
#[derive(Debug, PartialEq, Eq)]
pub struct Record {
    pub key: Vec<u8>,
    pub value: Vec<u8>,
}

impl View for Record {
    type V = (Seq<u8>, Seq<u8>);

    open spec fn view(&self) -> (Seq<u8>, Seq<u8>) {
        (self.key@, self.value@)
    }
}

/// The entries that a vector of records holds, in its order.
pub open spec fn entries(records: Seq<Record>) -> Seq<(Seq<u8>, Seq<u8>)> {
    records.map_values(|r: Record| r@)
}

/// The store after `value` was put under `key`.
pub open spec fn put(store: Map<Seq<u8>, Seq<u8>>, key: Seq<u8>, value: Seq<u8>) -> Map<
    Seq<u8>,
    Seq<u8>,
> {
    store.insert(key, value)
}

/// A store that may crash: what it holds now, and what it held when it was
/// last flushed. A crash throws away what was put since.
pub struct Durable {
    /// The entries that a scan sees.
    pub current: Map<Seq<u8>, Seq<u8>>,
    /// The entries that a crash leaves.
    pub flushed: Map<Seq<u8>, Seq<u8>>,
}

impl Durable {
    /// The store after `value` was put under `key`.
    pub open spec fn after_put(self, key: Seq<u8>, value: Seq<u8>) -> Durable {
        Durable { current: put(self.current, key, value), ..self }
    }

    /// The store after a flush: all that was put is durable.
    pub open spec fn after_flush(self) -> Durable {
        Durable { flushed: self.current, ..self }
    }

    /// The store after a crash and restart.
    pub open spec fn after_crash(self) -> Durable {
        Durable { current: self.flushed, ..self }
    }

    /// Nothing was put since the last flush.
    pub open spec fn settled(self) -> bool {
        self.current == self.flushed
    }
}

/// The keys of `scan` ascend strictly.
pub open spec fn ascending(scan: Seq<(Seq<u8>, Seq<u8>)>) -> bool {
    forall|i: int, j: int|
        #![trigger scan[i], scan[j]]
        0 <= i < j < scan.len() ==> lex_lt(scan[i].0, scan[j].0)
}

/// `scan` is what a prefix scan of `store` returns for `prefix`: the entries
/// whose key starts with `prefix`, each of them once, in ascending key order.
pub open spec fn is_prefix_scan(
    store: Map<Seq<u8>, Seq<u8>>,
    prefix: Seq<u8>,
    scan: Seq<(Seq<u8>, Seq<u8>)>,
) -> bool {
    &&& ascending(scan)
    &&& forall|i: int|
        #![trigger scan[i]]
        0 <= i < scan.len() ==> {
            &&& has_prefix(scan[i].0, prefix)
            &&& store.contains_key(scan[i].0)
            &&& store[scan[i].0] == scan[i].1
        }
    &&& forall|k: Seq<u8>|
        #![trigger store.contains_key(k)]
        store.contains_key(k) && has_prefix(k, prefix) ==> exists|i: int|
            #![trigger scan[i]]
            0 <= i < scan.len() && scan[i].0 == k
}

/// The store holds, under the identifier `id`, exactly the records of `log`:
/// the record with sequence number `i` holds `log[i]`, and no other key starts
/// with `id`.
pub open spec fn holds_log(store: Map<Seq<u8>, Seq<u8>>, id: Seq<u8>, log: Seq<Seq<u8>>) -> bool {
    &&& log.len() <= sequence_limit()
    &&& forall|i: nat|
        #![trigger key_of(id, i)]
        i < log.len() ==> store.contains_key(key_of(id, i)) && store[key_of(id, i)] == log[i as int]
    &&& forall|k: Seq<u8>|
        #![trigger store.contains_key(k)]
        store.contains_key(k) && has_prefix(k, id) ==> exists|i: nat|
            #![trigger key_of(id, i)]
            i < log.len() && k == key_of(id, i)
}

/// The entries of the session `id` with the log `log`, in the order of their
/// sequence numbers.
pub open spec fn log_entries(id: Seq<u8>, log: Seq<Seq<u8>>) -> Seq<(Seq<u8>, Seq<u8>)> {
    Seq::new(log.len(), |i: int| (key_of(id, i as nat), log[i]))
}

/// The values of a scan, in its order.
pub open spec fn values(scan: Seq<(Seq<u8>, Seq<u8>)>) -> Seq<Seq<u8>> {
    scan.map_values(|e: (Seq<u8>, Seq<u8>)| e.1)
}

proof fn lemma_scans_agree_on_key(
    store: Map<Seq<u8>, Seq<u8>>,
    prefix: Seq<u8>,
    s1: Seq<(Seq<u8>, Seq<u8>)>,
    s2: Seq<(Seq<u8>, Seq<u8>)>,
    k: int,
)
    requires
        is_prefix_scan(store, prefix, s1),
        is_prefix_scan(store, prefix, s2),
        0 <= k < s1.len(),
        k < s2.len(),
    ensures
        s1[k].0 == s2[k].0,
    decreases k,
{
    assert forall|j: int| 0 <= j < k implies s1[j].0 == s2[j].0 by {
        lemma_scans_agree_on_key(store, prefix, s1, s2, j);
    }
    let a = s1[k].0;
    let b = s2[k].0;
    assert(store.contains_key(a));
    assert(store.contains_key(b));
    let j = choose|j: int| 0 <= j < s2.len() && s2[j].0 == a;
    let i = choose|i: int| 0 <= i < s1.len() && s1[i].0 == b;
    if j < k {
        assert(lex_lt(s1[j].0, s1[k].0));
        lemma_lex_lt_irreflexive(a);
    } else if i < k {
        assert(lex_lt(s2[i].0, s2[k].0));
        lemma_lex_lt_irreflexive(b);
    } else if j > k && i > k {
        assert(lex_lt(s2[k].0, s2[j].0));
        assert(lex_lt(s1[k].0, s1[i].0));
        lemma_lex_lt_asymmetric(a, b);
    }
}

proof fn lemma_scan_not_longer(
    store: Map<Seq<u8>, Seq<u8>>,
    prefix: Seq<u8>,
    s1: Seq<(Seq<u8>, Seq<u8>)>,
    s2: Seq<(Seq<u8>, Seq<u8>)>,
)
    requires
        is_prefix_scan(store, prefix, s1),
        is_prefix_scan(store, prefix, s2),
    ensures
        s1.len() <= s2.len(),
{
    if s1.len() > s2.len() {
        let k = s2.len() as int;
        let a = s1[k].0;
        assert(store.contains_key(a));
        let j = choose|j: int| 0 <= j < s2.len() && s2[j].0 == a;
        lemma_scans_agree_on_key(store, prefix, s1, s2, j);
        assert(lex_lt(s1[j].0, s1[k].0));
        lemma_lex_lt_irreflexive(a);
    }
}

/// A store has one prefix scan for each prefix: two scans of the same store
/// for the same prefix are equal, entry by entry.
pub proof fn lemma_scan_unique(
    store: Map<Seq<u8>, Seq<u8>>,
    prefix: Seq<u8>,
    s1: Seq<(Seq<u8>, Seq<u8>)>,
    s2: Seq<(Seq<u8>, Seq<u8>)>,
)
    requires
        is_prefix_scan(store, prefix, s1),
        is_prefix_scan(store, prefix, s2),
    ensures
        s1 == s2,
{
    lemma_scan_not_longer(store, prefix, s1, s2);
    lemma_scan_not_longer(store, prefix, s2, s1);
    assert forall|k: int| 0 <= k < s1.len() implies s1[k] == s2[k] by {
        lemma_scans_agree_on_key(store, prefix, s1, s2, k);
    }
    assert(s1 =~= s2);
}

/// Where the store holds a session's log, the entries of the log in sequence
/// order are a prefix scan for the session's identifier.
pub proof fn lemma_log_entries_are_scan(
    store: Map<Seq<u8>, Seq<u8>>,
    id: Seq<u8>,
    log: Seq<Seq<u8>>,
)
    requires
        holds_log(store, id, log),
    ensures
        is_prefix_scan(store, id, log_entries(id, log)),
{
    let scan = log_entries(id, log);
    assert forall|i: int, j: int| 0 <= i < j < scan.len() implies lex_lt(
        scan[i].0,
        scan[j].0,
    ) by {
        lemma_key_order(id, i as nat, j as nat);
    }
    assert forall|i: int| 0 <= i < scan.len() implies {
        &&& has_prefix(scan[i].0, id)
        &&& store.contains_key(scan[i].0)
        &&& store[scan[i].0] == scan[i].1
    } by {
        lemma_key_has_prefix(id, i as nat);
        assert(store.contains_key(key_of(id, i as nat)));
    }
    assert forall|k: Seq<u8>| store.contains_key(k) && has_prefix(k, id) implies exists|i: int|
        #![trigger scan[i]]
        0 <= i < scan.len() && scan[i].0 == k by {
        let n = choose|n: nat| n < log.len() && k == key_of(id, n);
        assert(scan[n as int].0 == k);
    }
}

/// Where the store holds a session's log, every prefix scan for the session's
/// identifier returns the records of the log, all of them, in sequence order.
pub proof fn lemma_scan_is_log(
    store: Map<Seq<u8>, Seq<u8>>,
    id: Seq<u8>,
    log: Seq<Seq<u8>>,
    scan: Seq<(Seq<u8>, Seq<u8>)>,
)
    requires
        holds_log(store, id, log),
        is_prefix_scan(store, id, scan),
    ensures
        scan == log_entries(id, log),
        values(scan) == log,
{
    lemma_log_entries_are_scan(store, id, log);
    lemma_scan_unique(store, id, scan, log_entries(id, log));
    assert(values(log_entries(id, log)) =~= log);
}

/// A store that holds nothing under `id` holds the empty log of `id`.
pub proof fn lemma_fresh_session_has_empty_log(store: Map<Seq<u8>, Seq<u8>>, id: Seq<u8>)
    requires
        forall|k: Seq<u8>| #[trigger] store.contains_key(k) ==> !has_prefix(k, id),
    ensures
        holds_log(store, id, Seq::empty()),
{
}

/// Putting the next record of a session extends its log by that record, and
/// the key it is put under was not in the store before: nothing is
/// overwritten.
pub proof fn lemma_put_extends_log(
    store: Map<Seq<u8>, Seq<u8>>,
    id: Seq<u8>,
    log: Seq<Seq<u8>>,
    value: Seq<u8>,
)
    requires
        holds_log(store, id, log),
        log.len() < sequence_limit(),
    ensures
        !store.contains_key(key_of(id, log.len())),
        holds_log(put(store, key_of(id, log.len()), value), id, log.push(value)),
{
    let n = log.len();
    let key = key_of(id, n);
    let after = put(store, key, value);
    let longer = log.push(value);
    lemma_key_has_prefix(id, n);
    if store.contains_key(key) {
        let i = choose|i: nat| i < log.len() && key == key_of(id, i);
        lemma_key_injective(id, i, id, n);
    }
    assert forall|i: nat| i < longer.len() implies after.contains_key(key_of(id, i)) && after[key_of(
        id,
        i,
    )] == longer[i as int] by {
        if i < n {
            assert(store.contains_key(key_of(id, i)));
            if key_of(id, i) == key {
                lemma_key_injective(id, i, id, n);
            }
        }
    }
    assert forall|k: Seq<u8>| after.contains_key(k) && has_prefix(k, id) implies exists|i: nat|
        #![trigger key_of(id, i)]
        i < longer.len() && k == key_of(id, i) by {
        if k == key {
            assert(k == key_of(id, n));
        } else {
            assert(store.contains_key(k));
            let i = choose|i: nat| i < log.len() && k == key_of(id, i);
            assert(i < longer.len() && k == key_of(id, i));
        }
    }
}

/// A record put under another identifier of the same length leaves a
/// session's log as it was.
pub proof fn lemma_put_elsewhere_keeps_log(
    store: Map<Seq<u8>, Seq<u8>>,
    id: Seq<u8>,
    log: Seq<Seq<u8>>,
    other: Seq<u8>,
    sequence: nat,
    value: Seq<u8>,
)
    requires
        holds_log(store, id, log),
        other.len() == id.len(),
        other != id,
    ensures
        holds_log(put(store, key_of(other, sequence), value), id, log),
{
    let key = key_of(other, sequence);
    let after = put(store, key, value);
    if has_prefix(key, id) {
        lemma_key_prefix_is_own(other, sequence, id);
    }
    assert forall|i: nat| i < log.len() implies after.contains_key(key_of(id, i)) && after[key_of(
        id,
        i,
    )] == log[i as int] by {
        lemma_key_has_prefix(id, i);
        assert(store.contains_key(key_of(id, i)));
    }
    assert forall|k: Seq<u8>| after.contains_key(k) && has_prefix(k, id) implies exists|i: nat|
        #![trigger key_of(id, i)]
        i < log.len() && k == key_of(id, i) by {
        assert(store.contains_key(k));
    }
}

/// A record put under another identifier of the same length leaves the prefix
/// scan for a session's identifier as it was.
pub proof fn lemma_put_elsewhere_keeps_scan(
    store: Map<Seq<u8>, Seq<u8>>,
    id: Seq<u8>,
    scan: Seq<(Seq<u8>, Seq<u8>)>,
    other: Seq<u8>,
    sequence: nat,
    value: Seq<u8>,
)
    requires
        is_prefix_scan(store, id, scan),
        other.len() == id.len(),
        other != id,
    ensures
        is_prefix_scan(put(store, key_of(other, sequence), value), id, scan),
{
    let key = key_of(other, sequence);
    let after = put(store, key, value);
    if has_prefix(key, id) {
        lemma_key_prefix_is_own(other, sequence, id);
    }
    assert forall|k: Seq<u8>| after.contains_key(k) && has_prefix(k, id) implies exists|i: int|
        #![trigger scan[i]]
        0 <= i < scan.len() && scan[i].0 == k by {
        assert(store.contains_key(k));
    }
}

} // verus!
