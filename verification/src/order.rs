//! The order in which the store walks its keys: byte strings compared
//! lexicographically.

use vstd::prelude::*;

verus! {

/// `a` and `b` hold the same bytes at every position before `i`.
pub open spec fn agree_before(a: Seq<u8>, b: Seq<u8>, i: int) -> bool {
    forall|j: int| 0 <= j < i ==> a[j] == b[j]
}

/// Position `i` decides that `a` sorts before `b`: the two agree before `i`,
/// and at `i` either `a` has ended while `b` goes on, or `a` holds the smaller
/// byte.
pub open spec fn decides_at(a: Seq<u8>, b: Seq<u8>, i: int) -> bool {
    &&& 0 <= i <= a.len()
    &&& i < b.len()
    &&& agree_before(a, b, i)
    &&& (i == a.len() || a[i] < b[i])
}

/// `a` sorts strictly before `b` in lexicographic byte order.
pub open spec fn lex_lt(a: Seq<u8>, b: Seq<u8>) -> bool {
    exists|i: int| decides_at(a, b, i)
}

/// `key` starts with `prefix`.
pub open spec fn has_prefix(key: Seq<u8>, prefix: Seq<u8>) -> bool {
    &&& prefix.len() <= key.len()
    &&& forall|j: int| 0 <= j < prefix.len() ==> key[j] == prefix[j]
}

/// No byte string sorts before itself.
pub proof fn lemma_lex_lt_irreflexive(a: Seq<u8>)
    ensures
        !lex_lt(a, a),
{
}

/// Of two byte strings at most one sorts before the other.
pub proof fn lemma_lex_lt_asymmetric(a: Seq<u8>, b: Seq<u8>)
    requires
        lex_lt(a, b),
    ensures
        !lex_lt(b, a),
{
    let i = choose|i: int| decides_at(a, b, i);
    if lex_lt(b, a) {
        let j = choose|j: int| decides_at(b, a, j);
        if i < j {
            assert(b[i] == a[i]);
        } else if j < i {
            assert(a[j] == b[j]);
        }
    }
}

/// A common prefix does not change which of two byte strings sorts first.
pub proof fn lemma_lex_lt_common_prefix(p: Seq<u8>, x: Seq<u8>, y: Seq<u8>)
    ensures
        lex_lt(p + x, p + y) <==> lex_lt(x, y),
{
    let n = p.len() as int;
    if lex_lt(x, y) {
        let i = choose|i: int| decides_at(x, y, i);
        assert forall|j: int| 0 <= j < n + i implies (p + x)[j] == (p + y)[j] by {
            if j >= n {
                assert(x[j - n] == y[j - n]);
            }
        }
        assert(decides_at(p + x, p + y, n + i));
    }
    if lex_lt(p + x, p + y) {
        let k = choose|k: int| decides_at(p + x, p + y, k);
        if k < n {
            assert((p + x)[k] == p[k]);
            assert((p + y)[k] == p[k]);
        }
        assert forall|j: int| 0 <= j < k - n implies x[j] == y[j] by {
            assert((p + x)[j + n] == (p + y)[j + n]);
        }
        assert(decides_at(x, y, k - n));
    }
}

} // verus!
