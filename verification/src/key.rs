//! The composite key of a record: the session's identifier, a separator, and
//! the sequence number in fixed-width decimal, so that the keys of one session
//! sort in the order of their sequence numbers.

use vstd::prelude::*;
use crate::order::{decides_at, has_prefix, lex_lt, lemma_lex_lt_common_prefix, lemma_lex_lt_irreflexive};
use crate::session::{lemma_id_bytes, SessionId, ID_LEN};

verus! {

/// The number of decimal digits in a key: enough for every `u64`.
pub const SEQUENCE_WIDTH: usize = 20;

/// The byte between the identifier and the digits: a hyphen.
pub const SEPARATOR: u8 = 0x2d;

/// The length of every key.
pub const KEY_LEN: usize = 57;

/// Ten to the power `w`.
pub open spec fn pow10(w: nat) -> nat
    decreases w,
{
    if w == 0 {
        1
    } else {
        10 * pow10((w - 1) as nat)
    }
}

/// The ASCII digit for `d`, where `d` is below ten.
pub open spec fn digit_byte(d: nat) -> u8 {
    (0x30 + d) as u8
}

/// The last `width` decimal digits of `n`, most significant first, with
/// leading zeros.
pub open spec fn decimal(n: nat, width: nat) -> Seq<u8>
    decreases width,
{
    if width == 0 {
        Seq::empty()
    } else {
        decimal(n / 10, (width - 1) as nat).push(digit_byte(n % 10))
    }
}

/// The number that a string of ASCII digits writes.
pub open spec fn decimal_value(digits: Seq<u8>) -> nat
    decreases digits.len(),
{
    if digits.len() == 0 {
        0
    } else {
        10 * decimal_value(digits.drop_last()) + (digits.last() - 0x30) as nat
    }
}

/// The key of the record with sequence number `sequence` in the session whose
/// identifier has the bytes `id`.
pub open spec fn key_of(id: Seq<u8>, sequence: nat) -> Seq<u8> {
    id + seq![SEPARATOR] + decimal(sequence, SEQUENCE_WIDTH as nat)
}

/// One more than the largest sequence number.
pub open spec fn sequence_limit() -> nat {
    0x1_0000_0000_0000_0000
}

/// The sequence number written in a key.
pub open spec fn sequence_of(key: Seq<u8>) -> nat {
    decimal_value(key.skip(ID_LEN + 1))
}

/// `decimal(n, width)` has `width` digits.
pub proof fn lemma_decimal_len(n: nat, width: nat)
    ensures
        decimal(n, width).len() == width,
    decreases width,
{
    if width > 0 {
        lemma_decimal_len(n / 10, (width - 1) as nat);
    }
}

/// Reading back what `decimal` wrote gives the number, if it fits the width.
pub proof fn lemma_decimal_value(n: nat, width: nat)
    requires
        n < pow10(width),
    ensures
        decimal_value(decimal(n, width)) == n,
    decreases width,
{
    if width > 0 {
        let rest = decimal(n / 10, (width - 1) as nat);
        lemma_decimal_value(n / 10, (width - 1) as nat);
        assert(decimal(n, width).drop_last() =~= rest);
    }
}

/// Among numbers that fit the width, the smaller one is written as the string
/// that sorts first.
pub proof fn lemma_decimal_order(n: nat, m: nat, width: nat)
    requires
        n < m < pow10(width),
    ensures
        lex_lt(decimal(n, width), decimal(m, width)),
    decreases width,
{
    let a = decimal(n, width);
    let b = decimal(m, width);
    lemma_decimal_len(n, width);
    lemma_decimal_len(m, width);
    if width > 0 {
        let w = (width - 1) as nat;
        let a0 = decimal(n / 10, w);
        let b0 = decimal(m / 10, w);
        lemma_decimal_len(n / 10, w);
        lemma_decimal_len(m / 10, w);
        if n / 10 < m / 10 {
            lemma_decimal_order(n / 10, m / 10, w);
            let i = choose|i: int| decides_at(a0, b0, i);
            assert forall|j: int| 0 <= j < i implies a[j] == b[j] by {
                assert(a0[j] == b0[j]);
            }
            assert(a[i] == a0[i] && b[i] == b0[i]);
            assert(decides_at(a, b, i));
        } else {
            assert(n / 10 == m / 10);
            assert(decides_at(a, b, w as int));
        }
    }
}

/// Every `u64` fits in `SEQUENCE_WIDTH` digits.
pub proof fn lemma_sequence_fits(n: nat)
    requires
        n < sequence_limit(),
    ensures
        n < pow10(SEQUENCE_WIDTH as nat),
{
    reveal_with_fuel(pow10, 21);
    assert(pow10(20) == 100000000000000000000nat);
}

/// A key is as long as the identifier, the separator and the digits together.
pub proof fn lemma_key_len(id: Seq<u8>, sequence: nat)
    ensures
        key_of(id, sequence).len() == id.len() + 1 + SEQUENCE_WIDTH,
{
    lemma_decimal_len(sequence, SEQUENCE_WIDTH as nat);
}

/// A key starts with the identifier of its session.
pub proof fn lemma_key_has_prefix(id: Seq<u8>, sequence: nat)
    ensures
        has_prefix(key_of(id, sequence), id),
{
}

/// A key gives back the sequence number it was made from.
pub proof fn lemma_sequence_of_key(id: Seq<u8>, sequence: nat)
    requires
        id.len() == ID_LEN,
        sequence < sequence_limit(),
    ensures
        sequence_of(key_of(id, sequence)) == sequence,
{
    let digits = decimal(sequence, SEQUENCE_WIDTH as nat);
    lemma_sequence_fits(sequence);
    lemma_decimal_value(sequence, SEQUENCE_WIDTH as nat);
    assert(key_of(id, sequence).skip(ID_LEN + 1) =~= digits);
}

/// Within one session the keys sort as their sequence numbers do.
pub proof fn lemma_key_order(id: Seq<u8>, i: nat, j: nat)
    requires
        i < j < sequence_limit(),
    ensures
        lex_lt(key_of(id, i), key_of(id, j)),
{
    lemma_sequence_fits(j);
    lemma_decimal_order(i, j, SEQUENCE_WIDTH as nat);
    lemma_lex_lt_common_prefix(
        id + seq![SEPARATOR],
        decimal(i, SEQUENCE_WIDTH as nat),
        decimal(j, SEQUENCE_WIDTH as nat),
    );
}

/// A key under one identifier starts with no other identifier of the same
/// length.
pub proof fn lemma_key_prefix_is_own(a: Seq<u8>, sequence: nat, b: Seq<u8>)
    requires
        a.len() == b.len(),
        has_prefix(key_of(a, sequence), b),
    ensures
        a == b,
{
    assert forall|k: int| 0 <= k < a.len() implies a[k] == b[k] by {
        assert(key_of(a, sequence)[k] == a[k]);
    }
    assert(a =~= b);
}

/// Two keys are equal only if they were made from the same identifier and the
/// same sequence number.
pub proof fn lemma_key_injective(a: Seq<u8>, i: nat, b: Seq<u8>, j: nat)
    requires
        a.len() == b.len(),
        i < sequence_limit(),
        j < sequence_limit(),
        key_of(a, i) == key_of(b, j),
    ensures
        a == b,
        i == j,
{
    lemma_key_has_prefix(b, j);
    lemma_key_prefix_is_own(a, i, b);
    if i < j {
        lemma_key_order(a, i, j);
        lemma_lex_lt_irreflexive(key_of(a, i));
    } else if j < i {
        lemma_key_order(a, j, i);
        lemma_lex_lt_irreflexive(key_of(a, i));
    }
}

/// Writes `n` in `SEQUENCE_WIDTH` decimal digits with leading zeros.
pub fn decimal_digits(n: u64) -> (digits: Vec<u8>)
    ensures
        digits@ == decimal(n as nat, SEQUENCE_WIDTH as nat),
{
    let mut digits: Vec<u8> = Vec::new();
    let mut filled: usize = 0;
    while filled < SEQUENCE_WIDTH
        invariant
            filled <= SEQUENCE_WIDTH,
            digits.len() == filled,
        decreases SEQUENCE_WIDTH - filled,
    {
        digits.push(0x30);
        filled += 1;
    }
    let mut rest: u64 = n;
    let mut done: usize = 0;
    while done < SEQUENCE_WIDTH
        invariant
            done <= SEQUENCE_WIDTH,
            digits.len() == SEQUENCE_WIDTH,
            decimal(n as nat, SEQUENCE_WIDTH as nat) == decimal(
                rest as nat,
                (SEQUENCE_WIDTH - done) as nat,
            ) + digits@.subrange(SEQUENCE_WIDTH - done, SEQUENCE_WIDTH as int),
        decreases SEQUENCE_WIDTH - done,
    {
        let ghost before = digits@;
        let ghost width = (SEQUENCE_WIDTH - done) as nat;
        let digit: u8 = (rest % 10) as u8;
        digits.set(SEQUENCE_WIDTH - 1 - done, 0x30 + digit);
        proof {
            let shorter = decimal(rest as nat / 10, (width - 1) as nat);
            assert(decimal(rest as nat, width) == shorter.push(digit_byte(rest as nat % 10)));
            assert(shorter.push(digit_byte(rest as nat % 10)) + before.subrange(
                SEQUENCE_WIDTH - done,
                SEQUENCE_WIDTH as int,
            ) =~= shorter + digits@.subrange(SEQUENCE_WIDTH - done - 1, SEQUENCE_WIDTH as int));
        }
        rest = rest / 10;
        done += 1;
    }
    proof {
        assert(decimal(rest as nat, 0) + digits@.subrange(0, SEQUENCE_WIDTH as int) =~= digits@);
    }
    digits
}

/// The key under which the record with sequence number `sequence` of session
/// `id` is stored.
pub fn record_key(id: &SessionId, sequence: u64) -> (key: Vec<u8>)
    ensures
        key@ == key_of(id.bytes(), sequence as nat),
        key@.len() == KEY_LEN,
{
    let mut key = id.to_bytes();
    key.push(SEPARATOR);
    let mut digits = decimal_digits(sequence);
    key.append(&mut digits);
    proof {
        lemma_id_bytes(id@);
        lemma_key_len(id.bytes(), sequence as nat);
    }
    key
}

} // verus!
