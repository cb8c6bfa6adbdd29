//! Big-endian byte strings and the numbers they denote.

use vstd::arithmetic::power::*;
use vstd::prelude::*;

verus! {

/// The natural number that a big-endian byte string denotes.
pub open spec fn be_value(bytes: Seq<u8>) -> nat
    decreases bytes.len(),
{
    if bytes.len() == 0 {
        0
    } else {
        be_value(bytes.drop_last()) * 256 + bytes.last() as nat
    }
}

/// A byte string is minimal when it is not empty and carries no leading zero
/// byte, except for the single byte that stands for zero.
pub open spec fn is_minimal(bytes: Seq<u8>) -> bool {
    bytes.len() >= 1 && (bytes.len() == 1 || bytes[0] != 0)
}

/// Leading zero bytes do not change the value.
pub proof fn lemma_be_value_leading_zero(bytes: Seq<u8>)
    requires
        bytes.len() >= 1,
        bytes[0] == 0,
    ensures
        be_value(bytes) == be_value(bytes.subrange(1, bytes.len() as int)),
    decreases bytes.len(),
{
    let rest = bytes.subrange(1, bytes.len() as int);
    if bytes.len() == 1 {
        assert(bytes.drop_last().len() == 0);
        assert(be_value(bytes.drop_last()) == 0);
        assert(rest.len() == 0);
    } else {
        lemma_be_value_leading_zero(bytes.drop_last());
        assert(bytes.drop_last().subrange(1, bytes.len() - 1) =~= rest.drop_last());
        assert(rest.last() == bytes.last());
    }
}

/// A string of `n` bytes denotes a number below `256^n`.
pub proof fn lemma_be_value_upper(bytes: Seq<u8>)
    ensures
        be_value(bytes) < pow(256, bytes.len()),
    decreases bytes.len(),
{
    if bytes.len() == 0 {
        lemma_pow0(256);
    } else {
        let n = (bytes.len() - 1) as nat;
        lemma_be_value_upper(bytes.drop_last());
        lemma_pow_adds(256, n, 1);
        lemma_pow1(256);
    }
}

/// A string of `n` bytes that starts with a non-zero byte denotes a number
/// of at least `256^(n - 1)`.
pub proof fn lemma_be_value_lower(bytes: Seq<u8>)
    requires
        bytes.len() >= 1,
        bytes[0] != 0,
    ensures
        be_value(bytes) >= pow(256, (bytes.len() - 1) as nat),
    decreases bytes.len(),
{
    if bytes.len() == 1 {
        lemma_pow0(256);
        assert(bytes.drop_last().len() == 0);
        assert(be_value(bytes.drop_last()) == 0);
    } else {
        let n = (bytes.len() - 2) as nat;
        lemma_be_value_lower(bytes.drop_last());
        lemma_pow_adds(256, n, 1);
        lemma_pow1(256);
    }
}

/// Two byte strings of one length that denote the same number are the
/// same string.
pub proof fn lemma_be_value_injective(a: Seq<u8>, b: Seq<u8>)
    requires
        a.len() == b.len(),
        be_value(a) == be_value(b),
    ensures
        a == b,
    decreases a.len(),
{
    if a.len() == 0 {
        assert(a =~= b);
    } else {
        lemma_be_value_injective(a.drop_last(), b.drop_last());
        assert(a =~= a.drop_last().push(a.last()));
        assert(b =~= b.drop_last().push(b.last()));
    }
}

/// Every number has one minimal byte string only.
pub proof fn lemma_minimal_unique(a: Seq<u8>, b: Seq<u8>)
    requires
        is_minimal(a),
        is_minimal(b),
        be_value(a) == be_value(b),
    ensures
        a == b,
{
    if a.len() < b.len() {
        lemma_be_value_upper(a);
        lemma_be_value_lower(b);
        lemma_pow_increases(256, a.len(), (b.len() - 1) as nat);
    } else if b.len() < a.len() {
        lemma_be_value_upper(b);
        lemma_be_value_lower(a);
        lemma_pow_increases(256, b.len(), (a.len() - 1) as nat);
    }
    lemma_be_value_injective(a, b);
}

} // verus!
