//! Arbitrary-precision natural numbers, held as their minimal big-endian bytes.

use crate::backend::div_bytes;
use crate::backend::eq_bytes;
use crate::backend::ge_bytes;
use crate::backend::modpow_bytes;
use crate::backend::mul_bytes;
use crate::backend::rem_bytes;
use crate::backend::sub_bytes;
use crate::encoding::be_value;
use crate::encoding::is_minimal;
use crate::encoding::lemma_be_value_leading_zero;
use crate::encoding::lemma_be_value_lower;
use crate::modular::mod_exp;
use vstd::arithmetic::power::lemma_pow_positive;
use vstd::prelude::*;
use vstd::std_specs::cmp::PartialEqSpecImpl;
use vstd::std_specs::convert::FromSpecImpl;

verus! {

/// A natural number of any size.
///
/// The number is stored as the shortest big-endian byte string that denotes
/// it; zero is the single byte `0`.
#[derive(Debug)]
pub struct BigNat {
    bytes: Vec<u8>,
}

impl View for BigNat {
    type V = nat;

    closed spec fn view(&self) -> nat {
        be_value(self.bytes@)
    }
}

impl BigNat {
    #[verifier::type_invariant]
    spec fn well_formed(self) -> bool {
        is_minimal(self.bytes@)
    }

    /// Reads a number from big-endian bytes.  Leading zero bytes are
    /// accepted, and the empty string reads as zero.
    pub fn from_bytes_be(bytes: &[u8]) -> (out: BigNat)
        ensures
            out@ == be_value(bytes@),
    {
        let n = bytes.len();
        let mut start: usize = 0;
        proof {
            assert(bytes@.subrange(0, n as int) =~= bytes@);
        }
        while start < n && bytes[start] == 0
            invariant
                start <= n,
                n == bytes@.len(),
                be_value(bytes@) == be_value(bytes@.subrange(start as int, n as int)),
            decreases n - start,
        {
            proof {
                let tail = bytes@.subrange(start as int, n as int);
                lemma_be_value_leading_zero(tail);
                assert(tail.subrange(1, tail.len() as int) =~= bytes@.subrange(
                    start as int + 1,
                    n as int,
                ));
            }
            start = start + 1;
        }
        let mut kept: Vec<u8> = Vec::new();
        if start == n {
            proof {
                assert(bytes@.subrange(start as int, n as int).len() == 0);
            }
            kept.push(0u8);
            proof {
                assert(kept@.drop_last().len() == 0);
                assert(be_value(kept@) == 0) by {
                    reveal_with_fuel(be_value, 2);
                }
            }
            return BigNat { bytes: kept };
        }
        let mut i: usize = start;
        while i < n
            invariant
                start <= i <= n,
                start < n,
                n == bytes@.len(),
                kept@ == bytes@.subrange(start as int, i as int),
            decreases n - i,
        {
            kept.push(bytes[i]);
            i = i + 1;
            proof {
                assert(kept@ =~= bytes@.subrange(start as int, i as int));
            }
        }
        proof {
            assert(kept@[0] == bytes@[start as int]);
        }
        BigNat { bytes: kept }
    }

    /// The shortest big-endian byte string of the number.
    pub fn to_bytes_be(&self) -> (out: Vec<u8>)
        ensures
            is_minimal(out@),
            be_value(out@) == self@,
    {
        proof {
            use_type_invariant(self);
        }
        let out = self.bytes.clone();
        proof {
            assert(out@ =~= self.bytes@);
        }
        out
    }

    /// Whether the number is zero.
    pub fn is_zero(&self) -> (out: bool)
        ensures
            out == (self@ == 0),
    {
        proof {
            use_type_invariant(self);
            if self.bytes@[0] != 0 {
                lemma_be_value_lower(self.bytes@);
                lemma_pow_positive(256, (self.bytes@.len() - 1) as nat);
            } else {
                assert(self.bytes@.drop_last().len() == 0);
                assert(be_value(self.bytes@.drop_last()) == 0);
            }
        }
        self.bytes[0] == 0
    }

    /// `self` times `rhs`.
    pub fn mul(&self, rhs: &BigNat) -> (out: BigNat)
        ensures
            out@ == self@ * rhs@,
    {
        let raw = mul_bytes(self.bytes.as_slice(), rhs.bytes.as_slice());
        BigNat::from_bytes_be(raw.as_slice())
    }

    /// `self` minus `rhs`, for `rhs` not above `self`.
    pub fn sub(&self, rhs: &BigNat) -> (out: BigNat)
        requires
            self@ >= rhs@,
        ensures
            out@ == self@ - rhs@,
    {
        let raw = sub_bytes(self.bytes.as_slice(), rhs.bytes.as_slice());
        BigNat::from_bytes_be(raw.as_slice())
    }

    /// `self` divided by a positive `rhs`, rounded down.
    pub fn div(&self, rhs: &BigNat) -> (out: BigNat)
        requires
            rhs@ > 0,
        ensures
            out@ == self@ / rhs@,
    {
        let raw = div_bytes(self.bytes.as_slice(), rhs.bytes.as_slice());
        BigNat::from_bytes_be(raw.as_slice())
    }

    /// What is left of `self` after division by a positive `modulus`.
    pub fn rem(&self, modulus: &BigNat) -> (out: BigNat)
        requires
            modulus@ > 0,
        ensures
            out@ == self@ % modulus@,
    {
        let raw = rem_bytes(self.bytes.as_slice(), modulus.bytes.as_slice());
        BigNat::from_bytes_be(raw.as_slice())
    }

    /// Whether `self` is at least `rhs`.
    pub fn ge(&self, rhs: &BigNat) -> (out: bool)
        ensures
            out == (self@ >= rhs@),
    {
        ge_bytes(self.bytes.as_slice(), rhs.bytes.as_slice())
    }

    /// `self` raised to `exponent`, reduced modulo a positive `modulus`.
    pub fn modpow(&self, exponent: &BigNat, modulus: &BigNat) -> (out: BigNat)
        requires
            modulus@ > 0,
        ensures
            out@ == mod_exp(self@, exponent@, modulus@),
    {
        let raw = modpow_bytes(
            self.bytes.as_slice(),
            exponent.bytes.as_slice(),
            modulus.bytes.as_slice(),
        );
        BigNat::from_bytes_be(raw.as_slice())
    }
}

impl Clone for BigNat {
    fn clone(&self) -> (out: BigNat)
        ensures
            out@ == self@,
    {
        proof {
            use_type_invariant(self);
        }
        let bytes = self.bytes.clone();
        proof {
            assert(bytes@ =~= self.bytes@);
        }
        BigNat { bytes }
    }
}

impl PartialEq for BigNat {
    fn eq(&self, other: &BigNat) -> (out: bool) {
        eq_bytes(self.bytes.as_slice(), other.bytes.as_slice())
    }
}

impl PartialEqSpecImpl for BigNat {
    open spec fn obeys_eq_spec() -> bool {
        true
    }

    open spec fn eq_spec(&self, other: &BigNat) -> bool {
        self@ == other@
    }
}

impl Eq for BigNat {

}

impl From<u32> for BigNat {
    fn from(v: u32) -> (out: BigNat)
        ensures
            out@ == v as nat,
    {
        let mut raw: Vec<u8> = Vec::new();
        raw.push((v / 0x100_0000) as u8);
        raw.push(((v / 0x1_0000) % 0x100) as u8);
        raw.push(((v / 0x100) % 0x100) as u8);
        raw.push((v % 0x100) as u8);
        proof {
            let s = raw@;
            let s3 = s.drop_last();
            let s2 = s3.drop_last();
            let s1 = s2.drop_last();
            assert(s1.drop_last().len() == 0);
            assert(be_value(s1) == s[0] as nat) by {
                reveal_with_fuel(be_value, 2);
            }
            assert(be_value(s2) == be_value(s1) * 256 + s[1] as nat);
            assert(be_value(s3) == be_value(s2) * 256 + s[2] as nat);
            assert(be_value(s) == be_value(s3) * 256 + s[3] as nat);
        }
        BigNat::from_bytes_be(raw.as_slice())
    }
}

impl FromSpecImpl<u32> for BigNat {
    open spec fn obeys_from_spec() -> bool {
        false
    }

    open spec fn from_spec(v: u32) -> BigNat {
        arbitrary()
    }
}

} // verus!
