//! The group that both parties use: the 1024-bit group with a 160-bit prime
//! order subgroup of RFC 5114, and a second generator of that subgroup.

use crate::backend::hex_decode;
use crate::encoding::be_value;
use crate::bignat::BigNat;
use crate::engine::ZKP;
use crate::hexstr::hex_bytes;
use crate::hexstr::is_hex_string;
use crate::modular::mod_exp;
use vstd::prelude::*;

verus! {

/// The prime modulus `p`, in hexadecimal.
pub const MODULUS_HEX: &'static str =
    "B10B8F96A080E01DDE92DE5EAE5D54EC52C99FBCFB06A3C69A6A9DCA52D23B616073E28675A23D189838EF1E2EE652C013ECB4AEA906112324975C3CD49B83BFACCBDD7D90C4BD7098488E9C219A73724EFFD6FAE5644738FAA31A4FF55BCCC0A151AF5F0DC8B4BD45BF37DF365C1A65E68CFDA76D4DA708DF1FB2BC2E4A4371";

/// The prime order `q` of the subgroup, in hexadecimal.
pub const ORDER_HEX: &'static str = "F518AA8781A8DF278ABA4E7D64B7CB9D49462353";

/// The generator `alpha` of the subgroup, in hexadecimal.
pub const GENERATOR_HEX: &'static str =
    "A4D1CBD5C3FD34126765A442EFB99905F8104DD258AC507FD6406CFF14266D31266FEA1E5C41564B777E690F5504F213160217B4B01B886A5E91547F9E2749F4D7FBD7D3B9A92EE1909D0D2263F80A76A6A24C087A091F531DBF0A0169B6A28AD662A4D18E73AFA32D779D5918D08BC8858F4DCEF97C2A24855E6EEB22B3B2E5";

/// The second generator `beta` of the subgroup, in hexadecimal: a power of
/// `alpha` whose exponent was drawn at random and not kept.
pub const SECOND_GENERATOR_HEX: &'static str =
    "887F1296542A1A4355F185B0CD7241C4A7BD58EA664A1CEA1DE6DAFB91D4E34D7CEE4A1559534587561F08E5FEE601C5C0D04A2319DC3EB224ED7A5FD06D5845C35857DE883475D085A6A2D926C1E8EE9C79AE8701920071BD2BACC9BD33FC1A3C77520C4015ECAA297CF7D88FD104666C2B8A6FF21C93D10C1B97C63012F657";

/// The number that hexadecimal text denotes.
pub open spec fn hex_value(text: Seq<char>) -> nat {
    be_value(hex_bytes(text))
}

/// A byte string that ends in a byte above one denotes a number above
/// one.
proof fn lemma_last_byte_above_one(bytes: Seq<u8>)
    requires
        bytes.len() >= 1,
        bytes.last() > 1,
    ensures
        be_value(bytes) > 1,
{
}

impl BigNat {
    /// Reads a number from hexadecimal text.  Text that does not consist of
    /// an even number of hexadecimal digits is refused.
    pub fn from_hex(text: &str) -> (out: Option<BigNat>)
        ensures
            out is Some <==> is_hex_string(text@),
            out is Some ==> out->Some_0@ == hex_value(text@),
    {
        match hex_decode(text) {
            Some(bytes) => Some(BigNat::from_bytes_be(bytes.as_slice())),
            None => None,
        }
    }
}

impl ZKP {
    /// The generator, the modulus and the order of RFC 5114, read from
    /// their hexadecimal text.
    fn fixed_constants() -> (out: (BigNat, BigNat, BigNat))
        ensures
            out.0@ == hex_value(GENERATOR_HEX@),
            out.1@ == hex_value(MODULUS_HEX@),
            out.2@ == hex_value(ORDER_HEX@),
            out.1@ > 1,
            out.2@ > 1,
    {
        proof {
            reveal_strlit(
                "B10B8F96A080E01DDE92DE5EAE5D54EC52C99FBCFB06A3C69A6A9DCA52D23B616073E28675A23D189838EF1E2EE652C013ECB4AEA906112324975C3CD49B83BFACCBDD7D90C4BD7098488E9C219A73724EFFD6FAE5644738FAA31A4FF55BCCC0A151AF5F0DC8B4BD45BF37DF365C1A65E68CFDA76D4DA708DF1FB2BC2E4A4371",
            );
            reveal_strlit("F518AA8781A8DF278ABA4E7D64B7CB9D49462353");
            reveal_strlit(
                "A4D1CBD5C3FD34126765A442EFB99905F8104DD258AC507FD6406CFF14266D31266FEA1E5C41564B777E690F5504F213160217B4B01B886A5E91547F9E2749F4D7FBD7D3B9A92EE1909D0D2263F80A76A6A24C087A091F531DBF0A0169B6A28AD662A4D18E73AFA32D779D5918D08BC8858F4DCEF97C2A24855E6EEB22B3B2E5",
            );
            assert(is_hex_string(MODULUS_HEX@));
            assert(is_hex_string(ORDER_HEX@));
            assert(is_hex_string(GENERATOR_HEX@));
            assert(hex_bytes(MODULUS_HEX@).last() == 0x71);
            assert(hex_bytes(ORDER_HEX@).last() == 0x53);
            lemma_last_byte_above_one(hex_bytes(MODULUS_HEX@));
            lemma_last_byte_above_one(hex_bytes(ORDER_HEX@));
        }
        let p = BigNat::from_hex(MODULUS_HEX).unwrap();
        let q = BigNat::from_hex(ORDER_HEX).unwrap();
        let alpha = BigNat::from_hex(GENERATOR_HEX).unwrap();
        (alpha, p, q)
    }

    /// The group of RFC 5114 with the second generator `alpha^exponent mod
    /// p`, in the order `(alpha, beta, p, q)`.
    pub fn constants_with(exponent: &BigNat) -> (out: (BigNat, BigNat, BigNat, BigNat))
        ensures
            out.0@ == hex_value(GENERATOR_HEX@),
            out.1@ == mod_exp(out.0@, exponent@, out.2@),
            out.2@ == hex_value(MODULUS_HEX@),
            out.3@ == hex_value(ORDER_HEX@),
    {
        let (alpha, p, q) = ZKP::fixed_constants();
        let beta = alpha.modpow(exponent, &p);
        (alpha, beta, p, q)
    }

    /// The group that both parties use, in the order `(alpha, beta, p, q)`.
    /// Every call gives the same four numbers.
    pub fn get_constants() -> (out: (BigNat, BigNat, BigNat, BigNat))
        ensures
            out.0@ == hex_value(GENERATOR_HEX@),
            out.1@ == hex_value(SECOND_GENERATOR_HEX@),
            out.2@ == hex_value(MODULUS_HEX@),
            out.3@ == hex_value(ORDER_HEX@),
            out.1@ > 1,
    {
        proof {
            reveal_strlit(
                "887F1296542A1A4355F185B0CD7241C4A7BD58EA664A1CEA1DE6DAFB91D4E34D7CEE4A1559534587561F08E5FEE601C5C0D04A2319DC3EB224ED7A5FD06D5845C35857DE883475D085A6A2D926C1E8EE9C79AE8701920071BD2BACC9BD33FC1A3C77520C4015ECAA297CF7D88FD104666C2B8A6FF21C93D10C1B97C63012F657",
            );
            assert(is_hex_string(SECOND_GENERATOR_HEX@));
            assert(hex_bytes(SECOND_GENERATOR_HEX@).last() == 0x57);
            lemma_last_byte_above_one(hex_bytes(SECOND_GENERATOR_HEX@));
        }
        let (alpha, p, q) = ZKP::fixed_constants();
        let beta = BigNat::from_hex(SECOND_GENERATOR_HEX).unwrap();
        (alpha, beta, p, q)
    }
}

} // verus!
