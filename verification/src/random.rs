//! Random challenges and random opaque tokens.

use crate::backend::push_char;
use crate::backend::random_alphanumeric;
use crate::backend::random_below_bytes;
use crate::bignat::BigNat;
use crate::engine::ZKP;
use crate::error::AuthError;
use vstd::prelude::*;

verus! {

/// Whether `b` is the ASCII code of a letter or a digit.
pub open spec fn is_alphanumeric_byte(b: u8) -> bool {
    (0x30 <= b <= 0x39) || (0x41 <= b <= 0x5a) || (0x61 <= b <= 0x7a)
}

/// Whether `c` is an ASCII letter or digit.
pub open spec fn is_alphanumeric(c: char) -> bool {
    ('0' <= c && c <= '9') || ('a' <= c && c <= 'z') || ('A' <= c && c <= 'Z')
}

/// A token is made of ASCII letters and digits only.
pub open spec fn is_token(text: Seq<char>) -> bool {
    forall|i: int| 0 <= i < text.len() ==> is_alphanumeric(#[trigger] text[i])
}

impl ZKP {
    /// Draws a number below `bound`.  A bound of zero is refused.
    pub fn generate_random_number_below(bound: &BigNat) -> (out: Result<BigNat, AuthError>)
        ensures
            bound@ == 0 <==> out == Err::<BigNat, AuthError>(AuthError::InvalidBound),
            bound@ > 0 <==> out is Ok,
            out is Ok ==> out->Ok_0@ < bound@,
    {
        if bound.is_zero() {
            return Err(AuthError::InvalidBound);
        }
        let raw = random_below_bytes(bound.to_bytes_be().as_slice());
        Ok(BigNat::from_bytes_be(raw.as_slice()))
    }

    /// Draws a token of `size` ASCII letters and digits.
    pub fn generate_random_string(size: usize) -> (out: String)
        ensures
            out@.len() == size,
            is_token(out@),
    {
        let mut text = String::new();
        let mut i: usize = 0;
        while i < size
            invariant
                i <= size,
                text@.len() == i,
                is_token(text@),
            decreases size - i,
        {
            let b = random_alphanumeric();
            let c = b as char;
            push_char(&mut text, c);
            i = i + 1;
        }
        text
    }
}

} // verus!
