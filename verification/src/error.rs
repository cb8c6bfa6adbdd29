//! The ways in which a request to the library can fail.

use vstd::prelude::*;

verus! {

/// Why a request was turned down.
#[derive(Debug, Clone, Copy, PartialEq, Eq, Structural)]
pub enum AuthError {
    /// The group parameters do not describe two generators of one subgroup.
    InvalidParameters,
    /// No registration is held for the identity.
    UnknownUser,
    /// No pending challenge is held under the authentication id: it was
    /// never issued, or it has been consumed already.
    UnknownChallenge,
    /// The challenge was pending, but the response does not prove knowledge
    /// of the registered secret.
    AuthenticationFailed,
    /// A random number was asked for below a bound of zero.
    InvalidBound,
    /// So many challenges are pending that no further authentication id
    /// can be allocated.
    TooManyChallenges,
}

impl AuthError {
    /// The error in words.
    pub open spec fn text(self) -> Seq<char> {
        match self {
            AuthError::InvalidParameters => "invalid group parameters"@,
            AuthError::UnknownUser => "unknown user"@,
            AuthError::UnknownChallenge => "unknown challenge"@,
            AuthError::AuthenticationFailed => "authentication failed"@,
            AuthError::InvalidBound => "invalid bound"@,
            AuthError::TooManyChallenges => "too many pending challenges"@,
        }
    }

    /// The error in words, for a caller that has to report it.
    pub fn message(&self) -> (out: &'static str)
        ensures
            out@ == self.text(),
    {
        match self {
            AuthError::InvalidParameters => "invalid group parameters",
            AuthError::UnknownUser => "unknown user",
            AuthError::UnknownChallenge => "unknown challenge",
            AuthError::AuthenticationFailed => "authentication failed",
            AuthError::InvalidBound => "invalid bound",
            AuthError::TooManyChallenges => "too many pending challenges",
        }
    }
}

} // verus!
