//! The messages that client and server exchange.
//!
//! Integers travel as big-endian bytes.  What is sent is of minimal length;
//! what comes in is read whatever its length.

use crate::encoding::be_value;
use crate::encoding::is_minimal;
use vstd::prelude::*;

verus! {

/// What a client asks of the server.
#[derive(Debug, Clone, PartialEq, Eq)]
pub enum Request {
    /// Registers the pair `(y1, y2)` for `user`.
    Register { user: String, y1: Vec<u8>, y2: Vec<u8> },
    /// Asks for a challenge on the commitment `(r1, r2)` of `user`.
    CreateAuthenticationChallenge { user: String, r1: Vec<u8>, r2: Vec<u8> },
    /// Answers the challenge issued under `auth_id` with `s`.
    VerifyAuthentication { auth_id: String, s: Vec<u8> },
}

/// A request with its integers as numbers.
pub enum RequestView {
    Register { user: Seq<char>, y1: nat, y2: nat },
    CreateAuthenticationChallenge { user: Seq<char>, r1: nat, r2: nat },
    VerifyAuthentication { auth_id: Seq<char>, s: nat },
}

impl View for Request {
    type V = RequestView;

    open spec fn view(&self) -> RequestView {
        match *self {
            Request::Register { user, y1, y2 } => RequestView::Register {
                user: user@,
                y1: be_value(y1@),
                y2: be_value(y2@),
            },
            Request::CreateAuthenticationChallenge {
                user,
                r1,
                r2,
            } => RequestView::CreateAuthenticationChallenge {
                user: user@,
                r1: be_value(r1@),
                r2: be_value(r2@),
            },
            Request::VerifyAuthentication { auth_id, s } => RequestView::VerifyAuthentication {
                auth_id: auth_id@,
                s: be_value(s@),
            },
        }
    }
}

impl Request {
    /// Every integer of the request is written with as few bytes as it
    /// takes.
    pub open spec fn minimal(&self) -> bool {
        match *self {
            Request::Register { user, y1, y2 } => is_minimal(y1@) && is_minimal(y2@),
            Request::CreateAuthenticationChallenge { user, r1, r2 } => is_minimal(r1@)
                && is_minimal(r2@),
            Request::VerifyAuthentication { auth_id, s } => is_minimal(s@),
        }
    }
}

/// What the server answers to a request that it accepts.
#[derive(Debug, Clone, PartialEq, Eq)]
pub enum Reply {
    /// The registration is held.
    Registered,
    /// The challenge `c` was issued under `auth_id`.
    Challenge { auth_id: String, c: Vec<u8> },
    /// The proof was accepted and a session opened.
    Session { session_id: String },
}

/// A reply with its integers as numbers.
pub enum ReplyView {
    Registered,
    Challenge { auth_id: Seq<char>, c: nat },
    Session { session_id: Seq<char> },
}

impl View for Reply {
    type V = ReplyView;

    open spec fn view(&self) -> ReplyView {
        match *self {
            Reply::Registered => ReplyView::Registered,
            Reply::Challenge { auth_id, c } => ReplyView::Challenge {
                auth_id: auth_id@,
                c: be_value(c@),
            },
            Reply::Session { session_id } => ReplyView::Session { session_id: session_id@ },
        }
    }
}

impl Reply {
    /// Every integer of the reply is written with as few bytes as it takes.
    pub open spec fn minimal(&self) -> bool {
        match *self {
            Reply::Challenge { auth_id, c } => is_minimal(c@),
            _ => true,
        }
    }
}

} // verus!
