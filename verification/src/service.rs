//! The authentication service: registration, challenge and verification as
//! one state machine over the two stores.

use crate::bignat::BigNat;
use crate::engine::accepts;
use crate::engine::Group;
use crate::engine::ZKP;
use crate::error::AuthError;
use crate::random::is_token;
use crate::store::ChallengeMap;
use crate::store::ChallengeStore;
use crate::store::ChallengeView;
use crate::store::RegistrationMap;
use crate::store::RegistrationStore;
use crate::store::AUTH_ID_LEN;
use crate::wire::Reply;
use crate::wire::ReplyView;
use crate::wire::Request;
use crate::wire::RequestView;
use vstd::prelude::*;

verus! {

/// The length of a session id.
pub const SESSION_ID_LEN: usize = 12;

/// An authenticated session.
#[derive(Debug, Clone)]
pub struct Session {
    /// The token that stands for the session.
    pub session_id: String,
    /// Who was authenticated.
    pub identity: String,
}

/// Everything the service knows at one moment.
pub struct ServiceState {
    /// The group that proofs are checked in.
    pub group: Group,
    /// The registered pairs by identity.
    pub registrations: RegistrationMap,
    /// The pending challenges by authentication id.
    pub challenges: ChallengeMap,
}

/// The state after `identity` registered the pair `(y1, y2)`.
pub open spec fn register_step(st: ServiceState, identity: Seq<char>, y1: nat, y2: nat)
    -> ServiceState {
    ServiceState { registrations: st.registrations.insert(identity, (y1, y2)), ..st }
}

/// The state after a request of `identity` for a challenge on the
/// commitment `(r1, r2)`, and whether the challenge `c` was issued under
/// `auth_id`.
pub open spec fn challenge_step(
    st: ServiceState,
    identity: Seq<char>,
    r1: nat,
    r2: nat,
    c: nat,
    auth_id: Seq<char>,
) -> (ServiceState, Result<(), AuthError>) {
    if !st.registrations.contains_key(identity) {
        (st, Err(AuthError::UnknownUser))
    } else {
        (
            ServiceState {
                challenges: st.challenges.insert(auth_id, ChallengeView { identity, r1, r2, c }),
                ..st
            },
            Ok(()),
        )
    }
}

/// The state after the response `s` came in under `auth_id`, and who was
/// authenticated by it.  A pending challenge is consumed whatever the
/// outcome.
pub open spec fn verify_step(st: ServiceState, auth_id: Seq<char>, s: nat) -> (
    ServiceState,
    Result<Seq<char>, AuthError>,
) {
    if !st.challenges.contains_key(auth_id) {
        (st, Err(AuthError::UnknownChallenge))
    } else {
        let pending = st.challenges[auth_id];
        let after = ServiceState { challenges: st.challenges.remove(auth_id), ..st };
        if !st.registrations.contains_key(pending.identity) {
            (after, Err(AuthError::UnknownUser))
        } else {
            let (y1, y2) = st.registrations[pending.identity];
            if accepts(st.group, pending.r1, pending.r2, y1, y2, pending.c, s) {
                (after, Ok(pending.identity))
            } else {
                (after, Err(AuthError::AuthenticationFailed))
            }
        }
    }
}

/// Whether one more authentication id can be allocated: ids grow by a
/// character for each pending challenge that a draw meets, and their
/// length has to fit the machine.
pub open spec fn has_room(st: ServiceState) -> bool {
    st.challenges.len() + AUTH_ID_LEN < usize::MAX
}

/// Every pending challenge was issued to an identity that is registered,
/// and its challenge value lies below `q`.
pub open spec fn consistent(st: ServiceState) -> bool {
    forall|auth_id: Seq<char>| #[trigger]
        st.challenges.contains_key(auth_id) ==> st.registrations.contains_key(
            st.challenges[auth_id].identity,
        ) && st.challenges[auth_id].c < st.group.q
}

/// The server side of the protocol.
pub struct AuthenticationService {
    zkp: ZKP,
    registrations: RegistrationStore,
    challenges: ChallengeStore,
}

impl View for AuthenticationService {
    type V = ServiceState;

    closed spec fn view(&self) -> ServiceState {
        ServiceState {
            group: self.zkp@,
            registrations: self.registrations@,
            challenges: self.challenges@,
        }
    }
}

impl AuthenticationService {
    /// A service over the group of `zkp`, without registrations and without
    /// pending challenges.
    pub fn new(zkp: ZKP) -> (out: AuthenticationService)
        ensures
            out@ == (ServiceState {
                group: zkp@,
                registrations: RegistrationMap::empty(),
                challenges: ChallengeMap::empty(),
            }),
    {
        AuthenticationService {
            zkp,
            registrations: RegistrationStore::new(),
            challenges: ChallengeStore::new(),
        }
    }

    /// The group that proofs are checked in.
    pub fn group(&self) -> (out: &ZKP)
        ensures
            out@ == self@.group,
    {
        &self.zkp
    }

    /// How many challenges are pending.
    pub fn pending_challenges(&self) -> (out: usize)
        ensures
            out == self@.challenges.len(),
    {
        self.challenges.len()
    }

    /// Registers `identity` with the pair `(y1, y2)`, in place of any pair
    /// registered for it before.
    pub fn register(&mut self, identity: String, y1: BigNat, y2: BigNat)
        ensures
            final(self)@ == register_step(old(self)@, identity@, y1@, y2@),
    {
        self.registrations.put(identity, y1, y2);
    }

    /// Issues a challenge to `identity` for the commitment `(r1, r2)` and
    /// returns the authentication id together with the challenge value.
    /// An identity that is not registered is refused before anything is
    /// drawn, and nothing is stored for it.  A registered identity is
    /// refused only when there is no room for another challenge.
    pub fn create_challenge(&mut self, identity: &String, r1: BigNat, r2: BigNat) -> (out: Result<
        (String, BigNat),
        AuthError,
    >)
        ensures
            !old(self)@.registrations.contains_key(identity@) ==> out is Err && out->Err_0
                == AuthError::UnknownUser,
            old(self)@.registrations.contains_key(identity@) && !has_room(old(self)@) ==> out is Err
                && out->Err_0 == AuthError::TooManyChallenges,
            old(self)@.registrations.contains_key(identity@) && has_room(old(self)@) ==> out is Ok,
            out is Err ==> final(self)@ == old(self)@,
            out is Ok ==> {
                let (auth_id, c) = out->Ok_0;
                &&& c@ < old(self)@.group.q
                &&& is_token(auth_id@)
                &&& auth_id@.len() >= AUTH_ID_LEN
                &&& !old(self)@.challenges.contains_key(auth_id@)
                &&& final(self)@ == challenge_step(
                    old(self)@,
                    identity@,
                    r1@,
                    r2@,
                    c@,
                    auth_id@,
                ).0
            },
    {
        if self.registrations.get(identity).is_err() {
            return Err(AuthError::UnknownUser);
        }
        if self.challenges.len() >= usize::MAX - AUTH_ID_LEN {
            return Err(AuthError::TooManyChallenges);
        }
        proof {
            use_type_invariant(&self.zkp);
        }
        let c = ZKP::generate_random_number_below(self.zkp.q()).unwrap();
        let auth_id = self.challenges.create(identity.clone(), r1, r2, c.clone());
        Ok((auth_id, c))
    }

    /// Checks the response `s` to the challenge that is pending under
    /// `auth_id` and opens a session when it proves knowledge of the
    /// registered secret.  The challenge is consumed either way.
    pub fn verify(&mut self, auth_id: &String, s: &BigNat) -> (out: Result<Session, AuthError>)
        ensures
            final(self)@ == verify_step(old(self)@, auth_id@, s@).0,
            match verify_step(old(self)@, auth_id@, s@).1 {
                Ok(identity) => out is Ok && out->Ok_0.identity@ == identity && is_token(
                    out->Ok_0.session_id@,
                ) && out->Ok_0.session_id@.len() == SESSION_ID_LEN,
                Err(e) => out is Err && out->Err_0 == e,
            },
    {
        let challenge = match self.challenges.take(auth_id) {
            Ok(challenge) => challenge,
            Err(e) => {
                return Err(e);
            },
        };
        let registration = match self.registrations.get(&challenge.identity) {
            Ok(registration) => registration,
            Err(e) => {
                return Err(e);
            },
        };
        let accepted = self.zkp.verify(
            &challenge.r1,
            &challenge.r2,
            &registration.y1,
            &registration.y2,
            &challenge.c,
            s,
        );
        if accepted {
            let session_id = ZKP::generate_random_string(SESSION_ID_LEN);
            Ok(Session { session_id, identity: challenge.identity })
        } else {
            Err(AuthError::AuthenticationFailed)
        }
    }

    /// Answers one request as it came over the wire.  The integers of the
    /// request are read whatever their length; those of the reply are
    /// written with as few bytes as they take.
    pub fn handle(&mut self, request: Request) -> (out: Result<Reply, AuthError>)
        ensures
            out is Ok ==> out->Ok_0.minimal(),
            match request@ {
                RequestView::Register { user, y1, y2 } => {
                    &&& out is Ok
                    &&& out->Ok_0@ == ReplyView::Registered
                    &&& final(self)@ == register_step(old(self)@, user, y1, y2)
                },
                RequestView::CreateAuthenticationChallenge { user, r1, r2 } => {
                    &&& !old(self)@.registrations.contains_key(user) ==> out is Err
                        && out->Err_0 == AuthError::UnknownUser
                    &&& old(self)@.registrations.contains_key(user) && !has_room(old(self)@)
                        ==> out is Err && out->Err_0 == AuthError::TooManyChallenges
                    &&& old(self)@.registrations.contains_key(user) && has_room(old(self)@)
                        ==> out is Ok
                    &&& out is Err ==> final(self)@ == old(self)@
                    &&& out is Ok ==> {
                        &&& out->Ok_0@ matches ReplyView::Challenge { auth_id, c }
                        &&& c < old(self)@.group.q
                        &&& is_token(auth_id)
                        &&& auth_id.len() >= AUTH_ID_LEN
                        &&& !old(self)@.challenges.contains_key(auth_id)
                        &&& final(self)@ == challenge_step(old(self)@, user, r1, r2, c, auth_id).0
                    }
                },
                RequestView::VerifyAuthentication { auth_id, s } => {
                    &&& final(self)@ == verify_step(old(self)@, auth_id, s).0
                    &&& match verify_step(old(self)@, auth_id, s).1 {
                        Ok(identity) => {
                            &&& out is Ok
                            &&& out->Ok_0@ matches ReplyView::Session { session_id }
                            &&& is_token(session_id)
                            &&& session_id.len() == SESSION_ID_LEN
                        },
                        Err(e) => out is Err && out->Err_0 == e,
                    }
                },
            },
    {
        match request {
            Request::Register { user, y1, y2 } => {
                let y1 = BigNat::from_bytes_be(y1.as_slice());
                let y2 = BigNat::from_bytes_be(y2.as_slice());
                self.register(user, y1, y2);
                Ok(Reply::Registered)
            },
            Request::CreateAuthenticationChallenge { user, r1, r2 } => {
                let r1 = BigNat::from_bytes_be(r1.as_slice());
                let r2 = BigNat::from_bytes_be(r2.as_slice());
                match self.create_challenge(&user, r1, r2) {
                    Ok((auth_id, c)) => Ok(Reply::Challenge { auth_id, c: c.to_bytes_be() }),
                    Err(e) => Err(e),
                }
            },
            Request::VerifyAuthentication { auth_id, s } => {
                let s = BigNat::from_bytes_be(s.as_slice());
                match self.verify(&auth_id, &s) {
                    Ok(session) => Ok(Reply::Session { session_id: session.session_id }),
                    Err(e) => Err(e),
                }
            },
        }
    }
}

} // verus!
