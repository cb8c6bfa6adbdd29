//! The client side of the protocol: what a prover sends first, and what it
//! does with each reply.

use crate::bignat::BigNat;
use crate::engine::commitment;
use crate::engine::response;
use crate::engine::Group;
use crate::engine::ZKP;
use crate::wire::Reply;
use crate::wire::ReplyView;
use crate::wire::Request;
use crate::wire::RequestView;
use vstd::prelude::*;

verus! {

/// The steps of a login, in their order.
#[derive(Debug, Clone, Copy, PartialEq, Eq, Structural)]
pub enum Step {
    /// The registration was sent and its reply is awaited.
    Registration,
    /// The commitment was sent and the challenge is awaited.
    Challenge,
    /// The response was sent and the session is awaited.
    Verification,
    /// The login has ended, one way or the other.
    Closed,
}

/// What the prover does next.
#[derive(Debug, Clone, PartialEq, Eq)]
pub enum Action {
    /// Send this request and come back with the reply.
    Send(Request),
    /// The login succeeded.
    LoggedIn { session_id: String },
    /// The login has failed at this step.
    Abort(Step),
}

/// An action with its integers as numbers.
pub enum ActionView {
    Send(RequestView),
    LoggedIn { session_id: Seq<char> },
    Abort(Step),
}

impl View for Action {
    type V = ActionView;

    open spec fn view(&self) -> ActionView {
        match *self {
            Action::Send(request) => ActionView::Send(request@),
            Action::LoggedIn { session_id } => ActionView::LoggedIn { session_id: session_id@ },
            Action::Abort(step) => ActionView::Abort(step),
        }
    }
}

impl Action {
    /// Every integer that the action sends is written with as few bytes as
    /// it takes.
    pub open spec fn minimal(&self) -> bool {
        match *self {
            Action::Send(request) => request.minimal(),
            _ => true,
        }
    }
}

/// Where a login stands, as the prover remembers it.
pub enum Stage {
    /// Waiting for the registration to be confirmed.
    Registering,
    /// Waiting for the challenge on the commitment to `k`.
    Committed { k: BigNat },
    /// Waiting for the session.
    Answered,
    /// Nothing is awaited any more.
    Closed,
}

/// A stage with its exponent as a number.
pub enum StageView {
    Registering,
    Committed { k: nat },
    Answered,
    Closed,
}

impl View for Stage {
    type V = StageView;

    open spec fn view(&self) -> StageView {
        match *self {
            Stage::Registering => StageView::Registering,
            Stage::Committed { k } => StageView::Committed { k: k@ },
            Stage::Answered => StageView::Answered,
            Stage::Closed => StageView::Closed,
        }
    }
}

/// Everything a prover knows at one moment.
pub struct ProverState {
    /// The group that proofs are computed in.
    pub group: Group,
    /// Who logs in.
    pub user: Seq<char>,
    /// The secret exponent `x`.
    pub secret: nat,
    /// Where the login stands.
    pub stage: StageView,
}

/// The reply as the prover sees it; `None` stands for a request that was
/// refused or did not get through.
pub open spec fn reply_view(reply: Option<Reply>) -> Option<ReplyView> {
    match reply {
        Some(reply) => Some(reply@),
        None => None,
    }
}

/// The login moves on only when the reply is the one that the stage waits
/// for: then the next request is sent, the commitment being made with the
/// fresh exponent `k`.  On every other reply the login is given up.
pub open spec fn prover_step(st: ProverState, reply: Option<ReplyView>, k: nat) -> (
    ProverState,
    ActionView,
) {
    let closed = ProverState { stage: StageView::Closed, ..st };
    match st.stage {
        StageView::Registering => match reply {
            Some(ReplyView::Registered) => (
                ProverState { stage: StageView::Committed { k }, ..st },
                ActionView::Send(
                    RequestView::CreateAuthenticationChallenge {
                        user: st.user,
                        r1: commitment(st.group, k).0,
                        r2: commitment(st.group, k).1,
                    },
                ),
            ),
            _ => (closed, ActionView::Abort(Step::Registration)),
        },
        StageView::Committed { k: held } => match reply {
            Some(ReplyView::Challenge { auth_id, c }) => (
                ProverState { stage: StageView::Answered, ..st },
                ActionView::Send(
                    RequestView::VerifyAuthentication {
                        auth_id,
                        s: response(st.group, held, c, st.secret),
                    },
                ),
            ),
            _ => (closed, ActionView::Abort(Step::Challenge)),
        },
        StageView::Answered => match reply {
            Some(ReplyView::Session { session_id }) => (closed, ActionView::LoggedIn { session_id }),
            _ => (closed, ActionView::Abort(Step::Verification)),
        },
        StageView::Closed => (closed, ActionView::Abort(Step::Closed)),
    }
}

/// A user who registers and logs in, holding the secret.
pub struct Prover {
    zkp: ZKP,
    user: String,
    secret: BigNat,
    stage: Stage,
}

impl View for Prover {
    type V = ProverState;

    closed spec fn view(&self) -> ProverState {
        ProverState {
            group: self.zkp@,
            user: self.user@,
            secret: self.secret@,
            stage: self.stage@,
        }
    }
}

impl Prover {
    /// Starts a login of `user` with the secret exponent `secret`: the
    /// first request registers the commitment to the secret.
    pub fn begin(zkp: ZKP, user: String, secret: BigNat) -> (out: (Prover, Request))
        ensures
            out.0@ == (ProverState {
                group: zkp@,
                user: user@,
                secret: secret@,
                stage: StageView::Registering,
            }),
            out.1@ == (RequestView::Register {
                user: user@,
                y1: commitment(zkp@, secret@).0,
                y2: commitment(zkp@, secret@).1,
            }),
            out.1.minimal(),
    {
        let (y1, y2) = zkp.compute_pair(&secret);
        let request = Request::Register {
            user: user.clone(),
            y1: y1.to_bytes_be(),
            y2: y2.to_bytes_be(),
        };
        (Prover { zkp, user, secret, stage: Stage::Registering }, request)
    }

    /// The step that the prover is at.
    pub fn step(&self) -> (out: Step)
        ensures
            out == match self@.stage {
                StageView::Registering => Step::Registration,
                StageView::Committed { k } => Step::Challenge,
                StageView::Answered => Step::Verification,
                StageView::Closed => Step::Closed,
            },
    {
        match &self.stage {
            Stage::Registering => Step::Registration,
            Stage::Committed { k } => Step::Challenge,
            Stage::Answered => Step::Verification,
            Stage::Closed => Step::Closed,
        }
    }

    /// Takes the reply to the request that was sent last (`None` when the
    /// request failed) and says what to do next.  Where a commitment is
    /// due, it is made with the exponent `k`.
    pub fn advance_with(&mut self, reply: Option<Reply>, k: BigNat) -> (out: Action)
        ensures
            (final(self)@, out@) == prover_step(old(self)@, reply_view(reply), k@),
            out.minimal(),
    {
        let mut stage = Stage::Closed;
        core::mem::swap(&mut self.stage, &mut stage);
        match stage {
            Stage::Registering => match reply {
                Some(Reply::Registered) => {
                    let (r1, r2) = self.zkp.compute_pair(&k);
                    self.stage = Stage::Committed { k };
                    Action::Send(
                        Request::CreateAuthenticationChallenge {
                            user: self.user.clone(),
                            r1: r1.to_bytes_be(),
                            r2: r2.to_bytes_be(),
                        },
                    )
                },
                _ => Action::Abort(Step::Registration),
            },
            Stage::Committed { k: held } => match reply {
                Some(Reply::Challenge { auth_id, c }) => {
                    let c = BigNat::from_bytes_be(c.as_slice());
                    let s = self.zkp.solve(&held, &c, &self.secret);
                    self.stage = Stage::Answered;
                    Action::Send(Request::VerifyAuthentication { auth_id, s: s.to_bytes_be() })
                },
                _ => Action::Abort(Step::Challenge),
            },
            Stage::Answered => match reply {
                Some(Reply::Session { session_id }) => Action::LoggedIn { session_id },
                _ => Action::Abort(Step::Verification),
            },
            Stage::Closed => Action::Abort(Step::Closed),
        }
    }

    /// Takes the reply to the request that was sent last (`None` when the
    /// request failed) and says what to do next.  Where a commitment is
    /// due, it is made with a random exponent below `q`.
    pub fn advance(&mut self, reply: Option<Reply>) -> (out: Action)
        ensures
            exists|k: nat|
                k < old(self)@.group.q && (final(self)@, out@) == #[trigger] prover_step(
                    old(self)@,
                    reply_view(reply),
                    k,
                ),
            out.minimal(),
    {
        proof {
            use_type_invariant(&self.zkp);
        }
        let k = match &self.stage {
            Stage::Registering => ZKP::generate_random_number_below(self.zkp.q()).unwrap(),
            _ => BigNat::from(0u32),
        };
        let ghost before = self@;
        let out = self.advance_with(reply, k);
        proof {
            assert((self@, out@) == prover_step(before, reply_view(reply), k@));
        }
        out
    }
}

} // verus!
