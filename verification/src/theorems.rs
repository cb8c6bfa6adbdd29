//! What holds of the proof engine for every choice of exponents, and of the
//! protocol for every state of the service.

use crate::client::prover_step;
use crate::client::ActionView;
use crate::client::ProverState;
use crate::client::StageView;
use crate::engine::accepts;
use crate::engine::commitment;
use crate::engine::coordinate_holds;
use crate::engine::response;
use crate::engine::checked_group;
use crate::engine::generators_fit;
use crate::engine::valid_group;
use crate::engine::Group;
use crate::error::AuthError;
use crate::modular::has_order;
use crate::modular::is_prime;
use crate::modular::lemma_prime_order;
use crate::modular::lemma_cancel_power;
use crate::modular::lemma_exponent_period;
use crate::modular::mod_exp;
use crate::primality::lemma_prime_is_probable;
use crate::primality::lemma_small_probable_is_prime;
use crate::primality::COMPLETE_BELOW;
use crate::service::challenge_step;
use crate::service::consistent;
use crate::service::register_step;
use crate::service::verify_step;
use crate::service::ServiceState;
use crate::store::ChallengeMap;
use crate::store::RegistrationMap;
use crate::wire::ReplyView;
use crate::wire::RequestView;
use vstd::arithmetic::div_mod::*;
use vstd::arithmetic::power::*;
use vstd::prelude::*;

verus! {

/// No valid group is refused: valid parameters pass every test.
pub proof fn lemma_valid_group_is_checked(g: Group)
    requires
        valid_group(g),
    ensures
        checked_group(g),
{
    lemma_prime_is_probable(g.p);
    lemma_prime_is_probable(g.q);
}

/// Up to `COMPLETE_BELOW` no invalid group is kept: parameters that pass
/// every test are valid when neither the modulus nor the order is larger.
pub proof fn lemma_small_checked_group_is_valid(g: Group)
    requires
        checked_group(g),
        g.p <= COMPLETE_BELOW,
        g.q <= COMPLETE_BELOW,
    ensures
        valid_group(g),
{
    lemma_small_probable_is_prime(g.p);
    lemma_small_probable_is_prime(g.q);
}

/// In a valid group both generators have order `q`.
pub proof fn lemma_generators_have_order(g: Group)
    requires
        valid_group(g),
    ensures
        has_order(g.alpha, g.q, g.p),
        has_order(g.beta, g.q, g.p),
{
    lemma_small_mod(g.alpha, g.p);
    lemma_small_mod(g.beta, g.p);
    lemma_prime_order(g.alpha, g.q, g.p);
    lemma_prime_order(g.beta, g.q, g.p);
}

/// One coordinate of an honest run: the commitment `gen^k`, the registered
/// `gen^x` and the response `(k - c * x) mod q` satisfy the verifier's
/// equation, whenever `gen^q` is the identity modulo `p`.
pub proof fn lemma_honest_coordinate(gen: nat, p: nat, q: nat, x: nat, k: nat, c: nat)
    requires
        p >= 2,
        q >= 1,
        mod_exp(gen, q, p) == 1,
    ensures
        coordinate_holds(
            gen,
            p,
            mod_exp(gen, k, p),
            mod_exp(gen, x, p),
            c,
            ((k - c * x) % (q as int)) as nat,
        ),
{
    let b = gen as int;
    let m = p as int;
    let d: int = k - c * x;
    let s: nat = (d % (q as int)) as nat;
    let t: int = d / (q as int);
    let y = mod_exp(gen, x, p);
    let r = mod_exp(gen, k, p);
    lemma_fundamental_div_mod(d, q as int);
    lemma_mod_twice(pow(b, k), m);
    assert(r % p == r);
    // y^c is gen^(x * c) modulo p
    lemma_pow_mod_noop(pow(b, x), c, m);
    lemma_pow_multiplies(b, x, c);
    assert(pow(y as int, c) % m == pow(b, x * c) % m);
    // gen^s * y^c is gen^(s + x * c) modulo p
    lemma_mul_mod_noop_right(pow(b, s), pow(y as int, c), m);
    lemma_mul_mod_noop_right(pow(b, s), pow(b, x * c), m);
    lemma_pow_adds(b, s, x * c);
    assert((pow(b, s) * pow(y as int, c)) % m == pow(b, s + x * c) % m);
    assert(x * c == c * x) by (nonlinear_arith);
    // s + x * c and k differ by a multiple of q
    if t >= 0 {
        lemma_exponent_period(gen, q, p, s + x * c, t as nat);
        assert(s + x * c + q * (t as nat) == k);
    } else {
        lemma_exponent_period(gen, q, p, k, (-t) as nat);
        assert(q * ((-t) as nat) == -(q * t)) by (nonlinear_arith)
            requires
                t < 0,
        ;
        assert(k + q * ((-t) as nat) == s + x * c);
    }
}

/// An honest prover is always accepted: for every secret `x`, every
/// ephemeral exponent `k` and every challenge `c`, the response
/// `(k - c * x) mod q` verifies against the commitments to `k` and to `x`.
pub proof fn lemma_round_trip(g: Group, x: nat, k: nat, c: nat)
    requires
        generators_fit(g),
    ensures
        accepts(
            g,
            commitment(g, k).0,
            commitment(g, k).1,
            commitment(g, x).0,
            commitment(g, x).1,
            c,
            response(g, k, c, x),
        ),
{
    lemma_honest_coordinate(g.alpha, g.p, g.q, x, k, c);
    lemma_honest_coordinate(g.beta, g.p, g.q, x, k, c);
}

/// If one response satisfies a coordinate for two challenges, the registered
/// value raised to either challenge is the same residue.
pub proof fn lemma_coordinate_binds_challenge(
    gen: nat,
    p: nat,
    q: nat,
    r: nat,
    y: nat,
    c1: nat,
    c2: nat,
    s: nat,
)
    requires
        p >= 2,
        q >= 1,
        mod_exp(gen, q, p) == 1,
        coordinate_holds(gen, p, r, y, c1, s),
        coordinate_holds(gen, p, r, y, c2, s),
    ensures
        mod_exp(y, c1, p) == mod_exp(y, c2, p),
{
    lemma_cancel_power(gen, q, p, s, pow(y as int, c1), pow(y as int, c2));
}

/// A proof is bound to its challenge: a tuple that is accepted for `c` is
/// rejected for every `c2` under which a registered value takes another
/// residue than under `c`.
pub proof fn lemma_tampered_challenge_rejected(
    g: Group,
    r1: nat,
    r2: nat,
    y1: nat,
    y2: nat,
    c: nat,
    c2: nat,
    s: nat,
)
    requires
        generators_fit(g),
        accepts(g, r1, r2, y1, y2, c, s),
        mod_exp(y1, c2, g.p) != mod_exp(y1, c, g.p) || mod_exp(y2, c2, g.p) != mod_exp(
            y2,
            c,
            g.p,
        ),
    ensures
        !accepts(g, r1, r2, y1, y2, c2, s),
{
    if accepts(g, r1, r2, y1, y2, c2, s) {
        lemma_coordinate_binds_challenge(g.alpha, g.p, g.q, r1, y1, c, c2, s);
        lemma_coordinate_binds_challenge(g.beta, g.p, g.q, r2, y2, c, c2, s);
    }
}

/// An element of order `q` takes different residues under different
/// exponents below `q`.
pub proof fn lemma_order_separates(y: nat, q: nat, p: nat, c1: nat, c2: nat)
    requires
        p >= 2,
        has_order(y, q, p),
        c1 < c2 < q,
    ensures
        mod_exp(y, c1, p) != mod_exp(y, c2, p),
{
    if mod_exp(y, c1, p) == mod_exp(y, c2, p) {
        let b = y as int;
        let d: nat = (c2 - c1) as nat;
        lemma_pow_adds(b, c1, d);
        assert(pow(b, c1) * 1 == pow(b, c1));
        lemma_cancel_power(y, q, p, c1, pow(b, d), 1);
        lemma_small_mod(1, p);
        assert(mod_exp(y, d, p) == 1);
    }
}

/// Among challenges below `q`, only the one that was issued is accepted,
/// as soon as one of the registered values has order `q`.
pub proof fn lemma_other_challenge_rejected(
    g: Group,
    r1: nat,
    r2: nat,
    y1: nat,
    y2: nat,
    c: nat,
    c2: nat,
    s: nat,
)
    requires
        generators_fit(g),
        accepts(g, r1, r2, y1, y2, c, s),
        c < g.q,
        c2 < g.q,
        c2 != c,
        has_order(y1, g.q, g.p) || has_order(y2, g.q, g.p),
    ensures
        !accepts(g, r1, r2, y1, y2, c2, s),
{
    if has_order(y1, g.q, g.p) {
        if c < c2 {
            lemma_order_separates(y1, g.q, g.p, c, c2);
        } else {
            lemma_order_separates(y1, g.q, g.p, c2, c);
        }
    } else {
        if c < c2 {
            lemma_order_separates(y2, g.q, g.p, c, c2);
        } else {
            lemma_order_separates(y2, g.q, g.p, c2, c);
        }
    }
    lemma_tampered_challenge_rejected(g, r1, r2, y1, y2, c, c2, s);
}

/// In a group of prime order the commitment to an exponent that is no
/// multiple of `q` has order `q`.
pub proof fn lemma_commitment_order(gen: nat, q: nat, p: nat, x: nat)
    requires
        p >= 2,
        is_prime(q),
        1 < gen < p,
        mod_exp(gen, q, p) == 1,
        x % q != 0,
    ensures
        has_order(mod_exp(gen, x, p), q, p),
{
    let b = gen as int;
    let m = p as int;
    let y = mod_exp(gen, x, p);
    // y^q is the identity
    assert(mod_exp(y, q, p) == 1) by {
        lemma_pow_mod_noop(pow(b, x), q, m);
        lemma_pow_multiplies(b, x, q);
        assert(x * q == 0 + q * x) by (nonlinear_arith);
        lemma_exponent_period(gen, q, p, 0, x);
        lemma_pow0(b);
        lemma_small_mod(1, p);
    }
    // y is not the identity
    assert(y % p != 1) by {
        lemma_small_mod(gen, p);
        lemma_prime_order(gen, q, p);
        let r: nat = x % q;
        let t: nat = x / q;
        lemma_fundamental_div_mod(x as int, q as int);
        lemma_mod_bound(x as int, q as int);
        lemma_exponent_period(gen, q, p, r, t);
        assert(r + q * t == x);
        assert(mod_exp(gen, r, p) != 1);
        lemma_mod_twice(pow(b, x), m);
    }
    lemma_prime_order(y, q, p);
}

/// Tamper detection in a group of prime order: the response of an honest
/// prover whose secret is no multiple of `q` is accepted for the challenge
/// it was computed for, and for no other challenge below `q`.
pub proof fn lemma_tamper_detection(g: Group, x: nat, k: nat, c: nat, c2: nat)
    requires
        generators_fit(g),
        is_prime(g.q),
        x % g.q != 0,
        c < g.q,
        c2 < g.q,
    ensures
        accepts(
            g,
            commitment(g, k).0,
            commitment(g, k).1,
            commitment(g, x).0,
            commitment(g, x).1,
            c2,
            response(g, k, c, x),
        ) <==> c2 == c,
{
    lemma_round_trip(g, x, k, c);
    if c2 != c {
        lemma_commitment_order(g.alpha, g.q, g.p, x);
        lemma_other_challenge_rejected(
            g,
            commitment(g, k).0,
            commitment(g, k).1,
            commitment(g, x).0,
            commitment(g, x).1,
            c,
            c2,
            response(g, k, c, x),
        );
    }
}

/// A challenge cannot be replayed: once a response has come in under an
/// authentication id, whatever became of it, every further response under
/// the same id is turned down as an unknown challenge and changes nothing.
pub proof fn lemma_replay_rejected(st: ServiceState, auth_id: Seq<char>, s1: nat, s2: nat)
    ensures
        verify_step(verify_step(st, auth_id, s1).0, auth_id, s2) == (
            verify_step(st, auth_id, s1).0,
            Err::<Seq<char>, AuthError>(AuthError::UnknownChallenge),
        ),
{
}

/// A challenge that was issued is met by the first response and by no
/// other: the first response is judged on its merits, the second is turned
/// down as an unknown challenge.
pub proof fn lemma_challenge_used_once(
    st: ServiceState,
    identity: Seq<char>,
    r1: nat,
    r2: nat,
    c: nat,
    auth_id: Seq<char>,
    s1: nat,
    s2: nat,
)
    requires
        st.registrations.contains_key(identity),
    ensures
        ({
            let issued = challenge_step(st, identity, r1, r2, c, auth_id).0;
            let first = verify_step(issued, auth_id, s1);
            &&& first.1 != Err::<Seq<char>, AuthError>(AuthError::UnknownChallenge)
            &&& verify_step(first.0, auth_id, s2).1 == Err::<Seq<char>, AuthError>(
                AuthError::UnknownChallenge,
            )
        }),
{
}

/// An identity that never registered gets no challenge: the request fails
/// as an unknown user and the state stays as it was.
pub proof fn lemma_unknown_user_refused(
    st: ServiceState,
    identity: Seq<char>,
    r1: nat,
    r2: nat,
    c: nat,
    auth_id: Seq<char>,
)
    requires
        !st.registrations.contains_key(identity),
    ensures
        challenge_step(st, identity, r1, r2, c, auth_id) == (
            st,
            Err::<(), AuthError>(AuthError::UnknownUser),
        ),
{
}

/// An honest user gets in: after registering the commitment to `x`, asking
/// for a challenge with the commitment to `k` and answering the challenge
/// `c` with `(k - c * x) mod q`, the user is authenticated, and the
/// challenge is gone.
pub proof fn lemma_honest_login(
    st: ServiceState,
    identity: Seq<char>,
    x: nat,
    k: nat,
    c: nat,
    auth_id: Seq<char>,
)
    requires
        generators_fit(st.group),
    ensures
        ({
            let y = commitment(st.group, x);
            let r = commitment(st.group, k);
            let registered = register_step(st, identity, y.0, y.1);
            let issued = challenge_step(registered, identity, r.0, r.1, c, auth_id);
            let verified = verify_step(issued.0, auth_id, response(st.group, k, c, x));
            &&& issued.1 is Ok
            &&& verified.1 == Ok::<Seq<char>, AuthError>(identity)
            &&& !verified.0.challenges.contains_key(auth_id)
        }),
{
    lemma_round_trip(st.group, x, k, c);
}

/// A service starts out consistent.
pub proof fn lemma_consistent_at_start(g: Group)
    ensures
        consistent(
            ServiceState {
                group: g,
                registrations: RegistrationMap::empty(),
                challenges: ChallengeMap::empty(),
            },
        ),
{
}

/// Every step keeps the service consistent, as long as the challenge
/// values that are issued lie below `q`.
pub proof fn lemma_consistency_kept(
    st: ServiceState,
    identity: Seq<char>,
    a: nat,
    b: nat,
    c: nat,
    auth_id: Seq<char>,
)
    requires
        consistent(st),
    ensures
        consistent(register_step(st, identity, a, b)),
        c < st.group.q ==> consistent(challenge_step(st, identity, a, b, c, auth_id).0),
        consistent(verify_step(st, auth_id, a).0),
{
    let registered = register_step(st, identity, a, b);
    assert forall|id: Seq<char>| #[trigger]
        registered.challenges.contains_key(id) implies registered.registrations.contains_key(
        registered.challenges[id].identity,
    ) && registered.challenges[id].c < registered.group.q by {
        assert(st.challenges.contains_key(id));
    }
    let issued = challenge_step(st, identity, a, b, c, auth_id).0;
    if c < st.group.q {
        assert forall|id: Seq<char>| #[trigger]
            issued.challenges.contains_key(id) implies issued.registrations.contains_key(
            issued.challenges[id].identity,
        ) && issued.challenges[id].c < issued.group.q by {
            if id != auth_id {
                assert(st.challenges.contains_key(id));
            }
        }
    }
    let judged = verify_step(st, auth_id, a).0;
    assert forall|id: Seq<char>| #[trigger]
        judged.challenges.contains_key(id) implies judged.registrations.contains_key(
        judged.challenges[id].identity,
    ) && judged.challenges[id].c < judged.group.q by {
        assert(st.challenges.contains_key(id));
    }
}

/// Registrations are never removed, so a challenge never outlives the
/// registration it was issued for: in a consistent service no response is
/// turned down for an unknown user.
pub proof fn lemma_registration_outlives_challenge(st: ServiceState, auth_id: Seq<char>, s: nat)
    requires
        consistent(st),
    ensures
        verify_step(st, auth_id, s).1 != Err::<Seq<char>, AuthError>(AuthError::UnknownUser),
{
    if st.challenges.contains_key(auth_id) {
        assert(st.registrations.contains_key(st.challenges[auth_id].identity));
    }
}

/// Client and server fit together: when every request of an honest prover
/// reaches the service and every reply comes back, the prover registers,
/// gets its challenge, answers it, is authenticated under its own name and
/// ends logged in with the session that the service opened.
pub proof fn lemma_honest_run(
    st: ServiceState,
    user: Seq<char>,
    x: nat,
    k: nat,
    c: nat,
    auth_id: Seq<char>,
    session_id: Seq<char>,
)
    requires
        generators_fit(st.group),
    ensures
        ({
            let g = st.group;
            let start = ProverState { group: g, user, secret: x, stage: StageView::Registering };
            let registered = register_step(st, user, commitment(g, x).0, commitment(g, x).1);
            let committed = prover_step(start, Some(ReplyView::Registered), k);
            let issued = challenge_step(
                registered,
                user,
                commitment(g, k).0,
                commitment(g, k).1,
                c,
                auth_id,
            );
            let answered = prover_step(
                committed.0,
                Some(ReplyView::Challenge { auth_id, c }),
                k,
            );
            let s = response(g, k, c, x);
            let judged = verify_step(issued.0, auth_id, s);
            let finished = prover_step(answered.0, Some(ReplyView::Session { session_id }), k);
            &&& committed.1 == ActionView::Send(
                RequestView::CreateAuthenticationChallenge {
                    user,
                    r1: commitment(g, k).0,
                    r2: commitment(g, k).1,
                },
            )
            &&& issued.1 is Ok
            &&& answered.1 == ActionView::Send(RequestView::VerifyAuthentication { auth_id, s })
            &&& judged.1 == Ok::<Seq<char>, AuthError>(user)
            &&& finished.1 == ActionView::LoggedIn { session_id }
            &&& finished.0.stage == StageView::Closed
        }),
{
    lemma_round_trip(st.group, x, k, c);
}

} // verus!
