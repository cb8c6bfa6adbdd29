use zkp_chaum_pedersen::client::Action;
use zkp_chaum_pedersen::client::Prover;
use zkp_chaum_pedersen::client::Step;
use zkp_chaum_pedersen::service::AuthenticationService;
use zkp_chaum_pedersen::service::SESSION_ID_LEN;
use zkp_chaum_pedersen::store::AUTH_ID_LEN;
use zkp_chaum_pedersen::wire::Reply;
use zkp_chaum_pedersen::wire::Request;
use zkp_chaum_pedersen::AuthError;
use zkp_chaum_pedersen::BigNat;
use zkp_chaum_pedersen::ZKP;

fn toy_group() -> ZKP {
    ZKP::new(
        &BigNat::from(4_u32),
        &BigNat::from(9_u32),
        &BigNat::from(23_u32),
        &BigNat::from(11_u32),
    )
    .unwrap()
}

fn alice() -> (Prover, Request) {
    Prover::begin(toy_group(), "alice".to_string(), BigNat::from(6_u32))
}

fn register_alice() -> Request {
    Request::Register { user: "alice".to_string(), y1: vec![2], y2: vec![3] }
}

#[test]
fn login_begins_with_the_registration() {
    let (prover, request) = alice();
    assert_eq!(request, register_alice());
    assert_eq!(prover.step(), Step::Registration);
}

#[test]
fn prover_walks_through_the_toy_login() {
    let (mut prover, _) = alice();

    let action = prover.advance_with(Some(Reply::Registered), BigNat::from(7_u32));
    assert_eq!(
        action,
        Action::Send(Request::CreateAuthenticationChallenge {
            user: "alice".to_string(),
            r1: vec![8],
            r2: vec![4],
        })
    );
    assert_eq!(prover.step(), Step::Challenge);

    // the exponent handed in at a later step is not used
    let reply = Reply::Challenge { auth_id: "abc".to_string(), c: vec![4] };
    let action = prover.advance_with(Some(reply), BigNat::from(3_u32));
    assert_eq!(
        action,
        Action::Send(Request::VerifyAuthentication { auth_id: "abc".to_string(), s: vec![5] })
    );
    assert_eq!(prover.step(), Step::Verification);

    let reply = Reply::Session { session_id: "session".to_string() };
    let action = prover.advance_with(Some(reply), BigNat::from(3_u32));
    assert_eq!(action, Action::LoggedIn { session_id: "session".to_string() });
    assert_eq!(prover.step(), Step::Closed);

    let action = prover.advance_with(Some(Reply::Registered), BigNat::from(3_u32));
    assert_eq!(action, Action::Abort(Step::Closed));
}

#[test]
fn challenge_is_read_whatever_its_length() {
    let (mut prover, _) = alice();
    prover.advance_with(Some(Reply::Registered), BigNat::from(7_u32));
    let reply = Reply::Challenge { auth_id: "abc".to_string(), c: vec![0, 0, 4] };
    let action = prover.advance_with(Some(reply), BigNat::from(0_u32));
    assert_eq!(
        action,
        Action::Send(Request::VerifyAuthentication { auth_id: "abc".to_string(), s: vec![5] })
    );
}

#[test]
fn zero_response_is_sent_as_one_byte() {
    // k = 2, c = 4, x = 6: 2 - 24 = -22 = 0 (mod 11)
    let (mut prover, _) = alice();
    prover.advance_with(Some(Reply::Registered), BigNat::from(2_u32));
    let reply = Reply::Challenge { auth_id: "abc".to_string(), c: vec![4] };
    let action = prover.advance_with(Some(reply), BigNat::from(0_u32));
    assert_eq!(
        action,
        Action::Send(Request::VerifyAuthentication { auth_id: "abc".to_string(), s: vec![0] })
    );
}

#[test]
fn failed_request_ends_the_login_at_its_step() {
    let (mut prover, _) = alice();
    assert_eq!(prover.advance(None), Action::Abort(Step::Registration));
    assert_eq!(prover.step(), Step::Closed);
    assert_eq!(prover.advance(None), Action::Abort(Step::Closed));

    let (mut prover, _) = alice();
    prover.advance(Some(Reply::Registered));
    assert_eq!(prover.advance(None), Action::Abort(Step::Challenge));
    assert_eq!(prover.step(), Step::Closed);

    let (mut prover, _) = alice();
    prover.advance(Some(Reply::Registered));
    prover.advance(Some(Reply::Challenge { auth_id: "abc".to_string(), c: vec![4] }));
    assert_eq!(prover.advance(None), Action::Abort(Step::Verification));
    assert_eq!(prover.step(), Step::Closed);
}

#[test]
fn reply_out_of_turn_ends_the_login() {
    let challenge = Reply::Challenge { auth_id: "abc".to_string(), c: vec![4] };
    let session = Reply::Session { session_id: "session".to_string() };

    let (mut prover, _) = alice();
    assert_eq!(prover.advance(Some(challenge.clone())), Action::Abort(Step::Registration));
    let (mut prover, _) = alice();
    assert_eq!(prover.advance(Some(session.clone())), Action::Abort(Step::Registration));

    let (mut prover, _) = alice();
    prover.advance(Some(Reply::Registered));
    assert_eq!(prover.advance(Some(Reply::Registered)), Action::Abort(Step::Challenge));
    let (mut prover, _) = alice();
    prover.advance(Some(Reply::Registered));
    assert_eq!(prover.advance(Some(session)), Action::Abort(Step::Challenge));

    let (mut prover, _) = alice();
    prover.advance(Some(Reply::Registered));
    prover.advance(Some(challenge.clone()));
    assert_eq!(prover.advance(Some(challenge)), Action::Abort(Step::Verification));
    assert_eq!(prover.step(), Step::Closed);
}

#[test]
fn random_commitment_is_a_group_element() {
    let zkp = toy_group();
    for _ in 0..20 {
        let (mut prover, _) = alice();
        match prover.advance(Some(Reply::Registered)) {
            Action::Send(Request::CreateAuthenticationChallenge { user, r1, r2 }) => {
                assert_eq!(user, "alice");
                // (r1, r2) is the commitment to one exponent below 11
                let found = (0..11_u32).any(|k| {
                    let (g1, g2) = zkp.compute_pair(&BigNat::from(k));
                    g1.to_bytes_be() == r1 && g2.to_bytes_be() == r2
                });
                assert!(found);
            }
            other => panic!("unexpected action {:?}", other),
        }
    }
}

#[test]
fn service_answers_the_messages_of_a_login() {
    let mut service = AuthenticationService::new(toy_group());

    let reply = service.handle(register_alice());
    assert_eq!(reply, Ok(Reply::Registered));

    let request = Request::CreateAuthenticationChallenge {
        user: "alice".to_string(),
        r1: vec![8],
        r2: vec![4],
    };
    let (auth_id, c) = match service.handle(request) {
        Ok(Reply::Challenge { auth_id, c }) => (auth_id, c),
        other => panic!("unexpected reply {:?}", other),
    };
    assert!(auth_id.len() >= AUTH_ID_LEN);
    assert!(auth_id.chars().all(|ch| ch.is_ascii_alphanumeric()));
    assert_eq!(c.len(), 1);
    assert!(c[0] < 11);

    // s = 7 - c * 6 modulo 11
    let s = (7 + 11 * 6 - (c[0] as u32) * 6) % 11;
    let request = Request::VerifyAuthentication { auth_id: auth_id.clone(), s: vec![s as u8] };
    let session_id = match service.handle(request.clone()) {
        Ok(Reply::Session { session_id }) => session_id,
        other => panic!("unexpected reply {:?}", other),
    };
    assert_eq!(session_id.len(), SESSION_ID_LEN);
    assert!(session_id.chars().all(|ch| ch.is_ascii_alphanumeric()));

    assert_eq!(service.handle(request), Err(AuthError::UnknownChallenge));
}

#[test]
fn service_reads_integers_with_leading_zeros() {
    let mut service = AuthenticationService::new(toy_group());
    let request = Request::Register { user: "alice".to_string(), y1: vec![0, 2], y2: vec![0, 0, 3] };
    assert_eq!(service.handle(request), Ok(Reply::Registered));
    let request = Request::CreateAuthenticationChallenge {
        user: "alice".to_string(),
        r1: vec![0, 8],
        r2: vec![0, 4],
    };
    let (auth_id, c) = match service.handle(request) {
        Ok(Reply::Challenge { auth_id, c }) => (auth_id, c),
        other => panic!("unexpected reply {:?}", other),
    };
    let s = (7 + 11 * 6 - (c[0] as u32) * 6) % 11;
    let request = Request::VerifyAuthentication { auth_id, s: vec![0, 0, 0, s as u8] };
    assert!(matches!(service.handle(request), Ok(Reply::Session { .. })));
}

#[test]
fn service_refuses_what_the_protocol_refuses() {
    let mut service = AuthenticationService::new(toy_group());
    let challenge_for = |user: &str| Request::CreateAuthenticationChallenge {
        user: user.to_string(),
        r1: vec![8],
        r2: vec![4],
    };
    assert_eq!(service.handle(challenge_for("alice")), Err(AuthError::UnknownUser));
    assert_eq!(service.pending_challenges(), 0);
    let answer = Request::VerifyAuthentication { auth_id: "abc".to_string(), s: vec![5] };
    assert_eq!(service.handle(answer), Err(AuthError::UnknownChallenge));

    assert_eq!(service.handle(register_alice()), Ok(Reply::Registered));
    assert_eq!(service.handle(challenge_for("bob")), Err(AuthError::UnknownUser));
    let (auth_id, c) = match service.handle(challenge_for("alice")) {
        Ok(Reply::Challenge { auth_id, c }) => (auth_id, c),
        other => panic!("unexpected reply {:?}", other),
    };
    // one more than the right response
    let s = (7 + 11 * 6 - (c[0] as u32) * 6 + 1) % 11;
    let answer = Request::VerifyAuthentication { auth_id, s: vec![s as u8] };
    assert_eq!(service.handle(answer.clone()), Err(AuthError::AuthenticationFailed));
    assert_eq!(service.handle(answer), Err(AuthError::UnknownChallenge));
}

fn run(service: &mut AuthenticationService, mut prover: Prover, first: Request) -> Action {
    let mut action = Action::Send(first);
    loop {
        match action {
            Action::Send(request) => {
                let reply = service.handle(request).ok();
                action = prover.advance(reply);
            }
            done => return done,
        }
    }
}

#[test]
fn prover_and_service_fit_together() {
    let mut service = AuthenticationService::new(toy_group());
    for secret in 0..11_u32 {
        let (prover, first) =
            Prover::begin(toy_group(), "alice".to_string(), BigNat::from(secret));
        match run(&mut service, prover, first) {
            Action::LoggedIn { session_id } => assert_eq!(session_id.len(), SESSION_ID_LEN),
            other => panic!("unexpected end {:?}", other),
        }
        assert_eq!(service.pending_challenges(), 0);
    }
}

#[test]
fn prover_and_service_fit_together_in_the_1024_bit_group() {
    let (alpha, beta, p, q) = ZKP::get_constants();
    let mut service = AuthenticationService::new(ZKP::new(&alpha, &beta, &p, &q).unwrap());
    let secret = BigNat::from_bytes_be(b"a password");
    let (prover, first) =
        Prover::begin(ZKP::new(&alpha, &beta, &p, &q).unwrap(), "alice".to_string(), secret);
    match &first {
        Request::Register { y1, y2, .. } => {
            assert!(y1.len() <= 128 && y1[0] != 0);
            assert!(y2.len() <= 128 && y2[0] != 0);
        }
        other => panic!("unexpected request {:?}", other),
    }
    assert!(matches!(run(&mut service, prover, first), Action::LoggedIn { .. }));
}

#[test]
fn error_messages_tell_the_errors_apart() {
    assert_eq!(AuthError::InvalidParameters.message(), "invalid group parameters");
    assert_eq!(AuthError::UnknownUser.message(), "unknown user");
    assert_eq!(AuthError::UnknownChallenge.message(), "unknown challenge");
    assert_eq!(AuthError::AuthenticationFailed.message(), "authentication failed");
    assert_eq!(AuthError::InvalidBound.message(), "invalid bound");
    assert_eq!(AuthError::TooManyChallenges.message(), "too many pending challenges");
}
