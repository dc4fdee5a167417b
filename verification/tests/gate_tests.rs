use oidc_gate::guard::{AuthGateStep, OidcUser, TokenVerification};
use oidc_gate::oidcflow::OidcFlow;
use oidc_gate::session::{serialize_session, OidcSessionCookie};

fn flow(nonce: &str) -> OidcFlow {
    OidcFlow {
        auth_url: "https://idp.example/authorize?x=1".to_string(),
        csrf_state: "state-1".to_string(),
        nonce: nonce.to_string(),
        pkce_verifier_secret: "pkce-secret".to_string(),
    }
}

fn session(roles: &[&str]) -> OidcSessionCookie {
    OidcSessionCookie {
        access_token: "at".to_string(),
        id_token: "idt".to_string(),
        mapped_roles: roles.iter().map(|r| r.to_string()).collect(),
    }
}

#[test]
fn no_cookie_forwards_anonymously_and_stashes_destination() {
    let step = oidc_gate::guard::from_request(None, &"/orders/42".to_string());
    match step {
        AuthGateStep::ForwardAnonymous { redirect_destination, clear_session_cookie } => {
            assert_eq!(redirect_destination, "/orders/42");
            assert!(!clear_session_cookie);
        },
        _ => panic!("expected an anonymous forward"),
    }
}

#[test]
fn unreadable_cookie_is_cleared_and_forwarded() {
    let cookie = "not a session".to_string();
    let step = oidc_gate::guard::from_request(Some(&cookie), &"/inventory".to_string());
    match step {
        AuthGateStep::ForwardAnonymous { redirect_destination, clear_session_cookie } => {
            assert_eq!(redirect_destination, "/inventory");
            assert!(clear_session_cookie);
        },
        _ => panic!("expected an anonymous forward"),
    }
}

#[test]
fn readable_cookie_is_handed_on_for_verification() {
    let sess = session(&["admin"]);
    let cookie = serialize_session(&sess);
    let step = oidc_gate::guard::from_request(Some(&cookie), &"/".to_string());
    match step {
        AuthGateStep::VerifySession { session } => assert_eq!(session, sess),
        _ => panic!("expected a verification step"),
    }
}

#[test]
fn invalid_token_is_rejected_with_cleared_cookie() {
    let f = flow("n-1");
    let sess = session(&["admin"]);
    let r = OidcUser::load_from_session(&f, &sess, &TokenVerification::Invalid);
    let rej = r.err().expect("must be rejected");
    assert_eq!(rej.status, 422);
    assert!(rej.clear_session_cookie);
}

#[test]
fn token_with_wrong_nonce_is_rejected() {
    let f = flow("n-1");
    let sess = session(&[]);
    let v = TokenVerification::Valid {
        subject: "alice".to_string(),
        preferred_username: None,
        nonce: Some("n-2".to_string()),
    };
    let rej = OidcUser::load_from_session(&f, &sess, &v).err().expect("must be rejected");
    assert_eq!(rej.status, 422);
    assert!(rej.clear_session_cookie);
}

#[test]
fn token_without_nonce_is_rejected() {
    let f = flow("n-1");
    let sess = session(&[]);
    let v = TokenVerification::Valid {
        subject: "alice".to_string(),
        preferred_username: None,
        nonce: None,
    };
    assert!(OidcUser::load_from_session(&f, &sess, &v).is_err());
}

#[test]
fn verified_session_yields_the_principal() {
    let f = flow("n-1");
    let sess = session(&["admin", "ops"]);
    let v = TokenVerification::Valid {
        subject: "alice".to_string(),
        preferred_username: Some("al".to_string()),
        nonce: Some("n-1".to_string()),
    };
    let user = OidcUser::load_from_session(&f, &sess, &v).ok().expect("must verify");
    assert_eq!(user.subject, "alice");
    assert_eq!(user.preferred_username.as_deref(), Some("al"));
    assert_eq!(user.mapped_roles, vec!["admin".to_string(), "ops".to_string()]);
}

#[test]
fn gate_runs_end_to_end_over_a_real_cookie() {
    let f = flow("n-9");
    let sess = session(&["dev"]);
    let cookie = serialize_session(&sess);
    let step = oidc_gate::guard::from_request(Some(&cookie), &"/x".to_string());
    let decoded = match step {
        AuthGateStep::VerifySession { session } => session,
        _ => panic!("expected a verification step"),
    };
    let v = TokenVerification::Valid {
        subject: "bob".to_string(),
        preferred_username: None,
        nonce: Some("n-9".to_string()),
    };
    let user = OidcUser::load_from_session(&f, &decoded, &v).unwrap();
    assert_eq!(user.mapped_roles, vec!["dev".to_string()]);
}
