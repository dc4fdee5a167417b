use oidc_gate::claims::{AllOtherClaims, ClaimValue};
use oidc_gate::config::CustomAppOidcConfig;
use oidc_gate::oidcflow::OidcFlow;
use oidc_gate::routes::{oidc_redirect, CodeExchangeOutcome, OidcError, UserInfoOutcome};
use oidc_gate::session::deserialize_session;

fn flow(nonce: &str) -> OidcFlow {
    OidcFlow {
        auth_url: "https://idp.example/authorize".to_string(),
        csrf_state: "st".to_string(),
        nonce: nonce.to_string(),
        pkce_verifier_secret: "pkce".to_string(),
    }
}

fn role_config() -> CustomAppOidcConfig {
    CustomAppOidcConfig {
        issuer_url: None,
        redirect_url: None,
        client_id: None,
        client_secret: None,
        roles_idtoken_claims: Some(vec!["roles".to_string()]),
        roles_userinfoendpoint_claims: Some(vec!["groups".to_string()]),
        claims_separator: Some(vec![("roles".to_string(), ",".to_string())]),
        scopes: None,
    }
}

fn verified(nonce: Option<&str>) -> CodeExchangeOutcome {
    CodeExchangeOutcome::Verified {
        access_token: "AT".to_string(),
        id_token: "IDT".to_string(),
        token_nonce: nonce.map(|n| n.to_string()),
        id_token_claims: AllOtherClaims(vec![(
            "roles".to_string(),
            ClaimValue::Text("admin,ops".to_string()),
        )]),
    }
}

fn userinfo() -> UserInfoOutcome {
    UserInfoOutcome::Claims(AllOtherClaims(vec![(
        "groups".to_string(),
        ClaimValue::List(vec![ClaimValue::Text("dev".to_string())]),
    )]))
}

#[test]
fn matching_nonce_yields_session_with_concatenated_roles() {
    let r = oidc_redirect(&flow("n"), &role_config(), verified(Some("n")), userinfo(), None);
    let s = r.ok().expect("login must succeed");
    assert_eq!(s.session_cookie.access_token, "AT");
    assert_eq!(s.session_cookie.id_token, "IDT");
    assert_eq!(
        s.session_cookie.mapped_roles,
        vec!["admin".to_string(), "ops".to_string(), "dev".to_string()]
    );
    assert_eq!(
        deserialize_session(&s.serialized_session_cookie),
        Some(s.session_cookie)
    );
    assert_eq!(s.redirect_to, "/");
    assert!(!s.clear_redirect_cookie);
}

#[test]
fn stashed_destination_wins_over_the_root() {
    let r = oidc_redirect(
        &flow("n"),
        &role_config(),
        verified(Some("n")),
        UserInfoOutcome::Unavailable,
        Some("/orders".to_string()),
    );
    let s = r.unwrap();
    assert_eq!(s.redirect_to, "/orders");
    assert!(s.clear_redirect_cookie);
}

#[test]
fn userinfo_failure_keeps_id_token_roles() {
    let r = oidc_redirect(
        &flow("n"),
        &role_config(),
        verified(Some("n")),
        UserInfoOutcome::Unavailable,
        None,
    );
    let s = r.unwrap();
    assert_eq!(
        s.session_cookie.mapped_roles,
        vec!["admin".to_string(), "ops".to_string()]
    );
}

#[test]
fn mismatched_nonce_fails_with_claims_error_and_no_cookie() {
    let r = oidc_redirect(&flow("issued"), &role_config(), verified(Some("other")), userinfo(), None);
    match r {
        Err(OidcError::ClaimsError(m)) => assert_eq!(m, "Invalid claims"),
        other => panic!("expected a claims error, got {other:?}"),
    }
}

#[test]
fn absent_nonce_fails_with_claims_error() {
    let r = oidc_redirect(&flow("issued"), &role_config(), verified(None), userinfo(), None);
    assert!(matches!(r, Err(OidcError::ClaimsError(_))));
}

#[test]
fn each_failed_step_maps_to_its_error() {
    let cfg = role_config();
    let f = flow("n");
    assert!(matches!(
        oidc_redirect(&f, &cfg, CodeExchangeOutcome::ClientUnavailable, userinfo(), None),
        Err(OidcError::ClientBuildError(m)) if m == "Cannot build client"
    ));
    assert!(matches!(
        oidc_redirect(&f, &cfg, CodeExchangeOutcome::ExchangeFailed, userinfo(), None),
        Err(OidcError::CodeExchangeError(m)) if m == "Cannot exchange code"
    ));
    assert!(matches!(
        oidc_redirect(&f, &cfg, CodeExchangeOutcome::MissingIdToken, userinfo(), None),
        Err(OidcError::IdTokenError(m)) if m == "Invalid IdToken"
    ));
    assert!(matches!(
        oidc_redirect(&f, &cfg, CodeExchangeOutcome::TokenVerificationFailed, userinfo(), None),
        Err(OidcError::ClaimsError(m)) if m == "Invalid claims"
    ));
}

#[test]
fn unconfigured_claim_lists_yield_no_roles() {
    let cfg = CustomAppOidcConfig {
        issuer_url: None,
        redirect_url: None,
        client_id: None,
        client_secret: None,
        roles_idtoken_claims: None,
        roles_userinfoendpoint_claims: None,
        claims_separator: None,
        scopes: None,
    };
    let r = oidc_redirect(&flow("n"), &cfg, verified(Some("n")), userinfo(), None);
    let s = r.unwrap();
    assert!(s.session_cookie.mapped_roles.is_empty());
}
