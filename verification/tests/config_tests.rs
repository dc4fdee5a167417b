use oidc_gate::config::{
    configure_fileserver, configure_oidc, read_oidc_config, Config, CustomAppConfig,
    CustomAppHttpHeadersConfig, CustomAppOidcConfig, CustomAppStaticFilesConfig, OidcConfigError,
};
use oidc_gate::guard::OidcUser;
use oidc_gate::oidcflow::{handle_error, OidcFlow};
use oidc_gate::routes::{oidc_goto_auth, redirect_auth};

fn full_config() -> Config {
    Config {
        app: CustomAppConfig {
            httpheaders: CustomAppHttpHeadersConfig {
                content_security_policy: None,
                content_security_policy_inject_nonce_paths: None,
                content_security_policy_inject_nonce_tags: None,
                content_security_policy_nonce_headers: None,
                permissions_policy: None,
                referrer_policy: None,
                cross_origin_embedder_policy: None,
                cross_origin_opener_policy: None,
                cross_origin_resource_policy: None,
            },
            oidc: CustomAppOidcConfig {
                issuer_url: Some("https://idp.example".to_string()),
                redirect_url: Some("https://app.example/oidc/redirect".to_string()),
                client_id: Some("client-1".to_string()),
                client_secret: Some("SECRET-REDACTED".to_string()),
                roles_idtoken_claims: Some(vec!["roles".to_string()]),
                roles_userinfoendpoint_claims: None,
                claims_separator: None,
                scopes: Some(vec!["openid".to_string(), "profile".to_string()]),
            },
            fileserver: CustomAppStaticFilesConfig { location: "frontend/build".to_string() },
        },
    }
}

#[test]
fn complete_oidc_config_is_accepted() {
    let s = read_oidc_config(&full_config()).unwrap();
    assert_eq!(s.issuer_url, "https://idp.example");
    assert_eq!(s.redirect_url, "https://app.example/oidc/redirect");
    assert_eq!(s.client_id, "client-1");
    assert_eq!(s.client_secret, "SECRET-REDACTED");
    assert_eq!(s.scopes, vec!["openid".to_string(), "profile".to_string()]);
}

#[test]
fn missing_fields_are_refused_in_order() {
    let mut c = full_config();
    c.app.oidc.issuer_url = None;
    assert!(matches!(read_oidc_config(&c), Err(OidcConfigError::MissingIssuerUrl)));

    let mut c = full_config();
    c.app.oidc.redirect_url = None;
    assert!(matches!(read_oidc_config(&c), Err(OidcConfigError::MissingRedirectUrl)));

    let mut c = full_config();
    c.app.oidc.client_id = None;
    assert!(matches!(read_oidc_config(&c), Err(OidcConfigError::MissingClientId)));

    let mut c = full_config();
    c.app.oidc.client_secret = None;
    assert!(matches!(configure_oidc(&c), Err(OidcConfigError::MissingClientSecret)));
}

#[test]
fn missing_scopes_mean_no_scopes() {
    let mut c = full_config();
    c.app.oidc.scopes = None;
    let s = configure_oidc(&c).unwrap();
    assert!(s.scopes.is_empty());
}

#[test]
fn fileserver_config_is_handed_through() {
    let fs = configure_fileserver(&full_config());
    assert_eq!(fs.location, "frontend/build");
}

#[test]
fn error_log_line_walks_the_cause_chain() {
    let line = handle_error(
        "Cannot exchange code",
        &vec!["connection refused".to_string(), "socket closed".to_string()],
    );
    assert_eq!(
        line,
        "Cannot exchange code\n    caused by: connection refused\n    caused by: socket closed"
    );
}

#[test]
fn error_log_line_without_causes_is_the_message() {
    assert_eq!(handle_error("Invalid issuer URL", &Vec::new()), "Invalid issuer URL");
}

#[test]
fn login_endpoint_sends_the_authorization_url() {
    let f = OidcFlow {
        auth_url: "https://idp.example/authorize?state=s&nonce=n".to_string(),
        csrf_state: "s".to_string(),
        nonce: "n".to_string(),
        pkce_verifier_secret: "v".to_string(),
    };
    assert_eq!(oidc_goto_auth(&f), "https://idp.example/authorize?state=s&nonce=n");
}

#[test]
fn anonymous_user_is_sent_to_login() {
    assert_eq!(redirect_auth(None), Err("/oidc/login".to_string()));
    let user = OidcUser {
        subject: "alice".to_string(),
        preferred_username: None,
        mapped_roles: Vec::new(),
    };
    assert_eq!(redirect_auth(Some(user)), Ok(()));
}
