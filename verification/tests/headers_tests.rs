use oidc_gate::config::{
    Config, CustomAppConfig, CustomAppHttpHeadersConfig, CustomAppOidcConfig,
    CustomAppStaticFilesConfig,
};
use oidc_gate::headers::{
    inject_nonce_tags, read_security_http_headers_config, splice_csp_directives, HeaderAnomaly,
};

fn headers_config(
    csp: Option<&str>,
    paths: Option<Vec<&str>>,
    tags: Option<Vec<&str>>,
    dirs: Option<Vec<&str>>,
) -> Config {
    let own = |v: Option<Vec<&str>>| v.map(|v| v.iter().map(|s| s.to_string()).collect());
    Config {
        app: CustomAppConfig {
            httpheaders: CustomAppHttpHeadersConfig {
                content_security_policy: csp.map(|s| s.to_string()),
                content_security_policy_inject_nonce_paths: own(paths),
                content_security_policy_inject_nonce_tags: own(tags),
                content_security_policy_nonce_headers: own(dirs),
                permissions_policy: Some("geolocation=()".to_string()),
                referrer_policy: Some("no-referrer".to_string()),
                cross_origin_embedder_policy: None,
                cross_origin_opener_policy: Some("same-origin".to_string()),
                cross_origin_resource_policy: None,
            },
            oidc: CustomAppOidcConfig {
                issuer_url: None,
                redirect_url: None,
                client_id: None,
                client_secret: None,
                roles_idtoken_claims: None,
                roles_userinfoendpoint_claims: None,
                claims_separator: None,
                scopes: None,
            },
            fileserver: CustomAppStaticFilesConfig { location: "static".to_string() },
        },
    }
}

#[test]
fn csp_directive_splice_example() {
    let header = splice_csp_directives(
        &"script-src 'self'".to_string(),
        &vec!["script-src 'self'".to_string()],
        &"B64".to_string(),
    );
    assert_eq!(header, "script-src 'self' 'nonce-B64'");
}

#[test]
fn body_tag_injection_example() {
    let body = inject_nonce_tags(
        &"<script>x</script>".to_string(),
        &vec!["script".to_string()],
        &"B64".to_string(),
    );
    assert_eq!(body, "<script nonce=\"B64\">x</script>");
}

#[test]
fn injection_covers_every_occurrence() {
    let body = inject_nonce_tags(
        &"<p><script>a</script><script >b</script></p>".to_string(),
        &vec!["script".to_string()],
        &"N".to_string(),
    );
    assert_eq!(
        body,
        "<p><script nonce=\"N\">a</script><script nonce=\"N\" >b</script></p>"
    );
}

#[test]
fn injection_twice_adds_no_second_nonce() {
    let once = inject_nonce_tags(
        &"<script>x</script><style>y</style>".to_string(),
        &vec!["script".to_string(), "style".to_string()],
        &"FIRST".to_string(),
    );
    let twice = inject_nonce_tags(
        &once,
        &vec!["script".to_string(), "style".to_string()],
        &"SECOND".to_string(),
    );
    assert_eq!(once, twice);
    assert!(!twice.contains("SECOND"));
}

#[test]
fn already_tagged_openings_are_left_alone() {
    let body = inject_nonce_tags(
        &"<script nonce=\"OLD\">x</script>".to_string(),
        &vec!["script".to_string()],
        &"NEW".to_string(),
    );
    assert_eq!(body, "<script nonce=\"OLD\">x</script>");
}

#[test]
fn mutator_rewrites_eligible_response() {
    let config = headers_config(
        Some("script-src 'self'"),
        Some(vec!["^/app"]),
        Some(vec!["script"]),
        Some(vec!["script-src 'self'"]),
    );
    let shh = read_security_http_headers_config(&config).unwrap();
    let m = shh.on_response(200, "/app/index.html", "<script>x</script>".to_string());

    assert_eq!(m.headers[0].0, "Content-Security-Policy");
    let csp = &m.headers[0].1;
    assert!(csp.starts_with("script-src 'self' 'nonce-"));
    assert!(csp.ends_with("'"));
    let nonce = &csp["script-src 'self' 'nonce-".len()..csp.len() - 1];
    assert_eq!(nonce.len(), 88);
    assert!(nonce
        .chars()
        .all(|c| c.is_ascii_alphanumeric() || c == '+' || c == '/' || c == '='));

    let body = m.body.expect("body must be re-written");
    assert_eq!(body, format!("<script nonce=\"{nonce}\">x</script>"));
    assert!(m.anomalies.is_empty());

    let extra: Vec<&str> = m.headers[1..].iter().map(|h| h.0.as_str()).collect();
    assert_eq!(
        extra,
        vec!["Permissions-Policy", "Referrer-Policy", "Cross-Origin-Opener-Policy"]
    );
}

#[test]
fn mutator_applied_twice_keeps_one_nonce_per_tag() {
    let config = headers_config(
        Some("script-src 'self'"),
        Some(vec!["^/app"]),
        Some(vec!["script"]),
        Some(vec!["script-src 'self'"]),
    );
    let shh = read_security_http_headers_config(&config).unwrap();
    let first = shh.on_response(200, "/app/x", "<script>x</script>".to_string());
    let body1 = first.body.unwrap();
    let second = shh.on_response(200, "/app/x", body1.clone());
    let body2 = second.body.unwrap();
    assert_eq!(body1, body2);
    assert_eq!(body2.matches("nonce=\"").count(), 1);
}

#[test]
fn non_matching_path_keeps_body_but_splices_header() {
    let config = headers_config(
        Some("script-src 'self'"),
        Some(vec!["^/app"]),
        Some(vec!["script"]),
        Some(vec!["script-src 'self'"]),
    );
    let shh = read_security_http_headers_config(&config).unwrap();
    let m = shh.on_response(200, "/other", "<script>x</script>".to_string());
    assert_eq!(m.body.as_deref(), Some("<script>x</script>"));
    assert!(m.headers[0].1.contains("'nonce-"));
}

#[test]
fn non_ok_status_is_left_alone() {
    let config = headers_config(
        Some("script-src 'self'"),
        Some(vec!["^/app"]),
        Some(vec!["script"]),
        Some(vec!["script-src 'self'"]),
    );
    let shh = read_security_http_headers_config(&config).unwrap();
    let m = shh.on_response(404, "/app/x", "<script>x</script>".to_string());
    assert!(m.headers.is_empty());
    assert!(m.body.is_none());
    assert!(m.anomalies.is_empty());
}

#[test]
fn missing_csp_template_is_a_no_op() {
    let config = headers_config(None, Some(vec!["^/app"]), None, None);
    let shh = read_security_http_headers_config(&config).unwrap();
    let m = shh.on_response(200, "/app/x", "body".to_string());
    assert!(m.headers.is_empty());
    assert!(m.body.is_none());
}

#[test]
fn no_patterns_sets_only_static_headers() {
    let config = headers_config(Some("script-src 'self'"), None, None, None);
    let shh = read_security_http_headers_config(&config).unwrap();
    let m = shh.on_response(200, "/app/x", "body".to_string());
    let names: Vec<&str> = m.headers.iter().map(|h| h.0.as_str()).collect();
    assert_eq!(
        names,
        vec!["Permissions-Policy", "Referrer-Policy", "Cross-Origin-Opener-Policy"]
    );
    assert!(m.body.is_none());
}

#[test]
fn missing_nonce_configuration_is_reported() {
    let config = headers_config(Some("script-src 'self'"), Some(vec!["^/"]), None, None);
    let shh = read_security_http_headers_config(&config).unwrap();
    let m = shh.on_response(200, "/x", "<script>x</script>".to_string());
    assert_eq!(m.anomalies.len(), 2);
    assert!(matches!(m.anomalies[0], HeaderAnomaly::MissingNonceTags));
    assert!(matches!(m.anomalies[1], HeaderAnomaly::MissingNonceDirectives));
    assert_eq!(m.body.as_deref(), Some("<script>x</script>"));
    assert_eq!(m.headers[0].1, "script-src 'self'");
}

#[test]
fn generated_nonce_is_base64_text() {
    let a = oidc_gate::headers::generate_nonce();
    let b = oidc_gate::headers::generate_nonce();
    assert_eq!(a.len(), 88);
    assert!(a
        .chars()
        .all(|c| c.is_ascii_alphanumeric() || c == '+' || c == '/' || c == '='));
    assert_ne!(a, b);
}

#[test]
fn directive_splice_is_leftmost_and_non_overlapping() {
    let header = splice_csp_directives(
        &"aaa".to_string(),
        &vec!["aa".to_string()],
        &"N".to_string(),
    );
    assert_eq!(header, "aa 'nonce-N'a");
}

#[test]
fn malformed_path_pattern_is_refused() {
    let config = headers_config(Some("x"), Some(vec!["("]), None, None);
    assert!(read_security_http_headers_config(&config).is_err());
}
