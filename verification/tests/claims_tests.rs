use oidc_gate::claims::{parse_claims, parse_claims_with_log, AllOtherClaims, ClaimAnomaly, ClaimValue};
use oidc_gate::config::CustomAppOidcConfig;

fn oidc_config(separators: Option<Vec<(String, String)>>) -> CustomAppOidcConfig {
    CustomAppOidcConfig {
        issuer_url: None,
        redirect_url: None,
        client_id: None,
        client_secret: None,
        roles_idtoken_claims: None,
        roles_userinfoendpoint_claims: None,
        claims_separator: separators,
        scopes: None,
    }
}

#[test]
fn string_claim_split_by_separator() {
    let claims = AllOtherClaims(vec![(
        "roles".to_string(),
        ClaimValue::Text("admin,ops".to_string()),
    )]);
    let cfg = oidc_config(Some(vec![("roles".to_string(), ",".to_string())]));
    let roles = parse_claims(&claims, &vec!["roles".to_string()], &cfg);
    assert_eq!(roles, vec!["admin".to_string(), "ops".to_string()]);
}

#[test]
fn array_claim_without_separator() {
    let claims = AllOtherClaims(vec![(
        "roles".to_string(),
        ClaimValue::List(vec![
            ClaimValue::Text("admin".to_string()),
            ClaimValue::Text("ops".to_string()),
        ]),
    )]);
    let cfg = oidc_config(None);
    let roles = parse_claims(&claims, &vec!["roles".to_string()], &cfg);
    assert_eq!(roles, vec!["admin".to_string(), "ops".to_string()]);
}

#[test]
fn numeric_claim_yields_no_roles_and_one_anomaly() {
    let claims = AllOtherClaims(vec![("roles".to_string(), ClaimValue::Other)]);
    let cfg = oidc_config(None);
    let (roles, anomalies) = parse_claims_with_log(&claims, &vec!["roles".to_string()], &cfg);
    assert!(roles.is_empty());
    assert_eq!(anomalies.len(), 1);
    assert!(matches!(&anomalies[0], ClaimAnomaly::NotTextual(n) if n == "roles"));
}

#[test]
fn missing_claim_is_skipped_and_reported() {
    let claims = AllOtherClaims(vec![(
        "groups".to_string(),
        ClaimValue::Text("dev".to_string()),
    )]);
    let cfg = oidc_config(None);
    let (roles, anomalies) = parse_claims_with_log(&claims, &vec!["roles".to_string()], &cfg);
    assert!(roles.is_empty());
    assert_eq!(anomalies.len(), 1);
    assert!(matches!(&anomalies[0], ClaimAnomaly::Missing(n) if n == "roles"));
}

#[test]
fn non_string_array_entry_is_skipped_and_reported() {
    let claims = AllOtherClaims(vec![(
        "roles".to_string(),
        ClaimValue::List(vec![
            ClaimValue::Text("admin".to_string()),
            ClaimValue::Other,
            ClaimValue::Text("ops".to_string()),
        ]),
    )]);
    let cfg = oidc_config(None);
    let (roles, anomalies) = parse_claims_with_log(&claims, &vec!["roles".to_string()], &cfg);
    assert_eq!(roles, vec!["admin".to_string(), "ops".to_string()]);
    assert_eq!(anomalies.len(), 1);
    assert!(matches!(&anomalies[0], ClaimAnomaly::ListEntryNotText(n) if n == "roles"));
}

#[test]
fn string_claim_without_configured_separator_is_one_role() {
    let claims = AllOtherClaims(vec![(
        "roles".to_string(),
        ClaimValue::Text("admin,ops".to_string()),
    )]);
    let cfg = oidc_config(Some(vec![("groups".to_string(), ",".to_string())]));
    let roles = parse_claims(&claims, &vec!["roles".to_string()], &cfg);
    assert_eq!(roles, vec!["admin,ops".to_string()]);
}

#[test]
fn requested_order_governs_output_order() {
    let claims = AllOtherClaims(vec![
        ("a".to_string(), ClaimValue::Text("1;2".to_string())),
        ("b".to_string(), ClaimValue::Text("3".to_string())),
    ]);
    let cfg = oidc_config(Some(vec![("a".to_string(), ";".to_string())]));
    let roles = parse_claims(&claims, &vec!["b".to_string(), "a".to_string()], &cfg);
    assert_eq!(roles, vec!["3".to_string(), "1".to_string(), "2".to_string()]);
}

#[test]
fn repeated_claim_name_first_binding_wins() {
    let claims = AllOtherClaims(vec![
        ("roles".to_string(), ClaimValue::Text("first".to_string())),
        ("roles".to_string(), ClaimValue::Text("second".to_string())),
    ]);
    let cfg = oidc_config(None);
    let roles = parse_claims(&claims, &vec!["roles".to_string()], &cfg);
    assert_eq!(roles, vec!["first".to_string()]);
}

#[test]
fn separator_splits_keep_empty_pieces() {
    let claims = AllOtherClaims(vec![(
        "roles".to_string(),
        ClaimValue::Text(",admin,".to_string()),
    )]);
    let cfg = oidc_config(Some(vec![("roles".to_string(), ",".to_string())]));
    let roles = parse_claims(&claims, &vec!["roles".to_string()], &cfg);
    assert_eq!(
        roles,
        vec!["".to_string(), "admin".to_string(), "".to_string()]
    );
}
