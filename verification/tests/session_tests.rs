use oidc_gate::session::{deserialize_session, serialize_session, OidcSessionCookie};

fn record(access: &str, id: &str, roles: &[&str]) -> OidcSessionCookie {
    OidcSessionCookie {
        access_token: access.to_string(),
        id_token: id.to_string(),
        mapped_roles: roles.iter().map(|r| r.to_string()).collect(),
    }
}

#[test]
fn round_trip_without_roles() {
    let r = record("tok", "idtok", &[]);
    let text = serialize_session(&r);
    assert_eq!(deserialize_session(&text), Some(r));
}

#[test]
fn round_trip_with_roles() {
    let r = record("access-token", "id-token", &["admin", "ops", "dev"]);
    let text = serialize_session(&r);
    assert_eq!(deserialize_session(&text), Some(r));
}

#[test]
fn round_trip_with_hostile_field_contents() {
    let r = record("a:b:c|7:", "12:34::", &["", ":", "9:x", "role with spaces"]);
    let text = serialize_session(&r);
    assert_eq!(deserialize_session(&text), Some(r));
}

#[test]
fn round_trip_with_empty_tokens() {
    let r = record("", "", &[""]);
    let text = serialize_session(&r);
    assert_eq!(deserialize_session(&text), Some(r));
}

#[test]
fn serialized_form_is_the_length_prefixed_text() {
    let r = record("ab", "c", &["de"]);
    assert_eq!(serialize_session(&r), "2:ab1:c1:2:de");
}

#[test]
fn hand_written_encoding_decodes() {
    assert_eq!(
        deserialize_session("1:a1:b1:1:x"),
        Some(record("a", "b", &["x"]))
    );
}

#[test]
fn malformed_texts_are_refused() {
    for text in [
        "",
        "abc",
        "5:ab",
        "1:a",
        "1:a1:b",
        "1:a1:b2:",
        "1:a1:b1:",
        "1:a1:b0:x",
        ":1:a1:b0:",
        "01x:a1:b0:",
        "1:a1:b1:1:x trailing",
        "999999999999999999999999:a1:b0:",
    ] {
        assert_eq!(deserialize_session(text), None, "accepted: {text:?}");
    }
}

#[test]
fn role_count_must_match() {
    assert_eq!(deserialize_session("1:a1:b2:1:x"), None);
    assert_eq!(deserialize_session("1:a1:b1:1:x1:y"), None);
}
