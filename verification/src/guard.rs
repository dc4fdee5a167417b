//! The authentication gate: decides, for each incoming request, whether it
//! carries a valid session, must be forwarded anonymously, or must be
//! rejected with its cookie cleared.

use crate::config::{clone_opt_string, clone_strings};
use crate::oidcflow::OidcFlow;
use crate::session::{decode_spec, deserialize_session, OidcSessionCookie};
use vstd::prelude::*;

verus! {

/// An authenticated user, as exposed to the handlers behind the guard.
#[derive(Debug)]
pub struct OidcUser {
    pub subject: String,
    pub preferred_username: Option<String>,
    pub mapped_roles: Vec<String>,
}

/// What the ID-token verifier reported of the token carried in a session:
/// either a failure of signature, issuer or audience, or the verified
/// claims together with the nonce claim found in the token.
pub enum TokenVerification {
    Invalid,
    Valid { subject: String, preferred_username: Option<String>, nonce: Option<String> },
}

/// Whether a verification outcome carries the nonce this flow issued.
pub open spec fn verification_accepts(v: TokenVerification, flow: OidcFlow) -> bool {
    match v {
        TokenVerification::Valid { nonce: Some(n), .. } => n@ == flow.nonce@,
        _ => false,
    }
}

/// The first step of the guard, before any cryptography: no cookie, or an
/// unreadable one, forwards the request anonymously with the requested path
/// stashed as the redirect destination; a readable one must be verified.
pub enum AuthGateStep {
    ForwardAnonymous { redirect_destination: String, clear_session_cookie: bool },
    VerifySession { session: OidcSessionCookie },
}

/// How a structurally valid session whose token fails verification is
/// answered: an error status, with the session cookie cleared.
#[derive(Debug)]
pub struct SessionRejection {
    pub status: u16,
    pub clear_session_cookie: bool,
}

/// Examines the session cookie of a request. Absence forwards the request
/// anonymously; a cookie that does not decode is cleared and forwarded the
/// same way; a decoded session is handed on for verification. In both
/// anonymous outcomes the requested path is stashed as the one-shot
/// redirect destination.
pub fn from_request(session_cookie: Option<&String>, requested_uri: &String) -> (r: AuthGateStep)
    ensures
        session_cookie is None ==> r == (AuthGateStep::ForwardAnonymous {
            redirect_destination: *requested_uri,
            clear_session_cookie: false,
        }),
        session_cookie matches Some(s) ==> (match decode_spec(s@) {
            None => r == (AuthGateStep::ForwardAnonymous {
                redirect_destination: *requested_uri,
                clear_session_cookie: true,
            }),
            Some(v) => r matches AuthGateStep::VerifySession { session } && session@ == v,
        }),
{
    match session_cookie {
        None => AuthGateStep::ForwardAnonymous {
            redirect_destination: requested_uri.clone(),
            clear_session_cookie: false,
        },
        Some(s) => match deserialize_session(s.as_str()) {
            Some(session) => AuthGateStep::VerifySession { session },
            None => AuthGateStep::ForwardAnonymous {
                redirect_destination: requested_uri.clone(),
                clear_session_cookie: true,
            },
        },
    }
}

impl OidcUser {
    /// Concludes the guard for a decoded session: the token must verify and
    /// must carry the nonce this flow issued — the cookie's own word is
    /// never trusted. Success yields the principal; failure an error status
    /// with the cookie cleared.
    pub fn load_from_session(
        oidc: &OidcFlow,
        oidc_session: &OidcSessionCookie,
        verification: &TokenVerification,
    ) -> (r: Result<OidcUser, SessionRejection>)
        ensures
            (r is Ok) == verification_accepts(*verification, *oidc),
            r matches Ok(u) ==> {
                &&& verification matches TokenVerification::Valid {
                    subject,
                    preferred_username,
                    ..
                } && u.subject == subject && u.preferred_username == preferred_username
                &&& u.mapped_roles@ == oidc_session.mapped_roles@
            },
            r matches Err(e) ==> e == (SessionRejection {
                status: 422,
                clear_session_cookie: true,
            }),
    {
        match verification {
            TokenVerification::Valid { subject, preferred_username, nonce: Some(n) } => {
                if *n == oidc.nonce {
                    Ok(
                        OidcUser {
                            subject: subject.clone(),
                            preferred_username: clone_opt_string(preferred_username),
                            mapped_roles: clone_strings(&oidc_session.mapped_roles),
                        },
                    )
                } else {
                    Err(SessionRejection { status: 422, clear_session_cookie: true })
                }
            },
            _ => Err(SessionRejection { status: 422, clear_session_cookie: true }),
        }
    }
}

} // verus!
