//! The callback exchange: turns the outcome of the code-for-token exchange
//! into a session record, an encoded session cookie and a redirect target,
//! rejecting any token whose nonce is not the one this flow issued; and the
//! two small route decisions around it.

use crate::claims::{mapped_roles_spec, parse_claims, AllOtherClaims};
use crate::config::CustomAppOidcConfig;
use crate::guard::OidcUser;
use crate::oidcflow::OidcFlow;
use crate::session::{encode_spec, serialize_session, OidcSessionCookie};
use crate::text::str_views;
use vstd::prelude::*;

verus! {

/// The query parameters of the callback endpoint.
pub struct OidcParams {
    pub code: String,
    pub state: String,
    pub session_state: Option<String>,
}

/// The failures of the callback exchange, each answered to the browser as a
/// server error with a short tag.
#[derive(Debug)]
pub enum OidcError {
    ClientBuildError(String),
    CodeExchangeError(String),
    IdTokenError(String),
    ClaimsError(String),
    SerializeSessionCookie(String),
}

/// What the exchange of the authorization code yielded, up to and including
/// signature, issuer and audience verification of the ID token. The nonce
/// claim found in the token is handed on unchecked: the library itself
/// compares it against the nonce this flow issued.
pub enum CodeExchangeOutcome {
    /// The HTTP client for the exchange could not be built.
    ClientUnavailable,
    /// The token endpoint refused the code, or could not be reached.
    ExchangeFailed,
    /// The token response carried no ID token.
    MissingIdToken,
    /// The ID token failed signature, issuer or audience verification.
    TokenVerificationFailed,
    /// A verified token, with its claims and its nonce claim.
    Verified {
        access_token: String,
        id_token: String,
        token_nonce: Option<String>,
        id_token_claims: AllOtherClaims,
    },
}

/// What the best-effort UserInfo call yielded; its failure never fails the
/// login.
pub enum UserInfoOutcome {
    Unavailable,
    Claims(AllOtherClaims),
}

/// A completed login: the session record, its encoded cookie text, and
/// where to send the browser.
#[derive(Debug)]
pub struct CallbackSuccess {
    pub session_cookie: OidcSessionCookie,
    pub serialized_session_cookie: String,
    pub redirect_to: String,
    pub clear_redirect_cookie: bool,
}

/// Whether the exchange outcome carries a verified token whose nonce is the
/// one this flow issued.
pub open spec fn callback_accepts(outcome: CodeExchangeOutcome, flow: OidcFlow) -> bool {
    match outcome {
        CodeExchangeOutcome::Verified { token_nonce: Some(n), .. } => n@ == flow.nonce@,
        _ => false,
    }
}

/// The requested claim names of one optional configuration list.
pub open spec fn names_of(o: Option<Vec<String>>) -> Seq<String> {
    match o {
        Some(v) => v@,
        None => Seq::<String>::empty(),
    }
}

/// The roles of a completed login: the ID-token claims mapped first, then
/// the UserInfo claims, each through the claims mapper.
pub open spec fn login_roles_spec(
    outcome: CodeExchangeOutcome,
    userinfo: UserInfoOutcome,
    cfg: CustomAppOidcConfig,
) -> Seq<Seq<char>> {
    (match outcome {
        CodeExchangeOutcome::Verified { id_token_claims, .. } => mapped_roles_spec(
            id_token_claims.0@,
            names_of(cfg.roles_idtoken_claims),
            cfg.claims_separator,
        ),
        _ => Seq::<Seq<char>>::empty(),
    }) + (match userinfo {
        UserInfoOutcome::Claims(c) => mapped_roles_spec(
            c.0@,
            names_of(cfg.roles_userinfoendpoint_claims),
            cfg.claims_separator,
        ),
        UserInfoOutcome::Unavailable => Seq::<Seq<char>>::empty(),
    })
}

/// Completes a login from the outcome of the code exchange. A verified
/// token whose nonce matches the one this flow issued yields the session
/// record, its encoded cookie, and the redirect target — the stashed
/// one-shot destination if present, the application root otherwise. Every
/// other outcome yields the error of the step that failed; a nonce that is
/// absent or differs is a claims error, and no cookie is produced. The
/// serialization step never fails here, so its error is never returned.
pub fn oidc_redirect(
    oidc: &OidcFlow,
    oidc_config: &CustomAppOidcConfig,
    outcome: CodeExchangeOutcome,
    userinfo: UserInfoOutcome,
    redirect_destination: Option<String>,
) -> (r: Result<CallbackSuccess, OidcError>)
    ensures
        (r is Ok) == callback_accepts(outcome, *oidc),
        outcome is ClientUnavailable ==> ({
            r matches Err(OidcError::ClientBuildError(m)) && m@ == ("Cannot build client")@
        }),
        outcome is ExchangeFailed ==> ({
            r matches Err(OidcError::CodeExchangeError(m)) && m@ == ("Cannot exchange code")@
        }),
        outcome is MissingIdToken ==> ({
            r matches Err(OidcError::IdTokenError(m)) && m@ == ("Invalid IdToken")@
        }),
        outcome is TokenVerificationFailed ==> ({
            r matches Err(OidcError::ClaimsError(m)) && m@ == ("Invalid claims")@
        }),
        outcome is Verified && !callback_accepts(outcome, *oidc) ==> ({
            r matches Err(OidcError::ClaimsError(m)) && m@ == ("Invalid claims")@
        }),
        r matches Ok(s) ==> {
            &&& outcome matches CodeExchangeOutcome::Verified { access_token, id_token, .. }
                && s.session_cookie.access_token == access_token
                && s.session_cookie.id_token == id_token
            &&& str_views(s.session_cookie.mapped_roles@) == login_roles_spec(
                outcome,
                userinfo,
                *oidc_config,
            )
            &&& s.serialized_session_cookie@ == encode_spec(s.session_cookie@)
            &&& (match redirect_destination {
                Some(d) => s.redirect_to@ == d@ && s.clear_redirect_cookie,
                None => s.redirect_to@ == ("/")@ && !s.clear_redirect_cookie,
            })
        },
{
    match outcome {
        CodeExchangeOutcome::ClientUnavailable => Err(
            OidcError::ClientBuildError("Cannot build client".to_owned()),
        ),
        CodeExchangeOutcome::ExchangeFailed => Err(
            OidcError::CodeExchangeError("Cannot exchange code".to_owned()),
        ),
        CodeExchangeOutcome::MissingIdToken => Err(
            OidcError::IdTokenError("Invalid IdToken".to_owned()),
        ),
        CodeExchangeOutcome::TokenVerificationFailed => Err(
            OidcError::ClaimsError("Invalid claims".to_owned()),
        ),
        CodeExchangeOutcome::Verified { access_token, id_token, token_nonce, id_token_claims } => {
            let nonce_ok = match &token_nonce {
                Some(n) => *n == oidc.nonce,
                None => false,
            };
            if !nonce_ok {
                return Err(OidcError::ClaimsError("Invalid claims".to_owned()));
            }
            let empty_names: Vec<String> = Vec::new();
            let id_names = match &oidc_config.roles_idtoken_claims {
                Some(v) => v,
                None => &empty_names,
            };
            let mut mapped_roles = parse_claims(&id_token_claims, id_names, oidc_config);
            let ghost id_part = str_views(mapped_roles@);
            match &userinfo {
                UserInfoOutcome::Claims(c) => {
                    let ui_names = match &oidc_config.roles_userinfoendpoint_claims {
                        Some(v) => v,
                        None => &empty_names,
                    };
                    let mut more = parse_claims(c, ui_names, oidc_config);
                    let ghost ui_part = str_views(more@);
                    mapped_roles.append(&mut more);
                    proof {
                        assert(str_views(mapped_roles@) =~= id_part + ui_part);
                    }
                },
                UserInfoOutcome::Unavailable => {
                    proof {
                        assert(str_views(mapped_roles@) =~= id_part + Seq::<Seq<char>>::empty());
                    }
                },
            }
            let session_cookie = OidcSessionCookie { access_token, id_token, mapped_roles };
            let serialized_session_cookie = serialize_session(&session_cookie);
            let (redirect_to, clear_redirect_cookie) = match redirect_destination {
                Some(d) => (d, true),
                None => ("/".to_owned(), false),
            };
            Ok(
                CallbackSuccess {
                    session_cookie,
                    serialized_session_cookie,
                    redirect_to,
                    clear_redirect_cookie,
                },
            )
        },
    }
}

/// The login endpoint's answer: the browser is sent to the provider's
/// authorization URL.
pub fn oidc_goto_auth(oidc: &OidcFlow) -> (r: String)
    ensures
        r@ == oidc.auth_url@,
{
    oidc.auth_url.clone()
}

/// The catch-all gate in front of protected routes: an absent user is sent
/// to the login endpoint, a present one falls through to the real handler.
pub fn redirect_auth(user: Option<OidcUser>) -> (r: Result<(), String>)
    ensures
        user is Some <==> r is Ok,
        r matches Err(t) ==> t@ == ("/oidc/login")@,
{
    match user {
        Some(_) => Ok(()),
        None => Err("/oidc/login".to_owned()),
    }
}

} // verus!
