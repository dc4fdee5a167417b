//! The OIDC client bootstrap: its per-login state, its error taxonomy, and
//! the construction of the cause-chain log line every failure is reported
//! with.

use crate::text::{chars_to_string, push_all, str_to_chars, str_views};
use vstd::prelude::*;

verus! {

/// Errors of the OIDC client bootstrap; any of them aborts startup, since
/// authentication is mandatory infrastructure.
#[allow(non_camel_case_types)]
#[derive(Debug)]
pub enum OAuth2Error {
    INVALID_ISSUER_URL,
    CLIENT_BUILD_ERROR,
    PROVIDER_METADATA_DISCOVERY,
}

/// The state of the OIDC authorization-code flow kept by the backend: the
/// authorization URL the browser is sent to, the CSRF state and nonce bound
/// into that URL, and the retained PKCE verifier secret. The discovered
/// provider client itself lives with the HTTP layer that built it.
pub struct OidcFlow {
    pub auth_url: String,
    pub csrf_state: String,
    pub nonce: String,
    pub pkce_verifier_secret: String,
}

/// The line that separates a cause from what it caused.
pub open spec fn caused_by_text() -> Seq<char> {
    ("\n    caused by: ")@
}

/// The indented cause lines of an error report.
pub open spec fn caused_by_lines(causes: Seq<Seq<char>>) -> Seq<char>
    decreases causes.len(),
{
    if causes.len() == 0 {
        Seq::<char>::empty()
    } else {
        caused_by_text() + causes[0] + caused_by_lines(causes.skip(1))
    }
}

/// The server log line of an error: the message, then every cause of its
/// chain on an indented line of its own.
pub open spec fn error_log_spec(msg: Seq<char>, causes: Seq<Seq<char>>) -> Seq<char> {
    msg + caused_by_lines(causes)
}

/// Builds the log line of an error: the message, then each cause of the
/// chain, outermost first, on an indented line of its own. The walk along
/// the error sources happens at the logging edge, which hands the cause
/// texts in here.
pub fn handle_error(msg: &str, causes: &Vec<String>) -> (r: String)
    ensures
        r@ == error_log_spec(msg@, str_views(causes@)),
{
    let ghost all = str_views(causes@);
    let mut out = str_to_chars(msg);
    let mut i: usize = 0;
    proof {
        assert(all.skip(0) =~= all);
    }
    while i < causes.len()
        invariant
            i <= all.len(),
            all == str_views(causes@),
            out@ + caused_by_lines(all.skip(i as int)) == msg@ + caused_by_lines(all),
        decreases all.len() - i,
    {
        let ghost t = all.skip(i as int);
        let ghost before = out@;
        let sep = str_to_chars("\n    caused by: ");
        let cchars = str_to_chars(causes[i].as_str());
        push_all(&mut out, &sep);
        push_all(&mut out, &cchars);
        proof {
            assert(t[0] == all[i as int]);
            assert(all[i as int] == causes@[i as int]@);
            assert(t.skip(1) =~= all.skip(i + 1));
            assert(caused_by_lines(t) == caused_by_text() + t[0] + caused_by_lines(
                all.skip(i + 1),
            ));
            assert(out@ + caused_by_lines(all.skip(i + 1)) =~= before + caused_by_lines(t));
        }
        i = i + 1;
    }
    proof {
        assert(caused_by_lines(all.skip(all.len() as int)) =~= Seq::<char>::empty());
        assert(out@ + caused_by_lines(all.skip(all.len() as int)) =~= out@);
    }
    chars_to_string(&out)
}

} // verus!
