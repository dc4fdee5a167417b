//! Application configuration: the values every component reads at startup,
//! and the validation that turns the optional OIDC fields into the settings
//! the client is built from.

use crate::text::str_views;
use vstd::prelude::*;

verus! {

/// Configuration of OIDC authentication: provider coordinates, the claim
/// names mapped to roles, and the per-claim separators.
pub struct CustomAppOidcConfig {
    pub issuer_url: Option<String>,
    pub redirect_url: Option<String>,
    pub client_id: Option<String>,
    pub client_secret: Option<String>,
    pub roles_idtoken_claims: Option<Vec<String>>,
    pub roles_userinfoendpoint_claims: Option<Vec<String>>,
    pub claims_separator: Option<Vec<(String, String)>>,
    pub scopes: Option<Vec<String>>,
}

/// Configuration of the security headers set on outgoing responses.
pub struct CustomAppHttpHeadersConfig {
    pub content_security_policy: Option<String>,
    pub content_security_policy_inject_nonce_paths: Option<Vec<String>>,
    pub content_security_policy_inject_nonce_tags: Option<Vec<String>>,
    pub content_security_policy_nonce_headers: Option<Vec<String>>,
    pub permissions_policy: Option<String>,
    pub referrer_policy: Option<String>,
    pub cross_origin_embedder_policy: Option<String>,
    pub cross_origin_opener_policy: Option<String>,
    pub cross_origin_resource_policy: Option<String>,
}

/// Configuration of static file serving.
pub struct CustomAppStaticFilesConfig {
    pub location: String,
}

/// Configuration of the application's modules.
pub struct CustomAppConfig {
    pub httpheaders: CustomAppHttpHeadersConfig,
    pub oidc: CustomAppOidcConfig,
    pub fileserver: CustomAppStaticFilesConfig,
}

/// The application configuration as read from the deployment.
pub struct Config {
    pub app: CustomAppConfig,
}

/// An OIDC configuration field without which the client cannot be built;
/// startup is refused on any of these.
#[derive(Debug)]
pub enum OidcConfigError {
    MissingIssuerUrl,
    MissingRedirectUrl,
    MissingClientId,
    MissingClientSecret,
}

/// The validated settings the OIDC client is built from.
pub struct OidcSettings {
    pub issuer_url: String,
    pub redirect_url: String,
    pub client_id: String,
    pub client_secret: String,
    pub scopes: Vec<String>,
}

/// The first missing mandatory OIDC field, if any.
pub open spec fn missing_oidc_field(c: CustomAppOidcConfig) -> Option<OidcConfigError> {
    if c.issuer_url is None {
        Some(OidcConfigError::MissingIssuerUrl)
    } else if c.redirect_url is None {
        Some(OidcConfigError::MissingRedirectUrl)
    } else if c.client_id is None {
        Some(OidcConfigError::MissingClientId)
    } else if c.client_secret is None {
        Some(OidcConfigError::MissingClientSecret)
    } else {
        None
    }
}

/// Copies a vector of strings.
pub fn clone_strings(v: &Vec<String>) -> (r: Vec<String>)
    ensures
        r@ == v@,
{
    let mut r: Vec<String> = Vec::new();
    let mut i: usize = 0;
    while i < v.len()
        invariant
            i <= v@.len(),
            r@ == v@.subrange(0, i as int),
        decreases v@.len() - i,
    {
        r.push(v[i].clone());
        proof {
            assert(v@.subrange(0, i + 1) =~= v@.subrange(0, i as int).push(v@[i as int]));
        }
        i = i + 1;
    }
    proof {
        assert(v@.subrange(0, v@.len() as int) =~= v@);
    }
    r
}

/// The views of an optional list of strings.
pub open spec fn opt_list_views(o: Option<Vec<String>>) -> Option<Seq<Seq<char>>> {
    match o {
        Some(v) => Some(str_views(v@)),
        None => None,
    }
}

/// The two OIDC configurations hold the same values: every field equal,
/// the lists text for text.
pub open spec fn same_oidc_config(a: CustomAppOidcConfig, b: CustomAppOidcConfig) -> bool {
    &&& a.issuer_url == b.issuer_url
    &&& a.redirect_url == b.redirect_url
    &&& a.client_id == b.client_id
    &&& a.client_secret == b.client_secret
    &&& opt_list_views(a.roles_idtoken_claims) == opt_list_views(b.roles_idtoken_claims)
    &&& opt_list_views(a.roles_userinfoendpoint_claims) == opt_list_views(
        b.roles_userinfoendpoint_claims,
    )
    &&& opt_list_views(a.scopes) == opt_list_views(b.scopes)
    &&& (match (a.claims_separator, b.claims_separator) {
        (Some(t), Some(u)) => t@ == u@,
        (None, None) => true,
        _ => false,
    })
}

/// Copies an optional string.
pub fn clone_opt_string(o: &Option<String>) -> (r: Option<String>)
    ensures
        r == *o,
{
    match o {
        Some(s) => Some(s.clone()),
        None => None,
    }
}

/// Reads the OIDC configuration into the settings the client is built from.
/// Each mandatory field must be present; missing scopes mean no scopes.
pub fn read_oidc_config(config: &Config) -> (r: Result<OidcSettings, OidcConfigError>)
    ensures
        (r is Ok) == (missing_oidc_field(config.app.oidc) is None),
        r matches Err(e) ==> missing_oidc_field(config.app.oidc) == Some(e),
        r matches Ok(s) ==> {
            &&& config.app.oidc.issuer_url matches Some(u) && s.issuer_url == u
            &&& config.app.oidc.redirect_url matches Some(u) && s.redirect_url == u
            &&& config.app.oidc.client_id matches Some(u) && s.client_id == u
            &&& config.app.oidc.client_secret matches Some(u) && s.client_secret == u
            &&& (config.app.oidc.scopes matches Some(sc) ==> s.scopes@ == sc@)
            &&& (config.app.oidc.scopes is None ==> s.scopes@.len() == 0)
        },
{
    let issuer_url = match &config.app.oidc.issuer_url {
        Some(u) => u.clone(),
        None => {
            return Err(OidcConfigError::MissingIssuerUrl);
        },
    };
    let redirect_url = match &config.app.oidc.redirect_url {
        Some(u) => u.clone(),
        None => {
            return Err(OidcConfigError::MissingRedirectUrl);
        },
    };
    let client_id = match &config.app.oidc.client_id {
        Some(u) => u.clone(),
        None => {
            return Err(OidcConfigError::MissingClientId);
        },
    };
    let client_secret = match &config.app.oidc.client_secret {
        Some(u) => u.clone(),
        None => {
            return Err(OidcConfigError::MissingClientSecret);
        },
    };
    let scopes = match &config.app.oidc.scopes {
        Some(sc) => clone_strings(sc),
        None => Vec::new(),
    };
    Ok(OidcSettings { issuer_url, redirect_url, client_id, client_secret, scopes })
}

/// Validates the OIDC configuration for mounting; the settings it yields are
/// what the authorization-code client is constructed from.
pub fn configure_oidc(config: &Config) -> (r: Result<OidcSettings, OidcConfigError>)
    ensures
        (r is Ok) == (missing_oidc_field(config.app.oidc) is None),
        r matches Err(e) ==> missing_oidc_field(config.app.oidc) == Some(e),
        r matches Ok(s) ==> {
            &&& config.app.oidc.issuer_url matches Some(u) && s.issuer_url == u
            &&& config.app.oidc.redirect_url matches Some(u) && s.redirect_url == u
            &&& config.app.oidc.client_id matches Some(u) && s.client_id == u
            &&& config.app.oidc.client_secret matches Some(u) && s.client_secret == u
            &&& (config.app.oidc.scopes matches Some(sc) ==> s.scopes@ == sc@)
            &&& (config.app.oidc.scopes is None ==> s.scopes@.len() == 0)
        },
{
    read_oidc_config(config)
}

/// The static-file configuration as handed to the file server.
pub fn configure_fileserver(config: &Config) -> (r: CustomAppStaticFilesConfig)
    ensures
        r == config.app.fileserver,
{
    CustomAppStaticFilesConfig { location: config.app.fileserver.location.clone() }
}

} // verus!
