//! Client-held OIDC session handling: claims-to-role mapping, session cookie
//! codec, an authentication gate over incoming requests, and a security-header
//! mutator that splices per-response nonces into CSP headers and HTML bodies.

pub mod claims;
pub mod config;
pub mod guard;
pub mod headers;
pub mod oidcflow;
pub mod routes;
pub mod session;
pub mod text;
