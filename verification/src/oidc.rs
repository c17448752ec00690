//! OpenID Connect provider metadata.
pub mod discovery;
