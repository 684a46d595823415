//! Token-based authentication: a signed-credential codec and a
//! request interceptor that guards an arbitrary downstream handler chain.
//!
//! The codec mints a compact signed credential from a claim set and
//! verifies a presented credential's signature, issuer, audience and
//! validity window.  The interceptor extracts the credential from a
//! request's `Authorization` header and either forwards the request with
//! the authenticated identity attached or rejects it uniformly.

pub mod base64url;
pub mod claims;
pub mod codec;
pub mod dectext;
pub mod dto;
pub mod errors;
pub mod hmac;
pub mod jsontext;
pub mod middleware;
pub mod payload;

pub use base64url::encode as base64url_encode;
pub use base64url::decode as base64url_decode;
