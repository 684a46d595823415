//! The plain request bodies of the account and content endpoints that
//! the surrounding application decodes and hands to its services.

use vstd::prelude::*;

verus! {

/// Body of a registration request.
pub struct RegisterRequest {
    pub email: String,
    pub password: String,
}

/// Body of a login request.
pub struct LoginRequest {
    pub email: String,
    pub password: String,
}

/// Query of a post-listing request.
pub struct ListPosts {
    pub limit: Option<i64>,
}

} // verus!
