//! Gateway request-pipeline decisions: which routes are public, bearer
//! token extraction, and the access-control checks applied to
//! authenticated principals.

use vstd::prelude::*;

use crate::errors::ErrorKind;
use crate::models::User;
use crate::strutil::{seq_contains_sub, seq_starts_with};
use vstd::string::StringSliceAdditionalSpecFns;

verus! {

/// The principal attached to a request after authentication.
pub struct AuthenticatedUser {
    pub user: User,
    pub is_api_key: bool,
}

/// Whether the path (given by its UTF-8 bytes) may be served without a
/// credential: health, the auth endpoints, the public network views, and
/// node views outside the admin tree.
pub open spec fn spec_is_public_route(p: Seq<u8>) -> bool {
    ||| p == "/health".spec_bytes()
    ||| p == "/api/v1/auth/register".spec_bytes()
    ||| p == "/api/v1/auth/login".spec_bytes()
    ||| p == "/api/v1/auth/near-login".spec_bytes()
    ||| p == "/api/v1/network/stats".spec_bytes()
    ||| p == "/api/v1/nodes".spec_bytes()
    ||| (seq_starts_with(p, "/api/v1/nodes/".spec_bytes()) && !seq_contains_sub(
        p,
        "/admin/".spec_bytes(),
    ))
}

/// Whether `path` is served without authentication.
pub fn is_public_route(path: &str) -> (r: bool)
    ensures
        r == spec_is_public_route(path.spec_bytes()),
{
    let b = path.as_bytes();
    if crate::strutil::bytes_eq(b, "/health".as_bytes()) {
        return true;
    }
    if crate::strutil::bytes_eq(b, "/api/v1/auth/register".as_bytes()) {
        return true;
    }
    if crate::strutil::bytes_eq(b, "/api/v1/auth/login".as_bytes()) {
        return true;
    }
    if crate::strutil::bytes_eq(b, "/api/v1/auth/near-login".as_bytes()) {
        return true;
    }
    if crate::strutil::bytes_eq(b, "/api/v1/network/stats".as_bytes()) {
        return true;
    }
    if crate::strutil::bytes_eq(b, "/api/v1/nodes".as_bytes()) {
        return true;
    }
    crate::strutil::bytes_starts_with(b, "/api/v1/nodes/".as_bytes())
        && !crate::strutil::bytes_contains(b, "/admin/".as_bytes())
}

/// Strips the `Bearer ` scheme off an authorization header. Returns the
/// token exactly when the header carries the scheme (and the cut lands on
/// a character boundary, which it always does for the ASCII scheme).
pub fn bearer_token<'a>(header: &'a str) -> (r: Option<&'a str>)
    ensures
        r is Some ==> header.spec_bytes() == "Bearer ".spec_bytes() + r->0.spec_bytes(),
        r is None ==> !seq_starts_with(header.spec_bytes(), "Bearer ".spec_bytes())
            || !vstd::utf8::is_char_boundary(header.spec_bytes(), 7),
{
    proof {
        reveal_strlit("Bearer ");
        vstd::string::is_ascii_spec_bytes("Bearer ");
        assert(vstd::string::is_ascii("Bearer "));
        assert("Bearer ".spec_bytes().len() == 7);
    }
    if !crate::strutil::bytes_starts_with(header.as_bytes(), "Bearer ".as_bytes()) {
        return None;
    }
    if !header.is_char_boundary(7) {
        return None;
    }
    proof {
        assert(header.spec_bytes().subrange(0, 7) == "Bearer ".spec_bytes());
    }
    let (_, token) = header.split_at(7);
    proof {
        assert(header.spec_bytes() =~= "Bearer ".spec_bytes() + token.spec_bytes());
    }
    Some(token)
}

/// A user may hold only a bounded number of unfinished tasks at a time.
pub fn check_task_quota(active_tasks: u64, max_concurrent: u32) -> (r: Result<(), ErrorKind>)
    ensures
        r is Ok <==> active_tasks < max_concurrent,
        r is Err ==> r->Err_0 == ErrorKind::TooManyRequests,
{
    if active_tasks >= max_concurrent as u64 {
        return Err(ErrorKind::TooManyRequests);
    }
    Ok(())
}

/// Only an active user may act; an inactive account is refused.
pub fn authorize_user(user: &User) -> (r: Result<(), ErrorKind>)
    ensures
        r is Ok <==> user.is_active,
        r is Err ==> r->Err_0 == ErrorKind::Forbidden,
{
    if user.is_active {
        Ok(())
    } else {
        Err(ErrorKind::Forbidden)
    }
}

/// Admin routes require an admin principal.
pub fn require_admin(auth_user: &AuthenticatedUser) -> (r: Result<(), ErrorKind>)
    ensures
        r is Ok <==> auth_user.user.is_admin,
        r is Err ==> r->Err_0 == ErrorKind::Forbidden,
{
    if auth_user.user.is_admin {
        Ok(())
    } else {
        Err(ErrorKind::Forbidden)
    }
}

/// A user may touch only resources bound to its own id, unless it is an
/// admin.
pub fn check_user_access(auth_user: &AuthenticatedUser, resource_user_id: u128) -> (r: Result<
    (),
    ErrorKind,
>)
    ensures
        r is Ok <==> auth_user.user.id == resource_user_id || auth_user.user.is_admin,
        r is Err ==> r->Err_0 == ErrorKind::Forbidden,
{
    if auth_user.user.id != resource_user_id && !auth_user.user.is_admin {
        return Err(ErrorKind::Forbidden);
    }
    Ok(())
}

} // verus!
