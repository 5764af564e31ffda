//! Checks shared by the API handlers.
use vstd::prelude::*;

use crate::api::error::{is_bad_request, is_forbidden, is_not_found, ApiResult, ApiError};
use crate::api::knowledge_base::{level_of, level_of_opt, meets_requirement, opt_view, PERM_EDITOR};

verus! {

pub const MSG_ADMIN_REQUIRED: &'static str = "admin role required";

pub const MSG_KB_NOT_ACCESSIBLE: &'static str = "Knowledge base not found or permission denied";

pub const MSG_EDITOR_REQUIRED: &'static str = "Permission denied. Requires editor or admin.";

/// Only administrators pass; anyone else gets a bad request.
pub fn ensure_admin(auth_user: &crate::AuthUser) -> (r: ApiResult<()>)
    ensures
        r is Ok <==> auth_user.role@ == "admin"@,
        r matches Err(e) ==> is_bad_request(e, MSG_ADMIN_REQUIRED@),
{
    if auth_user.is_admin() {
        Ok(())
    } else {
        Err(ApiError::bad_request(MSG_ADMIN_REQUIRED))
    }
}

/// A knowledge base is accessible to a user with any permission on it
/// (`perm`, as resolved for that user); otherwise it is not found.
pub fn ensure_kb_accessible(perm: Option<&str>) -> (r: ApiResult<()>)
    ensures
        r is Ok <==> perm is Some,
        r matches Err(e) ==> is_not_found(e, MSG_KB_NOT_ACCESSIBLE@),
{
    if perm.is_none() {
        return Err(ApiError::not_found(MSG_KB_NOT_ACCESSIBLE));
    }
    Ok(())
}

/// Changing a knowledge base needs at least the editor permission;
/// otherwise it is forbidden.
pub fn ensure_kb_editor_or_admin(perm: Option<&str>) -> (r: ApiResult<()>)
    ensures
        r is Ok <==> level_of_opt(opt_view(perm)) >= level_of(PERM_EDITOR@),
        r matches Err(e) ==> is_forbidden(e, MSG_EDITOR_REQUIRED@),
{
    if !meets_requirement(perm, PERM_EDITOR) {
        return Err(ApiError::forbidden(MSG_EDITOR_REQUIRED));
    }
    Ok(())
}

} // verus!
