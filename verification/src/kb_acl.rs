//! Authorization of shared resources: file visibility and the access lists
//! that the CoAssist service manages for its knowledge bases.
use vstd::prelude::*;

use crate::api::error::{is_bad_request, is_forbidden, is_not_found, ApiError};
use crate::text::{chars_of, has_prefix, starts_with_chars, str_eq};
use crate::AuthUser;

verus! {

pub const MSG_FILE_NOT_FOUND: &'static str = "File not found or permission denied";

pub const MSG_SERVICE_REQUIRED: &'static str = "CoAssist service identity required";

pub const MSG_INVALID_SNAPSHOT: &'static str = "Invalid ACL snapshot";

pub const MSG_NOT_SERVICE_KB: &'static str = "Knowledge base is not managed by CoAssist";

/// The principal of the CoAssist service.
pub const SERVICE_USER: &'static str = "service:coassist";

/// The role of service principals.
pub const SERVICE_ROLE: &'static str = "service";

/// Prefix of every service principal.
pub const SERVICE_PREFIX: &'static str = "service:";

/// The complete access list of a knowledge base at one version.
#[derive(Debug, Clone)]
pub struct CoassistAclSnapshot {
    pub version: i64,
    pub permissions: Vec<CoassistAclEntry>,
}

/// One user's permission in an access list.
#[derive(Debug, Clone)]
pub struct CoassistAclEntry {
    pub user_id: String,
    pub permission: String,
}

/// Whether a file can be read. A file in a knowledge base is readable by
/// whoever has any permission on the base; a file outside one by global
/// administrators, by its owner, and by everyone when it is public.
pub open spec fn file_readable(kb_permission: Option<Option<Seq<char>>>, owner: Seq<char>, is_public: bool, user: AuthUser) -> bool {
    match kb_permission {
        Some(perm) => perm is Some,
        None => user.role@ == "admin"@ || is_public || owner == user.user_id@,
    }
}

/// Lets a user read a file, or answers not found. `kb_permission` is `None`
/// for a file outside any knowledge base, else the user's permission on
/// that base.
pub fn ensure_file_readable(kb_permission: Option<Option<String>>, owner: &str, is_public: bool, user: &AuthUser) -> (r: Result<(), ApiError>)
    ensures
        match r {
            Ok(()) => file_readable(match kb_permission {
                Some(p) => Some(crate::text::opt_str(p)),
                None => None,
            }, owner@, is_public, *user),
            Err(e) => !file_readable(match kb_permission {
                Some(p) => Some(crate::text::opt_str(p)),
                None => None,
            }, owner@, is_public, *user) && is_not_found(e, MSG_FILE_NOT_FOUND@),
        },
{
    let allowed = match &kb_permission {
        Some(p) => p.is_some(),
        None => user.is_admin() || is_public || str_eq(owner, user.user_id.as_str()),
    };
    if allowed {
        Ok(())
    } else {
        Err(ApiError::not_found(MSG_FILE_NOT_FOUND))
    }
}

/// An entry names a user that is not a service principal, with a
/// permission of viewer, editor or admin.
pub open spec fn acl_entry_valid(user_id: Seq<char>, permission: Seq<char>) -> bool {
    &&& user_id.len() > 0
    &&& !has_prefix(user_id, SERVICE_PREFIX@)
    &&& (permission == "viewer"@ || permission == "editor"@ || permission == "admin"@)
}

/// A snapshot has a positive version and only valid entries.
pub open spec fn acl_snapshot_valid(snapshot: CoassistAclSnapshot) -> bool {
    &&& snapshot.version > 0
    &&& forall|i: int| 0 <= i < snapshot.permissions@.len() ==>
        acl_entry_valid(#[trigger] snapshot.permissions@[i].user_id@, snapshot.permissions@[i].permission@)
}

/// Whether an entry is valid.
fn is_acl_entry_valid(e: &CoassistAclEntry) -> (b: bool)
    ensures
        b == acl_entry_valid(e.user_id@, e.permission@),
{
    let id = chars_of(e.user_id.as_str());
    let prefix = chars_of(SERVICE_PREFIX);
    if id.len() == 0 || starts_with_chars(id.as_slice(), prefix.as_slice()) {
        return false;
    }
    str_eq(e.permission.as_str(), "viewer") || str_eq(e.permission.as_str(), "editor")
        || str_eq(e.permission.as_str(), "admin")
}

/// Whether a snapshot may replace an access list.
pub fn is_acl_snapshot_valid(snapshot: &CoassistAclSnapshot) -> (b: bool)
    ensures
        b == acl_snapshot_valid(*snapshot),
{
    if snapshot.version <= 0 {
        return false;
    }
    let mut i: usize = 0;
    while i < snapshot.permissions.len()
        invariant
            i <= snapshot.permissions@.len(),
            forall|k: int| 0 <= k < i ==>
                acl_entry_valid(#[trigger] snapshot.permissions@[k].user_id@, snapshot.permissions@[k].permission@),
        decreases snapshot.permissions.len() - i,
    {
        if !is_acl_entry_valid(&snapshot.permissions[i]) {
            return false;
        }
        i = i + 1;
    }
    true
}

/// The caller is the CoAssist service principal.
pub open spec fn is_coassist(user: AuthUser) -> bool {
    user.role@ == SERVICE_ROLE@ && user.user_id@ == SERVICE_USER@
}

/// Admits a request to replace an access list: only the CoAssist service
/// may do so (forbidden otherwise), and only with a valid snapshot (bad
/// request otherwise).
pub fn authorize_acl_replace(user: &AuthUser, snapshot: &CoassistAclSnapshot) -> (r: Result<(), ApiError>)
    ensures
        r is Ok <==> is_coassist(*user) && acl_snapshot_valid(*snapshot),
        r matches Err(e) ==> (if !is_coassist(*user) {
            is_forbidden(e, MSG_SERVICE_REQUIRED@)
        } else {
            is_bad_request(e, MSG_INVALID_SNAPSHOT@)
        }),
{
    if !str_eq(user.role.as_str(), SERVICE_ROLE) || !str_eq(user.user_id.as_str(), SERVICE_USER) {
        return Err(ApiError::forbidden(MSG_SERVICE_REQUIRED));
    }
    if !is_acl_snapshot_valid(snapshot) {
        return Err(ApiError::bad_request(MSG_INVALID_SNAPSHOT));
    }
    Ok(())
}

/// Only knowledge bases that the service owns have their access lists
/// replaced; `owner` is `None` for an unknown knowledge base.
pub fn ensure_service_owned(owner: Option<&str>) -> (r: Result<(), ApiError>)
    ensures
        r is Ok <==> (owner matches Some(o) && o@ == SERVICE_USER@),
        r matches Err(e) ==> is_forbidden(e, MSG_NOT_SERVICE_KB@),
{
    match owner {
        Some(o) => if str_eq(o, SERVICE_USER) {
            Ok(())
        } else {
            Err(ApiError::forbidden(MSG_NOT_SERVICE_KB))
        },
        None => Err(ApiError::forbidden(MSG_NOT_SERVICE_KB)),
    }
}

/// Whether a snapshot replaces the stored permissions: only a snapshot newer
/// than the version stored for the knowledge base (0 when none is stored)
/// is applied, so a late or repeated snapshot changes nothing.
pub fn acl_update_applies(stored_version: Option<i64>, incoming_version: i64) -> (b: bool)
    ensures
        b == (match stored_version {
            Some(v) => v,
            None => 0,
        } < incoming_version),
{
    let current = match stored_version {
        Some(v) => v,
        None => 0,
    };
    current < incoming_version
}

} // verus!
