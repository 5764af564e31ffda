//! Knowledge bases: permission levels and their resolution, input rules for
//! creating and updating a knowledge base, and the shapes of its API.
use std::collections::HashMap;
use vstd::prelude::*;

use crate::api::error::{is_bad_request, is_forbidden, ApiError, ApiResult};
use crate::api::file::{FileStatusBreakdown};
use crate::export::ExportManifest;
use crate::text::{chars_lt, lemma_lex_order, lex_lt, lowercase, owned, str_eq, to_lowercase, trim, trimmed};

verus! {

pub const KB_TYPE_ANALYSIS: &'static str = "analysis";

pub const KB_TYPE_STORAGE: &'static str = "storage";

pub const PERM_ADMIN: &'static str = "admin";

pub const PERM_EDITOR: &'static str = "editor";

pub const PERM_VIEWER: &'static str = "viewer";

pub const MSG_INVALID_KB_TYPE: &'static str = "Invalid kb_type. Use 'analysis' or 'storage'.";

pub const MSG_INVALID_PARSE_PRIORITY: &'static str = "Invalid parse_priority. Use integer in [0, 100].";

/// Numeric level of a permission: admin 3, editor 2, viewer 1, anything else 0.
pub open spec fn level_of(perm: Seq<char>) -> int {
    if perm == PERM_ADMIN@ {
        3
    } else if perm == PERM_EDITOR@ {
        2
    } else if perm == PERM_VIEWER@ {
        1
    } else {
        0
    }
}

/// Numeric level for comparison: admin=3, editor=2, viewer=1, none=0.
pub fn perm_level(perm: &str) -> (l: i32)
    ensures
        l == level_of(perm@),
{
    if str_eq(perm, PERM_ADMIN) {
        3
    } else if str_eq(perm, PERM_EDITOR) {
        2
    } else if str_eq(perm, PERM_VIEWER) {
        1
    } else {
        0
    }
}

/// Level of an optional permission; no permission is level 0.
pub open spec fn level_of_opt(perm: Option<Seq<char>>) -> int {
    match perm {
        Some(p) => level_of(p),
        None => 0,
    }
}

/// View of an optional string slice.
pub open spec fn opt_view(s: Option<&str>) -> Option<Seq<char>> {
    match s {
        Some(x) => Some(x@),
        None => None,
    }
}

/// Whether `actual` permission meets at least `required` permission.
pub fn meets_requirement(actual: Option<&str>, required: &str) -> (b: bool)
    ensures
        b == (level_of_opt(opt_view(actual)) >= level_of(required@)),
{
    let actual_level = match actual {
        Some(p) => perm_level(p),
        None => 0,
    };
    actual_level >= perm_level(required)
}

/// The highest permission on a knowledge base. Priority: global admin, owner,
/// explicit grant, public knowledge base (viewer); `None` for no access.
pub open spec fn kb_permission(
    is_admin: bool,
    owner: Option<Seq<char>>,
    user_id: Seq<char>,
    explicit: Option<Seq<char>>,
    is_public: Option<i64>,
) -> Option<Seq<char>> {
    if is_admin {
        Some(PERM_ADMIN@)
    } else if owner == Some(user_id) {
        Some(PERM_ADMIN@)
    } else if explicit is Some {
        explicit
    } else if is_public == Some(1i64) {
        Some(PERM_VIEWER@)
    } else {
        None
    }
}

/// Resolves a user's permission on a knowledge base from its owner, the
/// user's explicit grant and its public flag (each `None` when absent).
pub fn resolve_kb_permission(
    is_admin: bool,
    owner: Option<&str>,
    user_id: &str,
    explicit: Option<&str>,
    is_public: Option<i64>,
) -> (r: Option<String>)
    ensures
        match r {
            Some(p) => kb_permission(is_admin, opt_view(owner), user_id@, opt_view(explicit), is_public)
                == Some(p@),
            None => kb_permission(is_admin, opt_view(owner), user_id@, opt_view(explicit), is_public) is None,
        },
{
    if is_admin {
        return Some(owned(PERM_ADMIN));
    }
    if let Some(o) = owner {
        if str_eq(o, user_id) {
            return Some(owned(PERM_ADMIN));
        }
    }
    if let Some(p) = explicit {
        return Some(owned(p));
    }
    if is_public == Some(1i64) {
        return Some(owned(PERM_VIEWER));
    }
    None
}

/// How a user's permission on a knowledge base is decided: a global
/// administrator and the owner get `admin`; anyone else with an explicit
/// grant gets exactly that grant, whatever it names; without a grant, a
/// public knowledge base gives `viewer` and a private one nothing.
pub proof fn lemma_kb_permission_rules(
    is_admin: bool,
    owner: Option<Seq<char>>,
    user_id: Seq<char>,
    explicit: Option<Seq<char>>,
    is_public: Option<i64>,
)
    ensures
        is_admin ==> kb_permission(is_admin, owner, user_id, explicit, is_public) == Some("admin"@),
        owner == Some(user_id) ==> kb_permission(is_admin, owner, user_id, explicit, is_public) == Some("admin"@),
        !is_admin && owner != Some(user_id) ==> match explicit {
            Some(p) => kb_permission(is_admin, owner, user_id, explicit, is_public) == Some(p),
            None => kb_permission(is_admin, owner, user_id, explicit, is_public) == (if is_public == Some(1i64) {
                Some("viewer"@)
            } else {
                None
            }),
        },
{
    reveal_strlit("admin");
    reveal_strlit("viewer");
}

/// The permission shown for a listed knowledge base: admin for its owner and
/// global admins, viewer otherwise.
pub fn listed_permission(kb_owner: &str, user_id: &str, is_admin: bool) -> (r: String)
    ensures
        r@ == if kb_owner@ == user_id@ || is_admin {
            PERM_ADMIN@
        } else {
            PERM_VIEWER@
        },
{
    if str_eq(kb_owner, user_id) || is_admin {
        owned(PERM_ADMIN)
    } else {
        owned(PERM_VIEWER)
    }
}

/// Accepts a lowercased, trimmed knowledge-base type when it is `analysis` or `storage`.
pub fn kb_type_from_normalized(normalized: String) -> (r: ApiResult<String>)
    ensures
        if normalized@ == KB_TYPE_ANALYSIS@ || normalized@ == KB_TYPE_STORAGE@ {
            r matches Ok(t) && t@ == normalized@
        } else {
            r matches Err(e) && is_bad_request(e, MSG_INVALID_KB_TYPE@)
        },
{
    if str_eq(normalized.as_str(), KB_TYPE_ANALYSIS) || str_eq(normalized.as_str(), KB_TYPE_STORAGE) {
        Ok(normalized)
    } else {
        Err(ApiError::bad_request(MSG_INVALID_KB_TYPE))
    }
}

/// The type a request names, `analysis` when it names none.
pub open spec fn requested_kb_type(kb_type: Option<String>) -> Seq<char> {
    match kb_type {
        Some(t) => t@,
        None => KB_TYPE_ANALYSIS@,
    }
}

/// Trims and lowercases the requested knowledge-base type (default
/// `analysis`) and accepts `analysis` or `storage`.
pub fn normalize_kb_type(kb_type: Option<String>) -> (r: ApiResult<String>)
    ensures
        ({
            let n = lowercase(trim(requested_kb_type(kb_type)));
            if n == KB_TYPE_ANALYSIS@ || n == KB_TYPE_STORAGE@ {
                r matches Ok(t) && t@ == n
            } else {
                r matches Err(e) && is_bad_request(e, MSG_INVALID_KB_TYPE@)
            }
        }),
{
    let raw = match kb_type {
        Some(t) => t,
        None => owned(KB_TYPE_ANALYSIS),
    };
    let t = trimmed(raw.as_str());
    let normalized = to_lowercase(t.as_str());
    kb_type_from_normalized(normalized)
}

/// Accepts a parse priority in [0, 100]; the default is 50.
pub fn normalize_parse_priority(parse_priority: Option<i64>) -> (r: ApiResult<i64>)
    ensures
        ({
            let v = match parse_priority {
                Some(p) => p,
                None => 50i64,
            };
            if 0 <= v <= 100 {
                r == Ok::<i64, ApiError>(v)
            } else {
                r matches Err(e) && is_bad_request(e, MSG_INVALID_PARSE_PRIORITY@)
            }
        }),
{
    let value = match parse_priority {
        Some(p) => p,
        None => 50,
    };
    if !(0 <= value && value <= 100) {
        return Err(ApiError::bad_request(MSG_INVALID_PARSE_PRIORITY));
    }
    Ok(value)
}

/// A knowledge base.
#[derive(Clone, Debug)]
pub struct Knowledge {
    pub id: i64,
    pub user_id: String,
    pub user_name: String,
    pub name: String,
    pub description: String,
    pub kb_type: String,
    pub parent_id: Option<i64>,
    pub is_public: bool,
    pub parse_priority: i64,
    pub current_user_permission: String,
}

#[derive(Clone, Debug)]
pub struct KnowledgeResponse {
    pub id: i64,
    pub user_id: String,
    pub user_name: String,
    pub name: String,
    pub description: String,
    pub kb_type: String,
    pub parent_id: Option<i64>,
    pub is_public: bool,
    pub parse_priority: i64,
    pub file_count: i64,
    pub children_kb_count: i64,
    pub current_user_permission: String,
}

#[derive(Clone, Debug)]
pub struct KnowledgeDetailResponse {
    pub id: i64,
    pub user_id: String,
    pub user_name: String,
    pub name: String,
    pub description: String,
    pub kb_type: String,
    pub parent_id: Option<i64>,
    pub is_public: bool,
    pub parse_priority: i64,
    pub file_count: i64,
    pub children_kb_count: i64,
    pub children_kbs: Vec<KnowledgeResponse>,
    pub files: Vec<FileWithoutContent>,
    /// Ancestors from the root down, for breadcrumbs.
    pub path: Vec<Knowledge>,
    pub status_breakdown: FileStatusBreakdown,
    pub current_user_permission: String,
}

#[derive(Clone, Debug)]
pub struct FileWithoutContent {
    pub id: i64,
    pub user_id: String,
    pub user_name: String,
    pub hash: String,
    pub filename: String,
    pub path: String,
    pub size: i64,
    pub tags: String,
    pub status: i32,
    pub log: String,
    pub slice_type: String,
    pub kb_id: Option<i64>,
    pub is_public: bool,
    pub meta: Option<String>,
    pub created_at: i64,
    pub updated_at: i64,
}

#[derive(Clone, Debug)]
pub struct KnowledgeTreeFile {
    pub id: i64,
    pub size: i64,
    pub filename: String,
    pub meta: Option<String>,
    pub kb_id: Option<i64>,
    pub is_public: bool,
}

#[derive(Debug)]
pub struct KnowledgeTreeNode {
    pub id: i64,
    pub name: String,
    pub description: String,
    pub is_public: bool,
    pub kb_type: String,
    pub files: Vec<KnowledgeTreeFile>,
    pub children: Vec<KnowledgeTreeNode>,
}

#[derive(Debug)]
pub struct ListQuery {
    /// Page, from 1.
    pub page: Option<i64>,
    /// Items per page.
    pub size: Option<i64>,
    /// Fuzzy match on the name.
    pub name: Option<String>,
    /// Exact id.
    pub id: Option<String>,
    /// Parent; top-level knowledge bases when absent.
    pub parent_id: Option<i64>,
}

#[derive(Debug)]
pub struct TreeQuery {
    /// Root of the subtree; the whole tree when absent.
    pub kb_id: Option<i64>,
}

#[derive(Debug)]
pub struct KnowledgeDetailQuery {
    /// Fuzzy match on file names.
    pub filename: Option<String>,
    /// Tag filter.
    pub tag: Option<String>,
}

#[derive(Debug)]
pub struct KnowledgeCreateReq {
    pub name: String,
    pub description: String,
    pub kb_type: Option<String>,
    pub parent_id: Option<i64>,
    pub is_public: Option<bool>,
    pub parse_priority: Option<i64>,
}

/// Update of a knowledge base; `parent_id` distinguishes "absent" (`None`)
/// from "set to none" (`Some(None)`).
#[derive(Debug)]
pub struct KnowledgeUpdateReq {
    pub name: Option<String>,
    pub description: Option<String>,
    pub kb_type: Option<String>,
    pub parent_id: Option<Option<i64>>,
    pub is_public: Option<bool>,
    pub parse_priority: Option<i64>,
}

#[derive(Debug)]
pub struct ReparseKnowledgeBaseResponse {
    pub kb_count: i64,
    pub file_count: i64,
}

#[derive(Debug)]
pub struct ExportKbResponse {
    pub export_path: String,
    pub manifest: ExportManifest,
}

#[derive(Debug)]
pub struct BatchExportKbRequest {
    pub kb_ids: Vec<i64>,
    pub include_children: bool,
}

#[derive(Clone, Debug)]
pub struct KbPermissionItem {
    pub user_id: String,
    pub permission: String,
    pub created_at: i64,
}

#[derive(Clone, Debug)]
pub struct KbPermissionCreateReq {
    pub user_id: String,
    pub permission: String,
}

pub const MSG_NEED_EDITOR: &'static str = "Permission denied. Requires editor or admin.";

pub const MSG_MOVE_INTO_ITSELF: &'static str = "Cannot move a knowledge base into itself.";

pub const MSG_ADMIN_KB_TYPE: &'static str = "Only admin can change kb_type.";

pub const MSG_ADMIN_PARENT: &'static str = "Only admin can change parent_id.";

pub const MSG_ADMIN_VISIBILITY: &'static str = "Only admin can change visibility.";

/// Why an update is refused, in the order the checks run; `None` when allowed.
pub enum UpdateRefusal {
    Forbidden(Seq<char>),
    BadRequest(Seq<char>),
}

/// The refusal of an update by a user holding `perm` on knowledge base `id`.
pub open spec fn update_refusal(id: i64, perm: Option<Seq<char>>, req: KnowledgeUpdateReq) -> Option<UpdateRefusal> {
    let is_kb_admin = level_of(match perm { Some(p) => p, None => seq![] }) >= 3;
    if level_of_opt(perm) < 2 {
        Some(UpdateRefusal::Forbidden(MSG_NEED_EDITOR@))
    } else if req.parent_id == Some(Some(id)) {
        Some(UpdateRefusal::BadRequest(MSG_MOVE_INTO_ITSELF@))
    } else if req.kb_type is Some && !is_kb_admin {
        Some(UpdateRefusal::Forbidden(MSG_ADMIN_KB_TYPE@))
    } else if req.parent_id is Some && !is_kb_admin {
        Some(UpdateRefusal::Forbidden(MSG_ADMIN_PARENT@))
    } else if req.is_public is Some && !is_kb_admin {
        Some(UpdateRefusal::Forbidden(MSG_ADMIN_VISIBILITY@))
    } else {
        None
    }
}

/// Who may change what: editors may rename and describe; only admins may
/// change the type, the parent or the visibility; nothing moves into itself.
pub fn authorize_kb_update(id: i64, perm: Option<&str>, req: &KnowledgeUpdateReq) -> (r: ApiResult<()>)
    ensures
        match update_refusal(id, opt_view(perm), *req) {
            None => r is Ok,
            Some(UpdateRefusal::Forbidden(m)) => r matches Err(e) && is_forbidden(e, m),
            Some(UpdateRefusal::BadRequest(m)) => r matches Err(e) && is_bad_request(e, m),
        },
{
    if !meets_requirement(perm, PERM_EDITOR) {
        return Err(ApiError::forbidden(MSG_NEED_EDITOR));
    }
    if let Some(Some(parent_id)) = req.parent_id {
        if parent_id == id {
            return Err(ApiError::bad_request(MSG_MOVE_INTO_ITSELF));
        }
    }
    let perm_str = match perm {
        Some(p) => p,
        None => "",
    };
    proof {
        assert(perm_str@ == match opt_view(perm) { Some(p) => p, None => seq![] }) by {
            if perm is None {
                reveal_strlit("");
                assert(""@ =~= Seq::<char>::empty());
            }
        }
    }
    let is_kb_admin = meets_requirement(Some(perm_str), PERM_ADMIN);
    if req.kb_type.is_some() && !is_kb_admin {
        return Err(ApiError::forbidden(MSG_ADMIN_KB_TYPE));
    }
    if req.parent_id.is_some() && !is_kb_admin {
        return Err(ApiError::forbidden(MSG_ADMIN_PARENT));
    }
    if req.is_public.is_some() && !is_kb_admin {
        return Err(ApiError::forbidden(MSG_ADMIN_VISIBILITY));
    }
    Ok(())
}

/// One column that an update sets.
#[derive(Debug)]
pub enum KbFieldUpdate {
    Name(String),
    Description(String),
    KbType(String),
    ParentId(Option<i64>),
    IsPublic(bool),
    ParsePriority(i64),
}

/// The columns an authorized update sets, in the order the statement lists
/// them; an invalid type or priority rejects the update.
#[verifier::rlimit(40)]
pub fn plan_kb_update(req: KnowledgeUpdateReq) -> (r: ApiResult<Vec<KbFieldUpdate>>)
    ensures
        match req.kb_type {
            Some(t) if !(lowercase(trim(t@)) == KB_TYPE_ANALYSIS@ || lowercase(trim(t@)) == KB_TYPE_STORAGE@) =>
                r matches Err(e) && is_bad_request(e, MSG_INVALID_KB_TYPE@),
            _ => match req.parse_priority {
                Some(p) if !(0 <= p <= 100) => r matches Err(e) && is_bad_request(e, MSG_INVALID_PARSE_PRIORITY@),
                _ => r matches Ok(v) && updates_match(v@, req),
            },
        },
{
    let ghost req0 = req;
    let mut v: Vec<KbFieldUpdate> = Vec::new();
    let KnowledgeUpdateReq { name, description, kb_type, parent_id, is_public, parse_priority } = req;
    let mut kt: Option<String> = None;
    if let Some(t) = kb_type {
        let n = normalize_kb_type(Some(t));
        match n {
            Ok(x) => {
                kt = Some(x);
            },
            Err(e) => {
                return Err(e);
            },
        }
    }
    let mut pp: Option<i64> = None;
    if let Some(p) = parse_priority {
        let n = normalize_parse_priority(Some(p));
        match n {
            Ok(x) => {
                pp = Some(x);
            },
            Err(e) => {
                return Err(e);
            },
        }
    }
    let ghost mut acc: Seq<FieldKind> = seq![];
    proof {
        assert(v@.map_values(|f: KbFieldUpdate| field_view(f)) =~= acc);
    }
    if let Some(x) = name {
        v.push(KbFieldUpdate::Name(x));
    }
    proof {
        acc = acc + opt_seq(
            match req0.name {
                Some(s) => Some(FieldKind::Name(s@)),
                None => None,
            },
        );
        assert(v@.map_values(|f: KbFieldUpdate| field_view(f)) =~= acc);
    }
    if let Some(x) = description {
        v.push(KbFieldUpdate::Description(x));
    }
    proof {
        acc = acc + opt_seq(
            match req0.description {
                Some(s) => Some(FieldKind::Description(s@)),
                None => None,
            },
        );
        assert(v@.map_values(|f: KbFieldUpdate| field_view(f)) =~= acc);
    }
    if let Some(x) = kt {
        v.push(KbFieldUpdate::KbType(x));
    }
    proof {
        acc = acc + opt_seq(
            match req0.kb_type {
                Some(t) => Some(FieldKind::KbType(lowercase(trim(t@)))),
                None => None,
            },
        );
        assert(v@.map_values(|f: KbFieldUpdate| field_view(f)) =~= acc);
    }
    if let Some(x) = parent_id {
        v.push(KbFieldUpdate::ParentId(x));
    }
    proof {
        acc = acc + opt_seq(
            match req0.parent_id {
                Some(p) => Some(FieldKind::ParentId(p)),
                None => None,
            },
        );
        assert(v@.map_values(|f: KbFieldUpdate| field_view(f)) =~= acc);
    }
    if let Some(x) = is_public {
        v.push(KbFieldUpdate::IsPublic(x));
    }
    proof {
        acc = acc + opt_seq(
            match req0.is_public {
                Some(b) => Some(FieldKind::IsPublic(b)),
                None => None,
            },
        );
        assert(v@.map_values(|f: KbFieldUpdate| field_view(f)) =~= acc);
    }
    if let Some(x) = pp {
        v.push(KbFieldUpdate::ParsePriority(x));
    }
    proof {
        acc = acc + opt_seq(
            match req0.parse_priority {
                Some(p) => Some(FieldKind::ParsePriority(p)),
                None => None,
            },
        );
        assert(v@.map_values(|f: KbFieldUpdate| field_view(f)) =~= acc);
        assert(acc =~= expected_updates(req0));
    }
    Ok(v)
}

/// The kinds of columns an update sets, in order.
pub enum FieldKind {
    Name(Seq<char>),
    Description(Seq<char>),
    KbType(Seq<char>),
    ParentId(Option<i64>),
    IsPublic(bool),
    ParsePriority(i64),
}

/// View of one column update.
pub open spec fn field_view(f: KbFieldUpdate) -> FieldKind {
    match f {
        KbFieldUpdate::Name(s) => FieldKind::Name(s@),
        KbFieldUpdate::Description(s) => FieldKind::Description(s@),
        KbFieldUpdate::KbType(s) => FieldKind::KbType(s@),
        KbFieldUpdate::ParentId(p) => FieldKind::ParentId(p),
        KbFieldUpdate::IsPublic(b) => FieldKind::IsPublic(b),
        KbFieldUpdate::ParsePriority(p) => FieldKind::ParsePriority(p),
    }
}

/// Optional element as a sequence of zero or one element.
pub open spec fn opt_seq<A>(o: Option<A>) -> Seq<A> {
    match o {
        Some(x) => seq![x],
        None => seq![],
    }
}

/// The column updates a valid request asks for: name, description, type
/// (normalized), parent, visibility, priority, each when present.
pub open spec fn expected_updates(req: KnowledgeUpdateReq) -> Seq<FieldKind> {
    opt_seq(
        match req.name {
            Some(s) => Some(FieldKind::Name(s@)),
            None => None,
        },
    ) + opt_seq(
        match req.description {
            Some(s) => Some(FieldKind::Description(s@)),
            None => None,
        },
    ) + opt_seq(
        match req.kb_type {
            Some(t) => Some(FieldKind::KbType(lowercase(trim(t@)))),
            None => None,
        },
    ) + opt_seq(
        match req.parent_id {
            Some(p) => Some(FieldKind::ParentId(p)),
            None => None,
        },
    ) + opt_seq(
        match req.is_public {
            Some(b) => Some(FieldKind::IsPublic(b)),
            None => None,
        },
    ) + opt_seq(
        match req.parse_priority {
            Some(p) => Some(FieldKind::ParsePriority(p)),
            None => None,
        },
    )
}

/// The planned updates are those the request asks for.
pub open spec fn updates_match(v: Seq<KbFieldUpdate>, req: KnowledgeUpdateReq) -> bool {
    v.map_values(|f: KbFieldUpdate| field_view(f)) == expected_updates(req)
}

pub const MSG_INVALID_PERMISSION: &'static str = "Invalid permission. Use 'viewer', 'editor', or 'admin'.";

pub const MSG_OWNER_PERMISSION: &'static str = "Cannot set permission for the owner.";

/// Checks a permission grant: the permission (trimmed and lowercased) must be
/// viewer, editor or admin, and the owner cannot be granted anything.
pub fn validate_permission_grant(permission: &str, target_user: &str, owner: Option<&str>) -> (r: ApiResult<String>)
    ensures
        ({
            let p = lowercase(trim(permission@));
            if !(p == PERM_VIEWER@ || p == PERM_EDITOR@ || p == PERM_ADMIN@) {
                r matches Err(e) && is_bad_request(e, MSG_INVALID_PERMISSION@)
            } else if opt_view(owner) == Some(target_user@) {
                r matches Err(e) && is_bad_request(e, MSG_OWNER_PERMISSION@)
            } else {
                r matches Ok(s) && s@ == p
            }
        }),
{
    let t = trimmed(permission);
    let p = to_lowercase(t.as_str());
    if !(str_eq(p.as_str(), PERM_VIEWER) || str_eq(p.as_str(), PERM_EDITOR) || str_eq(p.as_str(), PERM_ADMIN)) {
        return Err(ApiError::bad_request(MSG_INVALID_PERMISSION));
    }
    if let Some(o) = owner {
        if str_eq(o, target_user) {
            return Err(ApiError::bad_request(MSG_OWNER_PERMISSION));
        }
    }
    Ok(p)
}

/// Global admins and owners hold every permission; a public knowledge base
/// gives every user at least read access; no permission is given otherwise
/// unless granted.
pub proof fn lemma_kb_permission_priority(
    is_admin: bool,
    owner: Option<Seq<char>>,
    user_id: Seq<char>,
    explicit: Option<Seq<char>>,
    is_public: Option<i64>,
)
    ensures
        (is_admin || owner == Some(user_id)) ==> kb_permission(is_admin, owner, user_id, explicit, is_public)
            == Some(PERM_ADMIN@),
        (!is_admin && owner != Some(user_id) && explicit is None) ==> (kb_permission(
            is_admin,
            owner,
            user_id,
            explicit,
            is_public,
        ) is Some <==> is_public == Some(1i64)),
        kb_permission(is_admin, owner, user_id, explicit, is_public) is None ==> !is_admin && explicit is None
            && is_public != Some(1i64),
{
}


pub const MSG_KB_NOT_FOUND_OR_DENIED: &'static str = "Knowledge base not found or permission denied.";

/// A knowledge base's details are shown to a user with any permission on
/// it, which is returned as the user's current permission; otherwise it is
/// not found.
pub fn detail_permission(perm: Option<String>) -> (r: ApiResult<String>)
    ensures
        match r {
            Ok(p) => perm == Some(p),
            Err(e) => perm is None && crate::api::error::is_not_found(e, MSG_KB_NOT_FOUND_OR_DENIED@),
        },
{
    match perm {
        Some(p) => Ok(p),
        None => Err(ApiError::not_found(MSG_KB_NOT_FOUND_OR_DENIED)),
    }
}

/// The permission shown for a child knowledge base: the user's, or viewer
/// where none is recorded.
pub fn child_permission(perm: Option<&str>) -> (r: String)
    ensures
        r@ == match perm {
            Some(p) => p@,
            None => PERM_VIEWER@,
        },
{
    match perm {
        Some(p) => owned(p),
        None => owned(PERM_VIEWER),
    }
}


/// A knowledge base as the tree is built from it.
#[derive(Debug, Clone)]
pub struct TreeKnowledge {
    pub id: i64,
    pub name: String,
    pub description: String,
    pub kb_type: String,
    pub parent_id: Option<i64>,
    pub is_public: bool,
}

/// The entry that stands for an id: the last one listed with it, or -1.
pub open spec fn kb_index(kbs: Seq<TreeKnowledge>, id: i64) -> int
    decreases kbs.len(),
{
    if kbs.len() == 0 {
        -1
    } else if kbs.last().id == id {
        kbs.len() - 1
    } else {
        kb_index(kbs.drop_last(), id)
    }
}

proof fn lemma_kb_index(kbs: Seq<TreeKnowledge>, id: i64)
    ensures
        -1 <= kb_index(kbs, id) < kbs.len(),
        kb_index(kbs, id) >= 0 ==> kbs[kb_index(kbs, id)].id == id,
        kb_index(kbs, id) < 0 ==> forall|i: int| 0 <= i < kbs.len() ==> kbs[i].id != id,
    decreases kbs.len(),
{
    if kbs.len() > 0 {
        lemma_kb_index(kbs.drop_last(), id);
        if kbs.last().id != id && kb_index(kbs, id) < 0 {
            assert forall|i: int| 0 <= i < kbs.len() implies kbs[i].id != id by {
                if i < kbs.len() - 1 {
                    assert(kbs.drop_last()[i] == kbs[i]);
                }
            }
        }
        if kbs.last().id != id && kb_index(kbs, id) >= 0 {
            assert(kbs.drop_last()[kb_index(kbs, id)] == kbs[kb_index(kbs, id)]);
        }
    }
}

/// The name a child id is ordered by: that of the entry standing for it.
pub open spec fn kb_name(kbs: Seq<TreeKnowledge>, id: i64) -> Seq<char> {
    let i = kb_index(kbs, id);
    if i >= 0 { kbs[i].name@ } else { seq![] }
}

/// Where an id goes among ids ordered by name: after every id whose name is
/// not greater, so equal names keep their order.
pub open spec fn name_position(kbs: Seq<TreeKnowledge>, sorted: Seq<i64>, id: i64) -> int
    decreases sorted.len(),
{
    if sorted.len() == 0 {
        0
    } else if lex_lt(kb_name(kbs, id), kb_name(kbs, sorted.last())) {
        name_position(kbs, sorted.drop_last(), id)
    } else {
        sorted.len() as int
    }
}

/// The ids of the entries among the first `k` whose parent is `parent`,
/// ordered by name and, for equal names, as listed.
pub open spec fn child_ids(kbs: Seq<TreeKnowledge>, parent: Option<i64>, k: int) -> Seq<i64>
    decreases k,
{
    if k <= 0 || k > kbs.len() {
        seq![]
    } else {
        let prev = child_ids(kbs, parent, k - 1);
        let e = kbs[k - 1];
        if e.parent_id == parent {
            prev.insert(name_position(kbs, prev, e.id), e.id)
        } else {
            prev
        }
    }
}

/// Ids listed in name order: no id's name is smaller than an earlier one's.
pub open spec fn names_ordered(kbs: Seq<TreeKnowledge>, ids: Seq<i64>) -> bool {
    forall|i: int, j: int| 0 <= i < j < ids.len() ==> !lex_lt(#[trigger] kb_name(kbs, ids[j]), #[trigger] kb_name(kbs, ids[i]))
}

proof fn lemma_name_position(kbs: Seq<TreeKnowledge>, s: Seq<i64>, id: i64)
    requires
        names_ordered(kbs, s),
    ensures
        0 <= name_position(kbs, s, id) <= s.len(),
        forall|m: int| 0 <= m < name_position(kbs, s, id) ==> !lex_lt(kb_name(kbs, id), #[trigger] kb_name(kbs, s[m])),
        forall|m: int| name_position(kbs, s, id) <= m < s.len() ==> lex_lt(kb_name(kbs, id), #[trigger] kb_name(kbs, s[m])),
    decreases s.len(),
{
    if s.len() > 0 {
        let s2 = s.drop_last();
        assert forall|i: int, j: int| 0 <= i < j < s2.len() implies !lex_lt(#[trigger] kb_name(kbs, s2[j]), #[trigger] kb_name(kbs, s2[i])) by {
            assert(s2[i] == s[i] && s2[j] == s[j]);
        }
        lemma_name_position(kbs, s2, id);
        let n_id = kb_name(kbs, id);
        let n_last = kb_name(kbs, s.last());
        if lex_lt(n_id, n_last) {
            let p = name_position(kbs, s2, id);
            assert forall|m: int| 0 <= m < p implies !lex_lt(n_id, #[trigger] kb_name(kbs, s[m])) by {
                assert(s2[m] == s[m]);
            }
            assert forall|m: int| p <= m < s.len() implies lex_lt(n_id, #[trigger] kb_name(kbs, s[m])) by {
                if m < s.len() - 1 {
                    assert(s2[m] == s[m]);
                }
            }
        } else {
            assert forall|m: int| 0 <= m < s.len() implies !lex_lt(n_id, #[trigger] kb_name(kbs, s[m])) by {
                if m < s.len() - 1 {
                    let n_m = kb_name(kbs, s[m]);
                    assert(!lex_lt(kb_name(kbs, s[s.len() - 1]), kb_name(kbs, s[m])));
                    lemma_lex_order(n_id, n_m, n_last);
                    lemma_lex_order(n_m, n_last, n_id);
                }
            }
        }
    }
}

proof fn lemma_insert_by_name(kbs: Seq<TreeKnowledge>, s: Seq<i64>, id: i64)
    requires
        names_ordered(kbs, s),
    ensures
        names_ordered(kbs, s.insert(name_position(kbs, s, id), id)),
{
    lemma_name_position(kbs, s, id);
    let p = name_position(kbs, s, id);
    let t = s.insert(p, id);
    assert forall|i: int, j: int| 0 <= i < j < t.len() implies !lex_lt(#[trigger] kb_name(kbs, t[j]), #[trigger] kb_name(kbs, t[i])) by {
        if j < p {
            assert(t[i] == s[i] && t[j] == s[j]);
        } else if j == p {
            assert(t[i] == s[i] && t[j] == id);
            assert(!lex_lt(kb_name(kbs, id), kb_name(kbs, s[i])));
        } else if i == p {
            assert(t[i] == id && t[j] == s[j - 1]);
            assert(lex_lt(kb_name(kbs, id), kb_name(kbs, s[j - 1])));
            lemma_lex_order(kb_name(kbs, id), kb_name(kbs, s[j - 1]), kb_name(kbs, id));
        } else if i < p {
            assert(t[i] == s[i] && t[j] == s[j - 1]);
        } else {
            assert(t[i] == s[i - 1] && t[j] == s[j - 1]);
        }
    }
}

/// The children of a knowledge base in the tree are listed in name order,
/// and they are exactly the knowledge bases whose parent it is.
pub proof fn lemma_children_in_name_order(kbs: Seq<TreeKnowledge>, parent: Option<i64>)
    ensures
        names_ordered(kbs, child_ids(kbs, parent, kbs.len() as int)),
        forall|x: i64| child_ids(kbs, parent, kbs.len() as int).contains(x) <==> exists|i: int|
            0 <= i < kbs.len() && (#[trigger] kbs[i]).parent_id == parent && kbs[i].id == x,
{
    lemma_child_ids_prefix(kbs, parent, kbs.len() as int);
}

proof fn lemma_child_ids_prefix(kbs: Seq<TreeKnowledge>, parent: Option<i64>, k: int)
    requires
        0 <= k <= kbs.len(),
    ensures
        names_ordered(kbs, child_ids(kbs, parent, k)),
        forall|x: i64| child_ids(kbs, parent, k).contains(x) <==> exists|i: int|
            0 <= i < k && (#[trigger] kbs[i]).parent_id == parent && kbs[i].id == x,
    decreases k,
{
    if k > 0 {
        lemma_child_ids_prefix(kbs, parent, k - 1);
        let prev = child_ids(kbs, parent, k - 1);
        let e = kbs[k - 1];
        if e.parent_id == parent {
            lemma_insert_by_name(kbs, prev, e.id);
            lemma_name_position(kbs, prev, e.id);
            let p = name_position(kbs, prev, e.id);
            let t = prev.insert(p, e.id);
            assert forall|x: i64| t.contains(x) <==> exists|i: int|
                0 <= i < k && (#[trigger] kbs[i]).parent_id == parent && kbs[i].id == x by {
                if t.contains(x) {
                    let m = choose|m: int| 0 <= m < t.len() && t[m] == x;
                    if m < p {
                        assert(prev[m] == x);
                        assert(prev.contains(x));
                    } else if m > p {
                        assert(prev[m - 1] == x);
                        assert(prev.contains(x));
                    } else {
                        assert(kbs[k - 1].id == x);
                    }
                }
                if exists|i: int| 0 <= i < k && (#[trigger] kbs[i]).parent_id == parent && kbs[i].id == x {
                    let i = choose|i: int| 0 <= i < k && (#[trigger] kbs[i]).parent_id == parent && kbs[i].id == x;
                    if i < k - 1 {
                        assert(prev.contains(x));
                        let m = choose|m: int| 0 <= m < prev.len() && prev[m] == x;
                        if m < p {
                            assert(t[m] == x);
                        } else {
                            assert(t[m + 1] == x);
                        }
                    } else {
                        assert(t[p] == x);
                    }
                }
            }
        } else {
            assert forall|x: i64| prev.contains(x) <==> exists|i: int|
                0 <= i < k && (#[trigger] kbs[i]).parent_id == parent && kbs[i].id == x by {
                if exists|i: int| 0 <= i < k && (#[trigger] kbs[i]).parent_id == parent && kbs[i].id == x {
                    let i = choose|i: int| 0 <= i < k && (#[trigger] kbs[i]).parent_id == parent && kbs[i].id == x;
                    assert(i < k - 1);
                }
            }
        }
    }
}

/// Plain values of a tree file.
pub open spec fn tree_file_view(f: KnowledgeTreeFile) -> (i64, i64, Seq<char>, Option<Seq<char>>, Option<i64>, bool) {
    (f.id, f.size, f.filename@, crate::text::opt_str(f.meta), f.kb_id, f.is_public)
}

/// Plain values of tree files.
pub open spec fn tree_files_view(v: Seq<KnowledgeTreeFile>) -> Seq<(i64, i64, Seq<char>, Option<Seq<char>>, Option<i64>, bool)> {
    v.map_values(|f: KnowledgeTreeFile| tree_file_view(f))
}

/// The files listed for a knowledge base, or none.
pub open spec fn files_of(files: Map<i64, Vec<KnowledgeTreeFile>>, id: i64) -> Seq<(i64, i64, Seq<char>, Option<Seq<char>>, Option<i64>, bool)> {
    if files.contains_key(id) {
        tree_files_view(files[id]@)
    } else {
        seq![]
    }
}

/// `n` is the tree of knowledge base `id` unfolded `depth` levels down: its
/// fields from the entry standing for the id, its files, and as children the
/// trees of its child knowledge bases in name order. With no cycle among
/// parent links, a depth of the number of knowledge bases unfolds the whole
/// tree.
pub open spec fn is_kb_tree(n: KnowledgeTreeNode, kbs: Seq<TreeKnowledge>, files: Map<i64, Vec<KnowledgeTreeFile>>, id: i64, depth: nat) -> bool
    decreases depth,
{
    let i = kb_index(kbs, id);
    &&& i >= 0
    &&& n.id == kbs[i].id
    &&& n.name@ == kbs[i].name@
    &&& n.description@ == kbs[i].description@
    &&& n.is_public == kbs[i].is_public
    &&& n.kb_type@ == kbs[i].kb_type@
    &&& tree_files_view(n.files@) == files_of(files, id)
    &&& if depth == 0 {
        n.children@.len() == 0
    } else {
        let ch = child_ids(kbs, Some(id), kbs.len() as int);
        &&& n.children@.len() == ch.len()
        &&& forall|j: int| 0 <= j < ch.len() ==> is_kb_tree(#[trigger] n.children@[j], kbs, files, ch[j], (depth - 1) as nat)
    }
}

/// The entry standing for an id, if any.
fn find_kb(kbs: &Vec<TreeKnowledge>, id: i64) -> (r: Option<usize>)
    ensures
        match r {
            Some(i) => i as int == kb_index(kbs@, id) && i < kbs@.len(),
            None => kb_index(kbs@, id) < 0,
        },
{
    let mut i: usize = kbs.len();
    assert(kbs@.take(kbs@.len() as int) =~= kbs@);
    while i > 0
        invariant
            i <= kbs@.len(),
            kb_index(kbs@, id) == kb_index(kbs@.take(i as int), id),
        decreases i,
    {
        let ghost t = kbs@.take(i as int);
        assert(t.drop_last() =~= kbs@.take(i - 1));
        if kbs[i - 1].id == id {
            return Some(i - 1);
        }
        i = i - 1;
    }
    None
}

fn name_lt(kbs: &Vec<TreeKnowledge>, a: i64, b: i64) -> (r: bool)
    ensures
        r == lex_lt(kb_name(kbs@, a), kb_name(kbs@, b)),
{
    let empty: Vec<char> = Vec::new();
    let na = match find_kb(kbs, a) {
        Some(i) => crate::text::chars_of(kbs[i].name.as_str()),
        None => Vec::new(),
    };
    let nb = match find_kb(kbs, b) {
        Some(i) => crate::text::chars_of(kbs[i].name.as_str()),
        None => Vec::new(),
    };
    assert(na@ == kb_name(kbs@, a));
    assert(nb@ == kb_name(kbs@, b));
    chars_lt(na.as_slice(), nb.as_slice())
}

/// The child ids of `parent`, ordered by name.
fn child_ids_of(kbs: &Vec<TreeKnowledge>, parent: Option<i64>) -> (r: Vec<i64>)
    ensures
        r@ == child_ids(kbs@, parent, kbs@.len() as int),
{
    let mut out: Vec<i64> = Vec::new();
    let mut k: usize = 0;
    while k < kbs.len()
        invariant
            k <= kbs@.len(),
            out@ == child_ids(kbs@, parent, k as int),
        decreases kbs.len() - k,
    {
        if kbs[k].parent_id == parent {
            let id = kbs[k].id;
            let mut p: usize = out.len();
            assert(out@.take(out@.len() as int) =~= out@);
            while p > 0 && name_lt(kbs, id, out[p - 1])
                invariant
                    p <= out@.len(),
                    name_position(kbs@, out@, id) == name_position(kbs@, out@.take(p as int), id),
                decreases p,
            {
                assert(out@.take(p as int).drop_last() =~= out@.take(p - 1));
                p = p - 1;
            }
            proof {
                let t = out@.take(p as int);
                if p > 0 {
                    assert(t.last() == out@[p - 1]);
                }
                assert(name_position(kbs@, t, id) == p);
                assert(out@.take(out@.len() as int) =~= out@);
            }
            out.insert(p, id);
        }
        k = k + 1;
    }
    out
}

fn clone_tree_files(v: &Vec<KnowledgeTreeFile>) -> (r: Vec<KnowledgeTreeFile>)
    ensures
        tree_files_view(r@) == tree_files_view(v@),
{
    let mut r: Vec<KnowledgeTreeFile> = Vec::new();
    let mut i: usize = 0;
    while i < v.len()
        invariant
            i <= v@.len(),
            tree_files_view(r@) == tree_files_view(v@).take(i as int),
        decreases v.len() - i,
    {
        let f = &v[i];
        let meta = match &f.meta {
            Some(m) => Some(m.clone()),
            None => None,
        };
        let c = KnowledgeTreeFile {
            id: f.id,
            size: f.size,
            filename: f.filename.clone(),
            meta,
            kb_id: f.kb_id,
            is_public: f.is_public,
        };
        let ghost before = r@;
        r.push(c);
        proof {
            assert(tree_file_view(c) == tree_file_view(v@[i as int]));
            assert(tree_files_view(r@) =~= tree_files_view(before).push(tree_file_view(c)));
            assert(tree_files_view(v@).take(i + 1) =~= tree_files_view(v@).take(i as int).push(tree_file_view(v@[i as int])));
        }
        i = i + 1;
    }
    assert(tree_files_view(v@).take(v@.len() as int) =~= tree_files_view(v@));
    r
}

fn files_for(files: &HashMap<i64, Vec<KnowledgeTreeFile>>, id: i64) -> (r: Vec<KnowledgeTreeFile>)
    ensures
        tree_files_view(r@) == files_of(files@, id),
{
    broadcast use vstd::std_specs::hash::group_hash_axioms;
    match files.get(&id) {
        Some(v) => clone_tree_files(v),
        None => {
            let r: Vec<KnowledgeTreeFile> = Vec::new();
            assert(tree_files_view(r@) =~= Seq::empty());
            r
        },
    }
}

/// The tree of knowledge base `id`, unfolded `depth` levels; none when no
/// entry has that id.
pub fn build_tree_node(id: i64, kbs: &Vec<TreeKnowledge>, files: &HashMap<i64, Vec<KnowledgeTreeFile>>, depth: usize) -> (r: Option<KnowledgeTreeNode>)
    ensures
        match r {
            Some(n) => is_kb_tree(n, kbs@, files@, id, depth as nat),
            None => kb_index(kbs@, id) < 0,
        },
    decreases depth,
{
    let i = match find_kb(kbs, id) {
        Some(i) => i,
        None => return None,
    };
    let kb = &kbs[i];
    let mut children: Vec<KnowledgeTreeNode> = Vec::new();
    if depth > 0 {
        let child_list = child_ids_of(kbs, Some(id));
        let mut j: usize = 0;
        while j < child_list.len()
            invariant
                depth > 0,
                j <= child_list@.len(),
                child_list@ == child_ids(kbs@, Some(id), kbs@.len() as int),
                children@.len() == j,
                forall|t: int| 0 <= t < j ==> is_kb_tree(#[trigger] children@[t], kbs@, files@, child_list@[t], (depth - 1) as nat),
            decreases child_list.len() - j,
        {
            let child_id = child_list[j];
            proof {
                lemma_child_ids_exist(kbs@, Some(id), kbs@.len() as int, j as int);
            }
            match build_tree_node(child_id, kbs, files, depth - 1) {
                Some(node) => {
                    children.push(node);
                },
                None => {
                    assert(false);
                },
            }
            j = j + 1;
        }
    }
    Some(KnowledgeTreeNode {
        id: kb.id,
        name: kb.name.clone(),
        description: kb.description.clone(),
        is_public: kb.is_public,
        kb_type: kb.kb_type.clone(),
        files: files_for(files, id),
        children,
    })
}

proof fn lemma_name_position_bound(kbs: Seq<TreeKnowledge>, sorted: Seq<i64>, id: i64)
    ensures
        0 <= name_position(kbs, sorted, id) <= sorted.len(),
    decreases sorted.len(),
{
    if sorted.len() > 0 {
        lemma_name_position_bound(kbs, sorted.drop_last(), id);
    }
}

/// Every child id stands for an entry.
proof fn lemma_child_ids_exist(kbs: Seq<TreeKnowledge>, parent: Option<i64>, k: int, j: int)
    requires
        0 <= j < child_ids(kbs, parent, k).len(),
    ensures
        kb_index(kbs, child_ids(kbs, parent, k)[j]) >= 0,
    decreases k,
{
    if 0 < k <= kbs.len() {
        let prev = child_ids(kbs, parent, k - 1);
        let e = kbs[k - 1];
        if e.parent_id == parent {
            let p = name_position(kbs, prev, e.id);
            lemma_name_position_bound(kbs, prev, e.id);
            let ins = prev.insert(p, e.id);
            if j == p {
                lemma_kb_index(kbs, e.id);
                assert(kbs[k - 1].id == e.id);
            } else if j < p {
                assert(ins[j] == prev[j]);
                lemma_child_ids_exist(kbs, parent, k - 1, j);
            } else {
                assert(ins[j] == prev[j - 1]);
                lemma_child_ids_exist(kbs, parent, k - 1, j - 1);
            }
        } else {
            lemma_child_ids_exist(kbs, parent, k - 1, j);
        }
    }
}

/// The root ids of a tree: the asked-for knowledge base when it exists, or
/// the knowledge bases without parent, by name.
pub open spec fn tree_roots(kbs: Seq<TreeKnowledge>, root_kb_id: Option<i64>) -> Seq<i64> {
    match root_kb_id {
        Some(r) => if kb_index(kbs, r) >= 0 { seq![r] } else { seq![] },
        None => child_ids(kbs, None, kbs.len() as int),
    }
}

/// Assembles the knowledge-base tree under a root (or the whole forest):
/// each root's tree unfolded as many levels as there are knowledge bases.
pub fn assemble_tree(knowledges: &Vec<TreeKnowledge>, files_by_kb: &HashMap<i64, Vec<KnowledgeTreeFile>>, root_kb_id: Option<i64>) -> (r: Vec<KnowledgeTreeNode>)
    ensures
        r@.len() == tree_roots(knowledges@, root_kb_id).len(),
        forall|j: int| 0 <= j < r@.len() ==> is_kb_tree(#[trigger] r@[j], knowledges@, files_by_kb@, tree_roots(knowledges@, root_kb_id)[j], knowledges@.len() as nat),
{
    let mut tree: Vec<KnowledgeTreeNode> = Vec::new();
    if knowledges.len() == 0 {
        proof {
            if let Some(rid) = root_kb_id {
                assert(kb_index(knowledges@, rid) == -1);
            }
        }
        return tree;
    }
    let roots: Vec<i64> = match root_kb_id {
        Some(r) => match find_kb(knowledges, r) {
            Some(_) => vec![r],
            None => Vec::new(),
        },
        None => child_ids_of(knowledges, None),
    };
    assert(roots@ == tree_roots(knowledges@, root_kb_id));
    let depth = knowledges.len();
    let mut j: usize = 0;
    while j < roots.len()
        invariant
            j <= roots@.len(),
            roots@ == tree_roots(knowledges@, root_kb_id),
            depth == knowledges@.len(),
            tree@.len() == j,
            forall|t: int| 0 <= t < j ==> is_kb_tree(#[trigger] tree@[t], knowledges@, files_by_kb@, roots@[t], depth as nat),
        decreases roots.len() - j,
    {
        proof {
            match root_kb_id {
                Some(r) => {},
                None => lemma_child_ids_exist(knowledges@, None, knowledges@.len() as int, j as int),
            }
        }
        match build_tree_node(roots[j], knowledges, files_by_kb, depth) {
            Some(node) => tree.push(node),
            None => {
                assert(false);
            },
        }
        j = j + 1;
    }
    tree
}

} // verus!
