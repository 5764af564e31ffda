use htknow::api::common::{ensure_admin, ensure_kb_accessible, ensure_kb_editor_or_admin};
use htknow::api::error::ApiError;
use htknow::api::knowledge_base::{
    authorize_kb_update, listed_permission, plan_kb_update, KbFieldUpdate, KnowledgeUpdateReq,
    child_permission, detail_permission, meets_requirement, normalize_kb_type, normalize_parse_priority, perm_level,
    resolve_kb_permission, validate_permission_grant,
};
use htknow::kb_acl::{
    acl_update_applies, authorize_acl_replace, ensure_file_readable, ensure_service_owned, is_acl_snapshot_valid, CoassistAclEntry,
    CoassistAclSnapshot,
};
use htknow::{authenticate, decode_base64_if_utf8, AuthUser};

fn user(id: &str, role: &str) -> AuthUser {
    AuthUser { user_id: id.to_string(), user_name: String::new(), role: role.to_string() }
}

fn entry(u: &str, p: &str) -> CoassistAclEntry {
    CoassistAclEntry { user_id: u.to_string(), permission: p.to_string() }
}

#[test]
fn permission_levels() {
    assert_eq!(perm_level("admin"), 3);
    assert_eq!(perm_level("editor"), 2);
    assert_eq!(perm_level("viewer"), 1);
    assert_eq!(perm_level("Admin"), 0);
    assert!(meets_requirement(Some("admin"), "editor"));
    assert!(!meets_requirement(Some("viewer"), "editor"));
    assert!(!meets_requirement(None, "viewer"));
}

#[test]
fn permission_priority() {
    assert_eq!(resolve_kb_permission(true, None, "u", None, None).as_deref(), Some("admin"));
    assert_eq!(resolve_kb_permission(false, Some("u"), "u", Some("viewer"), None).as_deref(), Some("admin"));
    assert_eq!(resolve_kb_permission(false, Some("o"), "u", Some("editor"), Some(1)).as_deref(), Some("editor"));
    assert_eq!(resolve_kb_permission(false, Some("o"), "u", None, Some(1)).as_deref(), Some("viewer"));
    assert_eq!(resolve_kb_permission(false, Some("o"), "u", None, Some(0)), None);
}

#[test]
fn common_checks() {
    assert!(ensure_admin(&user("a", "admin")).is_ok());
    assert!(matches!(ensure_admin(&user("a", "user")), Err(ApiError::BadRequest(_))));
    assert!(matches!(ensure_kb_accessible(None), Err(ApiError::NotFound(_))));
    assert!(ensure_kb_accessible(Some("viewer")).is_ok());
    assert!(matches!(ensure_kb_editor_or_admin(Some("viewer")), Err(ApiError::Forbidden(_))));
    assert!(ensure_kb_editor_or_admin(Some("editor")).is_ok());
    assert!(matches!(detail_permission(None), Err(ApiError::NotFound(_))));
    assert_eq!(detail_permission(Some("editor".to_string())).unwrap(), "editor");
    assert_eq!(child_permission(None), "viewer");
}

#[test]
fn kb_inputs() {
    assert_eq!(normalize_kb_type(None).unwrap(), "analysis");
    assert_eq!(normalize_kb_type(Some(" Storage ".to_string())).unwrap(), "storage");
    assert!(normalize_kb_type(Some("x".to_string())).is_err());
    assert_eq!(normalize_parse_priority(None).unwrap(), 50);
    assert!(normalize_parse_priority(Some(101)).is_err());
    assert_eq!(validate_permission_grant(" Editor ", "b", Some("a")).unwrap(), "editor");
    assert!(validate_permission_grant("editor", "a", Some("a")).is_err());
    assert!(validate_permission_grant("owner", "b", None).is_err());
}

#[test]
fn removed_member_cannot_read_even_their_own_channel_file() {
    let member = user("m", "user");
    assert!(matches!(ensure_file_readable(Some(None), "m", true, &member), Err(ApiError::NotFound(_))));
    assert!(ensure_file_readable(Some(Some("viewer".to_string())), "o", false, &member).is_ok());
    assert!(ensure_file_readable(None, "m", false, &member).is_ok());
    assert!(ensure_file_readable(None, "o", true, &member).is_ok());
    assert!(ensure_file_readable(None, "o", false, &member).is_err());
    assert!(ensure_file_readable(None, "o", false, &user("a", "admin")).is_ok());
}

#[test]
fn service_acl_is_scoped_atomic_and_revocable() {
    let service = user("service:coassist", "service");
    let good = CoassistAclSnapshot { version: 2, permissions: vec![entry("u1", "viewer"), entry("u2", "admin")] };
    assert!(authorize_acl_replace(&service, &good).is_ok());
    let empty = CoassistAclSnapshot { version: 3, permissions: vec![] };
    assert!(authorize_acl_replace(&service, &empty).is_ok());
    assert!(matches!(authorize_acl_replace(&user("service:coassist", "admin"), &good), Err(ApiError::Forbidden(_))));
    let bad = [
        CoassistAclSnapshot { version: 0, permissions: vec![] },
        CoassistAclSnapshot { version: 1, permissions: vec![entry("", "viewer")] },
        CoassistAclSnapshot { version: 1, permissions: vec![entry("service:x", "viewer")] },
        CoassistAclSnapshot { version: 1, permissions: vec![entry("u", "owner")] },
    ];
    for s in bad {
        assert!(!is_acl_snapshot_valid(&s));
        assert!(matches!(authorize_acl_replace(&service, &s), Err(ApiError::BadRequest(_))));
    }
    assert!(ensure_service_owned(Some("service:coassist")).is_ok());
    assert!(matches!(ensure_service_owned(Some("owner")), Err(ApiError::Forbidden(_))));
    assert!(ensure_service_owned(None).is_err());
}

#[test]
fn headers_authenticate() {
    let a = authenticate(Some("u1".to_string()), Some("5byg5LiJ".to_string()), Some("user".to_string())).unwrap();
    assert_eq!(a.user_name, "张三");
    assert!(!a.is_admin());
    let raw = authenticate(Some("u1".to_string()), Some("plain!".to_string()), Some("admin".to_string())).unwrap();
    assert_eq!(raw.user_name, "plain!");
    assert!(raw.is_admin());
    assert!(matches!(authenticate(None, None, Some("user".to_string())), Err(ApiError::Unauthorized(_))));
    assert!(matches!(authenticate(Some("u".to_string()), None, None), Err(ApiError::Unauthorized(_))));
    assert_eq!(decode_base64_if_utf8("/w=="), "/w==");
    assert_eq!(decode_base64_if_utf8("YWJj"), "abc");
}

fn update_req() -> KnowledgeUpdateReq {
    KnowledgeUpdateReq { name: None, description: None, kb_type: None, parent_id: None, is_public: None, parse_priority: None }
}

#[test]
fn listed_permissions() {
    assert_eq!(listed_permission("u", "u", false), "admin");
    assert_eq!(listed_permission("o", "u", true), "admin");
    assert_eq!(listed_permission("o", "u", false), "viewer");
}

#[test]
fn kb_update_authorization() {
    let mut rename = update_req();
    rename.name = Some("n".to_string());
    assert!(authorize_kb_update(1, Some("editor"), &rename).is_ok());
    assert!(matches!(authorize_kb_update(1, Some("viewer"), &rename), Err(ApiError::Forbidden(_))));
    assert!(matches!(authorize_kb_update(1, None, &rename), Err(ApiError::Forbidden(_))));
    let mut into_itself = update_req();
    into_itself.parent_id = Some(Some(1));
    assert!(matches!(authorize_kb_update(1, Some("admin"), &into_itself), Err(ApiError::BadRequest(_))));
    let mut reparent = update_req();
    reparent.parent_id = Some(None);
    assert!(authorize_kb_update(1, Some("admin"), &reparent).is_ok());
    assert!(matches!(authorize_kb_update(1, Some("editor"), &reparent), Err(ApiError::Forbidden(_))));
    let mut publish = update_req();
    publish.is_public = Some(true);
    assert!(matches!(authorize_kb_update(1, Some("editor"), &publish), Err(ApiError::Forbidden(_))));
}

#[test]
fn kb_update_plans() {
    let mut req = update_req();
    req.name = Some("n".to_string());
    req.kb_type = Some(" Storage ".to_string());
    req.parse_priority = Some(7);
    let plan = plan_kb_update(req).unwrap();
    assert_eq!(plan.len(), 3);
    assert!(matches!(&plan[0], KbFieldUpdate::Name(n) if n == "n"));
    assert!(matches!(&plan[1], KbFieldUpdate::KbType(t) if t == "storage"));
    assert!(matches!(&plan[2], KbFieldUpdate::ParsePriority(7)));
    let mut bad_type = update_req();
    bad_type.kb_type = Some("other".to_string());
    assert!(matches!(plan_kb_update(bad_type), Err(ApiError::BadRequest(_))));
    let mut bad_priority = update_req();
    bad_priority.parse_priority = Some(101);
    assert!(matches!(plan_kb_update(bad_priority), Err(ApiError::BadRequest(_))));
}

#[test]
fn acl_snapshots_apply_only_when_newer() {
    assert!(acl_update_applies(None, 1));
    assert!(!acl_update_applies(None, 0));
    assert!(acl_update_applies(Some(3), 4));
    assert!(!acl_update_applies(Some(4), 4));
    assert!(!acl_update_applies(Some(5), 4));
}
