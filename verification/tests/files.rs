use htknow::api::error::ApiError;
use htknow::api::file::{
    authorize_file_update, check_upload, filter_reparse_ids, is_safe_relative_path, normalize_batch_delete_ids,
    parse_after_upload, pdf_source, plan_file_update, resolve_image_storage_path, reuse_mode, upload_flag,
    upload_is_public, upload_status, plan_batch_delete, tags_include, editable_kb_ids, upload_tags, FileStatusBreakdown, PdfSource, ReuseMode,
};

#[test]
fn upload_form_switches() {
    assert!(upload_flag("true"));
    assert!(upload_flag("1"));
    assert!(!upload_flag("TRUE"));
    assert_eq!(upload_is_public("1"), 1);
    assert_eq!(upload_is_public("false"), 0);
    assert_eq!(upload_is_public("yes"), 0);
}

#[test]
fn upload_checks() {
    assert!(matches!(check_upload(0, None), Err(ApiError::BadRequest(_))));
    assert!(matches!(check_upload(1, Some(None)), Err(ApiError::NotFound(_))));
    assert!(matches!(check_upload(1, Some(Some(Some("viewer")))), Err(ApiError::Forbidden(_))));
    assert!(matches!(check_upload(1, Some(Some(None))), Err(ApiError::Forbidden(_))));
    assert!(check_upload(2, Some(Some(Some("editor")))).is_ok());
    assert!(check_upload(2, None).is_ok());
    assert_eq!(upload_status(Some("storage")), (3, "Storage mode: not parsed"));
    assert_eq!(upload_status(Some("analysis")), (0, ""));
    assert_eq!(upload_status(None), (0, ""));
}

#[test]
fn upload_reuse_and_parse() {
    assert_eq!(reuse_mode(false, true, true), ReuseMode::Skip);
    assert_eq!(reuse_mode(true, true, false), ReuseMode::Immediate);
    assert_eq!(reuse_mode(true, false, false), ReuseMode::Background);
    assert_eq!(reuse_mode(true, false, true), ReuseMode::Skip);
    assert!(parse_after_upload(0, true, false, false));
    assert!(!parse_after_upload(0, true, false, true));
    assert!(!parse_after_upload(3, true, true, false));
    assert!(!parse_after_upload(0, false, false, false));
}

#[test]
fn file_update_rules() {
    assert!(matches!(authorize_file_update(None, None, true, None, "u"), Err(ApiError::NotFound(_))));
    assert!(authorize_file_update(Some(Some(1)), Some("admin"), false, None, "u").is_ok());
    assert!(matches!(authorize_file_update(Some(Some(1)), Some("viewer"), true, None, "u"), Err(ApiError::Forbidden(_))));
    assert!(authorize_file_update(Some(None), None, false, Some("u"), "u").is_ok());
    assert!(matches!(authorize_file_update(Some(None), None, false, Some("v"), "u"), Err(ApiError::Forbidden(_))));
    assert!(authorize_file_update(Some(None), None, true, None, "u").is_ok());
    match plan_file_update(true, Some("storage"), true, false, false, false) {
        Err(ApiError::BadRequest(m)) => assert_eq!(m, "Storage knowledge base files do not support parsing."),
        _ => panic!("expected a bad request"),
    }
    match plan_file_update(false, None, false, false, false, false) {
        Err(ApiError::BadRequest(m)) => assert_eq!(m, "No fields to update"),
        _ => panic!("expected a bad request"),
    }
    let p = plan_file_update(true, Some("analysis"), false, true, false, false).unwrap();
    assert!(p.reset_parse && p.set_tags && !p.set_filename);
}

#[test]
fn reparse_respects_permissions() {
    let rows = vec![(1, None), (2, Some(10)), (3, Some(11)), (4, Some(12))];
    let perms = vec![(10, "editor".to_string()), (11, "viewer".to_string())];
    assert_eq!(filter_reparse_ids(&rows, &perms, false), vec![2]);
    assert_eq!(filter_reparse_ids(&rows, &perms, true), vec![1, 2]);
}

#[test]
fn pdf_sources() {
    assert_eq!(pdf_source("Report.DOCX"), PdfSource::Converted);
    assert_eq!(pdf_source("a.pdf"), PdfSource::Original);
    assert_eq!(pdf_source("a.txt"), PdfSource::Unsupported);
}

#[test]
fn batch_delete_ids() {
    assert_eq!(normalize_batch_delete_ids(vec![3, 1, 3, 2, 1]).unwrap(), vec![3, 1, 2]);
    assert!(matches!(normalize_batch_delete_ids(vec![]), Err(ApiError::BadRequest(_))));
    match normalize_batch_delete_ids(vec![1, -4, 0]) {
        Err(ApiError::BadRequest(m)) => assert_eq!(m, "Invalid file id: -4"),
        _ => panic!("expected a bad request"),
    }
    assert!(normalize_batch_delete_ids((1..=201).collect()).is_err());
}

#[test]
fn image_paths_stay_inside() {
    assert!(is_safe_relative_path("a/b.png"));
    assert!(!is_safe_relative_path("../x.png"));
    assert!(!is_safe_relative_path("/etc/passwd"));
    assert!(resolve_image_storage_path("/img", "../x").is_none());
}

#[test]
fn status_breakdown_counts() {
    let mut b = FileStatusBreakdown::new();
    b.add(0, 2);
    b.add(-1, 1);
    b.add(7, 4);
    assert_eq!((b.total, b.pending, b.failed, b.unknown), (7, 2, 1, 4));
}

#[test]
fn batch_delete_plans() {
    let ids = vec![1, 2, 3, 4];
    let statuses = vec![Some(0), None, Some(2), Some(3)];
    let (del, skipped) = plan_batch_delete(&ids, &statuses, false, false).unwrap();
    assert_eq!(del, vec![1, 4]);
    let sk: Vec<(i64, &str)> = skipped.iter().map(|s| (s.id, s.reason.as_str())).collect();
    assert_eq!(sk, vec![(2, "not_found_or_no_permission"), (3, "processing")]);
    match plan_batch_delete(&ids, &statuses, false, true) {
        Err(ApiError::BadRequest(m)) => assert_eq!(m, "Batch delete precheck failed for ids: 2, 3"),
        other => panic!("unexpected {:?}", other),
    }
    let (del, skipped) = plan_batch_delete(&ids, &statuses, true, false).unwrap();
    assert_eq!(del, vec![1, 3, 4]);
    assert_eq!(skipped.len(), 1);
    let (del, skipped) = plan_batch_delete(&vec![5], &vec![Some(1)], false, true).unwrap();
    assert_eq!((del, skipped.len()), (vec![5], 0));
}

#[test]
fn stored_and_uploaded_tags() {
    assert!(tags_include(r#"["a","b"]"#, "b"));
    assert!(!tags_include(r#"["a","b"]"#, "c"));
    assert!(!tags_include("not json", "a"));
    assert!(!tags_include(r#"["a",1]"#, "a"));
    assert_eq!(upload_tags(""), None);
    assert_eq!(upload_tags(r#"["x","y"]"#), Some(vec!["x".to_string(), "y".to_string()]));
    assert_eq!(upload_tags("x,y"), Some(vec![]));
}

#[test]
fn branch_reparse_needs_editor() {
    let perms = vec![(1, "viewer".to_string()), (2, "editor".to_string()), (3, "admin".to_string())];
    assert_eq!(editable_kb_ids(&vec![1, 2, 3, 4], &perms), vec![2, 3]);
    assert!(editable_kb_ids(&vec![], &perms).is_empty());
}
