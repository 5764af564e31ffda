use htknow::api::search::{
    format_id_filter, full_search_file_scope, has_visibility_permission, no_accessible_kb_scope, normalize_lexicon_freq,
    normalize_lexicon_tag, normalize_lexicon_term, parse_id_list, preview_for_log, preview_text, summarize_kb_scope,
    lexicon_row_to_item, select_slices, shown_result_positions, FileInfo, KbInfo, LexiconItemRow,
};

#[test]
fn visibility() {
    assert!(has_visibility_permission(Some((false, "o")), None, "o", false));
    assert!(!has_visibility_permission(Some((false, "o")), None, "u", false));
    assert!(!has_visibility_permission(Some((true, "o")), Some((false, "o")), "u", false));
    assert!(has_visibility_permission(Some((false, "o")), Some((false, "o")), "u", true));
    assert!(no_accessible_kb_scope(Some(&[])));
    assert!(!no_accessible_kb_scope(None));
}

#[test]
fn id_lists() {
    assert_eq!(parse_id_list(None).unwrap(), None);
    assert_eq!(parse_id_list(Some("  ")).unwrap(), None);
    assert_eq!(parse_id_list(Some("1, 2,,-3")).unwrap(), Some(vec![1, 2, -3]));
    assert!(parse_id_list(Some("1,x")).is_err());
    assert_eq!(format_id_filter(None), "all");
    assert_eq!(format_id_filter(Some(&[])), "[]");
    assert_eq!(format_id_filter(Some(&[1, 2])), "[1, 2]");
    assert_eq!(summarize_kb_scope(Some(&[])), "no_accessible_kbs");
    assert_eq!(summarize_kb_scope(None), "all_accessible_kbs");
}

#[test]
fn previews() {
    assert_eq!(preview_text("  abcdef ", 3), "abc...");
    assert_eq!(preview_text(" ab ", 3), "ab");
    assert_eq!(preview_for_log("a\nb", 10), "a b");
}

#[test]
fn lexicon_inputs() {
    assert_eq!(normalize_lexicon_term(" 词 ").unwrap(), "词");
    assert!(normalize_lexicon_term("  ").is_err());
    assert!(normalize_lexicon_freq(Some(0)).is_err());
    assert_eq!(normalize_lexicon_freq(Some(3)).unwrap(), Some(3));
    assert_eq!(normalize_lexicon_tag(Some(" n ")).as_deref(), Some("n"));
    assert_eq!(normalize_lexicon_tag(Some(" ")), None);
}

#[test]
fn full_search_scopes() {
    assert_eq!(full_search_file_scope(None, None), Some(None));
    assert_eq!(full_search_file_scope(None, Some(vec![4])), Some(Some(vec![4])));
    assert_eq!(full_search_file_scope(Some(vec![]), Some(vec![4])), None);
    assert_eq!(full_search_file_scope(Some(vec![3, 4, 5]), Some(vec![5, 3])), Some(Some(vec![3, 5])));
    assert_eq!(full_search_file_scope(Some(vec![3]), Some(vec![5])), None);
    assert_eq!(full_search_file_scope(Some(vec![3]), Some(vec![])), Some(Some(vec![3])));
}

fn file(public: bool, owner: &str) -> Option<FileInfo> {
    Some(FileInfo { id: 1, filename: "f".to_string(), kb_id: None, is_public: public, user_id: owner.to_string(), created_at: 0 })
}

fn kb(public: bool, owner: &str) -> Option<KbInfo> {
    Some(KbInfo { id: 1, name: "k".to_string(), is_public: public, user_id: owner.to_string() })
}

#[test]
fn shown_results_respect_visibility_and_duplicates() {
    let files = vec![file(false, "u"), file(false, "other"), None, file(true, "other"), file(true, "u")];
    let kbs = vec![None, None, None, kb(false, "other"), kb(true, "x")];
    let contents: Vec<String> = vec!["a", "b", "a", "c", "a"].into_iter().map(String::from).collect();
    assert_eq!(shown_result_positions(&files, &kbs, &contents, "u", false, false), vec![0, 2, 4]);
    assert_eq!(shown_result_positions(&files, &kbs, &contents, "u", false, true), vec![0]);
    assert_eq!(shown_result_positions(&files, &kbs, &contents, "u", true, true), vec![0, 1, 3]);
}

#[test]
fn lexicon_rows_become_items() {
    let row = LexiconItemRow {
        id: 4,
        term: "t".to_string(),
        freq: Some(3),
        tag: None,
        enabled: 2,
        created_at: 5,
        updated_at: 6,
    };
    let item = lexicon_row_to_item(row);
    assert!(item.enabled);
    assert_eq!((item.id, item.term.as_str(), item.freq, item.created_at, item.updated_at), (4, "t", Some(3), 5, 6));
    let off = LexiconItemRow { id: 1, term: String::new(), freq: None, tag: None, enabled: 0, created_at: 0, updated_at: 0 };
    assert!(!lexicon_row_to_item(off).enabled);
}

#[test]
fn slice_selection_counts_what_it_passes_over() {
    let ids = vec![5, 6, 5, 7, 8, 9];
    let files = vec![file(true, "o"), None, file(true, "o"), file(false, "other"), file(true, "o"), file(true, "o")];
    let slice_kbs = vec![None, None, None, None, kb(false, "other"), None];
    let file_kbs = vec![None, None, None, None, kb(true, "o"), kb(true, "o")];
    let r = select_slices(&ids, &files, &slice_kbs, &file_kbs, "u", false, 2);
    assert_eq!(r.positions, vec![0, 5]);
    assert_eq!((r.missing_file, r.permission_denied, r.duplicate), (1, 2, 1));
    let r = select_slices(&ids, &files, &slice_kbs, &file_kbs, "u", false, 1);
    assert_eq!(r.positions, vec![0]);
    assert_eq!((r.missing_file, r.permission_denied, r.duplicate), (0, 0, 0));
    let r = select_slices(&ids, &files, &slice_kbs, &file_kbs, "u", true, 10);
    assert_eq!(r.positions, vec![0, 3, 4, 5]);
    assert_eq!((r.missing_file, r.permission_denied, r.duplicate), (1, 0, 1));
}
