use htknow::export::{export_dir_name, merge_kb_ids, record_new_parents, sorted_unique_ids, ExportManifest};

#[test]
fn export_ids_are_sorted_and_unique() {
    assert_eq!(sorted_unique_ids(&[3, 1, 3, 2, 1]), vec![1, 2, 3]);
    assert_eq!(sorted_unique_ids(&[]), Vec::<i64>::new());
    assert_eq!(sorted_unique_ids(&[-4, 9, -4]), vec![-4, 9]);
}

#[test]
fn export_merges_targets_with_ancestors() {
    assert_eq!(merge_kb_ids(&[5, 2], &[2, 1]), vec![1, 2, 5]);
    assert_eq!(merge_kb_ids(&[7], &[]), vec![7]);
}

#[test]
fn export_dir_name_for_one_and_for_many() {
    assert_eq!(export_dir_name(&[7], "20240101_120000"), "kb_7_20240101_120000");
    assert_eq!(export_dir_name(&[1, 22, 3], "20240101_120000"), "kb_batch_1_22_3_20240101_120000");
}

#[test]
fn ancestor_walk_keeps_each_parent_once() {
    let mut seen = vec![4, 5];
    let mut ancestors = Vec::new();
    let next = record_new_parents(&mut seen, &mut ancestors, &[Some(2), None, Some(4), Some(2), Some(1)]);
    assert_eq!(next, vec![2, 1]);
    assert_eq!(seen, vec![4, 5, 2, 1]);
    assert_eq!(ancestors, vec![2, 1]);
    let next = record_new_parents(&mut seen, &mut ancestors, &[Some(1), None]);
    assert!(next.is_empty());
    assert_eq!(ancestors, vec![2, 1]);
}

#[test]
fn export_manifest_defaults() {
    let m = ExportManifest::default();
    assert_eq!(m.version, "1.0");
    assert_eq!(m.export_type, "knowledge_base");
    assert!(m.kb_ids.is_empty());
    assert_eq!(m.file_count, 0);
}
