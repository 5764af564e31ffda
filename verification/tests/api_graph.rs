use htknow::api::error::ApiError;
use htknow::api::graph::{
    edge_filter, fts_phrase, ids_sql, neighbor_of, node_filter, plan_subgraph, search_limit, total_count,
    uses_name_index, GraphEdge, Scope,
};

fn edge(id: i64, s: i64, t: i64) -> GraphEdge {
    GraphEdge { id, source_id: s, target_id: t, relation_type: "r".to_string(), file_id: None }
}

#[test]
fn id_lists_are_plain_integers() {
    assert_eq!(ids_sql(&[]), "NULL");
    assert_eq!(ids_sql(&[1, -2, 30]), "1,-2,30");
}

#[test]
fn scope_checks() {
    let s = Scope::check(false, vec![1, 2], vec![9], Some(1), None, None).unwrap();
    assert_eq!(s.kb_ids, vec![1, 2]);
    assert!(matches!(Scope::check(false, vec![1], vec![], Some(3), None, None), Err(ApiError::Forbidden(_))));
    assert!(matches!(Scope::check(false, vec![1], vec![], None, Some(5), Some(None)), Err(ApiError::NotFound(_))));
    assert!(matches!(
        Scope::check(false, vec![1], vec![], None, Some(5), Some(Some(Some(2)))),
        Err(ApiError::Forbidden(_))
    ));
    assert!(Scope::check(false, vec![], vec![5], None, Some(5), Some(Some(None))).is_ok());
    assert!(matches!(
        Scope::check(false, vec![1, 2], vec![], Some(1), Some(5), Some(Some(Some(2)))),
        Err(ApiError::BadRequest(_))
    ));
    assert!(Scope::check(true, vec![], vec![], Some(7), Some(5), Some(Some(Some(8)))).is_err());
    assert!(Scope::check(true, vec![], vec![], Some(7), None, None).is_ok());
}

#[test]
fn filters_are_exact() {
    let admin = Scope { admin: true, kb_ids: vec![], loose_files: vec![] };
    assert_eq!(admin.nodes("n"), "1=1");
    let user = Scope { admin: false, kb_ids: vec![1, 2], loose_files: vec![] };
    assert_eq!(user.nodes("f"), "(f.kb_id IN (1,2) OR (f.kb_id IS NULL AND f.file_id IN (NULL)))");
    assert_eq!(node_filter(&admin, Some(3), None), "1=1 AND n.kb_id=3");
    assert_eq!(
        node_filter(&admin, None, Some(4)),
        "1=1 AND (EXISTS(SELECT 1 FROM graph_node_sources s WHERE s.node_id=n.id AND s.file_id=4) OR (n.file_id=4 AND NOT EXISTS(SELECT 1 FROM graph_node_sources s WHERE s.node_id=n.id)))"
    );
    assert_eq!(
        edge_filter(&admin, None, Some(4)),
        "1=1 AND 1=1 AND n.kb_id IS t.kb_id AND e.file_id=4 AND (e.file_id IS NULL OR EXISTS(SELECT 1 FROM files f WHERE f.id=e.file_id AND f.kb_id IS n.kb_id))"
    );
    let loose = Scope { admin: false, kb_ids: vec![], loose_files: vec![7] };
    assert!(edge_filter(&loose, None, None).ends_with(" AND (n.kb_id IS NOT NULL OR (n.file_id=t.file_id AND e.file_id IN (7)))"));
}

#[test]
fn search_limits_and_phrases() {
    assert_eq!(search_limit(None).unwrap(), 100);
    assert_eq!(search_limit(Some(200)).unwrap(), 200);
    assert!(matches!(search_limit(Some(0)), Err(ApiError::BadRequest(_))));
    assert!(search_limit(Some(201)).is_err());
    assert!(uses_name_index(Some("项目甲")));
    assert!(!uses_name_index(Some("ab")));
    assert!(!uses_name_index(None));
    assert_eq!(fts_phrase("\" OR *"), "\"\"\" OR *\"");
    assert_eq!(fts_phrase(""), "\"\"");
}

#[test]
fn graph_subgraph_preserves_parallel_edges_direction_and_scope() {
    let edges = vec![edge(1, 1, 2), edge(2, 2, 1), edge(3, 1, 2), edge(4, 1, 3)];
    let (kept, extra, truncated) = plan_subgraph(&vec![1], &edges, true, false);
    assert_eq!(kept, vec![0, 1, 2, 3]);
    assert_eq!(extra, vec![2, 3]);
    assert!(!truncated);
    let (_, _, t2) = plan_subgraph(&vec![1], &edges, false, true);
    assert!(t2);
}

#[test]
fn subgraph_caps_nodes_and_edges() {
    let edges: Vec<GraphEdge> = (0..401).map(|i| edge(i, 0, 1000 + i)).collect();
    let (kept, extra, truncated) = plan_subgraph(&vec![0], &edges, true, false);
    assert!(truncated);
    assert_eq!(extra.len(), 199);
    assert_eq!(kept.len(), 199);
    assert_eq!(kept[0], 0);
}

#[test]
fn neighbors_and_counts() {
    let e = edge(1, 5, 6);
    assert_eq!(neighbor_of(5, &e), (6, "outgoing"));
    assert_eq!(neighbor_of(6, &e), (5, "incoming"));
    assert_eq!(total_count(&vec![("人物".to_string(), 3), ("项目".to_string(), 4)]), 7);
    assert_eq!(total_count(&vec![]), 0);
}
