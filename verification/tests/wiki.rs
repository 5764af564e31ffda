use htknow::api::error::ApiError;
use htknow::api::wiki::{bounded_limit, build_breakdown, ego_slugs, page_cursor, WikiPageItem};

fn page(slug: &str, out: &[&str], inn: &[&str]) -> WikiPageItem {
    WikiPageItem {
        id: 0,
        kb_id: 1,
        slug: slug.to_string(),
        title: slug.to_string(),
        page_type: "entity".to_string(),
        status: "published".to_string(),
        summary: String::new(),
        aliases: vec![],
        out_links: out.iter().map(|s| s.to_string()).collect(),
        in_links: inn.iter().map(|s| s.to_string()).collect(),
        version: 1,
        last_edit_source: String::new(),
        created_at: 0,
        updated_at: 0,
    }
}

fn sorted(mut v: Vec<String>) -> Vec<String> {
    v.sort();
    v
}

#[test]
fn limits_are_bounded() {
    assert_eq!(bounded_limit(None, 50, 200).unwrap(), 50);
    assert_eq!(bounded_limit(Some(200), 50, 200).unwrap(), 200);
    match bounded_limit(Some(0), 50, 200) {
        Err(ApiError::BadRequest(m)) => assert_eq!(m, "limit must be between 1 and 200"),
        _ => panic!("expected a bad request"),
    }
    assert!(bounded_limit(Some(101), 20, 100).is_err());
}

#[test]
fn cursor_is_last_shown_id() {
    assert_eq!(page_cursor(&vec![9, 8, 7], 2), (2, Some(8)));
    assert_eq!(page_cursor(&vec![9, 8], 2), (2, None));
    assert_eq!(page_cursor(&vec![9], 2), (1, None));
}

#[test]
fn breakdown_keeps_known_statuses() {
    let rows = vec![
        ("completed".to_string(), 3),
        ("running".to_string(), 1),
        ("weird".to_string(), 9),
        ("failed".to_string(), 2),
    ];
    let b = build_breakdown(&rows);
    assert_eq!((b.completed, b.running, b.failed), (3, 1, 2));
}

#[test]
fn ego_follows_links_both_ways_within_depth() {
    let pages = vec![
        page("a", &["b"], &[]),
        page("b", &["c"], &["a"]),
        page("c", &["ghost"], &["b"]),
        page("d", &[], &["a"]),
    ];
    assert_eq!(sorted(ego_slugs("a", 0, &pages)), vec!["a"]);
    assert_eq!(sorted(ego_slugs("a", 1, &pages)), vec!["a", "b"]);
    assert_eq!(sorted(ego_slugs("a", 2, &pages)), vec!["a", "b", "c"]);
    assert_eq!(sorted(ego_slugs("c", 1, &pages)), vec!["b", "c"]);
    assert_eq!(sorted(ego_slugs("a", 3, &pages)), vec!["a", "b", "c"]);
    assert_eq!(sorted(ego_slugs("d", 1, &pages)), vec!["a", "d"]);
}

use htknow::api::wiki::{graph_edges, index_entry_positions, index_intro, overview_slugs, rank_pages};

fn titled(slug: &str, title: &str, page_type: &str) -> WikiPageItem {
    let mut p = page(slug, &[], &[]);
    p.title = title.to_string();
    p.page_type = page_type.to_string();
    p
}

#[test]
fn index_groups_sort_by_title_then_slug() {
    let mut index = titled("index", "索引", "index");
    index.summary = "intro".to_string();
    index.updated_at = 9;
    let pages = vec![
        titled("b", "乙", "entity"),
        index,
        titled("a2", "甲", "entity"),
        titled("a1", "甲", "entity"),
        titled("c", "丙", "concept"),
    ];
    assert_eq!(index_entry_positions(&pages, "entity"), vec![0, 3, 2]);
    assert_eq!(index_entry_positions(&pages, "concept"), vec![4]);
    assert!(index_entry_positions(&pages, "summary").is_empty());
    assert_eq!(index_intro(&pages), ("intro".to_string(), 9));
    assert_eq!(index_intro(&vec![]), (String::new(), 0));
}

#[test]
fn overview_prefers_linked_pages() {
    let pages = vec![
        page("lonely", &[], &[]),
        page("hub", &["x", "y"], &["z"]),
        page("x", &["hub"], &[]),
        titled("index", "索引", "index"),
        page("y", &[], &["hub"]),
    ];
    assert_eq!(rank_pages(&pages), vec![1, 2, 4, 0]);
    let top = overview_slugs(&pages, 2);
    assert_eq!(top, vec!["hub".to_string(), "x".to_string()]);
    let edges = graph_edges(&pages, &top);
    assert_eq!(edges, vec![("hub".to_string(), "x".to_string()), ("x".to_string(), "hub".to_string())]);
    assert_eq!(overview_slugs(&pages, 10).len(), 4);
}
