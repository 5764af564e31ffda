use std::collections::HashMap;

use htknow::api::knowledge_base::{assemble_tree, build_tree_node, KnowledgeTreeFile, TreeKnowledge};
use htknow::file_content::content_path;
use htknow::graph::query::candidates;
use htknow::logging::{parse_level, parse_rust_log, LevelFilter};

fn kb(id: i64, name: &str, parent: Option<i64>) -> TreeKnowledge {
    TreeKnowledge {
        id,
        name: name.to_string(),
        description: String::new(),
        kb_type: "analysis".to_string(),
        parent_id: parent,
        is_public: false,
    }
}

fn file(id: i64, kb: i64) -> KnowledgeTreeFile {
    KnowledgeTreeFile { id, size: 1, filename: format!("f{id}"), meta: None, kb_id: Some(kb), is_public: false }
}

#[test]
fn tree_orders_children_by_name() {
    let kbs = vec![kb(1, "root", None), kb(2, "b", Some(1)), kb(3, "a", Some(1)), kb(4, "c", Some(3)), kb(5, "a", None)];
    let files: HashMap<i64, Vec<KnowledgeTreeFile>> = HashMap::from([(3, vec![file(10, 3)])]);
    let forest = assemble_tree(&kbs, &files, None);
    let roots: Vec<&str> = forest.iter().map(|n| n.name.as_str()).collect();
    assert_eq!(roots, vec!["a", "root"]);
    let root = &forest[1];
    let children: Vec<i64> = root.children.iter().map(|n| n.id).collect();
    assert_eq!(children, vec![3, 2]);
    assert_eq!(root.children[0].files.len(), 1);
    assert_eq!(root.children[0].children[0].id, 4);
    let sub = assemble_tree(&kbs, &files, Some(3));
    assert_eq!(sub.len(), 1);
    assert_eq!(sub[0].children.len(), 1);
    assert!(assemble_tree(&kbs, &files, Some(99)).is_empty());
    assert!(assemble_tree(&vec![], &files, None).is_empty());
    assert!(build_tree_node(99, &kbs, &files, 3).is_none());
}

#[test]
fn equal_names_keep_listing_order() {
    let kbs = vec![kb(1, "x", None), kb(2, "x", None), kb(3, "w", None)];
    let ids: Vec<i64> = assemble_tree(&kbs, &HashMap::new(), None).iter().map(|n| n.id).collect();
    assert_eq!(ids, vec![3, 1, 2]);
}

#[test]
fn question_name_candidates() {
    let c = candidates(" 张三负责什么 ");
    assert!(c.contains(&"张三负责什么".to_string()));
    assert!(c.contains(&"张三".to_string()));
    assert!(c.contains(&"负责".to_string()));
    let mut sorted = c.clone();
    sorted.sort();
    sorted.dedup();
    assert_eq!(sorted, c);
    assert_eq!(candidates("ab"), vec!["a".to_string(), "ab".to_string(), "b".to_string()]);
    assert_eq!(candidates("a b"), vec![" b", "a", "a ", "a b", "b"].into_iter().map(String::from).collect::<Vec<_>>());
    assert_eq!(candidates(""), vec!["".to_string()]);
    let long = "x".repeat(200);
    let c = candidates(&long);
    assert_eq!(c.len(), 33);
    assert!(c.contains(&long));
}

#[test]
fn content_files() {
    assert_eq!(content_path("data/contents", 7), "data/contents/7.txt");
    assert_eq!(content_path("data/contents/", -1), "data/contents/-1.txt");
    assert_eq!(content_path("", 3), "3.txt");
}

#[test]
fn rust_log_directives() {
    let (default, loggers) = parse_rust_log("warn, htknow=Debug ,=trace, bad=level,,sqlx = error");
    assert_eq!(default, Some(LevelFilter::Trace));
    let names: Vec<(&str, LevelFilter)> = loggers.iter().map(|(t, l)| (t.as_str(), *l)).collect();
    assert_eq!(names, vec![("htknow", LevelFilter::Debug), ("sqlx", LevelFilter::Error)]);
    assert_eq!(parse_rust_log("").0, None);
    let off: Vec<char> = "OFF".chars().collect();
    assert_eq!(parse_level(&off), Some(LevelFilter::Off));
}
