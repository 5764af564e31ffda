use htknow::graph::graph_manager::{anchor_entity, extraction_chunks, is_evidence_grounded, resolve_endpoint};
use htknow::config::EnvSnapshot;
use htknow::graph::llm_extractor::{build_extraction_prompt, clean_json_response, entity_from_extraction, LLMGraphExtractor, PROMPT_HEAD};
use htknow::graph::entity_extractor::RuleBasedExtractor;
use htknow::graph::relation_extractor::PatternMatcher;
use htknow::graph::{Entity, EntityType, Node, RelationType};

#[test]
fn long_unicode_slice_keeps_tail_and_offsets() {
    let text = format!("{}末尾实体", "中文".repeat(6000));
    let chunks = extraction_chunks(&text);
    assert!(chunks.len() > 1);
    assert!(chunks.last().unwrap().1.ends_with("末尾实体"));
    for (offset, chunk) in chunks {
        assert_eq!(&text[offset..offset + chunk.len()], chunk);
    }
    assert!(extraction_chunks("").is_empty());
}

#[test]
fn chunks_overlap_and_skip_blank_windows() {
    let text = "a".repeat(2500);
    let chunks = extraction_chunks(&text);
    assert_eq!(chunks.len(), 2);
    assert_eq!(chunks[0], (0, "a".repeat(2000)));
    assert_eq!(chunks[1], (1900, "a".repeat(600)));
    assert!(extraction_chunks("   \n ").is_empty());
}

#[test]
fn anchor_finds_first_mention_with_context() {
    let text = "张三负责项目甲，张三很忙";
    let a = anchor_entity(text, 10, " 张三 ", "人物").unwrap();
    assert_eq!(a.name, "张三");
    assert_eq!(a.kind, "人物");
    assert_eq!((a.start_offset, a.end_offset), (10, 16));
    assert_eq!(a.context, text);
    assert!(anchor_entity(text, 0, "李四", "人物").is_none());
    assert!(anchor_entity(text, 0, "张三", " ").is_none());
    assert!(anchor_entity(text, 0, "  ", "人物").is_none());
}

#[test]
fn anchor_context_is_bounded() {
    let text = format!("{}X{}", "a".repeat(300), "b".repeat(300));
    let a = anchor_entity(&text, 0, "X", "k").unwrap();
    assert_eq!(a.start_offset, 300);
    assert_eq!(a.context, format!("{}X{}", "a".repeat(101), "b".repeat(100)));
}

#[test]
fn ambiguous_endpoints_are_rejected() {
    let anchored = vec![
        ("张三".to_string(), "人物".to_string(), 1),
        ("张三".to_string(), "公司".to_string(), 2),
        ("项目甲".to_string(), "项目".to_string(), 3),
        ("项目甲".to_string(), "项目".to_string(), 3),
    ];
    assert_eq!(resolve_endpoint(&anchored, "张三", None), None);
    assert_eq!(resolve_endpoint(&anchored, " 张三 ", Some(" 公司")), Some(2));
    assert_eq!(resolve_endpoint(&anchored, "项目甲", None), Some(3));
    assert_eq!(resolve_endpoint(&anchored, "王五", None), None);
}

#[test]
fn evidence_must_be_quoted_from_text() {
    assert!(is_evidence_grounded("张三负责项目甲", Some("负责项目")));
    assert!(!is_evidence_grounded("张三负责项目甲", Some("拥有")));
    assert!(!is_evidence_grounded("张三负责项目甲", Some("  ")));
    assert!(!is_evidence_grounded("张三负责项目甲", None));
}

#[test]
fn entity_properties_replace_values() {
    let e = Entity::new("Rust".to_string(), EntityType::Custom("语言".to_string()))
        .with_property("a".to_string(), "1".to_string())
        .with_property("b".to_string(), "2".to_string())
        .with_property("a".to_string(), "3".to_string());
    assert_eq!(e.properties, vec![("a".to_string(), "3".to_string()), ("b".to_string(), "2".to_string())]);
    assert_eq!(e.entity_type.as_str(), "语言");
    assert_eq!(RelationType::Custom("使用".to_string()).as_str(), "使用");
    let n = Node::from_entity(&e, 7);
    assert_eq!((n.id, n.name.as_str(), n.properties.len()), (7, "Rust", 2));
}

#[test]
fn test_clean_json_response() {
    let input = r#"```json
{"entities": [], "relations": []}
```"#;
    let cleaned = clean_json_response(input);
    assert_eq!(cleaned, r#"{"entities": [], "relations": []}"#);

    let input2 = r#"{"entities": [], "relations": []}"#;
    let cleaned2 = clean_json_response(input2);
    assert_eq!(cleaned2, r#"{"entities": [], "relations": []}"#);
    assert_eq!(clean_json_response("```\n[1]\n```"), "[1]");
}

#[test]
fn prompt_holds_context_then_text() {
    let p = build_extraction_prompt("正文", "文档A");
    assert!(p.starts_with(PROMPT_HEAD));
    let c = p.find("文档A").unwrap();
    let t = p.find("正文").unwrap();
    assert!(c < t);
    assert!(p.ends_with("请开始提取："));
}

#[test]
fn extracted_entity_keeps_description() {
    let e = entity_from_extraction("A".to_string(), "概念".to_string(), Some("d".to_string()));
    assert_eq!(e.properties, vec![("description".to_string(), "d".to_string())]);
    let f = entity_from_extraction("A".to_string(), "概念".to_string(), None);
    assert!(f.properties.is_empty());
}

#[test]
fn test_extract_tech_entities() {
    let extractor = RuleBasedExtractor::new();
    let text = "我们使用Rust和Python开发了一个基于React的前端应用，后端使用Axum框架。";
    let entities = extractor.extract_tech_entities(text);
    assert!(entities.len() > 0);
    assert!(entities.iter().any(|e| e.name == "Rust"));
    assert!(entities.iter().any(|e| e.name == "Python"));
    assert!(entities.iter().any(|e| e.name == "React"));
    assert!(entities.iter().any(|e| e.name == "Axum"));
}

#[test]
fn test_extract_dates() {
    let extractor = RuleBasedExtractor::new();
    let text = "项目开始于2024年1月15日，计划在2024-06-30完成。";
    let entities = extractor.extract_dates(text);
    assert!(entities.len() >= 2);
}

#[test]
fn test_pattern_matching() {
    let matcher = PatternMatcher::new();
    let entities = vec![
        Entity::new("Rust".to_string(), EntityType::Custom("Technology".to_string())),
        Entity::new("编程语言".to_string(), EntityType::Custom("Concept".to_string())),
    ];
    let text = "Rust是编程语言的一种";
    let relations = matcher.match_patterns(text, &entities);
    assert!(relations.iter().any(|r| r.relation_type == RelationType::Custom("IsA".to_string())));
}

#[test]
fn rule_entities_are_sorted_and_unique() {
    let extractor = RuleBasedExtractor::new();
    let names: Vec<String> = extractor.extract_tech_entities("Rust, Go, Rust and Docker").into_iter().map(|e| e.name).collect();
    assert_eq!(names, vec!["Docker", "Go", "Rust"]);
    let dates: Vec<String> = extractor.extract_dates("2024-06-30 then 2024年1月15日 and 2024-06-30").into_iter().map(|e| e.name).collect();
    assert_eq!(dates, vec!["2024-06-30", "2024年1月15日"]);
    let urls = extractor.extract_urls("see https://b.example/x and http://a.example");
    let u: Vec<&str> = urls.iter().map(|e| e.name.as_str()).collect();
    assert_eq!(u, vec!["http://a.example", "https://b.example/x"]);
    assert_eq!(urls[0].properties, vec![("type".to_string(), "url".to_string())]);
    assert_eq!(urls[0].entity_type, EntityType::Custom("url".to_string()));
    let all = extractor.extract_all("Rust on 2024-06-30 at https://x.io");
    let kinds: Vec<String> = all.iter().map(|e| e.entity_type.as_str()).collect();
    assert_eq!(kinds, vec!["Technology", "Date", "url"]);
}

#[test]
fn patterns_need_both_names_known() {
    let matcher = PatternMatcher::new();
    let entities = vec![
        Entity::new("服务A".to_string(), EntityType::Custom("x".to_string())),
        Entity::new("服务B".to_string(), EntityType::Custom("x".to_string())),
    ];
    let rs = matcher.match_patterns("服务A依赖服务B。服务A依赖服务C", &entities);
    assert_eq!(rs.len(), 1);
    assert_eq!((rs[0].source_name.as_str(), rs[0].target_name.as_str()), ("服务A", "服务B"));
    assert_eq!(rs[0].relation_type.as_str(), "DependsOn");
    assert_eq!(rs[0].properties, vec![("source".to_string(), "pattern_matching".to_string())]);
}

#[test]
fn test_llm_graph_extractor_creation() {
    let extractor = LLMGraphExtractor::from_env(&EnvSnapshot { vars: vec![] });
    println!("LLM enabled: {}", extractor.is_enabled());
    assert!(!extractor.is_enabled());
    assert_eq!(extractor.api_url, "");
    assert_eq!(extractor.model, "gpt-3.5-turbo");
    let configured = LLMGraphExtractor::from_env(&EnvSnapshot {
        vars: vec![("LLM_API_URL".to_string(), "http://llm/v1/chat/completions".to_string())],
    });
    assert!(configured.is_enabled());
    assert_eq!(configured.api_url, "http://llm/v1/chat/completions");
}
