use htknow::config::{
    AISettings, SearchSettings, DatabaseConfig, EnvSnapshot, EtcdConfigLoader, Granularity, LLMConfig, ServerConfig, ServicesConfig,
    SliceConfig, StorageConfig, WikiConfig,
};

fn env(pairs: &[(&str, &str)]) -> EnvSnapshot {
    EnvSnapshot { vars: pairs.iter().map(|(k, v)| (k.to_string(), v.to_string())).collect() }
}

#[test]
fn test_default_config() {
    let e = env(&[]);
    let server = ServerConfig::from_env(&e);
    let services = ServicesConfig::from_env(&e);
    assert_eq!(server.host, "0.0.0.0");
    assert_eq!(server.port, 3000);
    assert_eq!(server.upload_limit_mb, 500);
    assert_eq!(services.request_timeout_secs, 600);
    assert!(server.parse_enabled);
    assert!(!server.build_knowledge_graph);
    assert_eq!(server.lancedb_compact_cron, "0 0 3 * * *");
    let db = DatabaseConfig::from_env(&e);
    assert_eq!((db.url.as_str(), db.max_connections, db.min_connections), ("sqlite://data/app.sqlite", 16, 2));
    let slice = SliceConfig::from_env(&e);
    assert_eq!((slice.smart_slice_max_chars, slice.fixed_slice_overlap_chars), (8000, 100));
}

#[test]
fn test_parse_enabled_env_override() {
    let config = ServerConfig::from_env(&env(&[("HTKNOW_PARSE_ENABLED", "false")]));
    assert!(!config.parse_enabled);
}

#[test]
fn test_build_knowledge_graph_env_override() {
    let config = ServerConfig::from_env(&env(&[("HTKNOW_BUILD_KNOWLEDGE_GRAPH", "true")]));
    assert!(config.build_knowledge_graph);
}

#[test]
fn test_image_parse_mode_from_env() {
    let cases: [(Option<&str>, Option<&str>, Option<&str>, &str); 7] = [
        (None, None, None, "none"),
        (None, Some("  "), Some(""), "none"),
        (None, Some("http://parse"), None, "custom"),
        (None, None, Some("http://ocr"), "ocr"),
        (None, Some("http://parse"), Some("http://ocr"), "custom"),
        (Some("ocr"), Some("http://parse"), Some("http://ocr"), "ocr"),
        (Some("none"), Some("http://parse"), Some("http://ocr"), "none"),
    ];
    for (mode, parse, ocr, expected) in cases {
        let mut pairs = Vec::new();
        if let Some(m) = mode {
            pairs.push(("HTKNOW_IMAGE_PARSE_MODE", m));
        }
        if let Some(p) = parse {
            pairs.push(("HTKNOW_IMAGE_PARSE_URL", p));
        }
        if let Some(o) = ocr {
            pairs.push(("HTKNOW_IMAGE_OCR_URL", o));
        }
        assert_eq!(ServicesConfig::from_env(&env(&pairs)).image_parse_mode, expected);
    }
}

#[test]
fn test_request_timeout_env_override() {
    let config = ServicesConfig::from_env(&env(&[("HTKNOW_REQUEST_TIMEOUT_SECS", "120")]));
    assert_eq!(config.request_timeout_secs, 120);
    let bad = ServicesConfig::from_env(&env(&[("HTKNOW_REQUEST_TIMEOUT_SECS", "-5")]));
    assert_eq!(bad.request_timeout_secs, 600);
    let plus = ServicesConfig::from_env(&env(&[("HTKNOW_REQUEST_TIMEOUT_SECS", "+7")]));
    assert_eq!(plus.request_timeout_secs, 7);
}

#[test]
fn test_service_api_keys_from_env() {
    let services = ServicesConfig::from_env(&env(&[
        ("HTKNOW_EMBEDDING_KEY", "  embed-key  "),
        ("HTKNOW_IMAGE_EMBEDDING_KEY", "   "),
        ("HTKNOW_RERANK_KEY", "rerank-key"),
    ]));
    assert_eq!(services.embedding_key.as_deref(), Some("embed-key"));
    assert_eq!(services.image_embedding_key, None);
    assert_eq!(services.rerank_key.as_deref(), Some("rerank-key"));
}

#[test]
fn port_out_of_range_falls_back() {
    assert_eq!(ServerConfig::from_env(&env(&[("HTKNOW_SERVER_PORT", "70000")])).port, 3000);
    assert_eq!(ServerConfig::from_env(&env(&[("HTKNOW_SERVER_PORT", "8080")])).port, 8080);
    assert!(ServerConfig::from_env(&env(&[("HTKNOW_PARSE_ENABLED", "TRUE")])).parse_enabled);
    assert!(!ServerConfig::from_env(&env(&[("HTKNOW_REUSE_DUPLICATE_FILES", "false")])).reuse_duplicate_files);
}

#[test]
fn storage_paths_follow_data_dir() {
    let s = StorageConfig::from_env(&env(&[("HTKNOW_DATA_DIR", "/srv"), ("HTKNOW_PDF_PATH", "/pdf")]));
    assert_eq!(s.lancedb_path, "/srv/lancedb_data");
    assert_eq!(s.pdf_path, "/pdf");
    assert_eq!(s.slice_contents_path, "/srv/slice_contents");
    assert_eq!(StorageConfig::from_env(&env(&[])).archives_path, "data/archives");
}

#[test]
fn wiki_falls_back_to_general_llm() {
    let e = env(&[("LLM_API_URL", "http://llm"), ("LLM_MODEL", "m"), ("HTKNOW_BUILD_WIKI", "true")]);
    let w = WikiConfig::from_env(&e);
    assert_eq!(w.api_url.as_deref(), Some("http://llm"));
    assert_eq!(w.model.as_deref(), Some("m"));
    assert!(w.is_enabled());
    assert_eq!(w.default_granularity(), Granularity::Standard);
    let w2 = WikiConfig::from_env(&env(&[("WIKI_LLM_API_URL", " http://wiki "), ("HTKNOW_WIKI_GRANULARITY", "focused")]));
    assert_eq!(w2.api_url.as_deref(), Some("http://wiki"));
    assert!(!w2.is_enabled());
    assert_eq!(w2.default_granularity(), Granularity::Focused);
    let w3 = WikiConfig::from_env(&env(&[("HTKNOW_WIKI_GRANULARITY", "huge")]));
    assert_eq!(w3.default_granularity(), Granularity::Standard);
    assert_eq!(w3.model.as_deref(), Some("gpt-3.5-turbo"));
}

#[test]
fn llm_enabled_by_address() {
    assert!(!LLMConfig::from_env(&env(&[])).is_enabled());
    let c = LLMConfig::from_env(&env(&[("LLM_API_URL", ""), ("LLM_API_KEY", "k")]));
    assert!(c.is_enabled());
    assert_eq!(c.api_key.as_deref(), Some("k"));
}

#[test]
fn first_entry_of_a_variable_counts() {
    let e = env(&[("X", "1"), ("X", "2")]);
    assert_eq!(e.var("X").as_deref(), Some("1"));
    assert_eq!(e.var_i32("X", 9), 1);
    assert_eq!(e.var_i32("Y", -9), -9);
    let l = EtcdConfigLoader::new(vec!["a".to_string()], "p".to_string());
    assert_eq!((l.endpoints.len(), l.prefix.as_str()), (1, "p"));
}

#[test]
fn settings_at_least_one_and_fallbacks() {
    let e = env(&[("A", "0"), ("B", "7"), ("C", "x"), ("M2", "33"), ("HTKNOW_DATA_DIR", "/d")]);
    assert_eq!(e.var_usize_at_least_one("A", 8), 1);
    assert_eq!(e.var_usize_at_least_one("B", 8), 7);
    assert_eq!(e.var_usize_at_least_one("C", 8), 8);
    assert_eq!(e.var_u64_at_least_one("A", 120), 1);
    assert_eq!(e.var_u64_at_least_one("missing", 120), 120);
    assert_eq!(e.var_usize_first_of("C", "M2", 20), 33);
    assert_eq!(e.var_usize_first_of("B", "M2", 20), 7);
    assert_eq!(e.var_usize_first_of("missing", "C", 20), 20);
    assert_eq!(e.var_or_data_path("HTKNOW_TANTIVY_INDEX_PATH", "tantivy_index"), "/d/tantivy_index");
    let f = env(&[("HTKNOW_TANTIVY_INDEX_PATH", "/t")]);
    assert_eq!(f.var_or_data_path("HTKNOW_TANTIVY_INDEX_PATH", "tantivy_index"), "/t");
}

#[test]
fn ai_and_search_settings_defaults_and_overrides() {
    let ai = AISettings::from_env(&env(&[]));
    assert_eq!((ai.embedding_model.as_str(), ai.embedding_dim, ai.image_embedding_dim), ("bge-m3", 1024, 2048));
    assert_eq!(ai.rerank_model, "bge-rerank");
    assert_eq!((ai.embedding_batch_size, ai.embedding_batch_max_chars, ai.embedding_batch_timeout_secs), (8, 16000, 120));
    let ai = AISettings::from_env(&env(&[("HTKNOW_EMBEDDING_BATCH_SIZE", "0"), ("HTKNOW_EMBEDDING_DIM", "-3")]));
    assert_eq!((ai.embedding_batch_size, ai.embedding_dim), (1, -3));
    let search = SearchSettings::from_env(&env(&[("HTKNOW_DATA_DIR", "/srv")]));
    assert_eq!((search.limit, search.tantivy_memory_mb, search.highlight_page_min_chars), (10, 50, 20));
    assert_eq!(search.tantivy_index_path, "/srv/tantivy_index");
    assert!(search.synonym_enabled);
    let search = SearchSettings::from_env(&env(&[("HTKNOW_HIGHLIGHT_PAGE_MIN_POSITIONS", "7"), ("HTKNOW_SEARCH_SYNONYM_ENABLED", "false")]));
    assert_eq!(search.highlight_page_min_chars, 7);
    assert!(!search.synonym_enabled);
}
