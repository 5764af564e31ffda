use htknow::db::{is_index_statement, is_sqlite_memory_url, sqlite_path_from_url, strip_uri_suffix};

#[test]
fn index_statements() {
    assert!(is_index_statement("-- comment\n\n  CREATE INDEX idx ON t(a);"));
    assert!(is_index_statement("CREATE UNIQUE INDEX u ON t(a)"));
    assert!(!is_index_statement("CREATE TABLE t (a)"));
    assert!(!is_index_statement("-- CREATE INDEX\nCREATE TABLE t"));
    assert!(!is_index_statement(""));
    assert!(!is_index_statement("\n\n"));
}

#[test]
fn sqlite_paths() {
    assert_eq!(sqlite_path_from_url("sqlite://data/app.sqlite").as_deref(), Some("data/app.sqlite"));
    assert_eq!(sqlite_path_from_url("sqlite:////abs/db.sqlite?mode=rwc").as_deref(), Some("//abs/db.sqlite"));
    assert_eq!(sqlite_path_from_url("sqlite:./db.sqlite#x").as_deref(), Some("./db.sqlite"));
    assert_eq!(sqlite_path_from_url("sqlite::memory:"), None);
    assert_eq!(sqlite_path_from_url("file:a.db?mode=memory"), None);
    assert_eq!(sqlite_path_from_url("file://x/y.db").as_deref(), Some("x/y.db"));
    assert_eq!(sqlite_path_from_url("  ./local.db ").as_deref(), Some("./local.db"));
    assert_eq!(sqlite_path_from_url("postgres:db"), None);
    assert_eq!(sqlite_path_from_url("postgres://host/db"), None);
    assert_eq!(sqlite_path_from_url("data/app.db").as_deref(), Some("data/app.db"));
    assert_eq!(sqlite_path_from_url("sqlite://"), None);
    let v: Vec<char> = "a?b#c".chars().collect();
    assert_eq!(strip_uri_suffix(&v).iter().collect::<String>(), "a");
    let m: Vec<char> = ":memory:".chars().collect();
    assert!(is_sqlite_memory_url(&m));
}
