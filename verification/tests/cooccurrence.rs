use htknow::graph::cooccurrence::{cooccurrences, keeps_pair, mention_positions, split_words, PairStat};

fn chars(s: &str) -> Vec<char> {
    s.chars().collect()
}

fn words(s: &str) -> Vec<Vec<char>> {
    split_words(&chars(s))
}

fn names(v: &[&str]) -> Vec<String> {
    v.iter().map(|s| s.to_string()).collect()
}

fn stat(s: &PairStat) -> (&str, &str, usize, usize) {
    (s.source.as_str(), s.target.as_str(), s.count, s.min_distance)
}

#[test]
fn test_cooccurrence() {
    let text = "我们使用 Rust 语言和 Axum 框架开发了这个应用 我们使用 Rust 语言和 Axum 框架开发了这个应用";
    let stats = cooccurrences(text, &names(&["Rust", "Axum"]), 10).unwrap();
    let kept: Vec<&PairStat> = stats
        .iter()
        .filter(|s| {
            let distance_score = 1.0 - (s.min_distance as f32 / 10.0);
            let frequency_score = (s.count as f32).min(5.0) / 5.0;
            let weight = (distance_score * 0.6 + frequency_score * 0.4).max(0.0).min(1.0);
            keeps_pair(s) && weight >= 0.5
        })
        .collect();
    assert!(kept.len() > 0);
}

#[test]
fn cooccurrence_counts_pairs_in_first_occurrence_order() {
    let text = "我们使用 Rust 语言和 Axum 框架开发了这个应用 我们使用 Rust 语言和 Axum 框架开发了这个应用";
    let stats = cooccurrences(text, &names(&["Rust", "Axum"]), 10).unwrap();
    let got: Vec<_> = stats.iter().map(stat).collect();
    assert_eq!(got, vec![("Axum", "Rust", 4, 2), ("Rust", "Rust", 1, 5), ("Axum", "Axum", 1, 5)]);
    assert!(keeps_pair(&stats[0]));
    assert!(!keeps_pair(&stats[1]));
}

#[test]
fn cooccurrence_window_limits_distance() {
    let stats = cooccurrences("a x x x b", &names(&["a", "b"]), 3).unwrap();
    assert!(stats.is_empty());
    let stats = cooccurrences("a x x x b", &names(&["a", "b"]), 4).unwrap();
    let got: Vec<_> = stats.iter().map(stat).collect();
    assert_eq!(got, vec![("a", "b", 1, 4)]);
    assert!(keeps_pair(&stats[0]));
}

#[test]
fn words_split_at_any_white_space() {
    let w = words("  hello\tworld \u{3000}再见\n");
    assert_eq!(w, vec![chars("hello"), chars("world"), chars("再见")]);
    assert!(words(" \t ").is_empty());
}

#[test]
fn mentions_in_text_order_with_multi_word_names() {
    let w = words("use the Rust language with Tokio runtime and Rust again");
    let n = vec![chars("Tokio runtime"), chars("Rust")];
    assert_eq!(mention_positions(&w, &n), vec![(2, 1), (5, 0), (8, 1)]);
    // A name inside a longer word still counts, as a substring test.
    let w = words("Rustacean");
    assert_eq!(mention_positions(&w, &vec![chars("Rust")]), vec![(0, 0)]);
}
