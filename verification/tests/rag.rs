use smart_brain::rag::{count_buckets, fnv1a, retrieval_report, tokenize, MockEmbedder};

fn words(text: &str) -> Vec<String> {
    tokenize(text).into_iter().map(|t| t.into_iter().collect()).collect()
}

#[test]
fn tokens_are_alphanumeric_runs() {
    assert_eq!(words("go to tower-3, now!"), vec!["go", "to", "tower", "3", "now"]);
    assert_eq!(words("  "), Vec::<String>::new());
    assert_eq!(words(""), Vec::<String>::new());
    assert_eq!(words("Ärger über"), vec!["Ärger", "über"]);
}

#[test]
fn buckets_count_hashes() {
    assert_eq!(count_buckets(&[0, 5, 10, 3], 5), vec![3, 0, 0, 1, 0]);
    assert_eq!(count_buckets(&[], 3), vec![0, 0, 0]);
    assert_eq!(count_buckets(&[], 0), Vec::<usize>::new());
}

#[test]
fn embedder_counts_lowercased_tokens() {
    let e = MockEmbedder::new(64);
    assert_eq!(e.dim(), 64);
    let counts = e.token_counts("Battery battery LOW");
    assert_eq!(counts.len(), 64);
    assert_eq!(counts.iter().sum::<usize>(), 3);
    let b = (fnv1a("battery") % 64) as usize;
    let l = (fnv1a("low") % 64) as usize;
    assert!(counts[b] >= 2);
    assert!(counts[l] >= 1);
    if b != l {
        assert_eq!(counts[b], 2);
        assert_eq!(counts[l], 1);
    }
    assert_eq!(e.token_counts("battery low battery"), counts);
    assert_eq!(e.token_counts("...").iter().sum::<usize>(), 0);
}

#[test]
fn zero_dimension_embedder_accepts_text_without_tokens() {
    let e = MockEmbedder::new(0);
    assert!(e.token_counts(" - ").is_empty());
}

#[test]
fn retrieval_report_lists_hits() {

    assert_eq!(retrieval_report(&[]), "未找到相关记录");
    let hits = vec!["tower 3 ok".to_string(), "tower 5 cracked  ".to_string()];
    assert_eq!(retrieval_report(&hits), "相关记录：\n  [0] tower 3 ok\n  [1] tower 5 cracked");
}

#[test]
fn default_embedder_has_64_dimensions() {
    assert_eq!(MockEmbedder::default().dim(), 64);
}
