use copilot_core::vector::{bucket_of_hashes, feature_bucket, feature_counts, words_of, features_of_word, EmbeddingCache, LocalVectorProvider};

fn hit_rate(hits: u64, misses: u64) -> f64 {
    if hits + misses == 0 {
        1.0
    } else {
        hits as f64 / (hits + misses) as f64
    }
}

#[test]
fn stores_and_retrieves() {
    let mut cache = EmbeddingCache::new(10);
    cache.put("resume focus".to_string(), vec![1.0_f32, 2.0]);
    assert_eq!(cache.get("resume focus"), Some(vec![1.0, 2.0]));
}

#[test]
fn evicts_least_recently_used() {
    let mut cache = EmbeddingCache::new(2);
    cache.put("a".to_string(), vec![1.0_f32]);
    cache.put("b".to_string(), vec![2.0]);
    let _ = cache.get("a");
    cache.put("c".to_string(), vec![3.0]);
    assert!(cache.get("a").is_some());
    assert!(cache.get("b").is_none());
    assert!(cache.get("c").is_some());
}

#[test]
fn tracks_hits_misses_and_hit_rate() {
    let mut cache = EmbeddingCache::new(10);
    cache.put("a".to_string(), vec![1.0_f32]);
    let _ = cache.get("a");
    let _ = cache.get("a");
    let _ = cache.get("missing");
    let stats = cache.stats();
    assert_eq!(stats.hits, 2);
    assert_eq!(stats.misses, 1);
    assert!((hit_rate(stats.hits, stats.misses) - 2.0 / 3.0).abs() < 1e-6);
}

#[test]
fn zero_capacity_disables_cache() {
    let mut cache = EmbeddingCache::new(0);
    cache.put("a".to_string(), vec![1.0_f32]);
    assert!(cache.get("a").is_none());
    assert_eq!(cache.stats().misses, 1);
}

#[test]
fn clear_resets_entries_and_counters() {
    let mut cache = EmbeddingCache::new(4);
    cache.put("a".to_string(), vec![1.0_f32]);
    let _ = cache.get("a");
    cache.clear();
    let stats = cache.stats();
    assert_eq!(stats.size, 0);
    assert_eq!(stats.hits, 0);
    assert_eq!(stats.misses, 0);
    assert!(cache.get("a").is_none());
    assert_eq!(cache.stats().misses, 1);
}

#[test]
fn a_stored_value_replaces_the_old_one_and_size_stays_bounded() {
    let mut cache = EmbeddingCache::new(3);
    for i in 0..10 {
        cache.put(format!("k{i}"), vec![i as f32]);
        assert!(cache.stats().size <= 3);
    }
    cache.put("k9".to_string(), vec![42.0]);
    assert_eq!(cache.get("k9"), Some(vec![42.0]));
    assert_eq!(cache.stats().size, 3);
    assert!(cache.get("k0").is_none());
}

#[test]
fn local_provider_configuration() {
    let provider = LocalVectorProvider::default();
    assert_eq!(provider.dimensions(), 384);
    assert_eq!(provider.name(), "local-ngram");
    assert_eq!(LocalVectorProvider::new(16).dimensions(), 16);
    let (bucket, _) = feature_bucket("resume", 16);
    assert!(bucket < 16);
    assert_eq!(feature_bucket("resume", 16), feature_bucket("resume", 16));
}

#[test]
fn word_features_are_the_word_and_its_ngrams() {
    assert_eq!(features_of_word("abc"), vec!["abc".to_string()]);
    assert_eq!(
        features_of_word("abcd"),
        vec!["abcd", "abc", "bcd", "abcd"].into_iter().map(String::from).collect::<Vec<_>>()
    );
    let six = features_of_word("abcdef");
    assert_eq!(six.len(), 1 + 4 + 3 + 2);
    assert_eq!(six[1], "abc");
    assert_eq!(six[9], "bcdef");
    // Characters beyond one byte are cut whole.
    let cafe = features_of_word("caf\u{e9}s");
    assert_eq!(cafe[1], "caf");
    assert_eq!(cafe[2], "af\u{e9}");
}

#[test]
fn buckets_come_from_the_two_hashes() {
    assert_eq!(bucket_of_hashes(17, 4, 16), (1, true));
    assert_eq!(bucket_of_hashes(16, 3, 16), (0, false));
    assert_eq!(bucket_of_hashes(u64::MAX, u64::MAX, 384), ((u64::MAX % 384) as usize, false));
}

#[test]
fn words_are_alphanumeric_runs_lower_cased() {
    assert_eq!(words_of("Resume the FOCUS-session, now!"), vec!["resume", "the", "focus", "session", "now"]);
    assert!(words_of("  -- ").is_empty());
    assert_eq!(words_of("Ünïcode wörds"), vec!["ünïcode", "wörds"]);
}

#[test]
fn features_are_counted_once_each_in_first_order() {
    let (features, counts) = feature_counts("abcd abcd ab");
    assert_eq!(features, vec!["abcd", "abc", "bcd", "ab"]);
    assert_eq!(counts, vec![4, 2, 2, 1]);
}
