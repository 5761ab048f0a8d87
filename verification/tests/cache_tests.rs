use rfmt::ast::{Node, NodeType};
use rfmt::cache::{FormatCache, calculate_config_hash, calculate_file_hash};
use rfmt::config::Config;

fn tiny(text: &str) -> Node {
    Node {
        node_type: NodeType::ProgramNode,
        text: text.to_string(),
        line: 1,
        column: 0,
        children: Vec::new(),
    }
}

#[test]
fn test_put_then_get_formatted() {
    let mut cache = FormatCache::new(16);
    cache.put_formatted(7, 9, "X".to_string());
    assert_eq!(cache.get_formatted(7, 9), Some("X".to_string()));
}

#[test]
fn test_different_key_misses() {
    let mut cache = FormatCache::new(16);
    cache.put_formatted(7, 9, "X".to_string());
    assert_eq!(cache.get_formatted(8, 9), None);
    assert_eq!(cache.get_formatted(7, 10), None);
}

#[test]
fn test_eviction_is_least_recently_used() {
    let mut cache = FormatCache::new(1);
    cache.put_formatted(1, 1, "a".to_string());
    cache.put_formatted(2, 2, "b".to_string());
    assert_eq!(cache.get_formatted(1, 1), None);
    assert_eq!(cache.get_formatted(2, 2), Some("b".to_string()));
}

#[test]
fn test_zero_capacity_falls_back_to_default() {
    let mut cache = FormatCache::new(0);
    cache.put_formatted(1, 1, "a".to_string());
    cache.put_formatted(2, 2, "b".to_string());
    assert_eq!(cache.get_formatted(1, 1), Some("a".to_string()));
}

#[test]
fn test_tree_cache_round_trip() {
    let mut cache = FormatCache::new(4);
    cache.put_ast(42, tiny("# doc"));
    let back = cache.get_ast(42).expect("tree should be cached");
    assert_eq!(back.text, "# doc");
    assert!(matches!(back.node_type, NodeType::ProgramNode));
    assert!(cache.get_ast(43).is_none());
}

#[test]
fn test_file_hash_is_deterministic() {
    let a1 = calculate_file_hash("def foo; end");
    let a2 = calculate_file_hash("def foo; end");
    assert_eq!(a1, a2);
    let b = calculate_file_hash("def bar; end");
    assert_ne!(a1, b);
}

#[test]
fn test_file_hash_known_value() {
    // The fingerprint of the one-byte source "a".
    assert_eq!(calculate_file_hash("a"), 0xaf63dc4c8601ec8c);
}

#[test]
fn test_config_hash_tracks_fields() {
    let base = Config::default();
    let h0 = calculate_config_hash(&base);
    assert_eq!(h0, calculate_config_hash(&Config::default()));
    let mut changed = Config::default();
    changed.formatting.line_length = 101;
    assert_ne!(h0, calculate_config_hash(&changed));
    let mut requoted = Config::default();
    requoted.formatting.quote_style = rfmt::config::QuoteStyle::Single;
    assert_ne!(h0, calculate_config_hash(&requoted));
}
