use livets_core::ComponentCache;

#[test]
fn test_basic_cache_operations() {
    let mut cache = ComponentCache::new(10);

    // Test set and get
    cache.set_html("comp1", "<div>Hello</div>".to_string());
    assert_eq!(cache.get_html("comp1"), Some("<div>Hello</div>".to_string()));

    // Test has_component
    assert!(cache.has_component("comp1"));
    assert!(!cache.has_component("comp2"));

    // Test remove
    let removed = cache.remove_component("comp1");
    assert!(removed.is_some());
    assert!(!cache.has_component("comp1"));
}

#[test]
fn test_cache_eviction() {
    let mut cache = ComponentCache::new(2);

    // Fill cache with rising timestamps.
    cache.set_html_at("comp1", "<div>1</div>".to_string(), 1);
    cache.set_html_at("comp2", "<div>2</div>".to_string(), 2);

    // Adding a third component evicts the oldest.
    cache.set_html_at("comp3", "<div>3</div>".to_string(), 3);

    assert_eq!(cache.stats().size, 2);
    assert!(!cache.has_component("comp1"));
    assert!(cache.has_component("comp2"));
    assert!(cache.has_component("comp3"));
}

#[test]
fn test_cache_stats() {
    let mut cache = ComponentCache::new(10);
    cache.set_html("comp1", "<div>1</div>".to_string());
    cache.set_html("comp2", "<div>2</div>".to_string());

    let stats = cache.stats();
    assert_eq!(stats.size, 2);
    assert_eq!(stats.max_size, 10);
}

#[test]
fn test_stale_cleanup() {
    let mut cache = ComponentCache::new(10);
    cache.set_html("comp1", "<div>1</div>".to_string());

    // Force a very old timestamp to simulate a stale component.
    cache.set_html_at("comp1", "<div>1</div>".to_string(), 0);

    let cleaned = cache.cleanup_stale(1000); // Components older than 1 second
    assert_eq!(cleaned, 1);
    assert!(!cache.has_component("comp1"));
}

#[test]
fn test_stale_cleanup_keeps_fresh_entries() {
    let mut cache = ComponentCache::new(10);
    cache.set_html_at("old1", "<div>old</div>".to_string(), 0);
    cache.set_html_at("fresh", "<div>new</div>".to_string(), 5_000);

    let cleaned = cache.cleanup_stale_at(6_000, 1000);
    assert_eq!(cleaned, 1);
    assert!(!cache.has_component("old1"));
    assert!(cache.has_component("fresh"));
}

#[test]
fn test_size_never_exceeds_bound() {
    let mut cache = ComponentCache::new(2);
    for (i, id) in ["a1", "b2", "c3", "d4", "e5"].iter().enumerate() {
        cache.set_html_at(id, format!("<div>{}</div>", i), i as u64);
        assert!(cache.stats().size <= 2, "size must never exceed the bound after an insert");
    }
    assert!(cache.has_component("d4"));
    assert!(cache.has_component("e5"));
}

#[test]
fn test_get_stale_components_at() {
    let mut cache = ComponentCache::new(10);
    cache.set_html_at("s1", "<a></a>".to_string(), 100);
    cache.set_html_at("s2", "<b></b>".to_string(), 200);
    cache.set_html_at("f1", "<c></c>".to_string(), 900);

    let mut stale = cache.get_stale_components_at(1000, 500);
    stale.sort();
    assert_eq!(stale, vec!["s1".to_string(), "s2".to_string()]);
}

#[test]
fn test_touch_component_refreshes_timestamp() {
    let mut cache = ComponentCache::new(10);
    cache.set_html_at("comp1", "<div>1</div>".to_string(), 0);
    cache.touch_component_at("comp1", 10_000);
    let cleaned = cache.cleanup_stale_at(10_500, 1000);
    assert_eq!(cleaned, 0);
    assert_eq!(cache.get_html("comp1"), Some("<div>1</div>".to_string()));
}

#[test]
fn test_clear() {
    let mut cache = ComponentCache::new(10);
    cache.set_html("comp1", "<div>1</div>".to_string());
    cache.set_html("comp2", "<div>2</div>".to_string());
    cache.clear();
    assert_eq!(cache.stats().size, 0);
    assert!(!cache.has_component("comp1"));
}
