use macro_hd2::bitmap_cache::{BitmapCache, Lookup, BUDGET_BYTES};

const MB: usize = 1024 * 1024;

#[test]
fn the_least_recently_used_icon_goes_first() {
    let mut cache = BitmapCache::new();
    assert_eq!(cache.lookup("a.webp"), Lookup::Miss);
    assert!(cache.insert("a.webp".to_string(), 3 * MB).is_empty());
    assert_eq!(cache.lookup("b.webp"), Lookup::Miss);
    assert!(cache.insert("b.webp".to_string(), 3 * MB).is_empty());
    // Using `a` again makes `b` the oldest.
    assert_eq!(cache.lookup("a.webp"), Lookup::Hit);
    assert_eq!(cache.lookup("c.webp"), Lookup::Miss);
    assert_eq!(cache.insert("c.webp".to_string(), 3 * MB), vec!["b.webp".to_string()]);
    assert_eq!(cache.lookup("b.webp"), Lookup::Miss);
    assert_eq!(cache.lookup("a.webp"), Lookup::Hit);
    assert_eq!(cache.lookup("c.webp"), Lookup::Hit);
}

#[test]
fn a_single_icon_over_the_budget_stays() {
    let mut cache = BitmapCache::new();
    assert_eq!(cache.lookup("big.webp"), Lookup::Miss);
    assert!(cache.insert("big.webp".to_string(), BUDGET_BYTES + 1).is_empty());
    assert_eq!(cache.lookup("big.webp"), Lookup::Hit);
    assert_eq!(cache.lookup("small.webp"), Lookup::Miss);
    assert_eq!(cache.insert("small.webp".to_string(), 1), vec!["big.webp".to_string()]);
}

#[test]
fn a_broken_file_is_not_tried_again_until_the_cache_is_cleared() {
    let mut cache = BitmapCache::new();
    assert_eq!(cache.lookup("x.webp"), Lookup::Miss);
    cache.mark_broken("x.webp".to_string());
    cache.mark_broken("x.webp".to_string());
    assert_eq!(cache.lookup("x.webp"), Lookup::Broken);
    assert!(cache.insert("y.webp".to_string(), 10).is_empty());
    cache.clear();
    assert_eq!(cache.lookup("x.webp"), Lookup::Miss);
    assert_eq!(cache.lookup("y.webp"), Lookup::Miss);
}
