use just::justfile_cache::JustfileCache;
use std::path::PathBuf;

fn empty_cache() -> JustfileCache {
    JustfileCache::new_empty(PathBuf::from("/work/justfile"), PathBuf::from("/work"))
}

#[test]
fn new_cache_is_empty() {
    let cache = empty_cache();
    assert!(cache.get("build").is_none());
    assert!(cache.recipes.is_empty());
    assert_eq!(cache.justfile_path, PathBuf::from("/work/justfile"));
    assert_eq!(cache.working_directory, PathBuf::from("/work"));
}

#[test]
fn inserted_recipe_is_found_and_marked_changed() {
    let mut cache = empty_cache();
    cache.insert_recipe("build".to_string(), "abc123".to_string());
    let entry = cache.get("build").unwrap();
    assert_eq!(entry.body_hash, "abc123");
    assert!(entry.hash_changed);
    assert!(cache.get("test").is_none());
}

#[test]
fn reinserting_a_recipe_replaces_its_hash() {
    let mut cache = empty_cache();
    cache.insert_recipe("build".to_string(), "first".to_string());
    cache.insert_recipe("test".to_string(), "other".to_string());
    cache.insert_recipe("build".to_string(), "second".to_string());
    assert_eq!(cache.get("build").unwrap().body_hash, "second");
    assert_eq!(cache.get("test").unwrap().body_hash, "other");
    assert_eq!(cache.recipes.len(), 2);
}
