use gl_renderer::script_cache::{
    LoadOutcome, ScriptCache, ScriptEntry, MILLISECOND, SCRIPT_CACHE_CAP, STAT_COOLDOWN,
};

fn path(i: usize) -> Vec<String> {
    vec![String::from("scripts"), format!("{i}.py")]
}

fn load(cache: &mut ScriptCache, i: usize, now: i64, f: u64) -> Option<u64> {
    let (due, displaced) = cache.begin(&path(i), now);
    assert!(due);
    assert!(cache.look(&path(i), Some(1)));
    assert_eq!(cache.finish(&path(i), LoadOutcome::Loaded(f)), None);
    displaced
}

#[test]
fn new_entry_is_due_at_once() {
    let entry = ScriptEntry::new(0);
    assert_eq!(entry.last_stat, -STAT_COOLDOWN - MILLISECOND);
    assert_eq!((entry.last_mtime, entry.on_update), (None, None));
    assert_eq!(STAT_COOLDOWN, 100_000_000);
}

#[test]
fn loaded_script_cools_down() {
    let mut cache = ScriptCache::new();
    load(&mut cache, 1, 1_000, 7);
    assert_eq!(cache.on_update(&path(1)), Some(7));
    assert_eq!(cache.begin(&path(1), 1_000), (false, None));
    assert_eq!(cache.begin(&path(1), 1_000 + STAT_COOLDOWN - 1), (false, None));
    assert_eq!(cache.begin(&path(1), 500), (false, None));
    assert_eq!(cache.begin(&path(1), 1_000 + STAT_COOLDOWN), (true, None));
    assert_eq!(cache.begin(&path(1), 1_001 + STAT_COOLDOWN), (false, None));
}

#[test]
fn unchanged_file_is_not_loaded_again() {
    let mut cache = ScriptCache::new();
    load(&mut cache, 1, 0, 7);
    cache.begin(&path(1), STAT_COOLDOWN);
    assert!(!cache.look(&path(1), Some(1)));
    cache.begin(&path(1), 2 * STAT_COOLDOWN);
    assert!(cache.look(&path(1), Some(2)));
    assert_eq!(cache.finish(&path(1), LoadOutcome::Loaded(8)), Some(7));
    assert_eq!(cache.on_update(&path(1)), Some(8));
}

#[test]
fn failing_script_is_retried_every_time() {
    let mut cache = ScriptCache::new();
    cache.begin(&path(1), 0);
    assert!(cache.look(&path(1), Some(1)));
    assert_eq!(cache.finish(&path(1), LoadOutcome::Broken), None);
    assert_eq!(cache.on_update(&path(1)), None);
    assert_eq!(cache.begin(&path(1), 1), (true, None));
    assert!(cache.look(&path(1), Some(1)));
}

#[test]
fn broken_save_unloads_and_unreadable_file_does_not() {
    let mut cache = ScriptCache::new();
    load(&mut cache, 1, 0, 7);
    cache.begin(&path(1), STAT_COOLDOWN);
    assert!(cache.look(&path(1), None));
    assert_eq!(cache.finish(&path(1), LoadOutcome::Unreadable), None);
    assert_eq!(cache.on_update(&path(1)), Some(7));
    cache.begin(&path(1), 2 * STAT_COOLDOWN);
    assert!(cache.look(&path(1), Some(9)));
    assert_eq!(cache.finish(&path(1), LoadOutcome::Broken), Some(7));
    assert_eq!(cache.on_update(&path(1)), None);
}

#[test]
fn full_cache_drops_the_least_recently_used() {
    let mut cache = ScriptCache::new();
    for i in 0..SCRIPT_CACHE_CAP {
        assert_eq!(load(&mut cache, i, 0, i as u64), None);
    }
    assert_eq!(cache.begin(&path(0), 1), (false, None));
    assert_eq!(load(&mut cache, 1_000, 1, 1_000), Some(1));
    assert_eq!(cache.on_update(&path(1)), None);
    assert_eq!(cache.on_update(&path(0)), Some(0));
    assert_eq!(cache.on_update(&path(2)), Some(2));
    assert_eq!(load(&mut cache, 1_001, 1, 1_001), Some(2));
    assert_eq!(cache.on_update(&path(127)), Some(127));
}

#[test]
fn unknown_script_has_no_callback() {
    let cache = ScriptCache::new();
    assert_eq!(cache.on_update(&path(3)), None);
}
