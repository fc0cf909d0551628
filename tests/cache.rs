use std::sync::atomic::{AtomicBool, AtomicUsize, Ordering};
use std::sync::{Arc, Mutex};

use writium_cache::{
    remove_from_store, unload_dirty_value, write_back_to, Cache, CacheItem, CacheSource,
    DumbCacheSource, Error, Fetch, WriteBack,
};

/// What a test store was asked to do, shared with the test that owns it.
#[derive(Default)]
struct Log {
    loads: AtomicUsize,
    removes: AtomicUsize,
    unloads: Mutex<Vec<(String, String)>>,
}

/// Maps "0".."3" to "cache0".."cache3"; fails every load when `fail` is set
/// (with not-found), and every unload when `fail_unload` is set.
struct TestSource {
    fail: bool,
    fail_unload: AtomicBool,
    log: Arc<Log>,
}

impl CacheSource for TestSource {
    type Value = String;

    fn load(&self, id: &str, _create: bool) -> Result<String, Error> {
        self.log.loads.fetch_add(1, Ordering::SeqCst);
        if self.fail {
            return Err(Error::not_found(""));
        }
        match id.parse::<usize>() {
            Ok(i) if i < 4 => Ok(["cache0", "cache1", "cache2", "cache3"][i].to_owned()),
            _ => Err(Error::not_found("")),
        }
    }

    fn unload(&self, id: &str, obj: &String) -> Result<(), Error> {
        self.log.unloads.lock().unwrap().push((id.to_owned(), obj.clone()));
        if self.fail_unload.load(Ordering::SeqCst) {
            Err(Error::internal("unload failed"))
        } else {
            Ok(())
        }
    }

    fn remove(&self, _id: &str) -> Result<(), Error> {
        self.log.removes.fetch_add(1, Ordering::SeqCst);
        Ok(())
    }
}

type TestCache = Cache<TestSource>;

fn make_logged(capacity: usize, fail: bool) -> (TestCache, Arc<Log>) {
    let log = Arc::new(Log::default());
    let src = TestSource { fail, fail_unload: AtomicBool::new(false), log: log.clone() };
    (TestCache::new(capacity, src), log)
}

fn make_cache(fail: bool) -> TestCache {
    make_logged(3, fail).0
}

fn loads(log: &Log) -> usize {
    log.loads.load(Ordering::SeqCst)
}

fn value_of(item: &CacheItem<String>) -> String {
    item.read().ok().unwrap().unwrap().clone()
}

#[test]
fn test_cache() {
    let mut cache = make_cache(false);
    assert!(cache.get("0").is_ok());
    assert!(cache.get("1").is_ok());
    assert!(cache.get("2").is_ok());
}

#[test]
fn test_cache_failure() {
    let mut cache = make_cache(true);
    assert!(cache.get("0").is_err());
    assert!(cache.get("1").is_err());
    assert!(cache.get("2").is_err());
}

#[test]
fn test_max_cache() {
    let mut cache = make_cache(false);
    assert!(cache.len() == 0);
    assert!(cache.get("0").is_ok());
    assert!(cache.len() == 1);
    assert!(cache.get("1").is_ok());
    assert!(cache.len() == 2);
    assert!(cache.get("2").is_ok());
    assert!(cache.len() == 3);
    assert!(cache.get("3").is_ok());
    assert!(cache.len() == 3);
}

#[test]
fn test_max_cache_failure() {
    let mut cache = make_cache(true);
    assert!(cache.len() == 0);
    assert!(cache.get("0").is_err());
    assert!(cache.len() == 0);
    assert!(cache.get("1").is_err());
    assert!(cache.len() == 0);
    assert!(cache.get("2").is_err());
    assert!(cache.len() == 0);
}

#[test]
fn test_remove() {
    let mut cache = make_cache(false);
    assert!(cache.get("0").is_ok());
    assert!(cache.len() == 1);
    assert!(cache.remove("0").is_ok());
    assert!(cache.len() == 0);
    assert!(cache.remove("0").is_ok());
}

#[test]
fn capacity_is_reported() {
    let cache = make_cache(false);
    assert_eq!(cache.capacity(), 3);
    assert_eq!(cache.len(), 0);
}

#[test]
fn len_never_exceeds_capacity() {
    let (mut cache, _log) = make_logged(2, false);
    for id in ["0", "1", "2", "3", "1", "0", "9", "2"] {
        let _ = cache.get(id);
        assert!(cache.len() <= 2);
        let _ = cache.create(id);
        assert!(cache.len() <= 2);
        let _ = cache.remove(id);
        assert!(cache.len() <= 2);
    }
}

#[test]
fn get_after_get_is_a_hit_on_the_same_entry() {
    let (mut cache, log) = make_logged(3, false);
    let first = cache.get("1").ok().unwrap();
    assert_eq!(loads(&log), 1);
    let second = cache.get("1").ok().unwrap();
    assert_eq!(loads(&log), 1);
    assert!(Arc::ptr_eq(&first, &second));
    assert_eq!(value_of(&second), "cache1");
}

#[test]
fn get_after_create_is_a_hit_on_the_same_entry() {
    let (mut cache, log) = make_logged(3, false);
    let first = cache.create("2").ok().unwrap();
    let second = cache.get("2").ok().unwrap();
    assert_eq!(loads(&log), 1);
    assert!(Arc::ptr_eq(&first, &second));
}

#[test]
fn fourth_insert_evicts_the_first_and_reloads_it() {
    let (mut cache, log) = make_logged(3, false);
    assert!(cache.get("0").is_ok());
    assert!(cache.get("1").is_ok());
    assert!(cache.get("2").is_ok());
    assert_eq!(cache.len(), 3);
    assert!(cache.get("3").is_ok());
    assert_eq!(cache.len(), 3);
    assert_eq!(loads(&log), 4);
    assert!(cache.get("0").is_ok());
    assert_eq!(loads(&log), 5);
    // "1" was the least recently used when "0" came back.
    assert!(cache.get("2").is_ok());
    assert!(cache.get("3").is_ok());
    assert_eq!(loads(&log), 5);
    assert!(cache.get("1").is_ok());
    assert_eq!(loads(&log), 6);
}

#[test]
fn re_access_changes_which_entry_is_evicted() {
    let (mut cache, log) = make_logged(3, false);
    assert!(cache.get("0").is_ok());
    assert!(cache.get("1").is_ok());
    assert!(cache.get("2").is_ok());
    assert!(cache.get("0").is_ok());
    assert!(cache.get("3").is_ok());
    assert_eq!(loads(&log), 4);
    // "1" left, "0", "2" and "3" stay.
    assert!(cache.get("0").is_ok());
    assert!(cache.get("2").is_ok());
    assert!(cache.get("3").is_ok());
    assert_eq!(loads(&log), 4);
    assert!(cache.get("1").is_ok());
    assert_eq!(loads(&log), 5);
}

#[test]
fn failed_load_is_passed_through_and_changes_nothing() {
    let (mut cache, log) = make_logged(3, false);
    assert!(cache.get("0").is_ok());
    let err = cache.get("7").err().unwrap();
    assert_eq!(err.status().as_u16(), 404);
    assert_eq!(cache.len(), 1);
    let err = cache.create("8").err().unwrap();
    assert_eq!(err.status().as_u16(), 404);
    assert_eq!(cache.len(), 1);
    assert_eq!(loads(&log), 3);
    assert!(cache.get("0").is_ok());
    assert_eq!(loads(&log), 3);
}

#[test]
fn remove_of_kept_entry_skips_write_back() {
    let (mut cache, log) = make_logged(3, false);
    let item = cache.get("0").ok().unwrap();
    *item.write().ok().unwrap().unwrap() = "changed".to_owned();
    assert!(item.is_dirty());
    assert!(cache.remove("0").is_ok());
    assert_eq!(log.removes.load(Ordering::SeqCst), 1);
    assert_eq!(loads(&log), 1);
    assert!(log.unloads.lock().unwrap().is_empty());
    assert_eq!(cache.len(), 0);
    assert!(cache.get("0").is_ok());
    assert_eq!(loads(&log), 2);
}

#[test]
fn remove_of_unknown_entry_fails_without_removing() {
    let (mut cache, log) = make_logged(3, false);
    let err = cache.remove("5").err().unwrap();
    assert_eq!(err.status().as_u16(), 404);
    assert_eq!(loads(&log), 1);
    assert_eq!(log.removes.load(Ordering::SeqCst), 0);
}

#[test]
fn remove_of_stored_but_not_kept_entry_probes_then_removes() {
    let (mut cache, log) = make_logged(3, false);
    assert!(cache.remove("2").is_ok());
    assert_eq!(loads(&log), 1);
    assert_eq!(log.removes.load(Ordering::SeqCst), 1);
    assert_eq!(cache.len(), 0);
}

#[test]
fn flush_writes_back_dirty_entries_once() {
    let (mut cache, log) = make_logged(3, false);
    let a = cache.get("0").ok().unwrap();
    let _b = cache.get("1").ok().unwrap();
    let c = cache.get("2").ok().unwrap();
    *a.write().ok().unwrap().unwrap() = "new0".to_owned();
    *c.write().ok().unwrap().unwrap() = "new2".to_owned();
    cache.flush();
    assert_eq!(cache.len(), 0);
    let mut unloads = log.unloads.lock().unwrap().clone();
    unloads.sort();
    assert_eq!(
        unloads,
        vec![("0".to_owned(), "new0".to_owned()), ("2".to_owned(), "new2".to_owned())]
    );
    cache.flush();
    assert_eq!(log.unloads.lock().unwrap().len(), 2);
}

#[test]
fn flush_completes_when_write_back_fails() {
    let (mut cache, log) = make_logged(3, false);
    cache.flush();
    let a = cache.get("0").ok().unwrap();
    let b = cache.get("1").ok().unwrap();
    drop(a.write());
    drop(b.write());
    let src = TestSource { fail: false, fail_unload: AtomicBool::new(true), log: log.clone() };
    let mut failing = Cache::new(3, src);
    let c = failing.get("2").ok().unwrap();
    drop(c.write());
    failing.flush();
    assert_eq!(failing.len(), 0);
    assert_eq!(log.unloads.lock().unwrap().len(), 1);
    cache.flush();
    assert_eq!(log.unloads.lock().unwrap().len(), 3);
}

#[test]
fn eviction_writes_back_dirty_entry_with_latest_value() {
    let (mut cache, log) = make_logged(2, false);
    let a = cache.get("0").ok().unwrap();
    *a.write().ok().unwrap().unwrap() = "edited".to_owned();
    assert!(cache.get("1").is_ok());
    assert!(cache.get("2").is_ok());
    assert_eq!(
        *log.unloads.lock().unwrap(),
        vec![("0".to_owned(), "edited".to_owned())]
    );
    // The evicted entry stays usable through the handle already held.
    assert_eq!(value_of(&a), "edited");
}

#[test]
fn eviction_of_clean_entry_writes_nothing_back() {
    let (mut cache, log) = make_logged(1, false);
    assert!(cache.get("0").is_ok());
    assert!(cache.get("1").is_ok());
    assert!(log.unloads.lock().unwrap().is_empty());
    assert_eq!(cache.len(), 1);
}

#[test]
fn eviction_goes_on_when_write_back_fails() {
    let log = Arc::new(Log::default());
    let src = TestSource { fail: false, fail_unload: AtomicBool::new(true), log: log.clone() };
    let mut cache = Cache::new(1, src);
    let a = cache.get("0").ok().unwrap();
    drop(a.write());
    let b = cache.get("1").ok().unwrap();
    assert_eq!(value_of(&b), "cache1");
    assert_eq!(cache.len(), 1);
    assert_eq!(log.unloads.lock().unwrap().len(), 1);
}

#[test]
fn zero_capacity_keeps_nothing() {
    let (mut cache, log) = make_logged(0, false);
    let a = cache.get("0").ok().unwrap();
    assert_eq!(value_of(&a), "cache0");
    assert_eq!(cache.len(), 0);
    assert!(cache.get("0").is_ok());
    assert_eq!(loads(&log), 2);
    assert_eq!(cache.capacity(), 0);
}

#[test]
fn lookup_promotes_without_loading() {
    let (mut cache, log) = make_logged(2, false);
    assert!(cache.lookup("0").is_none());
    assert!(cache.get("0").is_ok());
    assert!(cache.get("1").is_ok());
    let hit = cache.lookup("0").unwrap();
    assert_eq!(value_of(&hit), "cache0");
    assert_eq!(loads(&log), 2);
    // "1" is now the least recently used.
    assert!(cache.get("2").is_ok());
    assert!(cache.lookup("1").is_none());
    assert!(cache.lookup("0").is_some());
}

#[test]
fn insert_loaded_keeps_value_or_passes_error() {
    let (mut cache, log) = make_logged(2, false);
    let err = cache.insert_loaded("x", Err(Error::not_found("none"))).err().unwrap();
    assert_eq!(err.status().as_u16(), 404);
    assert_eq!(cache.len(), 0);
    let h = cache.insert_loaded("x", Ok("given".to_owned())).ok().unwrap();
    assert_eq!(h.id(), "x");
    assert_eq!(value_of(&h), "given");
    assert_eq!(cache.len(), 1);
    let again = cache.insert_loaded("x", Ok("other".to_owned())).ok().unwrap();
    assert!(Arc::ptr_eq(&h, &again));
    assert_eq!(value_of(&again), "given");
    assert_eq!(cache.len(), 1);
    assert_eq!(loads(&log), 0);
}

#[test]
fn dumb_source_finds_nothing() {
    let mut cache: Cache<DumbCacheSource<u32>> = Cache::new(3, DumbCacheSource::new());
    let err = cache.get("0").err().unwrap();
    assert_eq!(err.status().as_u16(), 500);
    assert!(cache.create("0").is_err());
    assert_eq!(cache.len(), 0);
}

#[test]
fn item_starts_clean_and_write_marks_it_dirty() {
    let item = CacheItem::new("k", 5u32);
    assert_eq!(item.id(), "k");
    assert!(!item.is_dirty());
    assert_eq!(*item.read().ok().unwrap().unwrap(), 5);
    assert!(!item.is_dirty());
    {
        let guard = item.write().ok().unwrap().unwrap();
        assert!(item.is_dirty());
        assert_eq!(*guard, 5);
    }
    *item.write().ok().unwrap().unwrap() = 9;
    assert_eq!(*item.read().ok().unwrap().unwrap(), 9);
    assert!(item.is_dirty());
}

#[test]
fn begin_fetch_marks_a_load_and_holds_back_a_second() {
    let (mut cache, log) = make_logged(2, false);
    assert!(matches!(cache.begin_fetch("0"), Fetch::Load));
    assert!(matches!(cache.begin_fetch("0"), Fetch::Wait));
    assert_eq!(cache.len(), 0);
    assert_eq!(loads(&log), 0);
    let item = cache.finish_fetch("0", Ok("loaded".to_owned())).0.ok().unwrap();
    assert_eq!(value_of(&item), "loaded");
    assert_eq!(cache.len(), 1);
    match cache.begin_fetch("0") {
        Fetch::Hit(hit) => assert!(Arc::ptr_eq(&hit, &item)),
        _ => panic!("expected a hit"),
    }
    assert_eq!(loads(&log), 0);
}

#[test]
fn failed_fetch_clears_the_mark() {
    let (mut cache, _log) = make_logged(2, false);
    assert!(matches!(cache.begin_fetch("3"), Fetch::Load));
    let err = cache.finish_fetch("3", Err(Error::not_found("gone"))).0.err().unwrap();
    assert_eq!(err.status().as_u16(), 404);
    assert_eq!(cache.len(), 0);
    assert!(matches!(cache.begin_fetch("3"), Fetch::Load));
}

#[test]
fn failed_write_backs_are_handed_out_once() {
    let log = Arc::new(Log::default());
    let src = TestSource { fail: false, fail_unload: AtomicBool::new(true), log: log.clone() };
    let mut cache = Cache::new(1, src);
    let a = cache.get("0").ok().unwrap();
    drop(a.write());
    assert!(cache.get("1").is_ok());
    let b = cache.get("1").ok().unwrap();
    drop(b.write());
    cache.flush();
    let failures = cache.take_unload_failures();
    let ids: Vec<&str> = failures.iter().map(|f| f.0.as_str()).collect();
    assert_eq!(ids, vec!["0", "1"]);
    assert_eq!(failures[0].1.status().as_u16(), 500);
    assert!(cache.take_unload_failures().is_empty());
}

#[test]
fn successful_write_backs_report_nothing() {
    let (mut cache, log) = make_logged(1, false);
    let a = cache.get("0").ok().unwrap();
    drop(a.write());
    assert!(cache.get("1").is_ok());
    assert_eq!(log.unloads.lock().unwrap().len(), 1);
    assert!(cache.take_unload_failures().is_empty());
}

#[test]
fn unload_if_dirty_writes_only_dirty_readable_values() {
    let (mut cache, log) = make_logged(2, false);
    let v = "value".to_owned();
    assert_eq!(cache.unload_if_dirty("a", false, Some(&v)), None);
    assert_eq!(cache.unload_if_dirty("a", true, None), None);
    assert!(log.unloads.lock().unwrap().is_empty());
    assert_eq!(cache.unload_if_dirty("a", true, Some(&v)), Some(true));
    assert_eq!(*log.unloads.lock().unwrap(), vec![("a".to_owned(), "value".to_owned())]);
    let src = TestSource { fail: false, fail_unload: AtomicBool::new(true), log: log.clone() };
    let mut failing = Cache::new(1, src);
    assert_eq!(failing.unload_if_dirty("b", true, Some(&v)), Some(false));
    assert_eq!(failing.take_unload_failures().len(), 1);
}

#[test]
fn unload_dirty_value_passes_the_store_answer() {
    let log = Arc::new(Log::default());
    let src = TestSource { fail: false, fail_unload: AtomicBool::new(true), log: log.clone() };
    let v = "v".to_owned();
    assert!(unload_dirty_value(&src, "a", false, Some(&v)).is_none());
    let err = unload_dirty_value(&src, "a", true, Some(&v)).unwrap().err().unwrap();
    assert_eq!(err.status().as_u16(), 500);
    assert_eq!(log.unloads.lock().unwrap().len(), 1);
}

#[test]
fn finish_fetch_hands_back_the_evicted_entry() {
    let log = Arc::new(Log::default());
    let src = TestSource { fail: false, fail_unload: AtomicBool::new(false), log: log.clone() };
    let mut cache = Cache::new(1, src);
    assert!(matches!(cache.begin_fetch("0"), Fetch::Load));
    let (first, evicted) = cache.finish_fetch("0", Ok("zero".to_owned()));
    let first = first.ok().unwrap();
    assert!(evicted.is_none());
    *first.write().ok().unwrap().unwrap() = "edited".to_owned();
    assert!(matches!(cache.begin_fetch("1"), Fetch::Load));
    let (_second, evicted) = cache.finish_fetch("1", Ok("one".to_owned()));
    let evicted = evicted.unwrap();
    assert!(Arc::ptr_eq(&evicted, &first));
    assert!(log.unloads.lock().unwrap().is_empty());
    let src = TestSource { fail: false, fail_unload: AtomicBool::new(false), log: log.clone() };
    assert!(matches!(write_back_to(&src, &evicted), WriteBack::Written(Ok(()))));
    assert_eq!(*log.unloads.lock().unwrap(), vec![("0".to_owned(), "edited".to_owned())]);
    let clean = CacheItem::new("c", "x".to_owned());
    assert!(matches!(write_back_to(&src, &clean), WriteBack::Skipped));
}

#[test]
fn enter_loaded_defers_the_write_back() {
    let (mut cache, log) = make_logged(1, false);
    let (a, none) = cache.enter_loaded("a", Ok("A".to_owned()));
    assert!(none.is_none());
    let a = a.ok().unwrap();
    drop(a.write());
    let (b, evicted) = cache.enter_loaded("b", Ok("B".to_owned()));
    assert_eq!(value_of(&b.ok().unwrap()), "B");
    assert_eq!(evicted.unwrap().id(), "a");
    assert!(log.unloads.lock().unwrap().is_empty());
    assert_eq!(cache.len(), 1);
}

#[test]
fn flush_tries_every_dirty_entry_when_all_fail() {
    let log = Arc::new(Log::default());
    let src = TestSource { fail: false, fail_unload: AtomicBool::new(true), log: log.clone() };
    let mut cache = Cache::new(3, src);
    for id in ["0", "1", "2"] {
        let item = cache.get(id).ok().unwrap();
        drop(item.write());
    }
    cache.flush();
    let mut ids: Vec<String> = log.unloads.lock().unwrap().iter().map(|u| u.0.clone()).collect();
    ids.sort();
    assert_eq!(ids, vec!["0", "1", "2"]);
    assert_eq!(cache.take_unload_failures().len(), 3);
}

#[test]
fn access_to_a_held_entry_is_busy_not_blocked() {
    let item = CacheItem::new("k", 1u32);
    let guard = item.write().ok().unwrap().unwrap();
    assert!(item.read().ok().unwrap().is_none());
    assert!(item.write().ok().unwrap().is_none());
    drop(guard);
    let shared = item.read().ok().unwrap().unwrap();
    assert!(item.read().ok().unwrap().is_some());
    assert!(item.write().ok().unwrap().is_none());
    drop(shared);
    assert!(item.write().ok().unwrap().is_some());
}

#[test]
fn eviction_of_a_held_dirty_entry_is_deferred() {
    let (mut cache, log) = make_logged(1, false);
    let a = cache.get("0").ok().unwrap();
    let mut guard = a.write().ok().unwrap().unwrap();
    *guard = "held".to_owned();
    assert!(cache.get("1").is_ok());
    assert_eq!(cache.len(), 1);
    assert!(log.unloads.lock().unwrap().is_empty());
    let deferred = cache.take_deferred();
    assert_eq!(deferred.len(), 1);
    assert!(Arc::ptr_eq(&deferred[0], &a));
    let src = TestSource { fail: false, fail_unload: AtomicBool::new(false), log: log.clone() };
    assert!(matches!(write_back_to(&src, &deferred[0]), WriteBack::Busy));
    drop(guard);
    assert!(matches!(write_back_to(&src, &deferred[0]), WriteBack::Written(Ok(()))));
    assert_eq!(*log.unloads.lock().unwrap(), vec![("0".to_owned(), "held".to_owned())]);
    assert!(cache.take_deferred().is_empty());
}

#[test]
fn flush_defers_held_entries_and_writes_the_rest() {
    let (mut cache, log) = make_logged(3, false);
    let a = cache.get("0").ok().unwrap();
    let b = cache.get("1").ok().unwrap();
    drop(a.write());
    let guard = b.write().ok().unwrap().unwrap();
    cache.flush();
    assert_eq!(cache.len(), 0);
    let unloads = log.unloads.lock().unwrap().clone();
    assert_eq!(unloads, vec![("0".to_owned(), "cache0".to_owned())]);
    let deferred = cache.take_deferred();
    assert_eq!(deferred.len(), 1);
    assert_eq!(deferred[0].id(), "1");
    drop(guard);
}

#[test]
fn two_step_remove_of_kept_entry() {
    let (mut cache, log) = make_logged(3, false);
    assert!(cache.get("0").is_ok());
    assert!(cache.begin_remove("0"));
    assert_eq!(cache.len(), 0);
    assert_eq!(log.removes.load(Ordering::SeqCst), 0);
    let src = TestSource { fail: false, fail_unload: AtomicBool::new(false), log: log.clone() };
    assert!(remove_from_store(&src, "0", true).is_ok());
    assert_eq!(log.removes.load(Ordering::SeqCst), 1);
    assert_eq!(loads(&log), 1);
}

#[test]
fn two_step_remove_probes_an_entry_not_kept() {
    let (mut cache, log) = make_logged(3, false);
    assert!(!cache.begin_remove("9"));
    let src = TestSource { fail: false, fail_unload: AtomicBool::new(false), log: log.clone() };
    let err = remove_from_store(&src, "9", false).err().unwrap();
    assert_eq!(err.status().as_u16(), 404);
    assert_eq!(log.removes.load(Ordering::SeqCst), 0);
    assert!(remove_from_store(&src, "2", false).is_ok());
    assert_eq!(log.removes.load(Ordering::SeqCst), 1);
    assert_eq!(loads(&log), 2);
}
