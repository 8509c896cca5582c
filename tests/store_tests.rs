use std::cell::RefCell;
use std::rc::Rc;

use ferris_db::error::FerrisError;
use ferris_db::persistence::{PersistedEntry, Persistence};
use ferris_db::store::{now_nanos, Store};

const SEC: u128 = 1_000_000_000;

#[derive(Clone, Default)]
struct MemoryGateway {
    saved: Rc<RefCell<Option<Vec<PersistedEntry>>>>,
    saves: Rc<RefCell<usize>>,
}

impl Persistence for MemoryGateway {
    fn save(&self, data: &Vec<PersistedEntry>) -> Result<(), FerrisError> {
        *self.saved.borrow_mut() = Some(data.clone());
        *self.saves.borrow_mut() += 1;
        Ok(())
    }

    fn load(&self) -> Result<Vec<PersistedEntry>, FerrisError> {
        match &*self.saved.borrow() {
            Some(v) => Ok(v.clone()),
            None => Err(FerrisError::Persistence("nothing saved".to_string())),
        }
    }
}

struct FailingGateway;

impl Persistence for FailingGateway {
    fn save(&self, _data: &Vec<PersistedEntry>) -> Result<(), FerrisError> {
        Err(FerrisError::Persistence("disk full".to_string()))
    }

    fn load(&self) -> Result<Vec<PersistedEntry>, FerrisError> {
        Err(FerrisError::Persistence("no file".to_string()))
    }
}

fn empty_store() -> (Store<MemoryGateway>, MemoryGateway) {
    let g = MemoryGateway::default();
    (Store::new(g.clone()), g)
}

fn msg<T>(r: Result<T, FerrisError>) -> String {
    match r {
        Ok(_) => panic!("expected an error"),
        Err(e) => e.message(),
    }
}

#[test]
fn get_of_unset_key_fails_with_key_not_found() {
    let (store, _) = empty_store();
    match store.get("nothing") {
        Err(FerrisError::KeyNotFound(k)) => assert_eq!(k, "nothing"),
        _ => panic!("expected KeyNotFound"),
    }
}

#[test]
fn set_then_get_returns_value_with_and_without_ttl() {
    let (mut store, g) = empty_store();
    assert!(store.set("a".to_string(), "one".to_string(), None).is_ok());
    assert!(store.set("b".to_string(), "two".to_string(), Some(30)).is_ok());
    assert_eq!(store.get("a").unwrap(), "one");
    assert_eq!(store.get("b").unwrap(), "two");
    assert_eq!(*g.saves.borrow(), 2);
}

#[test]
fn second_set_fails_with_key_exists_and_keeps_first_value() {
    let (mut store, _) = empty_store();
    store.set("k".to_string(), "v1".to_string(), None).unwrap();
    match store.set("k".to_string(), "v2".to_string(), Some(5)) {
        Err(FerrisError::KeyExists(k)) => assert_eq!(k, "k"),
        _ => panic!("expected KeyExists"),
    }
    assert_eq!(store.get("k").unwrap(), "v1");
    assert_eq!(store.ttl_at("k", 0).unwrap(), None);
}

#[test]
fn rename_moves_value_and_expiry() {
    let (mut store, _) = empty_store();
    store.set_at("a".to_string(), "va".to_string(), Some(100), 5 * SEC).unwrap();
    store.rename("a".to_string(), "b".to_string()).unwrap();
    assert!(matches!(store.get("a"), Err(FerrisError::KeyNotFound(_))));
    assert_eq!(store.get("b").unwrap(), "va");
    assert_eq!(store.ttl_at("b", 5 * SEC).unwrap(), Some(100));
    assert_eq!(store.count(), 1);
}

#[test]
fn rename_errors() {
    let (mut store, _) = empty_store();
    store.set("a".to_string(), "1".to_string(), None).unwrap();
    store.set("b".to_string(), "2".to_string(), None).unwrap();
    assert_eq!(msg(store.rename("x".to_string(), "y".to_string())), "key 'x' not found");
    assert_eq!(msg(store.rename("a".to_string(), "b".to_string())), "key 'b' already exists");
    assert_eq!(msg(store.rename("a".to_string(), "a".to_string())), "key 'a' already exists");
    assert_eq!(store.get("a").unwrap(), "1");
    assert_eq!(store.get("b").unwrap(), "2");
}

#[test]
fn expire_zero_then_ttl_is_zero() {
    let (mut store, _) = empty_store();
    store.set("k".to_string(), "v".to_string(), None).unwrap();
    store.expire("k".to_string(), 0).unwrap();
    assert_eq!(store.ttl("k").unwrap(), Some(0));
    store.expire_at("k".to_string(), 0, 7 * SEC).unwrap();
    assert_eq!(store.ttl_at("k", 7 * SEC).unwrap(), Some(0));
    assert_eq!(store.ttl_at("k", 9 * SEC).unwrap(), Some(0));
}

#[test]
fn expire_of_missing_key_fails() {
    let (mut store, _) = empty_store();
    assert_eq!(msg(store.expire("m".to_string(), 3)), "key 'm' not found");
    assert_eq!(msg(store.ttl("m")), "key 'm' not found");
    assert_eq!(msg(store.delete("m")), "key 'm' not found");
}

#[test]
fn ttl_reports_whole_seconds_left() {
    let (mut store, _) = empty_store();
    store.set_at("k".to_string(), "v".to_string(), Some(10), 0).unwrap();
    assert_eq!(store.ttl_at("k", 0).unwrap(), Some(10));
    assert_eq!(store.ttl_at("k", 1).unwrap(), Some(9));
    assert_eq!(store.ttl_at("k", 3 * SEC + SEC / 2).unwrap(), Some(6));
    assert_eq!(store.ttl_at("k", 10 * SEC).unwrap(), Some(0));
    assert_eq!(store.ttl_at("k", 50 * SEC).unwrap(), Some(0));
}

#[test]
fn expired_key_is_still_present() {
    let (mut store, _) = empty_store();
    store.set_at("k".to_string(), "v".to_string(), Some(1), 0).unwrap();
    assert_eq!(store.ttl_at("k", 100 * SEC).unwrap(), Some(0));
    assert_eq!(store.get("k").unwrap(), "v");
    assert_eq!(store.count(), 1);
    assert_eq!(store.keys().len(), 1);
}

#[test]
fn expire_replaces_permanent_with_expiring() {
    let (mut store, _) = empty_store();
    store.set("k".to_string(), "v".to_string(), None).unwrap();
    assert_eq!(store.ttl("k").unwrap(), None);
    store.expire_at("k".to_string(), 42, 0).unwrap();
    assert_eq!(store.ttl_at("k", 0).unwrap(), Some(42));
    assert_eq!(store.get("k").unwrap(), "v");
}

#[test]
fn largest_ttl_is_capped() {
    let (mut store, _) = empty_store();
    store.set_at("k".to_string(), "v".to_string(), Some(u64::MAX), 5 * SEC).unwrap();
    assert_eq!(store.ttl_at("k", 5 * SEC).unwrap(), Some(u64::MAX - 5));
}

#[test]
fn delete_removes_key() {
    let (mut store, g) = empty_store();
    store.set("k".to_string(), "v".to_string(), None).unwrap();
    store.delete("k").unwrap();
    assert!(matches!(store.get("k"), Err(FerrisError::KeyNotFound(_))));
    assert_eq!(store.count(), 0);
    assert_eq!(*g.saves.borrow(), 2);
}

#[test]
fn clear_then_count_is_zero_and_keys_empty() {
    let (mut store, g) = empty_store();
    store.clear().unwrap();
    assert_eq!(store.count(), 0);
    for k in ["x", "y", "z"] {
        store.set(k.to_string(), "v".to_string(), None).unwrap();
    }
    assert_eq!(store.count(), 3);
    store.clear().unwrap();
    assert_eq!(store.count(), 0);
    assert!(store.keys().is_empty());
    assert_eq!(*g.saves.borrow(), 5);
    assert_eq!(g.saved.borrow().as_ref().unwrap().len(), 0);
}

#[test]
fn keys_lists_each_key_once() {
    let (mut store, _) = empty_store();
    for k in ["b", "a", "c"] {
        store.set(k.to_string(), "v".to_string(), None).unwrap();
    }
    let mut ks: Vec<String> = store.keys().into_iter().cloned().collect();
    ks.sort();
    assert_eq!(ks, vec!["a".to_string(), "b".to_string(), "c".to_string()]);
}

#[test]
fn round_trip_through_gateway() {
    let (mut store, g) = empty_store();
    store.set_at("a".to_string(), "hello".to_string(), Some(5), 1_000 * SEC + 700_000_000).unwrap();
    store.set("b".to_string(), "world".to_string(), None).unwrap();
    store.set_at("c".to_string(), "x y".to_string(), Some(0), 3 * SEC).unwrap();
    let saved = g.saved.borrow().clone().unwrap();
    assert_eq!(saved, store.snapshot());
    let reloaded = Store::new(g.clone());
    assert_eq!(reloaded.count(), 3);
    assert_eq!(reloaded.get("a").unwrap(), "hello");
    assert_eq!(reloaded.get("b").unwrap(), "world");
    assert_eq!(reloaded.get("c").unwrap(), "x y");
    let mut again = reloaded.snapshot();
    let mut before = store.snapshot();
    again.sort_by(|x, y| x.key.cmp(&y.key));
    before.sort_by(|x, y| x.key.cmp(&y.key));
    assert_eq!(again, before);
    let a = before.iter().find(|e| e.key == "a").unwrap();
    assert_eq!(a.ttl, Some(1_005));
    assert_eq!(reloaded.ttl_at("b", 0).unwrap(), None);
    assert_eq!(reloaded.ttl_at("a", 1_000 * SEC).unwrap(), Some(5));
}

#[test]
fn failed_load_starts_empty() {
    let store = Store::new(FailingGateway);
    assert_eq!(store.count(), 0);
    let store = Store::from_loaded(FailingGateway, Err(FerrisError::Persistence("corrupt".to_string())));
    assert_eq!(store.count(), 0);
}

#[test]
fn later_loaded_entry_replaces_earlier() {
    let entries = vec![
        PersistedEntry { key: "k".to_string(), value: "old".to_string(), ttl: None },
        PersistedEntry { key: "j".to_string(), value: "other".to_string(), ttl: Some(3) },
        PersistedEntry { key: "k".to_string(), value: "new".to_string(), ttl: Some(2) },
    ];
    let store = Store::from_loaded(FailingGateway, Ok(entries));
    assert_eq!(store.count(), 2);
    assert_eq!(store.get("k").unwrap(), "new");
    assert_eq!(store.ttl_at("k", 0).unwrap(), Some(2));
    assert_eq!(store.ttl_at("j", SEC).unwrap(), Some(2));
}

#[test]
fn persistence_failure_keeps_mutation() {
    let mut store = Store::new(FailingGateway);
    let r = store.set("k".to_string(), "v".to_string(), None);
    assert_eq!(msg(r), "persistence error: disk full");
    assert_eq!(store.get("k").unwrap(), "v");
    assert!(matches!(store.clear(), Err(FerrisError::Persistence(_))));
    assert_eq!(store.count(), 0);
}

#[test]
fn clock_reads_after_epoch() {
    assert!(now_nanos() > 1_500_000_000 * SEC);
}
