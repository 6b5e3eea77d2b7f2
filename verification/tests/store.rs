use std::collections::BTreeSet;
use std::sync::{Arc, Mutex};
use user_service::store::{Store, UserData};

fn lowest_missing(live: &BTreeSet<usize>) -> usize {
    let mut h = 0;
    while live.contains(&h) {
        h += 1;
    }
    h
}

#[test]
fn new_store_is_empty() {
    let store = Store::new();
    assert_eq!(store.list_handles(), Vec::<usize>::new());
    assert_eq!(store.get(0), None);
}

#[test]
fn handles_count_up_from_zero() {
    let mut store = Store::new();
    assert_eq!(store.insert(UserData), 0);
    assert_eq!(store.insert(UserData), 1);
    assert_eq!(store.insert(UserData), 2);
    assert_eq!(store.list_handles(), vec![0, 1, 2]);
}

#[test]
fn get_finds_live_records_only() {
    let mut store = Store::new();
    let h = store.insert(UserData);
    assert_eq!(store.get(h), Some(&UserData));
    assert_eq!(store.get(h + 1), None);
    assert_eq!(store.get(usize::MAX), None);
    assert!(store.remove(h));
    assert_eq!(store.get(h), None);
}

#[test]
fn record_text_is_a_pair_of_braces() {
    assert_eq!(UserData.text(), b"{}".to_vec());
}

#[test]
fn freed_handle_is_reused() {
    let mut store = Store::new();
    let h = store.insert(UserData);
    assert!(store.remove(h));
    assert_eq!(store.insert(UserData), h);
}

#[test]
fn lowest_free_handle_comes_first() {
    let mut store = Store::new();
    for _ in 0..3 {
        store.insert(UserData);
    }
    assert!(store.remove(0));
    assert!(store.remove(1));
    assert_eq!(store.insert(UserData), 0);
    assert_eq!(store.insert(UserData), 1);
    assert_eq!(store.insert(UserData), 3);
}

#[test]
fn order_of_removal_does_not_matter() {
    let mut store = Store::new();
    for _ in 0..10 {
        store.insert(UserData);
    }
    for h in [7, 2, 5, 9, 0] {
        assert!(store.remove(h));
    }
    assert_eq!(store.list_handles(), vec![1, 3, 4, 6, 8]);
    for expected in [0, 2, 5, 7, 9, 10, 11] {
        assert_eq!(store.insert(UserData), expected);
    }
    assert_eq!(store.list_handles(), (0..12).collect::<Vec<usize>>());
}

#[test]
fn emptied_store_starts_over() {
    let mut store = Store::new();
    for _ in 0..4 {
        store.insert(UserData);
    }
    for h in [1, 3, 0, 2] {
        assert!(store.remove(h));
    }
    assert_eq!(store.list_handles(), Vec::<usize>::new());
    assert_eq!(store.insert(UserData), 0);
    assert_eq!(store.insert(UserData), 1);
}

#[test]
fn new_handle_never_collides() {
    let mut store = Store::new();
    for _ in 0..5 {
        store.insert(UserData);
    }
    assert!(store.remove(3));
    let before = store.list_handles();
    let h = store.insert(UserData);
    assert_eq!(h, 3);
    assert!(!before.contains(&h));
    assert_eq!(store.list_handles(), vec![0, 1, 2, 3, 4]);
}

#[test]
fn remove_twice() {
    let mut store = Store::new();
    store.insert(UserData);
    let h = store.insert(UserData);
    store.insert(UserData);
    assert!(store.remove(h));
    let after_first = store.list_handles();
    assert!(!store.remove(h));
    assert_eq!(store.list_handles(), after_first);
    assert_eq!(after_first, vec![0, 2]);
    assert_eq!(store.insert(UserData), h);
}

#[test]
fn remove_of_unknown_handle_changes_nothing() {
    let mut store = Store::new();
    assert!(!store.remove(0));
    store.insert(UserData);
    assert!(!store.remove(1));
    assert!(!store.remove(usize::MAX));
    assert_eq!(store.list_handles(), vec![0]);
    assert_eq!(store.insert(UserData), 1);
}

#[test]
fn update_of_live_handle() {
    let mut store = Store::new();
    let h = store.insert(UserData);
    assert!(store.update(h, UserData));
    assert_eq!(store.get(h), Some(&UserData));
    assert_eq!(store.list_handles(), vec![h]);
}

#[test]
fn update_of_dead_handle_creates_nothing() {
    let mut store = Store::new();
    assert!(!store.update(0, UserData));
    assert_eq!(store.get(0), None);
    assert_eq!(store.list_handles(), Vec::<usize>::new());
    store.insert(UserData);
    store.insert(UserData);
    assert!(store.remove(0));
    assert!(!store.update(0, UserData));
    assert!(!store.update(5, UserData));
    assert_eq!(store.list_handles(), vec![1]);
    assert_eq!(store.insert(UserData), 0);
}

#[test]
fn listing_is_ascending() {
    let mut store = Store::new();
    for _ in 0..6 {
        store.insert(UserData);
    }
    assert!(store.remove(4));
    assert!(store.remove(1));
    assert_eq!(store.list_handles(), vec![0, 2, 3, 5]);
    store.insert(UserData);
    assert_eq!(store.list_handles(), vec![0, 1, 2, 3, 5]);
}

#[test]
fn listing_follows_inserts_and_removes() {
    let mut store = Store::new();
    let mut live = BTreeSet::new();
    let mut seed: u64 = 0x9e3779b97f4a7c15;
    for _ in 0..2000 {
        seed = seed.wrapping_mul(6364136223846793005).wrapping_add(1442695040888963407);
        let choice = (seed >> 33) % 5;
        let target = ((seed >> 40) % 24) as usize;
        if choice < 2 {
            let expected = lowest_missing(&live);
            assert_eq!(store.insert(UserData), expected);
            assert!(live.insert(expected));
        } else if choice < 4 {
            assert_eq!(store.remove(target), live.remove(&target));
        } else {
            assert_eq!(store.update(target, UserData), live.contains(&target));
        }
        assert_eq!(store.list_handles(), live.iter().copied().collect::<Vec<usize>>());
    }
}

#[test]
fn interleaved_callers_get_distinct_handles() {
    let store = Arc::new(Mutex::new(Store::new()));
    store.lock().unwrap().insert(UserData);
    store.lock().unwrap().insert(UserData);
    store.lock().unwrap().insert(UserData);
    assert!(store.lock().unwrap().remove(1));
    let callers: Vec<Arc<Mutex<Store>>> = (0..8).map(|_| Arc::clone(&store)).collect();
    let each = 50;
    let mut handed_out = Vec::new();
    for _ in 0..each {
        for caller in &callers {
            handed_out.push(caller.lock().unwrap().insert(UserData));
        }
    }
    assert_eq!(handed_out.len(), callers.len() * each);
    let distinct: BTreeSet<usize> = handed_out.iter().copied().collect();
    assert_eq!(distinct.len(), handed_out.len());
    assert!(!distinct.contains(&0));
    assert!(distinct.contains(&1));
    assert!(!distinct.contains(&2));
    assert_eq!(
        store.lock().unwrap().list_handles(),
        (0..handed_out.len() + 2).collect::<Vec<usize>>()
    );
}
