//! The sweeper tick: eviction of expired keys, the sample budget, and the
//! repeat signal.

use minicache::cleaner::{clean, CLEANUP_GAP};
use minicache::error::CleanupError;
use minicache::executor::execute_at;
use minicache::instruction::Instruction;
use minicache::store::{LockManager, Store};

fn fill(store: &mut Store, locks: &mut LockManager, n: usize, expiry: u128, now_ms: u128) {
    for k in 0..n {
        let key = format!("key{}", k);
        let ins = Instruction::Put {
            key,
            expiry,
            data_size: 1,
            data: b"v".to_vec(),
        };
        execute_at(ins, store, locks, now_ms).unwrap();
    }
}

#[test]
fn tick_removes_expired_keys_from_both_maps() {
    let mut store = Store::new();
    let mut locks = LockManager::new();
    // 5 keys, all with a 1-second TTL: the budget is 0, so every expired
    // key is gathered, and the tick asks to repeat.
    fill(&mut store, &mut locks, 5, 1, 1_000);
    let r = clean(&mut store, &mut locks, 10_000);
    assert!(matches!(r, Err(CleanupError::NeedToRepeat)));
    assert_eq!(store.len(), 0);
    for k in 0..5 {
        assert!(!locks.contains_key(&format!("key{}", k)));
    }
}

#[test]
fn tick_leaves_fresh_keys_alone() {
    let mut store = Store::new();
    let mut locks = LockManager::new();
    fill(&mut store, &mut locks, 8, 0, 1_000);
    let r = clean(&mut store, &mut locks, u128::MAX);
    assert!(r.is_ok());
    assert_eq!(store.len(), 8);
}

#[test]
fn tick_with_nothing_expired_sleeps_again() {
    let mut store = Store::new();
    let mut locks = LockManager::new();
    fill(&mut store, &mut locks, 40, 100, 1_000);
    let r = clean(&mut store, &mut locks, 2_000);
    assert!(r.is_ok());
    assert_eq!(store.len(), 40);
}

#[test]
fn tick_stops_at_the_sample_budget() {
    let mut store = Store::new();
    let mut locks = LockManager::new();
    // 40 keys, all expired: the budget is 4, so exactly 4 leave, and the
    // tick asks to repeat (4 > 4 / 4).
    fill(&mut store, &mut locks, 40, 1, 1_000);
    let r = clean(&mut store, &mut locks, 60_000);
    assert!(matches!(r, Err(CleanupError::NeedToRepeat)));
    assert_eq!(store.len(), 36);
}

#[test]
fn repeat_threshold_is_a_quarter_of_the_budget() {
    let mut store = Store::new();
    let mut locks = LockManager::new();
    // 40 fresh keys and 1 expired: the budget is 4 and one key leaves,
    // which does not exceed 4 / 4 = 1, so no repeat.
    fill(&mut store, &mut locks, 40, 0, 1_000);
    let ins = Instruction::Put {
        key: "dying".to_string(),
        expiry: 1,
        data_size: 1,
        data: b"v".to_vec(),
    };
    execute_at(ins, &mut store, &mut locks, 1_000).unwrap();
    let r = clean(&mut store, &mut locks, 60_000);
    assert!(r.is_ok());
    assert_eq!(store.len(), 40);
    assert!(!store.contains_key(&"dying".to_string()));
}

#[test]
fn cleanup_error_message() {
    assert_eq!(CleanupError::NeedToRepeat.message(), "NEED TO REPEAT");
    assert_eq!(CLEANUP_GAP, 10);
}
