//! The executor against the store and the lock table, with a chosen clock.

use minicache::executor::{execute_at, is_expired, insert_key, ExecError};
use minicache::instruction::Instruction;
use minicache::store::{DBItem, LockManager, Store};

fn put(key: &str, expiry: u128, data: &[u8]) -> Instruction {
    Instruction::Put {
        key: key.to_string(),
        expiry,
        data_size: data.len(),
        data: data.to_vec(),
    }
}

fn get(key: &str) -> Instruction {
    Instruction::Get { key: key.to_string() }
}

#[test]
fn set_stores_and_couples_lock_entry() {
    let mut store = Store::new();
    let mut locks = LockManager::new();
    let r = execute_at(put("a", 0, b"v"), &mut store, &mut locks, 5);
    assert_eq!(r.unwrap(), "STORED");
    assert!(store.contains_key(&"a".to_string()));
    assert!(locks.contains_key(&"a".to_string()));
    let item = store.get(&"a".to_string()).unwrap();
    assert_eq!(item.expiry_secs, 0);
    assert_eq!(item.expiry_timestamp, 0);
    assert_eq!(item.value, b"v".to_vec());
}

#[test]
fn set_computes_absolute_expiry() {
    let mut store = Store::new();
    let mut locks = LockManager::new();
    execute_at(put("a", 7, b"v"), &mut store, &mut locks, 1_000).unwrap();
    let item = store.get(&"a".to_string()).unwrap();
    assert_eq!(item.expiry_secs, 7);
    assert_eq!(item.expiry_timestamp, 1_000 + 7_000);
}

#[test]
fn huge_ttl_saturates_instead_of_overflowing() {
    let mut store = Store::new();
    let mut locks = LockManager::new();
    execute_at(put("a", u128::MAX, b"v"), &mut store, &mut locks, 1_000).unwrap();
    let item = store.get(&"a".to_string()).unwrap();
    assert_eq!(item.expiry_timestamp, u128::MAX);
    assert!(!is_expired(&item, u128::MAX));
}

#[test]
fn get_expired_deletes_from_both_maps() {
    let mut store = Store::new();
    let mut locks = LockManager::new();
    execute_at(put("a", 1, b"v"), &mut store, &mut locks, 1_000).unwrap();
    let r = execute_at(get("a"), &mut store, &mut locks, 2_001);
    assert_eq!(r.unwrap_err(), ExecError::NotFound);
    assert!(!store.contains_key(&"a".to_string()));
    assert!(!locks.contains_key(&"a".to_string()));
}

#[test]
fn get_at_exact_expiry_is_still_fresh() {
    let mut store = Store::new();
    let mut locks = LockManager::new();
    execute_at(put("a", 1, b"v"), &mut store, &mut locks, 1_000).unwrap();
    let r = execute_at(get("a"), &mut store, &mut locks, 2_000);
    assert_eq!(r.unwrap(), "VALUE a 1 1 \n\rv \n\rEND");
}

#[test]
fn get_formats_non_utf8_value_as_object() {
    let mut store = Store::new();
    let mut locks = LockManager::new();
    execute_at(put("a", 0, &[0xff, 0xfe]), &mut store, &mut locks, 0).unwrap();
    let r = execute_at(get("a"), &mut store, &mut locks, 0);
    assert_eq!(r.unwrap(), "VALUE a 0 2 \n\r[object] \n\rEND");
}

#[test]
fn add_succeeds_on_expired_key() {
    let mut store = Store::new();
    let mut locks = LockManager::new();
    execute_at(put("a", 1, b"old"), &mut store, &mut locks, 1_000).unwrap();
    let ins = Instruction::Add {
        key: "a".to_string(),
        expiry: 0,
        data_size: 3,
        data: b"new".to_vec(),
    };
    let r = execute_at(ins, &mut store, &mut locks, 3_000);
    assert_eq!(r.unwrap(), "STORED");
    assert_eq!(store.get(&"a".to_string()).unwrap().value, b"new".to_vec());
}

#[test]
fn append_and_prepend_keep_expiry_fields() {
    let mut store = Store::new();
    let mut locks = LockManager::new();
    execute_at(put("a", 9, b"mid"), &mut store, &mut locks, 1_000).unwrap();
    let app = Instruction::Append {
        key: "a".to_string(),
        expiry: 5,
        data_size: 3,
        data: b"end".to_vec(),
    };
    execute_at(app, &mut store, &mut locks, 1_500).unwrap();
    let pre = Instruction::Prepend {
        key: "a".to_string(),
        expiry: 3,
        data_size: 3,
        data: b"pre".to_vec(),
    };
    execute_at(pre, &mut store, &mut locks, 1_800).unwrap();
    let item = store.get(&"a".to_string()).unwrap();
    assert_eq!(item.value, b"premidend".to_vec());
    assert_eq!(item.expiry_secs, 9);
    assert_eq!(item.expiry_timestamp, 1_000 + 9_000);
}

#[test]
fn append_to_expired_key_deletes_it() {
    let mut store = Store::new();
    let mut locks = LockManager::new();
    execute_at(put("a", 1, b"v"), &mut store, &mut locks, 1_000).unwrap();
    let ins = Instruction::Append {
        key: "a".to_string(),
        expiry: 0,
        data_size: 1,
        data: b"x".to_vec(),
    };
    let r = execute_at(ins, &mut store, &mut locks, 9_999);
    assert_eq!(r.unwrap_err(), ExecError::NotStored);
    assert!(!store.contains_key(&"a".to_string()));
    assert!(!locks.contains_key(&"a".to_string()));
}

#[test]
fn replace_on_expired_key_refuses() {
    let mut store = Store::new();
    let mut locks = LockManager::new();
    execute_at(put("a", 1, b"v"), &mut store, &mut locks, 1_000).unwrap();
    let ins = Instruction::Replace {
        key: "a".to_string(),
        expiry: 0,
        data_size: 1,
        data: b"x".to_vec(),
    };
    let r = execute_at(ins, &mut store, &mut locks, 9_999);
    assert_eq!(r.unwrap_err(), ExecError::NotStored);
    // the expired entry stays: replace does not delete
    assert!(store.contains_key(&"a".to_string()));
}

#[test]
fn insert_key_replies_stored() {
    let mut store = Store::new();
    let mut locks = LockManager::new();
    let r = insert_key("k".to_string(), 2, b"v".to_vec(), &mut store, &mut locks, 100);
    assert_eq!(r.unwrap(), "STORED");
    let item = store.get(&"k".to_string()).unwrap();
    assert_eq!(item.expiry_timestamp, 2_100);
}

#[test]
fn is_expired_boundaries() {
    let item = DBItem { expiry_timestamp: 0, expiry_secs: 0, value: Vec::new() };
    assert!(!is_expired(&item, u128::MAX));
    let item = DBItem { expiry_timestamp: 100, expiry_secs: 1, value: Vec::new() };
    assert!(!is_expired(&item, 100));
    assert!(is_expired(&item, 101));
}

#[test]
fn exec_error_messages() {
    assert_eq!(ExecError::NotStored.message(), "NOT_STORED");
    assert_eq!(ExecError::NotFound.message(), "END");
    assert_eq!(ExecError::TimeError.message(), "TIME ERROR");
}

#[test]
fn execute_uses_wall_clock() {
    let mut store = Store::new();
    let mut locks = LockManager::new();
    let r = minicache::executor::execute(put("a", 0, b"v"), &mut store, &mut locks);
    assert_eq!(r.unwrap(), "STORED");
    let r = minicache::executor::execute(get("a"), &mut store, &mut locks);
    assert_eq!(r.unwrap(), "VALUE a 0 1 \n\rv \n\rEND");
}

#[test]
fn set_overwrites_existing_entry() {
    let mut store = Store::new();
    let mut locks = LockManager::new();
    execute_at(put("a", 5, b"one"), &mut store, &mut locks, 1_000).unwrap();
    execute_at(put("a", 0, b"two"), &mut store, &mut locks, 2_000).unwrap();
    assert_eq!(store.len(), 1);
    let item = store.get(&"a".to_string()).unwrap();
    assert_eq!(item.value, b"two".to_vec());
    assert_eq!(item.expiry_secs, 0);
    assert_eq!(item.expiry_timestamp, 0);
}
