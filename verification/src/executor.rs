//! Executing one command against the store and the lock table.
//!
//! [`spec_execute`] is the semantics: for every command it gives the store
//! and lock table afterwards and the reply line. [`execute_at`] is proved
//! against it for an arbitrary clock reading, and [`execute`] reads the
//! clock and applies it.
//!
//! The store hands out snapshots rather than borrowed references, so an
//! expired-on-read entry is deleted with direct `remove` calls; no borrow
//! into a shard is held at that point.

use vstd::prelude::*;
use vstd::string::*;
use vstd::utf8::{valid_utf8, decode_utf8};
use crate::instruction::{Instruction, InstructionModel};
use crate::store::{Store, LockManager, DBItem, store_contents, lock_keys};
use crate::text::{dec_str, u128_to_string, bytes_to_string};
use crate::clock::now_millis;

verus! {

/// The model of one stored entry:
/// `(expiry_timestamp, expiry_secs, value)`.
pub type ItemModel = (u128, u128, Seq<u8>);

/// The absolute expiry of an entry, in ms since the Unix epoch; 0 means
/// the entry never expires.
pub open spec fn item_expiry_at(it: ItemModel) -> u128 {
    it.0
}

/// The TTL in seconds the client gave; 0 means "never expires".
pub open spec fn item_expiry_secs(it: ItemModel) -> u128 {
    it.1
}

/// The stored byte value.
pub open spec fn item_value(it: ItemModel) -> Seq<u8> {
    it.2
}

/// An entry is expired when its absolute expiry is nonzero and `now_ms`
/// lies strictly past it.
pub open spec fn spec_is_expired(expiry_timestamp: u128, now_ms: u128) -> bool {
    now_ms > expiry_timestamp && expiry_timestamp != 0
}

/// Well-formedness of the shared state: the store and the lock table hold
/// exactly the same keys, and an entry's absolute expiry is 0 exactly when
/// its client TTL was 0.
pub open spec fn wf_state(store: Map<Seq<char>, ItemModel>, locks: Set<Seq<char>>) -> bool {
    &&& store.dom() == locks
    &&& store.dom().finite()
    &&& forall|k: Seq<char>|
        store.dom().contains(k) ==> ((item_expiry_secs(#[trigger] store[k]) == 0) <==> (
        item_expiry_at(store[k]) == 0))
}

/// The absolute expiry computed at insert: `now_ms + expiry * 1000`,
/// saturated at `u128::MAX`, or 0 when the client TTL is 0.
pub open spec fn spec_expiry_at(expiry: u128, now_ms: u128) -> u128 {
    if expiry == 0 {
        0
    } else if now_ms + expiry * 1000 > u128::MAX {
        u128::MAX
    } else {
        (now_ms + expiry * 1000) as u128
    }
}

/// The entry a storage command writes at time `now_ms`.
pub open spec fn spec_new_item(expiry: u128, data: Seq<u8>, now_ms: u128) -> ItemModel {
    (spec_expiry_at(expiry, now_ms), expiry, data)
}

/// Executor refusals and failures, each with its reply line.
#[derive(Debug, Clone, Copy, PartialEq, Eq, Structural)]
pub enum ExecError {
    /// The reply `NOT_STORED`: the command's condition on the key failed.
    NotStored,
    /// The reply `END`: a `get` found no fresh entry.
    NotFound,
    /// The system clock read earlier than the Unix epoch.
    TimeError,
}

impl ExecError {
    /// The reply line the server writes for this failure.
    pub fn message(&self) -> (r: &'static str)
        ensures
            r@ == spec_exec_error_message(*self),
    {
        match self {
            ExecError::NotStored => "NOT_STORED",
            ExecError::NotFound => "END",
            ExecError::TimeError => "TIME ERROR",
        }
    }
}

/// The reply line for each executor failure.
pub open spec fn spec_exec_error_message(e: ExecError) -> Seq<char> {
    match e {
        ExecError::NotStored => "NOT_STORED"@,
        ExecError::NotFound => "END"@,
        ExecError::TimeError => "TIME ERROR"@,
    }
}

/// The spec-level image of an executor result: the reply line or the error.
pub open spec fn exec_result_view(r: Result<String, ExecError>) -> Result<Seq<char>, ExecError> {
    match r {
        Ok(s) => Ok(s@),
        Err(e) => Err(e),
    }
}

/// The VALUE block for a fresh `get`: one reply line whose inner separator
/// is `\n\r` — in that reversed order, which is part of this wire format —
/// with the raw value when it is valid UTF-8 and the literal `[object]`
/// otherwise.
pub open spec fn spec_value_reply(key: Seq<char>, expiry_secs: u128, value: Seq<u8>) -> Seq<char> {
    "VALUE "@ + key + " "@ + dec_str(expiry_secs as nat) + " "@ + dec_str(value.len()) + " \n\r"@
        + (if valid_utf8(value) {
        decode_utf8(value)
    } else {
        "[object]"@
    }) + " \n\rEND"@
}

/// Everything one command does: the store and the lock table afterwards,
/// and the reply.
pub ghost struct Outcome {
    pub store: Map<Seq<char>, ItemModel>,
    pub locks: Set<Seq<char>>,
    pub reply: Result<Seq<char>, ExecError>,
}

/// The semantics of one command at time `now_ms`.
///
/// - A storage command writes `spec_new_item` and ensures a lock-table
///   entry; `add` refuses a present fresh key, `replace` demands one.
/// - `get` replies the VALUE block for a present fresh key and `END`
///   otherwise; a present expired key is deleted from both maps.
/// - `append`/`prepend` concatenate onto a present fresh entry, keeping
///   both expiry fields; a present expired key is deleted from both maps.
pub open spec fn spec_execute(
    ins: InstructionModel,
    store: Map<Seq<char>, ItemModel>,
    locks: Set<Seq<char>>,
    now_ms: u128,
) -> Outcome {
    match ins {
        InstructionModel::Put { key, expiry, data_size: _, data } => Outcome {
            store: store.insert(key, spec_new_item(expiry, data, now_ms)),
            locks: locks.insert(key),
            reply: Ok("STORED"@),
        },
        InstructionModel::Get { key } => {
            if !store.dom().contains(key) {
                Outcome { store, locks, reply: Err(ExecError::NotFound) }
            } else if spec_is_expired(item_expiry_at(store[key]), now_ms) {
                Outcome {
                    store: store.remove(key),
                    locks: locks.remove(key),
                    reply: Err(ExecError::NotFound),
                }
            } else {
                Outcome {
                    store,
                    locks,
                    reply: Ok(
                        spec_value_reply(
                            key,
                            item_expiry_secs(store[key]),
                            item_value(store[key]),
                        ),
                    ),
                }
            }
        },
        InstructionModel::Append { key, expiry: _, data_size: _, data } => spec_concat_outcome(
            store,
            locks,
            key,
            item_value(store[key]) + data,
            now_ms,
        ),
        InstructionModel::Prepend { key, expiry: _, data_size: _, data } => spec_concat_outcome(
            store,
            locks,
            key,
            data + item_value(store[key]),
            now_ms,
        ),
        InstructionModel::Add { key, expiry, data_size: _, data } => {
            if store.dom().contains(key) && !spec_is_expired(item_expiry_at(store[key]), now_ms) {
                Outcome { store, locks, reply: Err(ExecError::NotStored) }
            } else {
                Outcome {
                    store: store.insert(key, spec_new_item(expiry, data, now_ms)),
                    locks: locks.insert(key),
                    reply: Ok("STORED"@),
                }
            }
        },
        InstructionModel::Replace { key, expiry, data_size: _, data } => {
            if locks.contains(key) && store.dom().contains(key) && !spec_is_expired(
                item_expiry_at(store[key]),
                now_ms,
            ) {
                Outcome {
                    store: store.insert(key, spec_new_item(expiry, data, now_ms)),
                    locks: locks.insert(key),
                    reply: Ok("STORED"@),
                }
            } else {
                Outcome { store, locks, reply: Err(ExecError::NotStored) }
            }
        },
    }
}

/// The shared semantics of `append` and `prepend`: `new_value` is the
/// concatenation they write; both expiry fields of the old entry are kept.
pub open spec fn spec_concat_outcome(
    store: Map<Seq<char>, ItemModel>,
    locks: Set<Seq<char>>,
    key: Seq<char>,
    new_value: Seq<u8>,
    now_ms: u128,
) -> Outcome {
    if !locks.contains(key) {
        Outcome { store, locks, reply: Err(ExecError::NotStored) }
    } else if !store.dom().contains(key) {
        Outcome { store, locks, reply: Err(ExecError::NotStored) }
    } else if spec_is_expired(item_expiry_at(store[key]), now_ms) {
        Outcome {
            store: store.remove(key),
            locks: locks.remove(key),
            reply: Err(ExecError::NotStored),
        }
    } else {
        Outcome {
            store: store.insert(
                key,
                (item_expiry_at(store[key]), item_expiry_secs(store[key]), new_value),
            ),
            locks,
            reply: Ok("STORED"@),
        }
    }
}

/// Whether an entry is expired at `now_ms`.
pub fn is_expired(db_item: &DBItem, now_ms: u128) -> (r: bool)
    ensures
        r == spec_is_expired(db_item.expiry_timestamp, now_ms),
{
    now_ms > db_item.expiry_timestamp && db_item.expiry_timestamp != 0
}

fn compute_expiry(expiry: u128, now_ms: u128) -> (r: u128)
    ensures
        r == spec_expiry_at(expiry, now_ms),
{
    if expiry == 0 {
        0
    } else {
        let thousand: u128 = 1000;
        let ms = match expiry.checked_mul(thousand) {
            Some(v) => v,
            None => u128::MAX,
        };
        now_ms.saturating_add(ms)
    }
}

/// The new entry never expires exactly when the client TTL is 0.
proof fn lemma_new_item_ttl(expiry: u128, data: Seq<u8>, now_ms: u128)
    ensures
        (item_expiry_secs(spec_new_item(expiry, data, now_ms)) == 0) <==> (item_expiry_at(
            spec_new_item(expiry, data, now_ms),
        ) == 0),
{
    if expiry != 0 {
        assert(expiry * 1000 >= 1000);
    }
}

/// Writing a well-formed entry and its lock-table entry together
/// preserves well-formedness.
proof fn lemma_wf_insert(
    store: Map<Seq<char>, ItemModel>,
    locks: Set<Seq<char>>,
    key: Seq<char>,
    item: ItemModel,
)
    requires
        wf_state(store, locks),
        (item_expiry_secs(item) == 0) <==> (item_expiry_at(item) == 0),
    ensures
        wf_state(store.insert(key, item), locks.insert(key)),
{
    assert(store.insert(key, item).dom() =~= locks.insert(key));
    assert forall|k: Seq<char>| store.insert(key, item).dom().contains(k) implies ((
    item_expiry_secs(#[trigger] store.insert(key, item)[k]) == 0) <==> (item_expiry_at(
        store.insert(key, item)[k],
    ) == 0)) by {
        if k != key {
            assert(store.dom().contains(k));
        }
    }
}

/// Overwriting a present key with a well-formed entry, the lock table
/// untouched, preserves well-formedness.
proof fn lemma_wf_overwrite(
    store: Map<Seq<char>, ItemModel>,
    locks: Set<Seq<char>>,
    key: Seq<char>,
    item: ItemModel,
)
    requires
        wf_state(store, locks),
        store.dom().contains(key),
        (item_expiry_secs(item) == 0) <==> (item_expiry_at(item) == 0),
    ensures
        wf_state(store.insert(key, item), locks),
{
    assert(store.insert(key, item).dom() =~= locks);
    assert forall|k: Seq<char>| store.insert(key, item).dom().contains(k) implies ((
    item_expiry_secs(#[trigger] store.insert(key, item)[k]) == 0) <==> (item_expiry_at(
        store.insert(key, item)[k],
    ) == 0)) by {
        if k != key {
            assert(store.dom().contains(k));
        }
    }
}

/// Deleting a key from both maps preserves well-formedness.
proof fn lemma_wf_remove(store: Map<Seq<char>, ItemModel>, locks: Set<Seq<char>>, key: Seq<char>)
    requires
        wf_state(store, locks),
    ensures
        wf_state(store.remove(key), locks.remove(key)),
{
    assert(store.remove(key).dom() =~= locks.remove(key));
    assert forall|k: Seq<char>| store.remove(key).dom().contains(k) implies ((item_expiry_secs(
        #[trigger] store.remove(key)[k],
    ) == 0) <==> (item_expiry_at(store.remove(key)[k]) == 0)) by {
        assert(store.dom().contains(k));
    }
}

/// Inserts a fresh entry for `key` and its lock-table entry: the shared
/// tail of `set`, of `add` and of `replace`. Replies `STORED`.
pub fn insert_key(
    key: String,
    expiry: u128,
    data: Vec<u8>,
    cache: &mut Store,
    lock_manager: &mut LockManager,
    now_ms: u128,
) -> (r: Result<String, ExecError>)
    ensures
        store_contents(*final(cache)) == store_contents(*old(cache)).insert(
            key@,
            spec_new_item(expiry, data@, now_ms),
        ),
        lock_keys(*final(lock_manager)) == lock_keys(*old(lock_manager)).insert(key@),
        exec_result_view(r) == Ok::<Seq<char>, ExecError>("STORED"@),
{
    let expiry_milis = compute_expiry(expiry, now_ms);
    let item = DBItem { expiry_timestamp: expiry_milis, expiry_secs: expiry, value: data };
    cache.insert(key.clone(), item);
    lock_manager.insert(key);
    Ok(String::from_str("STORED"))
}

/// Applies one command to the store and the lock table, the clock read as
/// `now_ms`. The two maps must be well-formed, stay so, and change exactly
/// as [`spec_execute`] says.
pub fn execute_at(
    ins: Instruction,
    cache: &mut Store,
    lock_manager: &mut LockManager,
    now_ms: u128,
) -> (r: Result<String, ExecError>)
    requires
        wf_state(store_contents(*old(cache)), lock_keys(*old(lock_manager))),
    ensures
        ({
            let o = spec_execute(
                ins@,
                store_contents(*old(cache)),
                lock_keys(*old(lock_manager)),
                now_ms,
            );
            &&& store_contents(*final(cache)) == o.store
            &&& lock_keys(*final(lock_manager)) == o.locks
            &&& exec_result_view(r) == o.reply
        }),
        wf_state(store_contents(*final(cache)), lock_keys(*final(lock_manager))),
{
    match ins {
        Instruction::Put { key, expiry, data_size: _, data } => {
            proof {
                lemma_new_item_ttl(expiry, data@, now_ms);
                lemma_wf_insert(
                    store_contents(*old(cache)),
                    lock_keys(*old(lock_manager)),
                    key@,
                    spec_new_item(expiry, data@, now_ms),
                );
            }
            insert_key(key, expiry, data, cache, lock_manager, now_ms)
        },
        Instruction::Get { key } => {
            match cache.get(&key) {
                Some(db_item) => {
                    lock_manager.acquire_read(&key);
                    if is_expired(&db_item, now_ms) {
                        proof {
                            lemma_wf_remove(
                                store_contents(*old(cache)),
                                lock_keys(*old(lock_manager)),
                                key@,
                            );
                        }
                        lock_manager.acquire_write(&key);
                        cache.remove(&key);
                        lock_manager.remove(&key);
                        Err(ExecError::NotFound)
                    } else {
                        Ok(format_value_reply(&key, db_item.expiry_secs, db_item.value))
                    }
                },
                None => Err(ExecError::NotFound),
            }
        },
        Instruction::Append { key, expiry: _, data_size: _, data } => {
            if !lock_manager.contains_key(&key) {
                return Err(ExecError::NotStored);
            }
            lock_manager.acquire_write(&key);
            match cache.get(&key) {
                Some(db_item) => {
                    if is_expired(&db_item, now_ms) {
                        proof {
                            lemma_wf_remove(
                                store_contents(*old(cache)),
                                lock_keys(*old(lock_manager)),
                                key@,
                            );
                        }
                        lock_manager.acquire_write(&key);
                        cache.remove(&key);
                        lock_manager.remove(&key);
                        Err(ExecError::NotStored)
                    } else {
                        let DBItem { expiry_timestamp, expiry_secs, value } = db_item;
                        let mut value = value;
                        let mut tail = data;
                        value.append(&mut tail);
                        let item = DBItem { expiry_timestamp, expiry_secs, value };
                        proof {
                            lemma_wf_overwrite(
                                store_contents(*old(cache)),
                                lock_keys(*old(lock_manager)),
                                key@,
                                item@,
                            );
                        }
                        cache.insert(key, item);
                        Ok(String::from_str("STORED"))
                    }
                },
                None => Err(ExecError::NotStored),
            }
        },
        Instruction::Prepend { key, expiry: _, data_size: _, data } => {
            if !lock_manager.contains_key(&key) {
                return Err(ExecError::NotStored);
            }
            lock_manager.acquire_write(&key);
            match cache.get(&key) {
                Some(db_item) => {
                    if is_expired(&db_item, now_ms) {
                        proof {
                            lemma_wf_remove(
                                store_contents(*old(cache)),
                                lock_keys(*old(lock_manager)),
                                key@,
                            );
                        }
                        lock_manager.acquire_write(&key);
                        cache.remove(&key);
                        lock_manager.remove(&key);
                        Err(ExecError::NotStored)
                    } else {
                        let DBItem { expiry_timestamp, expiry_secs, value } = db_item;
                        let mut head = data;
                        let mut tail = value;
                        head.append(&mut tail);
                        let item = DBItem { expiry_timestamp, expiry_secs, value: head };
                        proof {
                            lemma_wf_overwrite(
                                store_contents(*old(cache)),
                                lock_keys(*old(lock_manager)),
                                key@,
                                item@,
                            );
                        }
                        cache.insert(key, item);
                        Ok(String::from_str("STORED"))
                    }
                },
                None => Err(ExecError::NotStored),
            }
        },
        Instruction::Add { key, expiry, data_size: _, data } => {
            if cache.contains_key(&key) {
                lock_manager.acquire_read(&key);
                match cache.get(&key) {
                    Some(db_item) => {
                        lock_manager.acquire_read(&key);
                        if !is_expired(&db_item, now_ms) {
                            return Err(ExecError::NotStored);
                        }
                    },
                    None => {},
                }
            }
            proof {
                lemma_new_item_ttl(expiry, data@, now_ms);
                lemma_wf_insert(
                    store_contents(*old(cache)),
                    lock_keys(*old(lock_manager)),
                    key@,
                    spec_new_item(expiry, data@, now_ms),
                );
            }
            insert_key(key, expiry, data, cache, lock_manager, now_ms)
        },
        Instruction::Replace { key, expiry, data_size: _, data } => {
            let mut insert_value = false;
            if lock_manager.contains_key(&key) {
                lock_manager.acquire_write(&key);
                match cache.get(&key) {
                    Some(db_item) => {
                        if !is_expired(&db_item, now_ms) {
                            insert_value = true;
                        }
                    },
                    None => {},
                }
            }
            if insert_value {
                proof {
                    lemma_new_item_ttl(expiry, data@, now_ms);
                    lemma_wf_insert(
                        store_contents(*old(cache)),
                        lock_keys(*old(lock_manager)),
                        key@,
                        spec_new_item(expiry, data@, now_ms),
                    );
                }
                insert_key(key, expiry, data, cache, lock_manager, now_ms)
            } else {
                Err(ExecError::NotStored)
            }
        },
    }
}

/// Builds the VALUE block of a fresh `get`.
fn format_value_reply(key: &String, expiry_secs: u128, value: Vec<u8>) -> (r: String)
    ensures
        r@ == spec_value_reply(key@, expiry_secs, value@),
{
    let len = value.len();
    let mut s = String::from_str("VALUE ");
    s.append(key.as_str());
    s.append(" ");
    let etext = u128_to_string(expiry_secs);
    s.append(etext.as_str());
    s.append(" ");
    let ltext = u128_to_string(len as u128);
    s.append(ltext.as_str());
    s.append(" \n\r");
    let ghost value_view = value@;
    match bytes_to_string(value) {
        Some(body) => {
            s.append(body.as_str());
        },
        None => {
            s.append("[object]");
        },
    }
    s.append(" \n\rEND");
    proof {
        assert(s@ =~= spec_value_reply(key@, expiry_secs, value_view));
    }
    s
}

/// Whether applying `ins` at time `now_ms` turns `(store0, locks0)` into
/// `(store1, locks1)` with reply `reply`, per [`spec_execute`].
pub open spec fn execute_models(
    ins: InstructionModel,
    store0: Map<Seq<char>, ItemModel>,
    locks0: Set<Seq<char>>,
    now_ms: u128,
    store1: Map<Seq<char>, ItemModel>,
    locks1: Set<Seq<char>>,
    reply: Result<Seq<char>, ExecError>,
) -> bool {
    let o = spec_execute(ins, store0, locks0, now_ms);
    store1 == o.store && locks1 == o.locks && reply == o.reply
}

/// Applies one command at the current wall-clock time. Either the outcome
/// is [`spec_execute`] at some clock reading, or the clock failed and
/// nothing changed.
pub fn execute(ins: Instruction, cache: &mut Store, lock_manager: &mut LockManager) -> (r: Result<
    String,
    ExecError,
>)
    requires
        wf_state(store_contents(*old(cache)), lock_keys(*old(lock_manager))),
    ensures
        wf_state(store_contents(*final(cache)), lock_keys(*final(lock_manager))),
        (exists|now_ms: u128|
            #[trigger] execute_models(
                ins@,
                store_contents(*old(cache)),
                lock_keys(*old(lock_manager)),
                now_ms,
                store_contents(*final(cache)),
                lock_keys(*final(lock_manager)),
                exec_result_view(r),
            )) || (exec_result_view(r) == Err::<Seq<char>, ExecError>(ExecError::TimeError)
            && store_contents(*final(cache)) == store_contents(*old(cache)) && lock_keys(
            *final(lock_manager),
        ) == lock_keys(*old(lock_manager))),
{
    match now_millis() {
        Some(now_ms) => {
            let r = execute_at(ins, cache, lock_manager, now_ms);
            proof {
                assert(execute_models(
                    ins@,
                    store_contents(*old(cache)),
                    lock_keys(*old(lock_manager)),
                    now_ms,
                    store_contents(*final(cache)),
                    lock_keys(*final(lock_manager)),
                    exec_result_view(r),
                ));
            }
            r
        },
        None => Err(ExecError::TimeError),
    }
}

/// Every command preserves well-formedness: each key of the store keeps a
/// lock-table entry and vice versa, and an entry's absolute expiry stays 0
/// exactly when its client TTL was 0.
pub proof fn lemma_execute_preserves_wf(
    ins: InstructionModel,
    store: Map<Seq<char>, ItemModel>,
    locks: Set<Seq<char>>,
    now_ms: u128,
)
    requires
        wf_state(store, locks),
    ensures
        wf_state(
            spec_execute(ins, store, locks, now_ms).store,
            spec_execute(ins, store, locks, now_ms).locks,
        ),
{
    match ins {
        InstructionModel::Put { key, expiry, data_size: _, data } => {
            lemma_new_item_ttl(expiry, data, now_ms);
            lemma_wf_insert(store, locks, key, spec_new_item(expiry, data, now_ms));
        },
        InstructionModel::Get { key } => {
            if store.dom().contains(key) && spec_is_expired(item_expiry_at(store[key]), now_ms) {
                lemma_wf_remove(store, locks, key);
            }
        },
        InstructionModel::Append { key, expiry: _, data_size: _, data } => {
            lemma_concat_outcome_wf(store, locks, key, item_value(store[key]) + data, now_ms);
        },
        InstructionModel::Prepend { key, expiry: _, data_size: _, data } => {
            lemma_concat_outcome_wf(store, locks, key, data + item_value(store[key]), now_ms);
        },
        InstructionModel::Add { key, expiry, data_size: _, data } => {
            if !(store.dom().contains(key) && !spec_is_expired(
                item_expiry_at(store[key]),
                now_ms,
            )) {
                lemma_new_item_ttl(expiry, data, now_ms);
                lemma_wf_insert(store, locks, key, spec_new_item(expiry, data, now_ms));
            }
        },
        InstructionModel::Replace { key, expiry, data_size: _, data } => {
            if locks.contains(key) && store.dom().contains(key) && !spec_is_expired(
                item_expiry_at(store[key]),
                now_ms,
            ) {
                lemma_new_item_ttl(expiry, data, now_ms);
                lemma_wf_insert(store, locks, key, spec_new_item(expiry, data, now_ms));
            }
        },
    }
}

proof fn lemma_concat_outcome_wf(
    store: Map<Seq<char>, ItemModel>,
    locks: Set<Seq<char>>,
    key: Seq<char>,
    new_value: Seq<u8>,
    now_ms: u128,
)
    requires
        wf_state(store, locks),
    ensures
        wf_state(
            spec_concat_outcome(store, locks, key, new_value, now_ms).store,
            spec_concat_outcome(store, locks, key, new_value, now_ms).locks,
        ),
{
    if locks.contains(key) && store.dom().contains(key) {
        if spec_is_expired(item_expiry_at(store[key]), now_ms) {
            lemma_wf_remove(store, locks, key);
        } else {
            lemma_wf_overwrite(
                store,
                locks,
                key,
                (item_expiry_at(store[key]), item_expiry_secs(store[key]), new_value),
            );
        }
    }
}

/// A `get` of an expired key replies `END`, and afterwards the key is
/// absent from the store and from the lock table alike.
pub proof fn lemma_get_expired_removes(
    store: Map<Seq<char>, ItemModel>,
    locks: Set<Seq<char>>,
    key: Seq<char>,
    now_ms: u128,
)
    requires
        store.dom().contains(key),
        spec_is_expired(item_expiry_at(store[key]), now_ms),
    ensures
        ({
            let o = spec_execute(InstructionModel::Get { key }, store, locks, now_ms);
            &&& o.reply == Err::<Seq<char>, ExecError>(ExecError::NotFound)
            &&& !o.store.dom().contains(key)
            &&& !o.locks.contains(key)
        }),
{
}

} // verus!
