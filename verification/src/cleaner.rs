//! One tick of the background expiration sweeper.
//!
//! A tick scans a snapshot of the store in its (unspecified, random-ish)
//! iteration order, gathers expired keys until a sample budget of one
//! tenth of the store is reached, and removes the gathered keys from the
//! store and from the lock table. When more than a quarter of the budget
//! was removed, the tick asks to be repeated without sleeping.

use vstd::prelude::*;
use crate::store::{Store, LockManager, store_contents, lock_keys};
use crate::executor::{
    ItemModel, is_expired, item_expiry_at, item_expiry_secs, spec_is_expired, wf_state,
};
use crate::error::CleanupError;

verus! {

/// The sweeper's period in seconds.
pub const CLEANUP_GAP: u64 = 10;

/// The keys gathered by scanning `entries` in order: the expired ones,
/// stopping as soon as `budget` of them are gathered. The count is checked
/// only after a key is taken, so a budget that is not positive never stops
/// the scan and every expired key is gathered.
pub open spec fn spec_sweep(
    entries: Seq<(Seq<char>, ItemModel)>,
    budget: int,
    now_ms: u128,
) -> Seq<Seq<char>>
    decreases entries.len(),
{
    if entries.len() == 0 {
        Seq::empty()
    } else {
        let head = entries[0];
        if spec_is_expired(item_expiry_at(head.1), now_ms) {
            if budget == 1 {
                seq![head.0]
            } else {
                seq![head.0] + spec_sweep(entries.drop_first(), budget - 1, now_ms)
            }
        } else {
            spec_sweep(entries.drop_first(), budget, now_ms)
        }
    }
}

/// Whether `snapshot` is a full scan of `store`: every pair is in the
/// map, every key of the map appears, and no key appears twice.
pub open spec fn snapshot_of(
    snapshot: Seq<(Seq<char>, ItemModel)>,
    store: Map<Seq<char>, ItemModel>,
) -> bool {
    &&& forall|i: int|
        0 <= i < snapshot.len() ==> store.contains_pair(
            (#[trigger] snapshot[i]).0,
            snapshot[i].1,
        )
    &&& forall|k: Seq<char>|
        #[trigger] store.dom().contains(k) ==> exists|i: int|
            0 <= i < snapshot.len() && (#[trigger] snapshot[i]).0 == k
    &&& forall|i: int, j: int|
        0 <= i < j < snapshot.len() ==> (#[trigger] snapshot[i]).0 != (#[trigger] snapshot[j]).0
}

/// Whether one sweeper tick at time `now_ms`, scanning `snapshot`, turns
/// `(store0, locks0)` into `(store1, locks1)` with result `r`: the sample
/// budget is a tenth of the store, the gathered keys leave both maps, and
/// `NeedToRepeat` is signalled exactly when more than a quarter of the
/// budget was removed.
pub open spec fn clean_models(
    snapshot: Seq<(Seq<char>, ItemModel)>,
    store0: Map<Seq<char>, ItemModel>,
    locks0: Set<Seq<char>>,
    now_ms: u128,
    store1: Map<Seq<char>, ItemModel>,
    locks1: Set<Seq<char>>,
    r: Result<(), CleanupError>,
) -> bool {
    let budget = store0.len() as int / 10;
    let removed = spec_sweep(snapshot, budget, now_ms);
    &&& snapshot_of(snapshot, store0)
    &&& store1 == store0.remove_keys(removed.to_set())
    &&& locks1 == locks0.difference(removed.to_set())
    &&& (r is Err <==> removed.len() > budget / 4)
}

/// Every gathered key is an expired key of the scan.
pub proof fn lemma_sweep_sound(entries: Seq<(Seq<char>, ItemModel)>, budget: int, now_ms: u128)
    ensures
        forall|k: Seq<char>|
            #[trigger] spec_sweep(entries, budget, now_ms).contains(k) ==> exists|i: int|
                0 <= i < entries.len() && (#[trigger] entries[i]).0 == k && spec_is_expired(
                    item_expiry_at(entries[i].1),
                    now_ms,
                ),
    decreases entries.len(),
{
    if entries.len() > 0 {
        lemma_sweep_sound(entries.drop_first(), budget, now_ms);
        lemma_sweep_sound(entries.drop_first(), budget - 1, now_ms);
        assert forall|k: Seq<char>| #[trigger] spec_sweep(entries, budget, now_ms).contains(
            k,
        ) implies exists|i: int|
            0 <= i < entries.len() && (#[trigger] entries[i]).0 == k && spec_is_expired(
                item_expiry_at(entries[i].1),
                now_ms,
            ) by {
            let head = entries[0];
            if spec_is_expired(item_expiry_at(head.1), now_ms) && k == head.0 {
                assert((entries[0]).0 == k);
            } else {
                let rest = entries.drop_first();
                let b2 = if spec_is_expired(item_expiry_at(head.1), now_ms) {
                    budget - 1
                } else {
                    budget
                };
                assert(spec_sweep(rest, b2, now_ms).contains(k));
                let i = choose|i: int|
                    0 <= i < rest.len() && (#[trigger] rest[i]).0 == k && spec_is_expired(
                        item_expiry_at(rest[i].1),
                        now_ms,
                    );
                assert((entries[i + 1]).0 == k);
            }
        }
    }
}

/// A sweep whose gather stopped short of a positive budget, or whose
/// budget was not positive, gathered every expired key of the scan.
pub proof fn lemma_sweep_exhaustive(
    entries: Seq<(Seq<char>, ItemModel)>,
    budget: int,
    now_ms: u128,
)
    requires
        spec_sweep(entries, budget, now_ms).len() < budget || budget <= 0,
    ensures
        forall|i: int|
            0 <= i < entries.len() && spec_is_expired(
                item_expiry_at((#[trigger] entries[i]).1),
                now_ms,
            ) ==> spec_sweep(entries, budget, now_ms).contains(entries[i].0),
    decreases entries.len(),
{
    if entries.len() > 0 {
        let head = entries[0];
        let rest = entries.drop_first();
        if spec_is_expired(item_expiry_at(head.1), now_ms) {
            if budget == 1 {
                assert(spec_sweep(entries, budget, now_ms).len() == 1);
                assert(false);
            } else {
                lemma_sweep_exhaustive(rest, budget - 1, now_ms);
                assert forall|i: int|
                    0 <= i < entries.len() && spec_is_expired(
                        item_expiry_at((#[trigger] entries[i]).1),
                        now_ms,
                    ) implies spec_sweep(entries, budget, now_ms).contains(entries[i].0) by {
                    if i == 0 {
                        assert(spec_sweep(entries, budget, now_ms)[0] == head.0);
                    } else {
                        assert(rest[i - 1] == entries[i]);
                        let swept = spec_sweep(rest, budget - 1, now_ms);
                        assert(swept.contains(entries[i].0));
                        let j = choose|j: int| 0 <= j < swept.len() && #[trigger] swept[j]
                            == entries[i].0;
                        assert(spec_sweep(entries, budget, now_ms)[j + 1] == entries[i].0);
                    }
                }
            }
        } else {
            lemma_sweep_exhaustive(rest, budget, now_ms);
            assert forall|i: int|
                0 <= i < entries.len() && spec_is_expired(
                    item_expiry_at((#[trigger] entries[i]).1),
                    now_ms,
                ) implies spec_sweep(entries, budget, now_ms).contains(entries[i].0) by {
                if i > 0 {
                    assert(rest[i - 1] == entries[i]);
                    assert(spec_sweep(rest, budget, now_ms).contains(entries[i].0));
                }
            }
        }
    }
}

/// After a tick that did not exhaust a positive budget, no expired key
/// remains in the store at all: the scan saw every key, so an expired key
/// survives a tick only when the sample budget was hit.
pub proof fn lemma_clean_no_expired_left(
    snapshot: Seq<(Seq<char>, ItemModel)>,
    store0: Map<Seq<char>, ItemModel>,
    locks0: Set<Seq<char>>,
    now_ms: u128,
    store1: Map<Seq<char>, ItemModel>,
    locks1: Set<Seq<char>>,
    r: Result<(), CleanupError>,
)
    requires
        clean_models(snapshot, store0, locks0, now_ms, store1, locks1, r),
        spec_sweep(snapshot, store0.len() as int / 10, now_ms).len() < store0.len() as int / 10
            || store0.len() as int / 10 <= 0,
    ensures
        forall|k: Seq<char>|
            #[trigger] store1.dom().contains(k) ==> !spec_is_expired(
                item_expiry_at(store1[k]),
                now_ms,
            ),
{
    let budget = store0.len() as int / 10;
    let removed = spec_sweep(snapshot, budget, now_ms);
    lemma_sweep_exhaustive(snapshot, budget, now_ms);
    assert forall|k: Seq<char>| #[trigger] store1.dom().contains(k) implies !spec_is_expired(
        item_expiry_at(store1[k]),
        now_ms,
    ) by {
        assert(store0.dom().contains(k));
        assert(!removed.to_set().contains(k));
        if spec_is_expired(item_expiry_at(store0[k]), now_ms) {
            let i = choose|i: int| 0 <= i < snapshot.len() && (#[trigger] snapshot[i]).0 == k;
            assert(snapshot[i].1 == store0[k]);
            assert(removed.contains(k));
        }
        assert(store1[k] == store0[k]);
    }
}

/// Appending one more key to a prefix of gathered keys.
proof fn lemma_take_to_set_push(s: Seq<Seq<char>>, i: int)
    requires
        0 <= i < s.len(),
    ensures
        s.take(i + 1).to_set() =~= s.take(i).to_set().insert(s[i]),
{
    assert forall|a: Seq<char>| #[trigger] s.take(i + 1).to_set().contains(a) implies s.take(
        i,
    ).to_set().insert(s[i]).contains(a) by {
        let j = choose|j: int| 0 <= j < s.take(i + 1).len() && #[trigger] s.take(i + 1)[j] == a;
        if j < i {
            assert(s.take(i)[j] == a);
            assert(s.take(i).contains(a));
        } else {
            assert(a == s[i]);
        }
    }
    assert forall|a: Seq<char>| #[trigger] s.take(i).to_set().insert(s[i]).contains(a) implies s
        .take(i + 1).to_set().contains(a) by {
        if a == s[i] {
            assert(s.take(i + 1)[i] == a);
        } else {
            assert(s.take(i).contains(a));
            let j = choose|j: int| 0 <= j < s.take(i).len() && #[trigger] s.take(i)[j] == a;
            assert(s.take(i + 1)[j] == a);
        }
    }
}

/// Removing the same keys from the store and from the lock table
/// preserves well-formedness.
proof fn lemma_wf_remove_keys(
    store: Map<Seq<char>, ItemModel>,
    locks: Set<Seq<char>>,
    keys: Set<Seq<char>>,
)
    requires
        wf_state(store, locks),
    ensures
        wf_state(store.remove_keys(keys), locks.difference(keys)),
{
    assert(store.remove_keys(keys).dom() =~= locks.difference(keys));
    assert(store.remove_keys(keys).dom() <= store.dom());
    vstd::set_lib::lemma_len_subset(store.remove_keys(keys).dom(), store.dom());
    assert forall|k: Seq<char>| store.remove_keys(keys).dom().contains(k) implies ((
    item_expiry_secs(#[trigger] store.remove_keys(keys)[k]) == 0) <==> (item_expiry_at(
        store.remove_keys(keys)[k],
    ) == 0)) by {
        assert(store.dom().contains(k));
        assert(store.remove_keys(keys)[k] == store[k]);
    }
}

/// One sweeper tick at time `now_ms`: scans a snapshot of the store,
/// gathers up to a tenth of the store's keys among the expired ones, and
/// removes them from the store and from the lock table. Asks to be
/// repeated when more than a quarter of the budget was removed.
pub fn clean(cache: &mut Store, lock_manager: &mut LockManager, now_ms: u128) -> (r: Result<
    (),
    CleanupError,
>)
    requires
        wf_state(store_contents(*old(cache)), lock_keys(*old(lock_manager))),
    ensures
        wf_state(store_contents(*final(cache)), lock_keys(*final(lock_manager))),
        exists|snapshot: Seq<(Seq<char>, ItemModel)>|
            #[trigger] clean_models(
                snapshot,
                store_contents(*old(cache)),
                lock_keys(*old(lock_manager)),
                now_ms,
                store_contents(*final(cache)),
                lock_keys(*final(lock_manager)),
                r,
            ),
{
    let ghost store0 = store_contents(*old(cache));
    let ghost locks0 = lock_keys(*old(lock_manager));
    let num_clean = cache.len() / 10;
    let snapshot = cache.entries();
    let ghost snap: Seq<(Seq<char>, ItemModel)> = Seq::new(
        snapshot@.len(),
        |i: int| (snapshot@[i].0@, snapshot@[i].1@),
    );
    proof {
        assert forall|j: int| 0 <= j < snap.len() implies store0.contains_pair(
            (#[trigger] snap[j]).0,
            snap[j].1,
        ) by {
            assert(store0.contains_pair(snapshot@[j].0@, snapshot@[j].1@));
        }
        assert forall|k: Seq<char>| #[trigger] store0.dom().contains(k) implies exists|j: int|
            0 <= j < snap.len() && (#[trigger] snap[j]).0 == k by {
            let j = choose|j: int|
                0 <= j < snapshot@.len() && (#[trigger] snapshot@[j]).0@ == k;
            assert((snap[j]).0 == k);
        }
        assert forall|x: int, y: int| 0 <= x < y < snap.len() implies (#[trigger] snap[x]).0 != (
        #[trigger] snap[y]).0 by {
            assert((snapshot@[x]).0@ != (snapshot@[y]).0@);
        }
        assert(snapshot_of(snap, store0));
    }
    let ghost budget = store0.len() as int / 10;
    let mut keys_to_remove: Vec<String> = Vec::new();
    let mut i: usize = 0;
    proof {
        assert(snap.skip(0) =~= snap);
        assert(Seq::new(keys_to_remove@.len(), |j: int| keys_to_remove@[j]@) =~= Seq::empty());
    }
    while i < snapshot.len()
        invariant_except_break
            0 <= i <= snapshot.len(),
            snap.len() == snapshot@.len(),
            forall|j: int|
                0 <= j < snap.len() ==> snap[j] == ((#[trigger] snapshot@[j]).0@, snapshot@[
                    j
                ].1@),
            num_clean == budget,
            keys_to_remove@.len() <= i,
            spec_sweep(snap, budget, now_ms) == Seq::new(
                keys_to_remove@.len(),
                |j: int| keys_to_remove@[j]@,
            ) + spec_sweep(snap.skip(i as int), budget - keys_to_remove@.len(), now_ms),
        ensures
            spec_sweep(snap, budget, now_ms) == Seq::new(
                keys_to_remove@.len(),
                |j: int| keys_to_remove@[j]@,
            ),
        decreases snapshot.len() - i,
    {
        let ghost prefix = Seq::new(keys_to_remove@.len(), |j: int| keys_to_remove@[j]@);
        let ghost brem = budget - keys_to_remove@.len();
        let expired = is_expired(&snapshot[i].1, now_ms);
        proof {
            assert(snap[i as int] == (snapshot@[i as int].0@, snapshot@[i as int].1@));
            assert(snap.skip(i as int)[0] == snap[i as int]);
            assert(snap.skip(i as int).drop_first() =~= snap.skip(i as int + 1));
        }
        if expired {
            keys_to_remove.push(snapshot[i].0.clone());
            proof {
                assert(Seq::new(keys_to_remove@.len(), |j: int| keys_to_remove@[j]@) =~= prefix
                    + seq![snap[i as int].0]);
            }
            if keys_to_remove.len() == num_clean {
                proof {
                    assert(brem == 1);
                    assert(spec_sweep(snap.skip(i as int), brem, now_ms) =~= seq![
                        snap[i as int].0,
                    ]);
                    assert(spec_sweep(snap, budget, now_ms) =~= Seq::new(
                        keys_to_remove@.len(),
                        |j: int| keys_to_remove@[j]@,
                    ));
                }
                break ;
            }
            proof {
                assert(brem != 1);
                assert(spec_sweep(snap.skip(i as int), brem, now_ms) == seq![snap[i as int].0]
                    + spec_sweep(snap.skip(i as int + 1), brem - 1, now_ms));
                assert(prefix + spec_sweep(snap.skip(i as int), brem, now_ms) =~= (prefix
                    + seq![snap[i as int].0]) + spec_sweep(
                    snap.skip(i as int + 1),
                    brem - 1,
                    now_ms,
                ));
            }
        } else {
            proof {
                assert(spec_sweep(snap.skip(i as int), brem, now_ms) == spec_sweep(
                    snap.skip(i as int + 1),
                    brem,
                    now_ms,
                ));
            }
        }
        i = i + 1;
    }
    proof {
        if i == snapshot@.len() {
            assert(snap.skip(i as int) =~= Seq::empty());
        }
    }
    let ghost removed: Seq<Seq<char>> = spec_sweep(snap, budget, now_ms);
    proof {
        assert(removed.take(0) =~= Seq::empty());
        assert(store0.remove_keys(removed.take(0).to_set()) =~= store0);
        assert(locks0.difference(removed.take(0).to_set()) =~= locks0);
    }
    let mut idx: usize = 0;
    while idx < keys_to_remove.len()
        invariant
            0 <= idx <= keys_to_remove@.len(),
            removed == Seq::new(keys_to_remove@.len(), |j: int| keys_to_remove@[j]@),
            store_contents(*cache) == store0.remove_keys(removed.take(idx as int).to_set()),
            lock_keys(*lock_manager) == locks0.difference(removed.take(idx as int).to_set()),
        decreases keys_to_remove@.len() - idx,
    {
        let key = &keys_to_remove[idx];
        proof {
            assert(removed[idx as int] == key@);
        }
        cache.remove(key);
        lock_manager.remove(key);
        proof {
            lemma_take_to_set_push(removed, idx as int);
            assert(store0.remove_keys(removed.take(idx as int).to_set()).remove(key@)
                =~= store0.remove_keys(removed.take(idx as int + 1).to_set()));
            assert(locks0.difference(removed.take(idx as int).to_set()).remove(key@)
                =~= locks0.difference(removed.take(idx as int + 1).to_set()));
        }
        idx = idx + 1;
    }
    proof {
        assert(removed.take(removed.len() as int) =~= removed);
        lemma_wf_remove_keys(store0, locks0, removed.to_set());
    }
    let repeat_threshold = num_clean / 4;
    let r: Result<(), CleanupError> = if keys_to_remove.len() > repeat_threshold {
        Err(CleanupError::NeedToRepeat)
    } else {
        Ok(())
    };
    proof {
        assert(clean_models(
            snap,
            store0,
            locks0,
            now_ms,
            store_contents(*cache),
            lock_keys(*lock_manager),
            r,
        ));
    }
    r
}

} // verus!
