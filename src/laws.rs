use vstd::prelude::*;

use crate::map::{created, inserted, inserted_all, keys_of};

verus! {

/// The first offer under an absent key stores its value; every later offer
/// under that key is refused and leaves the first value in place.
pub proof fn insert_once<K, V>(m: Map<K, V>, k: K, v: V, later: V)
    requires
        !m.contains_key(k),
    ensures
        inserted(m, k, v).contains_key(k),
        inserted(m, k, v)[k] == v,
        inserted(inserted(m, k, v), k, later) == inserted(m, k, v),
{
}

/// After one get-or-insert under `k`, a second one under `k` stores nothing,
/// whatever it would have created, and finds the value the first one left.
pub proof fn memo_idempotent<K, V>(m: Map<K, V>, k: K, first: V, second: V)
    ensures
        inserted(m, k, first).contains_key(k),
        inserted(m, k, first)[k] == (if m.contains_key(k) { m[k] } else { first }),
        inserted(inserted(m, k, first), k, second) == inserted(m, k, first),
{
}

/// A sequence of offers leaves exactly the keys that were there or offered,
/// so a map that starts empty counts the distinct keys offered.
pub proof fn count_after_inserts<K, V>(m: Map<K, V>, entries: Seq<(K, V)>)
    requires
        m.dom().finite(),
    ensures
        inserted_all(m, entries).dom() == m.dom().union(keys_of(entries)),
        inserted_all(m, entries).dom().finite(),
        m.len() == 0 ==> inserted_all(m, entries).len() == keys_of(entries).len(),
    decreases entries.len(),
{
    if entries.len() > 0 {
        let rest = entries.drop_last();
        let last = entries.last();
        count_after_inserts(m, rest);
        assert forall|x: K| #[trigger] keys_of(entries).contains(x) <==> keys_of(rest).contains(x)
            || x == last.0 by {
            if keys_of(entries).contains(x) {
                let i = choose|i: int| 0 <= i < entries.len() && #[trigger] entries[i].0 == x;
                if i < rest.len() {
                    assert(rest[i].0 == x);
                }
            }
            if keys_of(rest).contains(x) {
                let i = choose|i: int| 0 <= i < rest.len() && #[trigger] rest[i].0 == x;
                assert(entries[i].0 == x);
            }
            if x == last.0 {
                assert(entries[entries.len() - 1].0 == x);
            }
        }
        assert(inserted_all(m, entries).dom() =~= m.dom().union(keys_of(entries)));
    } else {
        assert(m.dom().union(keys_of(entries)) =~= m.dom());
    }
    if m.len() == 0 {
        m.dom().lemma_len0_is_empty();
        assert(m.dom().union(keys_of(entries)) =~= keys_of(entries));
    }
}

/// Later offers never change an entry that is already stored.
pub proof fn stable_under_growth<K, V>(m: Map<K, V>, entries: Seq<(K, V)>, k: K)
    requires
        m.contains_key(k),
    ensures
        inserted_all(m, entries).contains_key(k),
        inserted_all(m, entries)[k] == m[k],
    decreases entries.len(),
{
    if entries.len() > 0 {
        stable_under_growth(m, entries.drop_last(), k);
    }
}

/// A creator that fails under an absent key leaves it absent, and a later
/// creator that succeeds stores its value as if the failure never happened.
pub proof fn failed_creation_stores_nothing<K, V, E>(m: Map<K, V>, k: K, e: E, v: V)
    requires
        !m.contains_key(k),
    ensures
        !created(m, k, Err::<V, E>(e)).contains_key(k),
        created(created(m, k, Err::<V, E>(e)), k, Ok::<V, E>(v)) == m.insert(k, v),
{
}

} // verus!
