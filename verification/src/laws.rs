//! General laws of the store, proved over its abstract model.
//!
//! A store state is a mapping plus a byte total; [`put_step`] is exactly what
//! [`InMemCacheStore::insert`](crate::store::InMemCacheStore::insert) promises
//! of a successful put, so a run of [`run_puts`] describes any sequence of
//! successful puts against a store.

use crate::artifact::payload_of;
use crate::store::entry_size;
use vstd::prelude::*;

verus! {

/// One successful put on the abstract store state: the mapping gains the
/// binding, the total loses the replaced blob's payload size and gains the new one's.
pub open spec fn put_step(
    m: Map<Seq<char>, Seq<u8>>,
    total: nat,
    key: Seq<char>,
    blob: Seq<u8>,
) -> (Map<Seq<char>, Seq<u8>>, nat) {
    (m.insert(key, blob), (total - entry_size(m, key) + payload_of(blob).len()) as nat)
}

/// The state after a sequence of puts, applied in order from `(m, total)`.
pub open spec fn run_puts(
    m: Map<Seq<char>, Seq<u8>>,
    total: nat,
    ops: Seq<(Seq<char>, Seq<u8>)>,
) -> (Map<Seq<char>, Seq<u8>>, nat)
    decreases ops.len(),
{
    if ops.len() == 0 {
        (m, total)
    } else {
        let st = put_step(m, total, ops[0].0, ops[0].1);
        run_puts(st.0, st.1, ops.drop_first())
    }
}

/// Pairwise distinctness of the keys of a sequence of puts.
pub open spec fn ops_keys_distinct(ops: Seq<(Seq<char>, Seq<u8>)>) -> bool {
    forall|i: int, j: int| 0 <= i < j < ops.len() ==> ops[i].0 != ops[j].0
}

/// The sum of the blob payload sizes of a sequence of puts.
pub open spec fn ops_size_sum(ops: Seq<(Seq<char>, Seq<u8>)>) -> nat
    decreases ops.len(),
{
    if ops.len() == 0 {
        0
    } else {
        payload_of(ops[0].1).len() + ops_size_sum(ops.drop_first())
    }
}

/// A run of puts touches no key it was not given: a key absent before the run
/// and named by none of the puts is still absent afterward.
pub proof fn lemma_run_preserves_absent(
    m: Map<Seq<char>, Seq<u8>>,
    total: nat,
    ops: Seq<(Seq<char>, Seq<u8>)>,
    key: Seq<char>,
)
    requires
        !m.contains_key(key),
        forall|i: int| 0 <= i < ops.len() ==> ops[i].0 != key,
    ensures
        !run_puts(m, total, ops).0.contains_key(key),
    decreases ops.len(),
{
    if ops.len() > 0 {
        let st = put_step(m, total, ops[0].0, ops[0].1);
        lemma_run_preserves_absent(st.0, st.1, ops.drop_first(), key);
    }
}

/// A key never passed to `put` is a miss: after any run of puts, none of
/// which names `key`, starting from the empty store, the store does not
/// contain `key` — and a lookup of it therefore returns a miss.
pub proof fn lemma_unwritten_key_misses(ops: Seq<(Seq<char>, Seq<u8>)>, key: Seq<char>)
    requires
        forall|i: int| 0 <= i < ops.len() ==> ops[i].0 != key,
    ensures
        !run_puts(Map::empty(), 0, ops).0.contains_key(key),
{
    lemma_run_preserves_absent(Map::empty(), 0, ops, key);
}

/// Put then get: after a put of `blob` under `key`, the store contains `key`
/// and holds exactly `blob` there.
pub proof fn lemma_put_then_get(
    m: Map<Seq<char>, Seq<u8>>,
    total: nat,
    key: Seq<char>,
    blob: Seq<u8>,
)
    ensures
        put_step(m, total, key, blob).0.contains_key(key),
        put_step(m, total, key, blob).0[key] == blob,
{
}

/// Last write wins: two puts under the same key leave the second blob in the
/// store, and the byte total counts only the second blob's payload size, not
/// the sum of both.
pub proof fn lemma_last_write_wins(key: Seq<char>, v1: Seq<u8>, v2: Seq<u8>)
    ensures
        run_puts(Map::empty(), 0, seq![(key, v1), (key, v2)]).0[key] == v2,
        run_puts(Map::empty(), 0, seq![(key, v1), (key, v2)]).1 == payload_of(v2).len(),
{
    let ops = seq![(key, v1), (key, v2)];
    assert(ops[0] == (key, v1));
    let st1 = put_step(Map::empty(), 0, key, v1);
    assert(st1.1 == payload_of(v1).len());
    let tail = ops.drop_first();
    assert(tail[0] == (key, v2));
    assert(run_puts(Map::empty(), 0, ops) == run_puts(st1.0, st1.1, tail));
    let st2 = put_step(st1.0, st1.1, key, v2);
    assert(entry_size(st1.0, key) == payload_of(v1).len());
    assert(st2.1 == payload_of(v2).len());
    assert(tail.drop_first() =~= Seq::<(Seq<char>, Seq<u8>)>::empty());
    assert(run_puts(st1.0, st1.1, tail) == run_puts(st2.0, st2.1, tail.drop_first()));
    assert(run_puts(st2.0, st2.1, tail.drop_first()) == (st2.0, st2.1));
    assert(st2.0[key] == v2);
}

/// A run of puts with keys all absent from the store adds exactly the sum of
/// its blob payload sizes to the byte total.
pub proof fn lemma_fresh_puts_add_sizes(
    m: Map<Seq<char>, Seq<u8>>,
    total: nat,
    ops: Seq<(Seq<char>, Seq<u8>)>,
)
    requires
        ops_keys_distinct(ops),
        forall|i: int| 0 <= i < ops.len() ==> !m.contains_key(#[trigger] ops[i].0),
    ensures
        run_puts(m, total, ops).1 == total + ops_size_sum(ops),
    decreases ops.len(),
{
    if ops.len() > 0 {
        let st = put_step(m, total, ops[0].0, ops[0].1);
        assert(entry_size(m, ops[0].0) == 0);
        assert forall|i: int| 0 <= i < ops.drop_first().len() implies !st.0.contains_key(
            #[trigger] ops.drop_first()[i].0,
        ) by {
            assert(ops.drop_first()[i] == ops[i + 1]);
            assert(ops[i + 1].0 != ops[0].0);
        }
        lemma_fresh_puts_add_sizes(st.0, st.1, ops.drop_first());
    }
}

/// N puts with distinct keys: starting from the empty store, the byte total
/// afterward equals the sum of the blob payload sizes.
pub proof fn lemma_distinct_puts_total(ops: Seq<(Seq<char>, Seq<u8>)>)
    requires
        ops_keys_distinct(ops),
    ensures
        run_puts(Map::empty(), 0, ops).1 == ops_size_sum(ops),
{
    lemma_fresh_puts_add_sizes(Map::empty(), 0, ops);
}

/// A run of puts leaves a binding alone when none of the puts names its key.
pub proof fn lemma_run_preserves_binding(
    m: Map<Seq<char>, Seq<u8>>,
    total: nat,
    ops: Seq<(Seq<char>, Seq<u8>)>,
    key: Seq<char>,
)
    requires
        m.contains_key(key),
        forall|i: int| 0 <= i < ops.len() ==> ops[i].0 != key,
    ensures
        run_puts(m, total, ops).0.contains_key(key),
        run_puts(m, total, ops).0[key] == m[key],
    decreases ops.len(),
{
    if ops.len() > 0 {
        let st = put_step(m, total, ops[0].0, ops[0].1);
        lemma_run_preserves_binding(st.0, st.1, ops.drop_first(), key);
    }
}

/// Puts with distinct keys do not disturb one another: after the run, every
/// key put is present with exactly its own blob, whichever caller's put it
/// was and in whatever order the lock serialized them.
pub proof fn lemma_distinct_puts_all_hit(ops: Seq<(Seq<char>, Seq<u8>)>)
    requires
        ops_keys_distinct(ops),
    ensures
        forall|i: int|
            0 <= i < ops.len() ==> {
                &&& run_puts(Map::empty(), 0, ops).0.contains_key(#[trigger] ops[i].0)
                &&& run_puts(Map::empty(), 0, ops).0[ops[i].0] == ops[i].1
            },
{
    assert forall|i: int| 0 <= i < ops.len() implies {
        &&& run_puts(Map::empty(), 0, ops).0.contains_key(#[trigger] ops[i].0)
        &&& run_puts(Map::empty(), 0, ops).0[ops[i].0] == ops[i].1
    } by {
        lemma_run_binds_each(Map::empty(), 0, ops, i);
    }
}

proof fn lemma_run_binds_each(
    m: Map<Seq<char>, Seq<u8>>,
    total: nat,
    ops: Seq<(Seq<char>, Seq<u8>)>,
    i: int,
)
    requires
        ops_keys_distinct(ops),
        0 <= i < ops.len(),
    ensures
        run_puts(m, total, ops).0.contains_key(ops[i].0),
        run_puts(m, total, ops).0[ops[i].0] == ops[i].1,
    decreases ops.len(),
{
    let st = put_step(m, total, ops[0].0, ops[0].1);
    if i == 0 {
        assert forall|j: int| 0 <= j < ops.drop_first().len() implies ops.drop_first()[j].0
            != ops[0].0 by {
            assert(ops.drop_first()[j] == ops[j + 1]);
        }
        lemma_run_preserves_binding(st.0, st.1, ops.drop_first(), ops[0].0);
    } else {
        assert(ops.drop_first()[i - 1] == ops[i]);
        lemma_run_binds_each(st.0, st.1, ops.drop_first(), i - 1);
    }
}

} // verus!
