//! The entry store: a mapping from key to blob plus byte-size accounting.
//!
//! The store is modeled as a `Map<Seq<char>, Seq<u8>>` from key to finalized
//! blob. Its well-formedness asks that keys be unique, that every stored blob
//! be a structurally sound frame, and that the running `u64` byte counter
//! equal the sum of the payload sizes of the blobs currently present — so an
//! overwrite subtracts the replaced blob's payload size before adding the new
//! one.

use crate::artifact::{is_frame, payload_of, CacheError, HEADER_LEN};
use vstd::prelude::*;

verus! {

/// Pairwise distinctness of the keys in the backing sequence of entries.
pub open spec fn keys_distinct(s: Seq<(String, Vec<u8>)>) -> bool {
    forall|i: int, j: int| 0 <= i < j < s.len() ==> s[i].0@ != s[j].0@
}

/// Structural soundness of every blob in the backing sequence of entries.
pub open spec fn values_framed(s: Seq<(String, Vec<u8>)>) -> bool {
    forall|i: int| 0 <= i < s.len() ==> is_frame(#[trigger] s[i].1@)
}

/// The mapping that a sequence of entries denotes; later entries win.
pub open spec fn map_of(s: Seq<(String, Vec<u8>)>) -> Map<Seq<char>, Seq<u8>>
    decreases s.len(),
{
    if s.len() == 0 {
        Map::empty()
    } else {
        map_of(s.drop_last()).insert(s.last().0@, s.last().1@)
    }
}

/// The total number of payload bytes held by a sequence of entries.
pub open spec fn size_sum(s: Seq<(String, Vec<u8>)>) -> nat
    decreases s.len(),
{
    if s.len() == 0 {
        0
    } else {
        size_sum(s.drop_last()) + payload_of(s.last().1@).len()
    }
}

/// The number of payload bytes a map holds under a key: the stored blob's
/// payload size when the key is present, zero otherwise.
pub open spec fn entry_size(m: Map<Seq<char>, Seq<u8>>, key: Seq<char>) -> nat {
    if m.contains_key(key) {
        payload_of(m[key]).len()
    } else {
        0
    }
}

proof fn lemma_map_of_absent(s: Seq<(String, Vec<u8>)>, k: Seq<char>)
    requires
        forall|j: int| 0 <= j < s.len() ==> s[j].0@ != k,
    ensures
        !map_of(s).contains_key(k),
    decreases s.len(),
{
    if s.len() > 0 {
        lemma_map_of_absent(s.drop_last(), k);
    }
}

proof fn lemma_map_of_found(s: Seq<(String, Vec<u8>)>, i: int, k: Seq<char>)
    requires
        keys_distinct(s),
        0 <= i < s.len(),
        s[i].0@ == k,
    ensures
        map_of(s).contains_key(k),
        map_of(s)[k] == s[i].1@,
    decreases s.len(),
{
    if i < s.len() - 1 {
        lemma_map_of_found(s.drop_last(), i, k);
    }
}

proof fn lemma_map_of_covered(s: Seq<(String, Vec<u8>)>, k: Seq<char>)
    requires
        map_of(s).contains_key(k),
    ensures
        exists|i: int| 0 <= i < s.len() && #[trigger] s[i].1@ == map_of(s)[k],
    decreases s.len(),
{
    if s.len() > 0 {
        if s.last().0@ == k {
            assert(s[s.len() - 1].1@ == map_of(s)[k]);
        } else {
            lemma_map_of_covered(s.drop_last(), k);
            let i = choose|i: int|
                0 <= i < s.drop_last().len() && #[trigger] s.drop_last()[i].1@ == map_of(
                    s.drop_last(),
                )[k];
            assert(s[i].1@ == map_of(s)[k]);
        }
    }
}

proof fn lemma_map_of_update(s: Seq<(String, Vec<u8>)>, i: int, key: String, blob: Vec<u8>)
    requires
        keys_distinct(s),
        0 <= i < s.len(),
        s[i].0@ == key@,
    ensures
        map_of(s.update(i, (key, blob))) =~= map_of(s).insert(key@, blob@),
    decreases s.len(),
{
    let t = s.update(i, (key, blob));
    if i == s.len() - 1 {
        assert(t.drop_last() =~= s.drop_last());
        assert(map_of(t) =~= map_of(s).insert(key@, blob@));
    } else {
        lemma_map_of_update(s.drop_last(), i, key, blob);
        assert(t.drop_last() =~= s.drop_last().update(i, (key, blob)));
        assert(t.last() == s.last());
        assert(s.last().0@ != key@);
        assert(map_of(t) =~= map_of(s).insert(key@, blob@));
    }
}

proof fn lemma_size_sum_update(s: Seq<(String, Vec<u8>)>, i: int, e: (String, Vec<u8>))
    requires
        0 <= i < s.len(),
    ensures
        size_sum(s.update(i, e)) == size_sum(s) - payload_of(s[i].1@).len() + payload_of(
            e.1@,
        ).len(),
    decreases s.len(),
{
    let t = s.update(i, e);
    if i == s.len() - 1 {
        assert(t.drop_last() =~= s.drop_last());
        assert(t.last() == e);
    } else {
        lemma_size_sum_update(s.drop_last(), i, e);
        assert(t.drop_last() =~= s.drop_last().update(i, e));
        assert(t.last() == s.last());
    }
}

proof fn lemma_size_sum_element(s: Seq<(String, Vec<u8>)>, i: int)
    requires
        0 <= i < s.len(),
    ensures
        payload_of(s[i].1@).len() <= size_sum(s),
    decreases s.len(),
{
    if i < s.len() - 1 {
        lemma_size_sum_element(s.drop_last(), i);
    }
}

fn find_index(entries: &Vec<(String, Vec<u8>)>, key: &str) -> (r: Option<usize>)
    ensures
        match r {
            Some(i) => i < entries@.len() && entries@[i as int].0@ == key@,
            None => forall|j: int| 0 <= j < entries@.len() ==> entries@[j].0@ != key@,
        },
{
    let owned: String = key.to_owned();
    let mut i: usize = 0;
    while i < entries.len()
        invariant
            i <= entries@.len(),
            owned@ == key@,
            forall|j: int| 0 <= j < i ==> entries@[j].0@ != key@,
        decreases entries@.len() - i,
    {
        if entries[i].0 == owned {
            return Some(i);
        }
        i = i + 1;
    }
    None
}

/// The mutable state of the in-memory backend: the entries and the running
/// total of payload bytes currently stored.
pub struct InMemCacheStore {
    entries: Vec<(String, Vec<u8>)>,
    current_size_bytes: u64,
}

impl View for InMemCacheStore {
    type V = Map<Seq<char>, Seq<u8>>;

    closed spec fn view(&self) -> Map<Seq<char>, Seq<u8>> {
        map_of(self.entries@)
    }
}

impl InMemCacheStore {
    /// Well-formedness: keys are unique, every stored blob is a structurally
    /// sound frame, and the byte counter equals the sum of the payload sizes
    /// of all blobs currently present.
    pub closed spec fn wf(self) -> bool {
        &&& keys_distinct(self.entries@)
        &&& values_framed(self.entries@)
        &&& self.current_size_bytes == size_sum(self.entries@)
    }

    /// The running byte total.
    pub closed spec fn size_spec(self) -> u64 {
        self.current_size_bytes
    }

    /// In a well-formed store, every stored blob is a structurally sound
    /// frame.
    pub proof fn lemma_wf_blob_framed(self, k: Seq<char>)
        requires
            self.wf(),
            self@.contains_key(k),
        ensures
            is_frame(self@[k]),
    {
        lemma_map_of_covered(self.entries@, k);
    }

    /// An empty store with zeroed accounting.
    pub fn new() -> (s: InMemCacheStore)
        ensures
            s@ == Map::<Seq<char>, Seq<u8>>::empty(),
            s.wf(),
            s.size_spec() == 0,
    {
        InMemCacheStore { entries: Vec::new(), current_size_bytes: 0 }
    }

    /// Look a key up and hand back a copy of its blob, or nothing when the key
    /// is absent.
    pub fn lookup(&self, key: &str) -> (r: Option<Vec<u8>>)
        requires
            self.wf(),
        ensures
            match r {
                Some(b) => self@.contains_key(key@) && b@ == self@[key@],
                None => !self@.contains_key(key@),
            },
    {
        match find_index(&self.entries, key) {
            Some(i) => {
                proof {
                    lemma_map_of_found(self.entries@, i as int, key@);
                }
                let b = self.entries[i].1.clone();
                proof {
                    assert(b@ =~= self.entries@[i as int].1@);
                }
                Some(b)
            },
            None => {
                proof {
                    lemma_map_of_absent(self.entries@, key@);
                }
                None
            },
        }
    }

    /// Store `blob` under `key`, replacing any blob already there; the byte
    /// counter loses the replaced blob's payload size and gains the new one's.
    ///
    /// The only failure is the machine limit of the accounting itself: a total
    /// that would no longer fit in `u64` is rejected and the store is left
    /// unchanged.
    pub fn insert(&mut self, key: &str, blob: Vec<u8>) -> (r: Result<(), CacheError>)
        requires
            old(self).wf(),
            is_frame(blob@),
        ensures
            final(self).wf(),
            (r is Ok) <==> old(self).size_spec() - entry_size(old(self)@, key@) + payload_of(
                blob@,
            ).len() <= u64::MAX,
            r is Ok ==> final(self)@ == old(self)@.insert(key@, blob@),
            r is Ok ==> final(self).size_spec() == old(self).size_spec() - entry_size(
                old(self)@,
                key@,
            ) + payload_of(blob@).len(),
            r is Err ==> *final(self) == *old(self) && r == Err::<(), CacheError>(
                CacheError::SizeOverflow,
            ),
    {
        let ghost s0 = self.entries@;
        let blob_len: u64 = (blob.len() - HEADER_LEN) as u64;
        match find_index(&self.entries, key) {
            Some(i) => {
                proof {
                    lemma_map_of_found(s0, i as int, key@);
                    lemma_size_sum_element(s0, i as int);
                }
                let old_len: u64 = (self.entries[i].1.len() - HEADER_LEN) as u64;
                let remaining: u64 = self.current_size_bytes - old_len;
                if blob_len > u64::MAX - remaining {
                    return Err(CacheError::SizeOverflow);
                }
                let owned: String = key.to_owned();
                proof {
                    lemma_map_of_update(s0, i as int, owned, blob);
                    lemma_size_sum_update(s0, i as int, (owned, blob));
                }
                self.entries[i] = (owned, blob);
                self.current_size_bytes = remaining + blob_len;
                proof {
                    assert forall|x: int, y: int|
                        0 <= x < y < self.entries@.len() implies self.entries@[x].0@
                        != self.entries@[y].0@ by {
                        assert(self.entries@[x].0@ == s0[x].0@);
                        assert(self.entries@[y].0@ == s0[y].0@);
                    }
                    assert forall|x: int| 0 <= x < self.entries@.len() implies is_frame(
                        #[trigger] self.entries@[x].1@,
                    ) by {
                        if x != i {
                            assert(self.entries@[x].1@ == s0[x].1@);
                        }
                    }
                }
                Ok(())
            },
            None => {
                proof {
                    lemma_map_of_absent(s0, key@);
                }
                if blob_len > u64::MAX - self.current_size_bytes {
                    return Err(CacheError::SizeOverflow);
                }
                let owned: String = key.to_owned();
                self.entries.push((owned, blob));
                self.current_size_bytes = self.current_size_bytes + blob_len;
                proof {
                    assert(self.entries@.drop_last() =~= s0);
                    assert(self.entries@.last() == (owned, blob));
                    assert forall|x: int, y: int|
                        0 <= x < y < self.entries@.len() implies self.entries@[x].0@
                        != self.entries@[y].0@ by {
                        if y < self.entries@.len() - 1 {
                            assert(self.entries@[x].0@ == s0[x].0@);
                            assert(self.entries@[y].0@ == s0[y].0@);
                        } else {
                            assert(self.entries@[x].0@ == s0[x].0@);
                        }
                    }
                    assert forall|x: int| 0 <= x < self.entries@.len() implies is_frame(
                        #[trigger] self.entries@[x].1@,
                    ) by {
                        if x < self.entries@.len() - 1 {
                            assert(self.entries@[x].1@ == s0[x].1@);
                        }
                    }
                }
                Ok(())
            },
        }
    }

    /// The running byte total, as the accounting reports it.
    pub fn size_bytes(&self) -> (r: u64)
        ensures
            r == self.size_spec(),
    {
        self.current_size_bytes
    }
}

} // verus!
