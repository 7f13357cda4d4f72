use vstd::prelude::*;
use crate::handles::{kv_id_bytes, KeyValueStore};
use crate::types::KeyValueStoreId;

verus! {

/// Whether two byte vectors hold the same bytes.
fn same_vec(a: &Vec<u8>, b: &[u8]) -> (r: bool)
    ensures
        r <==> a@ == b@,
{
    if a.len() != b.len() {
        return false;
    }
    let mut i: usize = 0;
    while i < a.len()
        invariant
            a@.len() == b@.len(),
            i <= a@.len(),
            forall|j: int| 0 <= j < i ==> a@[j] == b@[j],
        decreases a@.len() - i,
    {
        if a[i] != b[i] {
            return false;
        }
        i = i + 1;
    }
    assert(a@ =~= b@);
    true
}

/// The first byte of the key of every key-value store entry.
pub const KV_ENTRY_KEY_TAG: u8 = 0x07;

/// The prefix shared by the keys of all entries of one key-value store.
pub open spec fn kv_prefix(id: KeyValueStoreId) -> Seq<u8> {
    seq![KV_ENTRY_KEY_TAG] + kv_id_bytes(id)
}

/// The key under which the entry `key` of store `id` is kept: the prefix, then the key.
pub fn kv_entry_key(id: KeyValueStoreId, key: &[u8]) -> (r: Vec<u8>)
    ensures
        r@ == kv_prefix(id) + key@,
{
    let mut r: Vec<u8> = Vec::new();
    r.push(KV_ENTRY_KEY_TAG);
    let mut body = KeyValueStore::<(), ()>::new(id).to_vec();
    r.append(&mut body);
    let mut i: usize = 0;
    let ghost start = r@;
    while i < key.len()
        invariant
            i <= key@.len(),
            r@ == start + key@.take(i as int),
        decreases key@.len() - i,
    {
        r.push(key[i]);
        i = i + 1;
        proof {
            assert(r@ =~= start + key@.take(i as int));
        }
    }
    proof {
        assert(key@.take(key@.len() as int) =~= key@);
        assert(start =~= kv_prefix(id));
    }
    r
}

/// Whether `k` starts with `prefix`; then gives what follows it.
fn strip_prefix(k: &Vec<u8>, prefix: &Vec<u8>) -> (r: Option<Vec<u8>>)
    ensures
        r is Some <==> prefix@.len() <= k@.len() && k@.take(prefix@.len() as int) == prefix@,
        r is Some ==> k@ == prefix@ + r->Some_0@,
{
    if prefix.len() > k.len() {
        return None;
    }
    let mut i: usize = 0;
    while i < prefix.len()
        invariant
            prefix@.len() <= k@.len(),
            i <= prefix@.len(),
            forall|j: int| 0 <= j < i ==> k@[j] == prefix@[j],
        decreases prefix@.len() - i,
    {
        if k[i] != prefix[i] {
            return None;
        }
        i = i + 1;
    }
    let mut rest: Vec<u8> = Vec::new();
    let mut j: usize = prefix.len();
    while j < k.len()
        invariant
            prefix@.len() <= j <= k@.len(),
            rest@ == k@.subrange(prefix@.len() as int, j as int),
        decreases k@.len() - j,
    {
        rest.push(k[j]);
        j = j + 1;
        proof {
            assert(rest@ =~= k@.subrange(prefix@.len() as int, j as int));
        }
    }
    proof {
        assert(k@.take(prefix@.len() as int) =~= prefix@);
        assert(k@ =~= prefix@ + rest@);
    }
    Some(rest)
}

/// A substate store that keeps every encoded substate in host memory, keyed by the
/// encoded substate id.
pub struct SerializedInMemorySubstateStore {
    substates: Vec<(Vec<u8>, Vec<u8>)>,
    roots: Vec<Vec<u8>>,
    contents: Ghost<Map<Seq<u8>, Seq<u8>>>,
    root_set: Ghost<Set<Seq<u8>>>,
}

impl SerializedInMemorySubstateStore {
    /// The stored substates, by key.
    pub closed spec fn view(&self) -> Map<Seq<u8>, Seq<u8>> {
        self.contents@
    }

    /// The keys marked as entry points of transactions.
    pub closed spec fn root_keys(&self) -> Set<Seq<u8>> {
        self.root_set@
    }

    /// The vectors hold exactly the ghost map and set, each key once.
    pub closed spec fn wf(&self) -> bool {
        &&& forall|i: int|
            0 <= i < self.substates@.len() ==> #[trigger] self.contents@.contains_key(
                self.substates@[i].0@,
            ) && self.contents@[self.substates@[i].0@] == self.substates@[i].1@
        &&& forall|k: Seq<u8>|
            #[trigger] self.contents@.contains_key(k) ==> exists|i: int|
                0 <= i < self.substates@.len() && self.substates@[i].0@ == k
        &&& forall|i: int, j: int|
            0 <= i < j < self.substates@.len() ==> self.substates@[i].0@ != self.substates@[j].0@
        &&& forall|k: Seq<u8>|
            #[trigger] self.root_set@.contains(k) <==> exists|i: int|
                0 <= i < self.roots@.len() && self.roots@[i]@ == k
    }

    pub fn new() -> (r: Self)
        ensures
            r.wf(),
            r@ == Map::<Seq<u8>, Seq<u8>>::empty(),
            r.root_keys() == Set::<Seq<u8>>::empty(),
    {
        SerializedInMemorySubstateStore {
            substates: Vec::new(),
            roots: Vec::new(),
            contents: Ghost(Map::empty()),
            root_set: Ghost(Set::empty()),
        }
    }

    fn find(&self, key: &[u8]) -> (r: Option<usize>)
        requires
            self.wf(),
        ensures
            r is Some <==> self@.contains_key(key@),
            r is Some ==> r->Some_0 < self.substates@.len() && self.substates@[r->Some_0 as int].0@
                == key@,
    {
        let mut i: usize = 0;
        while i < self.substates.len()
            invariant
                self.wf(),
                i <= self.substates@.len(),
                forall|j: int| 0 <= j < i ==> self.substates@[j].0@ != key@,
            decreases self.substates@.len() - i,
        {
            if same_vec(&self.substates[i].0, key) {
                proof {
                    assert(self.contents@.contains_key(self.substates@[i as int].0@));
                }
                return Some(i);
            }
            i = i + 1;
        }
        None
    }

    /// The substate stored under `key`, if any.
    pub fn get_substate(&self, key: &[u8]) -> (r: Option<Vec<u8>>)
        requires
            self.wf(),
        ensures
            r is Some <==> self@.contains_key(key@),
            r is Some ==> r->Some_0@ == self@[key@],
    {
        match self.find(key) {
            Some(i) => Some(self.substates[i].1.clone()),
            None => None,
        }
    }

    /// Stores `value` under `key`, replacing what was there.
    pub fn put_substate(&mut self, key: Vec<u8>, value: Vec<u8>)
        requires
            old(self).wf(),
        ensures
            final(self).wf(),
            final(self)@ == old(self)@.insert(key@, value@),
            final(self).root_keys() == old(self).root_keys(),
    {
        let ghost k = key@;
        let ghost v = value@;
        let ghost before = self.substates@;
        let ghost old_map = self.contents@;
        let ghost at: int;
        match self.find(key.as_slice()) {
            Some(i) => {
                self.substates.set(i, (key, value));
                proof {
                    at = i as int;
                }
            },
            None => {
                self.substates.push((key, value));
                proof {
                    at = before.len() as int;
                }
            },
        }
        self.contents = Ghost(old_map.insert(k, v));
        proof {
            assert(self.substates@[at].0@ == k && self.substates@[at].1@ == v);
            assert forall|j: int| 0 <= j < self.substates@.len() && j != at implies (
            #[trigger] self.substates@[j]) == before[j] by {}
            assert forall|j: int| 0 <= j < before.len() && j != at implies before[j].0@ != k by {
                if before[j].0@ == k {
                    assert(old_map.contains_key(before[j].0@));
                }
            }
            assert forall|kk: Seq<u8>| #[trigger] self.contents@.contains_key(kk) implies exists|
                i: int,
            | 0 <= i < self.substates@.len() && self.substates@[i].0@ == kk by {
                if kk != k {
                    assert(old_map.contains_key(kk));
                    let i = choose|i: int| 0 <= i < before.len() && before[i].0@ == kk;
                    assert(self.substates@[i].0@ == kk);
                } else {
                    assert(self.substates@[at].0@ == kk);
                }
            }
            assert forall|i: int|
                0 <= i < self.substates@.len() implies #[trigger] self.contents@.contains_key(
                self.substates@[i].0@,
            ) && self.contents@[self.substates@[i].0@] == self.substates@[i].1@ by {
                if i != at {
                    assert(old_map.contains_key(before[i].0@));
                }
            }
            assert forall|i: int, j: int|
                0 <= i < j < self.substates@.len() implies self.substates@[i].0@
                != self.substates@[j].0@ by {
                if i != at && j != at {
                    assert(self.substates@[i] == before[i]);
                    assert(self.substates@[j] == before[j]);
                } else if i == at {
                    assert(self.substates@[j] == before[j]);
                } else {
                    assert(self.substates@[i] == before[i]);
                }
            }
            assert forall|kk: Seq<u8>| #[trigger] self.root_set@.contains(kk) implies exists|i: int|
                0 <= i < self.roots@.len() && self.roots@[i]@ == kk by {
                assert(old(self).root_set@.contains(kk));
                let i = choose|i: int| 0 <= i < old(self).roots@.len() && old(self).roots@[i]@ == kk;
                assert(self.roots@[i]@ == kk);
            }
        }
    }

    /// Every entry of the key-value store `id`: its key within the store and its stored
    /// value. The order of the entries is not defined.
    pub fn get_kv_store_entries(&self, id: KeyValueStoreId) -> (r: Vec<(Vec<u8>, Vec<u8>)>)
        requires
            self.wf(),
        ensures
            forall|i: int|
                0 <= i < r@.len() ==> self@.contains_key(kv_prefix(id) + (#[trigger] r@[i]).0@)
                    && self@[kv_prefix(id) + r@[i].0@] == r@[i].1@,
            forall|k: Seq<u8>|
                #[trigger] self@.contains_key(kv_prefix(id) + k) ==> exists|i: int|
                    0 <= i < r@.len() && r@[i].0@ == k,
    {
        let prefix = kv_entry_key(id, &[]);
        proof {
            assert(prefix@ =~= kv_prefix(id));
        }
        let mut r: Vec<(Vec<u8>, Vec<u8>)> = Vec::new();
        let mut i: usize = 0;
        while i < self.substates.len()
            invariant
                self.wf(),
                prefix@ == kv_prefix(id),
                i <= self.substates@.len(),
                forall|m: int|
                    0 <= m < r@.len() ==> self@.contains_key(kv_prefix(id) + (#[trigger] r@[m]).0@)
                        && self@[kv_prefix(id) + r@[m].0@] == r@[m].1@,
                forall|j: int|
                    0 <= j < i && self.substates@[j].0@.len() >= prefix@.len()
                        && self.substates@[j].0@.take(prefix@.len() as int) == prefix@ ==> exists|
                        m: int,
                    | 0 <= m < r@.len() && prefix@ + r@[m].0@ == #[trigger] self.substates@[j].0@,
            decreases self.substates@.len() - i,
        {
            match strip_prefix(&self.substates[i].0, &prefix) {
                Some(rest) => {
                    let ghost before = r@;
                    proof {
                        assert(self.contents@.contains_key(self.substates@[i as int].0@));
                    }
                    r.push((rest, self.substates[i].1.clone()));
                    proof {
                        let n = before.len() as int;
                        assert(r@[n].0@ == rest@);
                        assert forall|j: int|
                            0 <= j < i + 1 && self.substates@[j].0@.len() >= prefix@.len()
                                && self.substates@[j].0@.take(prefix@.len() as int) == prefix@ implies exists|
                                m: int,
                            | 0 <= m < r@.len() && prefix@ + r@[m].0@ == #[trigger] self.substates@[j].0@ by {
                            if j < i {
                                let m = choose|m: int|
                                    0 <= m < before.len() && prefix@ + before[m].0@
                                        == self.substates@[j].0@;
                                assert(r@[m] == before[m]);
                            } else {
                                assert(prefix@ + r@[n].0@ == self.substates@[j].0@);
                            }
                        }
                    }
                },
                None => {},
            }
            i = i + 1;
        }
        proof {
            assert forall|k: Seq<u8>| #[trigger] self@.contains_key(kv_prefix(id) + k) implies exists|
                i: int,
            | 0 <= i < r@.len() && r@[i].0@ == k by {
                let key = kv_prefix(id) + k;
                let j = choose|j: int| 0 <= j < self.substates@.len() && self.substates@[j].0@ == key;
                assert(key.take(prefix@.len() as int) =~= prefix@);
                let m = choose|m: int| 0 <= m < r@.len() && prefix@ + r@[m].0@ == self.substates@[j].0@;
                assert((prefix@ + r@[m].0@).skip(prefix@.len() as int) =~= r@[m].0@);
                assert(key.skip(prefix@.len() as int) =~= k);
                assert(r@[m].0@ =~= k);
            }
        }
        r
    }

    /// Whether `key` is marked as an entry point.
    pub fn is_root(&self, key: &[u8]) -> (r: bool)
        requires
            self.wf(),
        ensures
            r == self.root_keys().contains(key@),
    {
        let mut i: usize = 0;
        while i < self.roots.len()
            invariant
                self.wf(),
                i <= self.roots@.len(),
                forall|j: int| 0 <= j < i ==> self.roots@[j]@ != key@,
            decreases self.roots@.len() - i,
        {
            if same_vec(&self.roots[i], key) {
                proof {
                    assert(self.roots@[i as int]@ == key@);
                    assert(self.root_set@.contains(key@));
                }
                return true;
            }
            i = i + 1;
        }
        false
    }

    /// Marks `key` as an entry point.
    pub fn set_root(&mut self, key: Vec<u8>)
        requires
            old(self).wf(),
        ensures
            final(self).wf(),
            final(self)@ == old(self)@,
            final(self).root_keys() == old(self).root_keys().insert(key@),
    {
        let ghost k = key@;
        let ghost old_roots = self.roots@;
        let ghost old_subs = self.substates@;
        let ghost old_map = self.contents@;
        let ghost old_set = self.root_set@;
        self.roots.push(key);
        self.root_set = Ghost(old_set.insert(k));
        proof {
            let n = old_roots.len() as int;
            assert(self.roots@[n]@ == k);
            assert forall|j: int| 0 <= j < n implies #[trigger] self.roots@[j] == old_roots[j] by {}
            assert forall|kk: Seq<u8>| #[trigger] self.root_set@.contains(kk) implies exists|i: int|
                0 <= i < self.roots@.len() && self.roots@[i]@ == kk by {
                if kk == k {
                    assert(self.roots@[n]@ == kk);
                } else {
                    assert(old_set.contains(kk));
                    let i = choose|i: int| 0 <= i < n && old_roots[i]@ == kk;
                    assert(self.roots@[i]@ == kk);
                }
            }
            assert forall|kk: Seq<u8>|
                (exists|i: int| 0 <= i < self.roots@.len() && self.roots@[i]@ == kk) implies
                #[trigger] self.root_set@.contains(kk) by {
                let i = choose|i: int| 0 <= i < self.roots@.len() && self.roots@[i]@ == kk;
                if i < n {
                    assert(old_roots[i]@ == kk);
                    assert(old_set.contains(kk));
                }
            }
            assert(forall|i: int, j: int|
                0 <= i < j < self.substates@.len() ==> self.substates@[i].0@ != self.substates@[j].0@);
            assert forall|kk: Seq<u8>| #[trigger] self.contents@.contains_key(kk) implies exists|
                i: int,
            | 0 <= i < self.substates@.len() && self.substates@[i].0@ == kk by {
                assert(old_map.contains_key(kk));
                let i = choose|i: int| 0 <= i < old_subs.len() && old_subs[i].0@ == kk;
                assert(self.substates@[i].0@ == kk);
            }
            assert(forall|i: int|
                0 <= i < self.substates@.len() ==> #[trigger] self.contents@.contains_key(
                    self.substates@[i].0@,
                ) && self.contents@[self.substates@[i].0@] == self.substates@[i].1@);
        }
    }
}

} // verus!
