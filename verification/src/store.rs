//! The key-value store: string keys to string values, each with an optional
//! absolute expiry in milliseconds. The store is a plain value; the embedding
//! process serialises access to it (one worker at a time) with whatever
//! mutual exclusion it uses. Expiry is passive: a read treats an entry whose
//! expiry is at or before the current time as absent; entries are not
//! removed on read.

use vstd::prelude::*;
use vstd::string::StringExecFns;

verus! {

/// The model of one stored entry.
pub struct EntryV {
    pub value: Seq<char>,
    pub expires_at: Option<u128>,
}

struct StoreEntry {
    key: String,
    value: String,
    expires_at: Option<u128>,
}

/// A mapping from string keys to entries.
pub struct Store {
    entries: Vec<StoreEntry>,
}

spec fn entry_v(e: StoreEntry) -> EntryV {
    EntryV { value: e.value@, expires_at: e.expires_at }
}

spec fn has_key(es: Seq<StoreEntry>, k: Seq<char>) -> bool {
    exists|i: int| 0 <= i < es.len() && (#[trigger] es[i]).key@ == k
}

spec fn key_index(es: Seq<StoreEntry>, k: Seq<char>) -> int {
    choose|i: int| 0 <= i < es.len() && (#[trigger] es[i]).key@ == k
}

spec fn unique_keys(es: Seq<StoreEntry>) -> bool {
    forall|i: int, j: int|
        0 <= i < j < es.len() ==> (#[trigger] es[i]).key@ != (#[trigger] es[j]).key@
}

proof fn lemma_key_index(es: Seq<StoreEntry>, k: Seq<char>)
    requires
        unique_keys(es),
        has_key(es, k),
    ensures
        0 <= key_index(es, k) < es.len(),
        es[key_index(es, k)].key@ == k,
        forall|j: int| 0 <= j < es.len() && (#[trigger] es[j]).key@ == k ==> j == key_index(es, k),
{
    let i = key_index(es, k);
    assert forall|j: int|
        0 <= j < es.len() && (#[trigger] es[j]).key@ == k implies j == i by {
        if j < i {
            assert(es[j].key@ != es[i].key@);
        } else if j > i {
            assert(es[i].key@ != es[j].key@);
        }
    }
}

impl Store {
    /// The keys are pairwise distinct, so the store is a mapping.
    pub closed spec fn wf(&self) -> bool {
        unique_keys(self.entries@)
    }

    pub fn new() -> (r: Store)
        ensures
            r.wf(),
            r@ == Map::<Seq<char>, EntryV>::empty(),
    {
        let r = Store { entries: Vec::new() };
        proof {
            assert(r@ =~= Map::<Seq<char>, EntryV>::empty());
        }
        r
    }

    fn find_index(&self, key: &str) -> (r: Option<usize>)
        ensures
            match r {
                Some(i) => i < self.entries@.len() && self.entries@[i as int].key@ == key@,
                None => !has_key(self.entries@, key@),
            },
    {
        let ks = String::from_str(key);
        let mut i: usize = 0;
        while i < self.entries.len()
            invariant
                0 <= i <= self.entries@.len(),
                ks@ == key@,
                forall|j: int| 0 <= j < i ==> (#[trigger] self.entries@[j]).key@ != key@,
            decreases self.entries@.len() - i,
        {
            if self.entries[i].key == ks {
                return Some(i);
            }
            i += 1;
        }
        None
    }
}

impl View for Store {
    type V = Map<Seq<char>, EntryV>;

    closed spec fn view(&self) -> Map<Seq<char>, EntryV> {
        Map::new(
            |k: Seq<char>| has_key(self.entries@, k),
            |k: Seq<char>| entry_v(self.entries@[key_index(self.entries@, k)]),
        )
    }
}

/// The absolute expiry a `SET` with time to live `px` establishes: `now + px`
/// milliseconds, saturating at the largest representable time.
pub open spec fn spec_expiry(px: Option<u128>, now: u128) -> Option<u128> {
    match px {
        Some(p) => if now + p > u128::MAX {
            Some(u128::MAX)
        } else {
            Some((now + p) as u128)
        },
        None => None,
    }
}

/// An entry is live at `now` unless its expiry is at or before `now`.
pub open spec fn entry_live(e: EntryV, now: u128) -> bool {
    match e.expires_at {
        Some(t) => t > now,
        None => true,
    }
}

/// What a read of `k` at time `now` observes in store `m`: the value when the
/// entry exists and is live, absent otherwise.
pub open spec fn store_lookup(m: Map<Seq<char>, EntryV>, k: Seq<char>, now: u128) -> Option<
    Seq<char>,
> {
    if m.contains_key(k) && entry_live(m[k], now) {
        Some(m[k].value)
    } else {
        None
    }
}

/// Upserts `key`: the entry is overwritten or created, with expiry `now + px`
/// when a time to live is given.
pub fn set(store: &mut Store, key: &str, value: &str, px: Option<u128>, now: u128)
    requires
        old(store).wf(),
    ensures
        final(store).wf(),
        final(store)@ == old(store)@.insert(
            key@,
            EntryV { value: value@, expires_at: spec_expiry(px, now) },
        ),
{
    let expires_at = match px {
        Some(p) => Some(now.saturating_add(p)),
        None => None,
    };
    let ne = StoreEntry {
        key: String::from_str(key),
        value: String::from_str(value),
        expires_at,
    };
    let ghost nev = entry_v(ne);
    let ghost old_es = store.entries@;
    let idx = store.find_index(key);
    match idx {
        Some(i) => {
            let em = vstd::std_specs::vec::vec_index_mut(&mut store.entries, i);
            *em = ne;
            proof {
                let new_es = store.entries@;
                assert(new_es =~= old_es.update(i as int, ne));
                assert forall|j: int| 0 <= j < new_es.len() implies (#[trigger] new_es[j]).key@
                    == old_es[j].key@ by {}
                assert(unique_keys(new_es));
                lemma_set_view(old_es, new_es, key@, nev, i as int);
            }
        },
        None => {
            store.entries.push(ne);
            proof {
                let new_es = store.entries@;
                assert(new_es =~= old_es.push(ne));
                assert(unique_keys(new_es)) by {
                    assert forall|i: int, j: int|
                        0 <= i < j < new_es.len() implies (#[trigger] new_es[i]).key@
                        != (#[trigger] new_es[j]).key@ by {
                        if j < old_es.len() {
                            assert(old_es[i].key@ != old_es[j].key@);
                        } else {
                            assert(new_es[j] == ne);
                            assert(new_es[i] == old_es[i]);
                            assert(!has_key(old_es, key@));
                        }
                    }
                }
                lemma_set_view(old_es, new_es, key@, nev, old_es.len() as int);
            }
        },
    }
}

/// Both ways a `set` lands (overwrite in place, or append) leave the map
/// view as an `insert`.
proof fn lemma_set_view(old_es: Seq<StoreEntry>, new_es: Seq<StoreEntry>, k: Seq<char>, e: EntryV, i: int)
    requires
        unique_keys(old_es),
        unique_keys(new_es),
        0 <= i < new_es.len(),
        new_es[i].key@ == k,
        entry_v(new_es[i]) == e,
        new_es.len() == old_es.len() || new_es.len() == old_es.len() + 1,
        forall|j: int| 0 <= j < old_es.len() && j != i ==> #[trigger] new_es[j] == old_es[j],
        new_es.len() == old_es.len() ==> old_es[i].key@ == k,
        new_es.len() == old_es.len() + 1 ==> i == old_es.len() && !has_key(old_es, k),
    ensures
        Map::new(
            |kk: Seq<char>| has_key(new_es, kk),
            |kk: Seq<char>| entry_v(new_es[key_index(new_es, kk)]),
        ) == Map::new(
            |kk: Seq<char>| has_key(old_es, kk),
            |kk: Seq<char>| entry_v(old_es[key_index(old_es, kk)]),
        ).insert(k, e),
{
    let mnew = Map::new(
        |kk: Seq<char>| has_key(new_es, kk),
        |kk: Seq<char>| entry_v(new_es[key_index(new_es, kk)]),
    );
    let mold = Map::new(
        |kk: Seq<char>| has_key(old_es, kk),
        |kk: Seq<char>| entry_v(old_es[key_index(old_es, kk)]),
    );
    assert forall|kk: Seq<char>| #[trigger]
        has_key(new_es, kk) == (has_key(old_es, kk) || kk == k) by {
        if has_key(new_es, kk) {
            let j = choose|j: int| 0 <= j < new_es.len() && (#[trigger] new_es[j]).key@ == kk;
            if j != i {
                assert(old_es[j].key@ == kk);
                assert(has_key(old_es, kk));
            }
        }
        if has_key(old_es, kk) {
            let j = choose|j: int| 0 <= j < old_es.len() && (#[trigger] old_es[j]).key@ == kk;
            if j == i && new_es.len() == old_es.len() {
                assert(new_es[i].key@ == k);
                assert(kk == k);
            } else if j != i {
                assert(new_es[j].key@ == kk);
                assert(has_key(new_es, kk));
            } else {
                assert(new_es[j].key@ == kk);
                assert(has_key(new_es, kk));
            }
        }
        if kk == k {
            assert(new_es[i].key@ == kk);
            assert(has_key(new_es, kk));
        }
    }
    assert forall|kk: Seq<char>| has_key(new_es, kk) implies #[trigger] mnew[kk] == (
        if kk == k {
            e
        } else {
            mold[kk]
        }) by {
        lemma_key_index(new_es, kk);
        let j = key_index(new_es, kk);
        if kk == k {
            assert(j == i);
        } else {
            assert(j != i);
            assert(new_es[j] == old_es[j]);
            assert(has_key(old_es, kk));
            lemma_key_index(old_es, kk);
            assert(key_index(old_es, kk) == j);
        }
    }
    assert(mnew =~= mold.insert(k, e));
}

/// Reads `key`: its live value, absent when the key was never set or its
/// entry has expired.
pub fn get(store: &Store, key: &str, now: u128) -> (r: Option<String>)
    requires
        store.wf(),
    ensures
        match r {
            Some(v) => store_lookup(store@, key@, now) == Some(v@),
            None => store_lookup(store@, key@, now) is None,
        },
{
    match store.find_index(key) {
        Some(i) => {
            proof {
                assert(has_key(store.entries@, key@));
                lemma_key_index(store.entries@, key@);
                assert(key_index(store.entries@, key@) == i as int);
                assert(store@.contains_key(key@));
                assert(store@[key@] == entry_v(store.entries@[i as int]));
            }
            let e = &store.entries[i];
            match e.expires_at {
                Some(t) => {
                    if t <= now {
                        None
                    } else {
                        Some(e.value.clone())
                    }
                },
                None => Some(e.value.clone()),
            }
        },
        None => {
            proof {
                assert(!store@.contains_key(key@));
            }
            None
        },
    }
}

} // verus!
