//! A multi-value accumulator map: each key owns the ordered list of every
//! value stored under it, duplicates included.

use crate::strcmp::str_eq;
use vstd::prelude::*;

verus! {

/// One key together with every value stored under it, oldest first.
struct Entry {
    key: String,
    values: Vec<String>,
}

/// Whether no two entries hold the same key.
spec fn distinct_keys(entries: Seq<Entry>) -> bool {
    forall|i: int, j: int|
        0 <= i < j < entries.len() ==> entries[i].key@ != entries[j].key@
}

/// The mapping that a sequence of entries stands for.
spec fn map_of(entries: Seq<Entry>) -> Map<Seq<char>, Seq<Seq<char>>>
    decreases entries.len(),
{
    if entries.len() == 0 {
        Map::empty()
    } else {
        map_of(entries.drop_last()).insert(
            entries.last().key@,
            entries.last().values.deep_view(),
        )
    }
}

/// Accumulates, for each key, the ordered list of all values seen for it.
pub struct StoreMap {
    entries: Vec<Entry>,
}

impl StoreMap {
    #[verifier::type_invariant]
    spec fn wf(&self) -> bool {
        distinct_keys(self.entries@)
    }
}

impl View for StoreMap {
    type V = Map<Seq<char>, Seq<Seq<char>>>;

    /// The mapping from each key to the ordered values stored under it.
    closed spec fn view(&self) -> Map<Seq<char>, Seq<Seq<char>>> {
        map_of(self.entries@)
    }
}

proof fn lemma_map_of_contains(entries: Seq<Entry>, k: Seq<char>)
    ensures
        map_of(entries).contains_key(k) <==> exists|i: int|
            0 <= i < entries.len() && entries[i].key@ == k,
    decreases entries.len(),
{
    if entries.len() > 0 {
        lemma_map_of_contains(entries.drop_last(), k);
        if entries.last().key@ == k {
            assert(entries[entries.len() - 1].key@ == k);
        } else if map_of(entries).contains_key(k) {
            let i = choose|i: int|
                0 <= i < entries.drop_last().len() && entries.drop_last()[i].key@ == k;
            assert(entries[i].key@ == k);
        } else {
            assert forall|i: int| 0 <= i < entries.len() implies entries[i].key@ != k by {
                if i < entries.len() - 1 {
                    assert(entries.drop_last()[i] == entries[i]);
                }
            }
        }
    }
}

proof fn lemma_map_of_at(entries: Seq<Entry>, i: int)
    requires
        0 <= i < entries.len(),
        forall|j: int| i < j < entries.len() ==> entries[j].key@ != entries[i].key@,
    ensures
        map_of(entries).contains_key(entries[i].key@),
        map_of(entries)[entries[i].key@] == entries[i].values.deep_view(),
    decreases entries.len(),
{
    if i < entries.len() - 1 {
        assert(entries.drop_last()[i] == entries[i]);
        assert forall|j: int|
            i < j < entries.drop_last().len() implies entries.drop_last()[j].key@
            != entries.drop_last()[i].key@ by {
            assert(entries.drop_last()[j] == entries[j]);
        }
        lemma_map_of_at(entries.drop_last(), i);
        assert(entries.last().key@ != entries[i].key@);
    }
}

proof fn lemma_map_of_remove(entries: Seq<Entry>, i: int)
    requires
        0 <= i < entries.len(),
        forall|j: int| 0 <= j < entries.len() && j != i ==> entries[j].key@ != entries[i].key@,
    ensures
        map_of(entries.remove(i)) == map_of(entries).remove(entries[i].key@),
    decreases entries.len(),
{
    let k = entries[i].key@;
    if i == entries.len() - 1 {
        assert(entries.remove(i) =~= entries.drop_last());
        lemma_map_of_contains(entries.drop_last(), k);
        assert forall|j: int|
            0 <= j < entries.drop_last().len() implies entries.drop_last()[j].key@ != k by {
            assert(entries.drop_last()[j] == entries[j]);
        }
        assert(!map_of(entries.drop_last()).contains_key(k));
        assert(map_of(entries.drop_last()).insert(k, entries.last().values.deep_view()).remove(k)
            =~= map_of(entries.drop_last()));
    } else {
        let dl = entries.drop_last();
        let shorter = entries.remove(i);
        assert(shorter.drop_last() =~= dl.remove(i));
        assert(shorter.last() == entries.last());
        assert forall|j: int|
            0 <= j < dl.len() && j != i implies dl[j].key@ != dl[i].key@ by {
            assert(dl[j] == entries[j]);
        }
        lemma_map_of_remove(dl, i);
        let lk = entries.last().key@;
        let lv = entries.last().values.deep_view();
        assert(map_of(shorter) == map_of(dl).remove(k).insert(lk, lv));
        assert(lk != k);
        assert(map_of(dl).remove(k).insert(lk, lv) =~= map_of(dl).insert(lk, lv).remove(k));
    }
}

/// The position of the entry holding `key`, if any entry does.
fn find_key(entries: &Vec<Entry>, key: &str) -> (position: Option<usize>)
    ensures
        match position {
            Some(i) => i < entries@.len() && entries@[i as int].key@ == key@,
            None => forall|j: int| 0 <= j < entries@.len() ==> entries@[j].key@ != key@,
        },
{
    let n = entries.len();
    let mut i: usize = 0;
    while i < n
        invariant
            n == entries@.len(),
            i <= n,
            forall|j: int| 0 <= j < i ==> entries@[j].key@ != key@,
        decreases n - i,
    {
        if str_eq(entries[i].key.as_str(), key) {
            return Some(i);
        }
        i = i + 1;
    }
    None
}

/// Creates an empty accumulator map: no key holds any value yet.
pub fn create_store_map() -> (store_map: StoreMap)
    ensures
        store_map@ == Map::<Seq<char>, Seq<Seq<char>>>::empty(),
{
    StoreMap { entries: Vec::new() }
}

impl StoreMap {
    /// The values stored under `key`, oldest first, or `None` where no value
    /// was ever stored under it.
    pub fn get(&self, key: &str) -> (values: Option<&Vec<String>>)
        ensures
            match values {
                Some(v) => self@.contains_key(key@) && v.deep_view() == self@[key@],
                None => !self@.contains_key(key@),
            },
    {
        proof {
            use_type_invariant(&*self);
            lemma_map_of_contains(self.entries@, key@);
        }
        match find_key(&self.entries, key) {
            Some(i) => {
                proof {
                    lemma_map_of_at(self.entries@, i as int);
                }
                Some(&self.entries[i].values)
            },
            None => None,
        }
    }
}

/// Stores `value` under `key` and reports whether the key already existed:
/// a new key starts the one-element list `[value]` and `false` is returned;
/// an existing key has `value` appended after its earlier values, in order and
/// without any deduplication, and `true` is returned.
pub fn store_into_map(store_map: &mut StoreMap, key: &str, value: String) -> (existed: bool)
    ensures
        existed == old(store_map)@.contains_key(key@),
        existed ==> final(store_map)@ == old(store_map)@.insert(
            key@,
            old(store_map)@[key@].push(value@),
        ),
        !existed ==> final(store_map)@ == old(store_map)@.insert(key@, seq![value@]),
{
    proof {
        use_type_invariant(&*store_map);
        lemma_map_of_contains(store_map.entries@, key@);
    }
    let ghost m0 = store_map@;
    let mut entries: Vec<Entry> = Vec::new();
    std::mem::swap(&mut entries, &mut store_map.entries);
    let ghost e0 = entries@;
    let position = find_key(&entries, key);
    let existed = position.is_some();
    if let Some(i) = position {
        proof {
            assert forall|j: int|
                0 <= j < e0.len() && j != i implies e0[j].key@ != e0[i as int].key@ by {
                assert(e0[i as int].key@ == key@);
            }
            lemma_map_of_at(e0, i as int);
            lemma_map_of_remove(e0, i as int);
        }
        let ghost old_values = e0[i as int].values.deep_view();
        let mut entry = entries.remove(i);
        entry.values.push(value);
        entries.push(entry);
        proof {
            assert(entry.values.deep_view() =~= old_values.push(value@));
            assert(entries@.drop_last() =~= e0.remove(i as int));
            assert(entries@.last() == entry);
            assert(map_of(entries@) == map_of(e0).remove(key@).insert(key@, old_values.push(
                value@,
            )));
            assert(map_of(entries@) =~= m0.insert(key@, m0[key@].push(value@)));
            assert forall|a: int, b: int|
                0 <= a < b < entries@.len() implies entries@[a].key@ != entries@[b].key@ by {
                let shorter = e0.remove(i as int);
                if b < entries@.len() - 1 {
                    if a < i {
                        assert(shorter[a] == e0[a]);
                    } else {
                        assert(shorter[a] == e0[a + 1]);
                    }
                    if b < i {
                        assert(shorter[b] == e0[b]);
                    } else {
                        assert(shorter[b] == e0[b + 1]);
                    }
                } else {
                    assert(entries@[b].key@ == key@);
                    if a < i {
                        assert(shorter[a] == e0[a]);
                    } else {
                        assert(shorter[a] == e0[a + 1]);
                    }
                }
            }
        }
    } else {
        let mut values: Vec<String> = Vec::new();
        values.push(value);
        let entry = Entry { key: String::from_str(key), values };
        entries.push(entry);
        proof {
            assert(entries@.drop_last() =~= e0);
            assert(entries@.last().values.deep_view() =~= seq![value@]);
            assert(map_of(entries@) =~= m0.insert(key@, seq![value@]));
            assert forall|a: int, b: int|
                0 <= a < b < entries@.len() implies entries@[a].key@ != entries@[b].key@ by {
                assert(e0[a] == entries@[a]);
                if b < entries@.len() - 1 {
                    assert(e0[b] == entries@[b]);
                } else {
                    assert(entries@[b].key@ == key@);
                }
            }
        }
    }
    std::mem::swap(&mut entries, &mut store_map.entries);
    existed
}

} // verus!
