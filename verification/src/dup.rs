//! A duplicate-detecting set of identifiers.

use crate::strcmp::str_eq;
use vstd::prelude::*;

verus! {

/// Records which identifiers have been observed. It only grows: there is no
/// removal operation, so an identifier once seen stays seen.
pub struct DupMap {
    keys: Vec<String>,
}

impl View for DupMap {
    type V = Set<Seq<char>>;

    /// The set of identifiers observed so far.
    closed spec fn view(&self) -> Set<Seq<char>> {
        Set::new(|k: Seq<char>| exists|i: int| 0 <= i < self.keys@.len() && self.keys@[i]@ == k)
    }
}

/// Creates an empty duplicate set: no identifier has been observed yet.
pub fn create_duplicate_map() -> (dup_map: DupMap)
    ensures
        dup_map@ == Set::<Seq<char>>::empty(),
{
    let dup_map = DupMap { keys: Vec::new() };
    proof {
        assert(dup_map@ =~= Set::<Seq<char>>::empty());
    }
    dup_map
}

/// Tests whether `id` was observed before and records it in the same step:
/// returns `true` and leaves the set unchanged if `id` is already present,
/// returns `false` and inserts `id` if it is not.
pub fn is_dup(dup_map: &mut DupMap, id: &str) -> (seen: bool)
    ensures
        seen == old(dup_map)@.contains(id@),
        final(dup_map)@ == old(dup_map)@.insert(id@),
{
    let n = dup_map.keys.len();
    let mut i: usize = 0;
    while i < n
        invariant
            n == dup_map.keys@.len(),
            i <= n,
            forall|k: int| 0 <= k < i ==> dup_map.keys@[k]@ != id@,
        decreases n - i,
    {
        if str_eq(dup_map.keys[i].as_str(), id) {
            proof {
                assert(dup_map@.contains(id@));
                assert(dup_map@.insert(id@) =~= dup_map@);
            }
            return true;
        }
        i = i + 1;
    }
    proof {
        assert(!dup_map@.contains(id@));
    }
    let ghost before = dup_map@;
    dup_map.keys.push(String::from_str(id));
    proof {
        assert forall|k: Seq<char>| dup_map@.contains(k) implies before.insert(id@).contains(
            k,
        ) by {
            let j = choose|j: int| 0 <= j < dup_map.keys@.len() && dup_map.keys@[j]@ == k;
            if j < dup_map.keys@.len() - 1 {
                assert(before.contains(k));
            }
        }
        assert forall|k: Seq<char>| before.insert(id@).contains(k) implies dup_map@.contains(
            k,
        ) by {
            if k == id@ {
                assert(dup_map.keys@[dup_map.keys@.len() - 1]@ == k);
            } else {
                let j = choose|j: int|
                    0 <= j < old(dup_map).keys@.len() && old(dup_map).keys@[j]@ == k;
                assert(dup_map.keys@[j]@ == k);
            }
        }
        assert(dup_map@ =~= before.insert(id@));
    }
    false
}

/// Once an identifier has been recorded, recording it again neither changes
/// the set nor stops it from being reported as seen: membership is monotonic,
/// so any later test of the same identifier keeps answering `true`.
pub proof fn lemma_dup_monotonic(seen: Set<Seq<char>>, id: Seq<char>)
    ensures
        seen.insert(id).contains(id),
        seen.insert(id).insert(id) == seen.insert(id),
        forall|k: Seq<char>| seen.contains(k) ==> seen.insert(id).contains(k),
{
    assert(seen.insert(id).insert(id) =~= seen.insert(id));
}

} // verus!
