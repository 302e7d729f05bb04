use vstd::prelude::*;

use crate::key_order::{keys_in_order, lemma_keys_in_order, values_in_key_order};

verus! {

/// A prepared buffer lists every node of the path exactly once, in the increasing order of
/// the identifiers of the operations that made them.
pub proof fn law_buffer_lists_path_in_order<V>(path: Map<usize, V>)
    requires
        path.dom().finite(),
    ensures
        values_in_key_order(path).len() == path.len(),
        forall|i: int, j: int|
            0 <= i < j < keys_in_order(path).len() ==> keys_in_order(path)[i] < keys_in_order(
                path,
            )[j],
        forall|id: usize| path.contains_key(id) <==> keys_in_order(path).contains(id),
        forall|i: int|
            0 <= i < values_in_key_order(path).len() ==> values_in_key_order(path)[i]
                == path[keys_in_order(path)[i]],
{
    lemma_keys_in_order(path, keys_in_order(path));
    let ids = keys_in_order(path);
    assert(ids.no_duplicates()) by {
        assert forall|i: int, j: int| 0 <= i < ids.len() && 0 <= j < ids.len() && i != j implies ids[i]
            != ids[j] by {
            if i < j {
                assert(ids[i] < ids[j]);
            } else {
                assert(ids[j] < ids[i]);
            }
        }
    }
    ids.unique_seq_to_set();
    assert(ids.to_set() =~= path.dom());
}

/// Preparing a buffer twice over the same path gives what preparing it once gives.
pub proof fn law_prepare_buffer_idempotent<V>(listed: Seq<V>, path: Map<usize, V>)
    ensures
        ({
            let once = if listed.len() == 0 {
                values_in_key_order(path)
            } else {
                listed
            };
            let twice = if once.len() == 0 {
                values_in_key_order(path)
            } else {
                once
            };
            twice == once
        }),
{
}

/// Merging is an intersection of paths: merging with a history whose path is empty leaves an
/// empty path, whichever side the empty path is on.
pub proof fn law_merge_with_empty_path<V>(path: Map<usize, V>)
    ensures
        Map::<usize, V>::empty().restrict(path.dom()) == Map::<usize, V>::empty(),
        path.restrict(Map::<usize, V>::empty().dom()) == Map::<usize, V>::empty(),
{
    assert(Map::<usize, V>::empty().restrict(path.dom()) =~= Map::<usize, V>::empty());
    assert(path.restrict(Map::<usize, V>::empty().dom()) =~= Map::<usize, V>::empty());
}

/// Merging two paths that share no identifier leaves an empty path.
pub proof fn law_merge_disjoint_paths<V>(mine: Map<usize, V>, theirs: Map<usize, V>)
    requires
        mine.dom().disjoint(theirs.dom()),
    ensures
        theirs.restrict(mine.dom()) == Map::<usize, V>::empty(),
{
    assert(theirs.restrict(mine.dom()) =~= Map::<usize, V>::empty());
}

/// Merging keeps the same identifiers whichever history is merged into the other, and on
/// each of them the two results hold the node of one of the two histories.
pub proof fn law_merge_commutes_on_ids<V>(a: Map<usize, V>, b: Map<usize, V>)
    ensures
        b.restrict(a.dom()).dom() == a.restrict(b.dom()).dom(),
        forall|id: usize|
            b.restrict(a.dom()).contains_key(id) ==> b.restrict(a.dom())[id] == b[id]
                && a.restrict(b.dom())[id] == a[id],
{
    assert(b.restrict(a.dom()).dom() =~= a.restrict(b.dom()).dom());
}

/// Merging a history with a copy of itself leaves its path as it was.
pub proof fn law_merge_with_copy<V>(path: Map<usize, V>)
    ensures
        path.restrict(path.dom()) == path,
{
    assert(path.restrict(path.dom()) =~= path);
}

/// Merged parameters are those that both histories hold; merging with a copy keeps them, and
/// the result does not depend on which history is merged into the other.
pub proof fn law_merge_parameters<K>(mine: Set<K>, theirs: Set<K>)
    ensures
        mine.intersect(theirs) == theirs.intersect(mine),
        mine.intersect(mine) == mine,
        mine.intersect(Set::<K>::empty()) == Set::<K>::empty(),
{
    assert(mine.intersect(theirs) =~= theirs.intersect(mine));
    assert(mine.intersect(mine) =~= mine);
    assert(mine.intersect(Set::<K>::empty()) =~= Set::<K>::empty());
}

} // verus!
