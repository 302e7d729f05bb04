use vstd::prelude::*;

verus! {

/// `ids` lists each element of `keys` exactly once, from the smallest to the largest.
pub open spec fn lists_in_order(keys: Set<usize>, ids: Seq<usize>) -> bool {
    &&& forall|i: int, j: int| 0 <= i < j < ids.len() ==> ids[i] < ids[j]
    &&& forall|k: usize| keys.contains(k) <==> ids.contains(k)
}

/// The keys of `m`, from the smallest to the largest.
pub open spec fn keys_in_order<V>(m: Map<usize, V>) -> Seq<usize> {
    choose|ids: Seq<usize>| lists_in_order(m.dom(), ids)
}

/// The values of `m`, listed in the increasing order of their keys.
pub open spec fn values_in_key_order<V>(m: Map<usize, V>) -> Seq<V> {
    keys_in_order(m).map_values(|k: usize| m[k])
}

/// A finite, non-empty set of keys has a largest element.
proof fn lemma_largest_key(s: Set<usize>) -> (top: usize)
    requires
        s.finite(),
        s.len() > 0,
    ensures
        s.contains(top),
        forall|k: usize| s.contains(k) ==> k <= top,
    decreases s.len(),
{
    let x = s.choose();
    let rest = s.remove(x);
    if rest.len() == 0 {
        assert forall|k: usize| s.contains(k) implies k <= x by {
            if k != x {
                assert(rest.contains(k));
            }
        }
        x
    } else {
        let m = lemma_largest_key(rest);
        assert forall|k: usize| s.contains(k) implies k <= (if m < x { x } else { m }) by {
            if k != x {
                assert(rest.contains(k));
            }
        }
        if m < x {
            x
        } else {
            m
        }
    }
}

/// Every finite set of keys can be listed in increasing order.
proof fn lemma_ordered_listing_exists(s: Set<usize>) -> (ids: Seq<usize>)
    requires
        s.finite(),
    ensures
        lists_in_order(s, ids),
    decreases s.len(),
{
    if s.len() == 0 {
        assert forall|k: usize| s.contains(k) <==> seq![].contains(k) by {
            if s.contains(k) {
                assert(s.remove(k).len() < s.len());
            }
        }
        seq![]
    } else {
        let top = lemma_largest_key(s);
        let rest = s.remove(top);
        let prefix = lemma_ordered_listing_exists(rest);
        let ids = prefix.push(top);
        assert forall|k: usize| s.contains(k) <==> ids.contains(k) by {
            if s.contains(k) && k != top {
                assert(rest.contains(k));
                let i = choose|i: int| 0 <= i < prefix.len() && prefix[i] == k;
                assert(ids[i] == k);
            }
            if ids.contains(k) {
                let i = choose|i: int| 0 <= i < ids.len() && ids[i] == k;
                if i < prefix.len() {
                    assert(prefix[i] == k);
                    assert(prefix.contains(k));
                }
            }
            if k == top {
                assert(ids[ids.len() - 1] == top);
            }
        }
        assert forall|i: int, j: int| 0 <= i < j < ids.len() implies ids[i] < ids[j] by {
            if j == ids.len() - 1 {
                assert(prefix.contains(prefix[i]));
                assert(rest.contains(prefix[i]));
            }
        }
        ids
    }
}

/// Two increasing listings of the same keys agree on their first `n` positions.
proof fn lemma_listings_agree_up_to(s: Set<usize>, a: Seq<usize>, b: Seq<usize>, n: int)
    requires
        lists_in_order(s, a),
        lists_in_order(s, b),
        0 <= n <= a.len(),
        n <= b.len(),
    ensures
        forall|j: int| 0 <= j < n ==> a[j] == b[j],
    decreases n,
{
    if n > 0 {
        lemma_listings_agree_up_to(s, a, b, n - 1);
        let i = n - 1;
        assert(a.contains(a[i]));
        assert(b.contains(b[i]));
        if a[i] < b[i] {
            assert(s.contains(a[i]));
            assert(b.contains(a[i]));
            let k = choose|k: int| 0 <= k < b.len() && b[k] == a[i];
            if k >= i {
                assert(b[i] <= b[k]);
            }
            assert(a[k] == b[k]);
        } else if b[i] < a[i] {
            assert(s.contains(b[i]));
            assert(a.contains(b[i]));
            let k = choose|k: int| 0 <= k < a.len() && a[k] == b[i];
            if k >= i {
                assert(a[i] <= a[k]);
            }
            assert(a[k] == b[k]);
        }
    }
}

/// A set of keys has only one increasing listing.
proof fn lemma_listing_unique(s: Set<usize>, a: Seq<usize>, b: Seq<usize>)
    requires
        lists_in_order(s, a),
        lists_in_order(s, b),
    ensures
        a == b,
{
    if a.len() < b.len() {
        lemma_listings_agree_up_to(s, a, b, a.len() as int);
        let x = b[a.len() as int];
        assert(b.contains(x));
        assert(a.contains(x));
        let k = choose|k: int| 0 <= k < a.len() && a[k] == x;
        assert(b[k] == a[k]);
        assert(false);
    } else if b.len() < a.len() {
        lemma_listings_agree_up_to(s, b, a, b.len() as int);
        let x = a[b.len() as int];
        assert(a.contains(x));
        assert(b.contains(x));
        let k = choose|k: int| 0 <= k < b.len() && b[k] == x;
        assert(b[k] == a[k]);
        assert(false);
    } else {
        lemma_listings_agree_up_to(s, a, b, a.len() as int);
        assert(a =~= b);
    }
}

/// `keys_in_order` is the increasing listing of the keys of a finite map, and the only one.
pub proof fn lemma_keys_in_order<V>(m: Map<usize, V>, ids: Seq<usize>)
    requires
        m.dom().finite(),
    ensures
        lists_in_order(m.dom(), keys_in_order(m)),
        lists_in_order(m.dom(), ids) ==> keys_in_order(m) == ids,
{
    let witness = lemma_ordered_listing_exists(m.dom());
    assert(lists_in_order(m.dom(), witness));
    if lists_in_order(m.dom(), ids) {
        lemma_listing_unique(m.dom(), keys_in_order(m), ids);
    }
}

} // verus!
