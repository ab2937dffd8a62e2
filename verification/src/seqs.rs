//! Sequence helpers shared by the models.

use vstd::prelude::*;

verus! {

/// The elements of `s` that are not `gone`, in order.
pub open spec fn drop_where<A>(s: Seq<A>, gone: spec_fn(A) -> bool) -> Seq<A>
    decreases s.len(),
{
    if s.len() == 0 {
        seq![]
    } else if gone(s.last()) {
        drop_where(s.drop_last(), gone)
    } else {
        drop_where(s.drop_last(), gone).push(s.last())
    }
}

/// The last `cap` elements of a sequence.
pub open spec fn tail<A>(s: Seq<A>, cap: nat) -> Seq<A> {
    if s.len() > cap {
        s.skip(s.len() - cap)
    } else {
        s
    }
}

/// Dropping what is not there changes nothing.
pub proof fn lemma_drop_absent<A>(s: Seq<A>, gone: spec_fn(A) -> bool)
    requires
        forall|i: int| 0 <= i < s.len() ==> !gone(#[trigger] s[i]),
    ensures
        drop_where(s, gone) == s,
    decreases s.len(),
{
    if s.len() > 0 {
        let p = s.drop_last();
        assert forall|i: int| 0 <= i < p.len() implies !gone(#[trigger] p[i]) by {
            assert(p[i] == s[i]);
        }
        lemma_drop_absent(p, gone);
        assert(s.last() == s[s.len() - 1]);
        assert(p.push(s.last()) =~= s);
    } else {
        assert(s =~= seq![]);
    }
}

/// Dropping the one element that is to go is removing it.
pub proof fn lemma_drop_one<A>(s: Seq<A>, gone: spec_fn(A) -> bool, k: int)
    requires
        0 <= k < s.len(),
        forall|i: int| 0 <= i < s.len() ==> gone(#[trigger] s[i]) == (i == k),
    ensures
        drop_where(s, gone) == s.remove(k),
    decreases s.len(),
{
    let p = s.drop_last();
    assert(s.last() == s[s.len() - 1]);
    if k == s.len() - 1 {
        assert forall|i: int| 0 <= i < p.len() implies !gone(#[trigger] p[i]) by {
            assert(p[i] == s[i]);
        }
        lemma_drop_absent(p, gone);
        assert(s.remove(k) =~= p);
    } else {
        assert forall|i: int| 0 <= i < p.len() implies gone(#[trigger] p[i]) == (i == k) by {
            assert(p[i] == s[i]);
        }
        lemma_drop_one(p, gone, k);
        assert(s.remove(k) =~= p.remove(k).push(s.last()));
    }
}

/// What is left comes from the sequence, in the same order, and is not gone.
pub proof fn lemma_drop_keeps<A>(s: Seq<A>, gone: spec_fn(A) -> bool)
    ensures
        drop_where(s, gone).len() <= s.len(),
        forall|i: int|
            0 <= i < drop_where(s, gone).len() ==> !gone(#[trigger] drop_where(s, gone)[i])
                && s.contains(drop_where(s, gone)[i]),
        forall|x: A| s.contains(x) && !gone(x) ==> #[trigger] drop_where(s, gone).contains(x),
    decreases s.len(),
{
    let d = drop_where(s, gone);
    if s.len() > 0 {
        let p = s.drop_last();
        lemma_drop_keeps(p, gone);
        let e = drop_where(p, gone);
        assert forall|i: int| 0 <= i < d.len() implies !gone(#[trigger] d[i]) && s.contains(
            d[i],
        ) by {
            if i < e.len() {
                assert(d[i] == e[i]);
                let k = choose|k: int| 0 <= k < p.len() && p[k] == e[i];
                assert(s[k] == d[i]);
            } else {
                assert(s[s.len() - 1] == d[i]);
            }
        }
        assert forall|x: A| s.contains(x) && !gone(x) implies #[trigger] d.contains(x) by {
            let k = choose|k: int| 0 <= k < s.len() && s[k] == x;
            if k < p.len() {
                assert(p[k] == x);
                assert(e.contains(x));
                let j = choose|j: int| 0 <= j < e.len() && e[j] == x;
                assert(d[j] == x);
            } else {
                assert(d[d.len() - 1] == x);
            }
        }
    }
}

/// Dropping something makes a sequence shorter.
pub proof fn lemma_drop_shrinks<A>(s: Seq<A>, gone: spec_fn(A) -> bool, k: int)
    requires
        0 <= k < s.len(),
        gone(s[k]),
    ensures
        drop_where(s, gone).len() < s.len(),
    decreases s.len(),
{
    if k == s.len() - 1 {
        lemma_drop_keeps(s.drop_last(), gone);
    } else {
        lemma_drop_shrinks(s.drop_last(), gone, k);
    }
}

/// Keeping only the last `cap` elements as one goes keeps the last `cap` of the whole.
pub proof fn lemma_tail_of_tail<A>(s: Seq<A>, t: Seq<A>, cap: nat)
    ensures
        tail(tail(s, cap) + t, cap) == tail(s + t, cap),
{
    assert(tail(tail(s, cap) + t, cap) =~= tail(s + t, cap));
}

/// The last element of `s` that is `wanted`.
pub open spec fn find_where<A>(s: Seq<A>, wanted: spec_fn(A) -> bool) -> Option<A>
    decreases s.len(),
{
    if s.len() == 0 {
        None
    } else if wanted(s.last()) {
        Some(s.last())
    } else {
        find_where(s.drop_last(), wanted)
    }
}

/// The only element that is wanted is found.
pub proof fn lemma_find_one<A>(s: Seq<A>, wanted: spec_fn(A) -> bool, k: int)
    requires
        0 <= k < s.len(),
        wanted(s[k]),
        forall|i: int| k < i < s.len() ==> !wanted(#[trigger] s[i]),
    ensures
        find_where(s, wanted) == Some(s[k]),
    decreases s.len(),
{
    assert(s.last() == s[s.len() - 1]);
    if k < s.len() - 1 {
        let p = s.drop_last();
        assert forall|i: int| k < i < p.len() implies !wanted(#[trigger] p[i]) by {
            assert(p[i] == s[i]);
        }
        lemma_find_one(p, wanted, k);
    }
}

/// Nothing wanted, nothing found.
pub proof fn lemma_find_none<A>(s: Seq<A>, wanted: spec_fn(A) -> bool)
    requires
        forall|i: int| 0 <= i < s.len() ==> !wanted(#[trigger] s[i]),
    ensures
        find_where(s, wanted) is None,
    decreases s.len(),
{
    if s.len() > 0 {
        let p = s.drop_last();
        assert(s.last() == s[s.len() - 1]);
        assert forall|i: int| 0 <= i < p.len() implies !wanted(#[trigger] p[i]) by {
            assert(p[i] == s[i]);
        }
        lemma_find_none(p, wanted);
    }
}

/// What is found is wanted and comes from the sequence.
pub proof fn lemma_found<A>(s: Seq<A>, wanted: spec_fn(A) -> bool)
    ensures
        find_where(s, wanted) matches Some(x) ==> wanted(x) && s.contains(x),
        find_where(s, wanted) is None ==> forall|i: int|
            0 <= i < s.len() ==> !wanted(#[trigger] s[i]),
    decreases s.len(),
{
    if s.len() > 0 {
        let p = s.drop_last();
        assert(s.last() == s[s.len() - 1]);
        lemma_found(p, wanted);
        if !wanted(s.last()) {
            if let Some(x) = find_where(p, wanted) {
                let k = choose|k: int| 0 <= k < p.len() && p[k] == x;
                assert(s[k] == x);
            } else {
                assert forall|i: int| 0 <= i < s.len() implies !wanted(#[trigger] s[i]) by {
                    if i < p.len() {
                        assert(p[i] == s[i]);
                    }
                }
            }
        }
    }
}

/// A sequence in falling order of `key` with one more element, behind those that are equal.
pub open spec fn insert_falling<A>(s: Seq<A>, x: A, key: spec_fn(A) -> int) -> Seq<A>
    decreases s.len(),
{
    if s.len() == 0 || key(s.last()) >= key(x) {
        s.push(x)
    } else {
        insert_falling(s.drop_last(), x, key).push(s.last())
    }
}

/// A sequence in falling order of `key`, equal elements in the order they had.
pub open spec fn falling<A>(s: Seq<A>, key: spec_fn(A) -> int) -> Seq<A>
    decreases s.len(),
{
    if s.len() == 0 {
        s
    } else {
        insert_falling(falling(s.drop_last(), key), s.last(), key)
    }
}

/// `s` is in falling order of `key`.
pub open spec fn is_falling<A>(s: Seq<A>, key: spec_fn(A) -> int) -> bool {
    forall|i: int, j: int| 0 <= i <= j < s.len() ==> key(#[trigger] s[i]) >= key(#[trigger] s[j])
}

/// Where an element goes: behind the last one that is not smaller.
pub proof fn lemma_insert_at<A>(s: Seq<A>, x: A, key: spec_fn(A) -> int, k: int)
    requires
        0 <= k <= s.len(),
        k > 0 ==> key(s[k - 1]) >= key(x),
        forall|i: int| k <= i < s.len() ==> key(#[trigger] s[i]) < key(x),
    ensures
        insert_falling(s, x, key) == s.insert(k, x),
    decreases s.len(),
{
    if k == s.len() {
        assert(s.insert(k, x) =~= s.push(x));
        if s.len() > 0 {
            assert(s.last() == s[k - 1]);
        }
    } else {
        assert(s.last() == s[s.len() - 1]);
        lemma_insert_at(s.drop_last(), x, key, k);
        assert(s.insert(k, x) =~= s.drop_last().insert(k, x).push(s.last()));
    }
}

/// Sorting orders the elements, and neither loses nor invents one.
pub proof fn sorting_orders<A>(s: Seq<A>, key: spec_fn(A) -> int)
    ensures
        is_falling(falling(s, key), key),
        falling(s, key).to_multiset() == s.to_multiset(),
        falling(s, key).len() == s.len(),
    decreases s.len(),
{
    if s.len() > 0 {
        let p = s.drop_last();
        sorting_orders(p, key);
        lemma_insert_orders(falling(p, key), s.last(), key);
        broadcast use vstd::seq_lib::group_to_multiset_ensures;

        assert(p.push(s.last()) =~= s);
    }
}

proof fn lemma_insert_orders<A>(s: Seq<A>, x: A, key: spec_fn(A) -> int)
    requires
        is_falling(s, key),
    ensures
        is_falling(insert_falling(s, x, key), key),
        insert_falling(s, x, key).to_multiset() == s.to_multiset().insert(x),
        insert_falling(s, x, key).len() == s.len() + 1,
        forall|i: int|
            0 <= i < insert_falling(s, x, key).len() ==> #[trigger] insert_falling(s, x, key)[i]
                == x || s.contains(insert_falling(s, x, key)[i]),
    decreases s.len(),
{
    broadcast use vstd::seq_lib::group_to_multiset_ensures;

    let t = insert_falling(s, x, key);
    if s.len() == 0 || key(s.last()) >= key(x) {
        assert forall|i: int| 0 <= i < t.len() implies #[trigger] t[i] == x || s.contains(t[i]) by {
            if i < s.len() {
                assert(s[i] == t[i]);
            }
        }
        assert forall|i: int, j: int| 0 <= i <= j < t.len() implies key(#[trigger] t[i]) >= key(
            #[trigger] t[j],
        ) by {
            if j == s.len() && i < s.len() {
                assert(key(s[i]) >= key(s[s.len() - 1]));
            }
        }
    } else {
        let p = s.drop_last();
        let last = s.last();
        assert(last == s[s.len() - 1]);
        assert forall|i: int, j: int| 0 <= i <= j < p.len() implies key(#[trigger] p[i]) >= key(
            #[trigger] p[j],
        ) by {
            assert(p[i] == s[i] && p[j] == s[j]);
        }
        lemma_insert_orders(p, x, key);
        let u = insert_falling(p, x, key);
        assert(p.push(last) =~= s);
        assert(t.to_multiset() =~= s.to_multiset().insert(x));
        assert forall|i: int| 0 <= i < t.len() implies #[trigger] t[i] == x || s.contains(t[i]) by {
            if i < u.len() {
                assert(t[i] == u[i]);
                if u[i] != x {
                    let k = choose|k: int| 0 <= k < p.len() && p[k] == u[i];
                    assert(s[k] == t[i]);
                }
            } else {
                assert(s[s.len() - 1] == t[i]);
            }
        }
        assert forall|i: int, j: int| 0 <= i <= j < t.len() implies key(#[trigger] t[i]) >= key(
            #[trigger] t[j],
        ) by {
            if j < u.len() {
                assert(t[i] == u[i] && t[j] == u[j]);
            } else if i < u.len() {
                assert(t[i] == u[i]);
                if u[i] != x {
                    let k = choose|k: int| 0 <= k < p.len() && p[k] == u[i];
                    assert(s[k] == u[i]);
                    assert(key(s[k]) >= key(s[s.len() - 1]));
                }
            }
        }
    }
}

} // verus!
