//! Sorting support: a keyed insertion sort that provably keeps exactly the
//! elements it was given, and the multiset lemma it rests on.

use vstd::prelude::*;
use vstd::multiset::Multiset;

verus! {

/// A record with a numeric sort key.
pub trait SortKey: Sized {
    /// The key, as a mathematical value.
    spec fn skey(&self) -> int;

    /// The key.
    fn key(&self) -> (k: u64)
        ensures
            k as int == self.skey(),
    ;
}

/// Ascending order by key.
pub open spec fn sorted_by_skey<T: SortKey>(s: Seq<T>) -> bool {
    forall|k: int| 0 <= k < s.len() - 1 ==> (#[trigger] s[k]).skey() <= s[k + 1].skey()
}

/// Sorts ascending by key, keeping exactly the same elements.
pub fn sort_by_key<T: SortKey>(items: Vec<T>) -> (r: Vec<T>)
    ensures
        r@.to_multiset() == items@.to_multiset(),
        sorted_by_skey(r@),
{
    let mut v = items;
    let ghost v0 = v@;
    let n = v.len();
    if n <= 1 {
        proof {
            assert(v@.to_multiset() =~= v0.to_multiset());
        }
        return v;
    }
    let mut i: usize = 1;
    while i < n
        invariant
            n == v.len(),
            1 <= i <= n,
            v@.to_multiset() == v0.to_multiset(),
            forall|k: int| 0 <= k < i - 1 ==> (#[trigger] v@[k]).skey() <= v@[k + 1].skey(),
        decreases n - i,
    {
        let ghost va = v@;
        let x = v.remove(i);
        let kx = x.key();
        let mut j: usize = i;
        while j > 0 && v[j - 1].key() > kx
            invariant
                0 <= j <= i < n,
                n == va.len(),
                v@ == va.remove(i as int),
                kx as int == x.skey(),
                forall|m: int| j <= m < i ==> (#[trigger] v@[m]).skey() > kx as int,
            decreases j,
        {
            j = j - 1;
        }
        let ghost v1 = v@;
        v.insert(j, x);
        proof {
            broadcast use vstd::seq_lib::group_to_multiset_ensures;
            broadcast use vstd::multiset::group_multiset_axioms;

            assert(v1 =~= va.remove(i as int));
            assert(v@ =~= v1.insert(j as int, x));
            lemma_to_multiset_insert(v1, j as int, x);
            assert(va.contains(va[i as int]));
            assert(va.to_multiset().count(x) > 0);
            assert(v@.to_multiset() =~= va.to_multiset());
            v1.insert_ensures(j as int, x);
            assert forall|k: int|
                0 <= k < i implies (#[trigger] v@[k]).skey() <= v@[k + 1].skey() by {
                assert(forall|m: int| 0 <= m < i ==> va.remove(i as int)[m] == va[m]);
                if k + 1 < j {
                    assert(v@[k] == v1[k]);
                    assert(v@[k + 1] == v1[k + 1]);
                } else if k + 1 == j {
                    assert(v@[k] == v1[k]);
                    assert(v@[k + 1] == x);
                } else if k == j {
                    assert(v@[k] == x);
                    assert(v@[k + 1] == v1[k]);
                } else {
                    assert(v@[k] == v1[k - 1]);
                    assert(v@[k + 1] == v1[k]);
                }
            }
        }
        i = i + 1;
    }
    v
}

/// The sequence of mathematical values of a sequence of records.
pub open spec fn views_of<T: View>(s: Seq<T>) -> Seq<T::V> {
    s.map_values(|x: T| x@)
}

/// Sequences with the same elements have the same element values.
pub proof fn lemma_views_multiset<T: View>(a: Seq<T>, b: Seq<T>)
    requires
        a.to_multiset() == b.to_multiset(),
    ensures
        views_of(a).to_multiset() == views_of(b).to_multiset(),
    decreases a.len(),
{
    broadcast use vstd::seq_lib::group_to_multiset_ensures;
    broadcast use vstd::multiset::group_multiset_axioms;

    if a.len() == 0 {
        assert(a.to_multiset().len() == a.len());
        assert(b.to_multiset().len() == b.len());
        assert(views_of(a) =~= views_of(b));
    } else {
        let x = a.last();
        assert(a =~= a.drop_last().push(x));
        assert(a.contains(x));
        assert(b.to_multiset().count(x) > 0);
        assert(b.contains(x));
        let k = choose|k: int| 0 <= k < b.len() && b[k] == x;
        let b1 = b.remove(k);
        assert(a.drop_last().to_multiset() =~= a.to_multiset().remove(x));
        assert(b1.to_multiset() =~= b.to_multiset().remove(x));
        lemma_views_multiset(a.drop_last(), b1);
        assert(views_of(a) =~= views_of(a.drop_last()).push(x@));
        assert(views_of(a).to_multiset() =~= views_of(a.drop_last()).to_multiset().insert(x@));
        assert(b1.insert(k, x) =~= b);
        assert(views_of(b) =~= views_of(b1).insert(k, x@));
        lemma_to_multiset_insert(views_of(b1), k, x@);
        assert(views_of(a).to_multiset() =~= views_of(b).to_multiset());
    }
}

pub proof fn lemma_to_multiset_insert<A>(s: Seq<A>, j: int, x: A)
    requires
        0 <= j <= s.len(),
    ensures
        s.insert(j, x).to_multiset() == s.to_multiset().insert(x),
{
    broadcast use vstd::seq_lib::group_to_multiset_ensures;
    broadcast use vstd::multiset::group_multiset_axioms;

    let pre = s.take(j);
    let post = s.skip(j);
    assert(s.insert(j, x) =~= pre + (seq![x] + post));
    assert(s =~= pre + post);
    vstd::seq_lib::lemma_multiset_commutative(pre, post);
    vstd::seq_lib::lemma_multiset_commutative(pre, seq![x] + post);
    vstd::seq_lib::lemma_multiset_commutative(seq![x], post);
    assert(seq![x] =~= Seq::<A>::empty().push(x));
    assert(seq![x].to_multiset() =~= Multiset::<A>::empty().insert(x));
    assert(s.insert(j, x).to_multiset() =~= s.to_multiset().insert(x));
}

} // verus!
