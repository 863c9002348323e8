//! Sequences ordered by an integer key, and when such an order is unique.
use vstd::prelude::*;
use vstd::multiset::*;

verus! {

broadcast use {vstd::seq_lib::group_to_multiset_ensures, group_multiset_axioms};

/// The keys of `s` never decrease.
pub open spec fn sorted_by<T>(s: Seq<T>, key: spec_fn(T) -> int) -> bool {
    forall|i: int, j: int| 0 <= i < j < s.len() ==> key(s[i]) <= key(s[j])
}

/// Two items of `s` with the same key are the same item.
pub open spec fn key_determines_item<T>(s: Seq<T>, key: spec_fn(T) -> int) -> bool {
    forall|i: int, j: int|
        0 <= i < s.len() && 0 <= j < s.len() && key(#[trigger] s[i]) == key(#[trigger] s[j])
            ==> s[i] == s[j]
}

/// A rearrangement of a sequence in which a key determines the item keeps
/// that property.
pub proof fn lemma_key_determines_item_permuted<T>(a: Seq<T>, b: Seq<T>, key: spec_fn(T) -> int)
    requires
        a.to_multiset() == b.to_multiset(),
        key_determines_item(b, key),
    ensures
        key_determines_item(a, key),
{
    assert forall|i: int, j: int|
        0 <= i < a.len() && 0 <= j < a.len() && key(#[trigger] a[i]) == key(#[trigger] a[j])
            implies a[i] == a[j] by {
        assert(a.contains(a[i]));
        assert(a.contains(a[j]));
        assert(b.to_multiset().count(a[i]) > 0);
        assert(b.to_multiset().count(a[j]) > 0);
        let p = choose|p: int| 0 <= p < b.len() && b[p] == a[i];
        let q = choose|q: int| 0 <= q < b.len() && b[q] == a[j];
        assert(key(b[p]) == key(b[q]));
    }
}

/// Two orderings by key of the same items are the same sequence, when a key
/// determines the item.
pub proof fn lemma_sorted_unique<T>(a: Seq<T>, b: Seq<T>, key: spec_fn(T) -> int)
    requires
        sorted_by(a, key),
        sorted_by(b, key),
        a.to_multiset() == b.to_multiset(),
        key_determines_item(a, key),
    ensures
        a == b,
    decreases a.len(),
{
    vstd::seq_lib::to_multiset_len(a);
    vstd::seq_lib::to_multiset_len(b);
    assert(a.len() == b.len());
    if a.len() == 0 {
        assert(a =~= b);
    } else {
        assert(a.contains(a[0]));
        assert(b.to_multiset().count(a[0]) > 0);
        let j = choose|j: int| 0 <= j < b.len() && b[j] == a[0];
        assert(b.contains(b[0]));
        assert(a.to_multiset().count(b[0]) > 0);
        let i = choose|i: int| 0 <= i < a.len() && a[i] == b[0];
        assert(key(b[0]) <= key(b[j]));
        assert(key(a[0]) <= key(a[i]));
        assert(a[0] == a[i]);
        assert(a.remove(0) =~= a.drop_first());
        assert(b.remove(0) =~= b.drop_first());
        assert(a.drop_first().to_multiset() == b.drop_first().to_multiset());
        let ra = a.drop_first();
        assert(ra.len() == a.len() - 1);
        assert forall|x: int, y: int|
            0 <= x < ra.len() && 0 <= y < ra.len() && key(#[trigger] ra[x]) == key(#[trigger] ra[y])
                implies ra[x] == ra[y] by {
            assert(ra[x] == a[x + 1]);
            assert(ra[y] == a[y + 1]);
        }
        lemma_sorted_unique(a.drop_first(), b.drop_first(), key);
        assert forall|k: int| 0 <= k < a.len() implies a[k] == b[k] by {
            if k > 0 {
                assert(a[k] == a.drop_first()[k - 1]);
                assert(b[k] == b.drop_first()[k - 1]);
            }
        }
        assert(a =~= b);
    }
}

/// The items of `s` whose key is `k`, in their order in `s`.
pub open spec fn with_key<V>(s: Seq<V>, key: spec_fn(V) -> int, k: int) -> Seq<V>
    decreases s.len(),
{
    if s.len() == 0 {
        Seq::empty()
    } else {
        let prev = with_key(s.drop_last(), key, k);
        if key(s.last()) == k {
            prev.push(s.last())
        } else {
            prev
        }
    }
}

pub proof fn lemma_with_key_concat<V>(a: Seq<V>, b: Seq<V>, key: spec_fn(V) -> int, k: int)
    ensures
        with_key(a + b, key, k) == with_key(a, key, k) + with_key(b, key, k),
    decreases b.len(),
{
    if b.len() == 0 {
        assert(a + b =~= a);
        assert(with_key(a, key, k) + with_key(b, key, k) =~= with_key(a, key, k));
    } else {
        lemma_with_key_concat(a, b.drop_last(), key, k);
        assert((a + b).drop_last() =~= a + b.drop_last());
        assert((a + b).last() == b.last());
        if key(b.last()) == k {
            assert((with_key(a, key, k) + with_key(b.drop_last(), key, k)).push(b.last())
                =~= with_key(a, key, k) + with_key(b.drop_last(), key, k).push(b.last()));
        }
    }
}

pub proof fn lemma_with_key_one<V>(x: V, key: spec_fn(V) -> int, k: int)
    ensures
        with_key(seq![x], key, k) == (if key(x) == k { seq![x] } else { Seq::<V>::empty() }),
{
    let one = seq![x];
    assert(one.drop_last() =~= Seq::<V>::empty());
    assert(one.last() == x);
    assert(with_key(one.drop_last(), key, k) == Seq::<V>::empty());
    assert(Seq::<V>::empty().push(x) =~= seq![x]);
}

pub proof fn lemma_with_key_absent<V>(s: Seq<V>, key: spec_fn(V) -> int, k: int)
    requires
        forall|i: int| 0 <= i < s.len() ==> key(#[trigger] s[i]) != k,
    ensures
        with_key(s, key, k) == Seq::<V>::empty(),
    decreases s.len(),
{
    if s.len() > 0 {
        lemma_with_key_absent(s.drop_last(), key, k);
    }
}

pub proof fn lemma_with_key_present<V>(s: Seq<V>, key: spec_fn(V) -> int, k: int)
    requires
        with_key(s, key, k).len() > 0,
    ensures
        exists|i: int| 0 <= i < s.len() && key(#[trigger] s[i]) == k,
    decreases s.len(),
{
    if key(s.last()) != k {
        lemma_with_key_present(s.drop_last(), key, k);
        let i = choose|i: int| 0 <= i < s.drop_last().len() && key(#[trigger] s.drop_last()[i]) == k;
        assert(s[i] == s.drop_last()[i]);
    } else {
        assert(key(s[s.len() - 1]) == k);
    }
}

/// A sequence sorted by key is fixed by the items of each key, in their order:
/// two sorted sequences that agree on those are the same sequence.
pub proof fn lemma_stable_unique<V>(a: Seq<V>, b: Seq<V>, key: spec_fn(V) -> int)
    requires
        sorted_by(a, key),
        sorted_by(b, key),
        forall|k: int| #[trigger] with_key(a, key, k) == with_key(b, key, k),
    ensures
        a == b,
    decreases a.len() + b.len(),
{
    if a.len() == 0 && b.len() == 0 {
        assert(a =~= b);
    } else if a.len() == 0 {
        let k = key(b.last());
        assert(with_key(b, key, k).len() > 0);
        assert(with_key(a, key, k) == with_key(b, key, k));
    } else if b.len() == 0 {
        let k = key(a.last());
        assert(with_key(a, key, k).len() > 0);
        assert(with_key(a, key, k) == with_key(b, key, k));
    } else {
        let ka = key(a.last());
        let kb = key(b.last());
        assert(with_key(a, key, ka).len() > 0);
        assert(with_key(a, key, ka) == with_key(b, key, ka));
        lemma_with_key_present(b, key, ka);
        assert(ka <= kb);
        assert(with_key(b, key, kb).len() > 0);
        assert(with_key(a, key, kb) == with_key(b, key, kb));
        lemma_with_key_present(a, key, kb);
        assert(kb <= ka);
        assert(with_key(a, key, ka).last() == a.last());
        assert(with_key(b, key, ka).last() == b.last());
        let ad = a.drop_last();
        let bd = b.drop_last();
        assert forall|k: int| #[trigger] with_key(ad, key, k) == with_key(bd, key, k) by {
            assert(with_key(a, key, k) == with_key(b, key, k));
            if k == ka {
                assert(with_key(a, key, k).drop_last() =~= with_key(ad, key, k));
                assert(with_key(b, key, k).drop_last() =~= with_key(bd, key, k));
            }
        }
        assert forall|i: int, j: int| 0 <= i < j < ad.len() implies key(ad[i]) <= key(ad[j]) by {
            assert(ad[i] == a[i] && ad[j] == a[j]);
        }
        assert forall|i: int, j: int| 0 <= i < j < bd.len() implies key(bd[i]) <= key(bd[j]) by {
            assert(bd[i] == b[i] && bd[j] == b[j]);
        }
        lemma_stable_unique(ad, bd, key);
        assert(a =~= ad.push(a.last()));
        assert(b =~= bd.push(b.last()));
    }
}

/// A type whose values are ordered by an integer key of their view.
pub trait Keyed: View + Sized {
    spec fn key_of(v: Self::V) -> int;

    fn key(&self) -> (r: u128)
        ensures
            r as int == Self::key_of(self@),
    ;
}

/// The views of a list of values.
pub open spec fn views<T: View>(s: Seq<T>) -> Seq<T::V> {
    s.map_values(|x: T| x@)
}

/// The key of a keyed type, as a function of the view.
pub open spec fn key_fn<T: Keyed>() -> spec_fn(T::V) -> int {
    |v: T::V| T::key_of(v)
}

/// Orders values by ascending key; values with equal keys keep the order
/// they came in.
pub fn sort_by_key<T: Keyed>(v: Vec<T>) -> (r: Vec<T>)
    ensures
        sorted_by(views(r@), key_fn::<T>()),
        views(r@).to_multiset() == views(v@).to_multiset(),
        forall|k: int| #[trigger] with_key(views(r@), key_fn::<T>(), k) == with_key(views(v@), key_fn::<T>(), k),
{
    let ghost key = key_fn::<T>();
    let mut input = v;
    let mut out: Vec<T> = Vec::new();
    proof {
        assert(views(out@) =~= Seq::<T::V>::empty());
        assert(views(out@).to_multiset().add(views(input@).to_multiset()) =~= views(v@).to_multiset());
        assert forall|k: int| #[trigger] with_key(views(v@), key, k)
            == with_key(views(out@), key, k) + with_key(views(input@), key, k) by {
            assert(with_key(views(out@), key, k) + with_key(views(input@), key, k) =~= with_key(views(v@), key, k));
        }
    }
    while input.len() > 0
        invariant
            key == key_fn::<T>(),
            sorted_by(views(out@), key),
            views(out@).to_multiset().add(views(input@).to_multiset()) == views(v@).to_multiset(),
            forall|k: int| #[trigger] with_key(views(v@), key, k)
                == with_key(views(out@), key, k) + with_key(views(input@), key, k),
        decreases input.len(),
    {
        let ghost before_in = views(input@);
        let ghost before_out = views(out@);
        let x = input.remove(0);
        let kx = x.key();
        let mut p: usize = 0;
        while p < out.len() && out[p].key() <= kx
            invariant
                p <= out.len(),
                key == key_fn::<T>(),
                views(out@) == before_out,
                forall|q: int| 0 <= q < p ==> key(#[trigger] before_out[q]) <= kx,
            decreases out.len() - p,
        {
            assert(before_out[p as int] == out@[p as int]@);
            p = p + 1;
        }
        proof {
            if p < before_out.len() {
                assert(before_out[p as int] == out@[p as int]@);
                assert(key(before_out[p as int]) > kx);
            }
        }
        out.insert(p, x);
        proof {
            let w = views(out@);
            let bw = before_out;
            let xv = x@;
            assert(w =~= bw.insert(p as int, xv));
            assert(views(input@) =~= before_in.remove(0));
            assert(before_in[0] == xv);
            assert forall|i: int, j: int| 0 <= i < j < w.len() implies key(w[i]) <= key(w[j]) by {
                if i < p && j > p {
                    assert(w[j] == bw[j - 1]);
                    assert(w[i] == bw[i]);
                } else if i == p && j > p {
                    assert(w[j] == bw[j - 1]);
                    assert(key(bw[p as int]) <= key(bw[j - 1]));
                } else if j == p {
                    assert(w[i] == bw[i]);
                } else if j < p {
                    assert(w[i] == bw[i]);
                    assert(w[j] == bw[j]);
                } else {
                    assert(w[i] == bw[i - 1]);
                    assert(w[j] == bw[j - 1]);
                }
            }
            assert(views(out@).to_multiset().add(views(input@).to_multiset()) =~= views(v@).to_multiset());
            let lo = bw.subrange(0, p as int);
            let hi = bw.subrange(p as int, bw.len() as int);
            assert(bw =~= lo + hi);
            assert(w =~= lo + seq![xv] + hi);
            assert(before_in =~= seq![xv] + views(input@));
            assert(hi.len() == bw.len() - p);
            assert forall|q: int| 0 <= q < hi.len() implies key(#[trigger] hi[q]) > kx by {
                assert(hi[q] == bw[p + q]);
                if q > 0 {
                    assert(key(bw[p as int]) <= key(bw[p + q]));
                }
            }
            assert forall|k: int| #[trigger] with_key(views(v@), key, k)
                == with_key(w, key, k) + with_key(views(input@), key, k) by {
                lemma_with_key_concat(lo, hi, key, k);
                lemma_with_key_concat(lo + seq![xv], hi, key, k);
                lemma_with_key_concat(lo, seq![xv], key, k);
                lemma_with_key_concat(seq![xv], views(input@), key, k);
                lemma_with_key_one(xv, key, k);
                if k == kx {
                    lemma_with_key_absent(hi, key, k);
                    assert(with_key(hi, key, k) =~= Seq::<T::V>::empty());
                }
                assert(with_key(w, key, k) + with_key(views(input@), key, k)
                    =~= with_key(bw, key, k) + with_key(before_in, key, k));
            }
        }
    }
    proof {
        assert(views(input@) =~= Seq::<T::V>::empty());
        assert(views(out@).to_multiset() =~= views(v@).to_multiset());
        assert forall|k: int| #[trigger] with_key(views(out@), key, k) == with_key(views(v@), key, k) by {
            assert(with_key(views(out@), key, k) + with_key(views(input@), key, k) =~= with_key(views(out@), key, k));
        }
    }
    out
}

} // verus!
