//! Stable order by a numeric key, over whatever rows have one.
use vstd::prelude::*;

verus! {

/// Rows that are put in order by a key of their view.
pub trait Keyed: View + Sized {
    /// The key of a row, as a function of its view.
    spec fn by_key() -> spec_fn(Self::V) -> u32;

    fn sort_key(&self) -> (r: u32)
        ensures
            r == (Self::by_key())(self@),
    ;
}

/// The views of the rows, one by one.
pub open spec fn views<T: View>(rows: Seq<T>) -> Seq<T::V> {
    rows.map_values(|row: T| row@)
}

/// The number of rows at the front of `s` that stay in front of one with key
/// `k`.
pub open spec fn place<V>(s: Seq<V>, key: spec_fn(V) -> u32, k: u32) -> int
    decreases s.len(),
{
    if s.len() == 0 || key(s[0]) > k {
        0
    } else {
        1 + place(s.skip(1), key, k)
    }
}

/// The rows in order of their keys; equal keys keep their order.
pub open spec fn stable_sort<V>(s: Seq<V>, key: spec_fn(V) -> u32) -> Seq<V>
    decreases s.len(),
{
    if s.len() == 0 {
        s
    } else {
        let front = stable_sort(s.drop_last(), key);
        front.insert(place(front, key, key(s.last())), s.last())
    }
}

pub open spec fn sorted<V>(s: Seq<V>, key: spec_fn(V) -> u32) -> bool {
    forall|i: int, j: int| 0 <= i < j < s.len() ==> key(#[trigger] s[i]) <= key(#[trigger] s[j])
}

pub open spec fn has_key<V>(key: spec_fn(V) -> u32, k: u32) -> spec_fn(V) -> bool {
    |v: V| key(v) == k
}

/// The rows with key `k`, in the order in which they stand.
pub open spec fn with_key<V>(s: Seq<V>, key: spec_fn(V) -> u32, k: u32) -> Seq<V> {
    s.filter(has_key(key, k))
}

/// What [`place`] counts: all in front have a key of at most `k`, and the row
/// behind them has a greater one.
pub proof fn lemma_place<V>(s: Seq<V>, key: spec_fn(V) -> u32, k: u32)
    ensures
        0 <= place(s, key, k) <= s.len(),
        forall|i: int| 0 <= i < place(s, key, k) ==> key(#[trigger] s[i]) <= k,
        place(s, key, k) < s.len() ==> key(s[place(s, key, k)]) > k,
    decreases s.len(),
{
    if s.len() > 0 && key(s[0]) <= k {
        lemma_place(s.skip(1), key, k);
        assert forall|i: int| 0 <= i < place(s, key, k) implies key(#[trigger] s[i]) <= k by {
            if i > 0 {
                assert(s[i] == s.skip(1)[i - 1]);
            }
        }
    }
}

proof fn lemma_insert_sorted<V>(s: Seq<V>, key: spec_fn(V) -> u32, e: V)
    requires
        sorted(s, key),
    ensures
        sorted(s.insert(place(s, key, key(e)), e), key),
{
    let p = place(s, key, key(e));
    let t = s.insert(p, e);
    lemma_place(s, key, key(e));
    assert forall|i: int, j: int| 0 <= i < j < t.len() implies key(#[trigger] t[i]) <= key(
        #[trigger] t[j],
    ) by {
        let oi = if i < p {
            i
        } else {
            i - 1
        };
        let oj = if j < p {
            j
        } else {
            j - 1
        };
        if i != p {
            assert(t[i] == s[oi]);
        }
        if j != p {
            assert(t[j] == s[oj]);
        }
        if i == p && j > p {
            assert(key(s[p]) <= key(s[oj]));
        }
    }
}

/// Sorting orders the rows by key and keeps each of them.
pub proof fn lemma_stable_sort<V>(s: Seq<V>, key: spec_fn(V) -> u32)
    ensures
        sorted(stable_sort(s, key), key),
        stable_sort(s, key).to_multiset() == s.to_multiset(),
        stable_sort(s, key).len() == s.len(),
    decreases s.len(),
{
    broadcast use vstd::seq_lib::group_to_multiset_ensures;

    if s.len() > 0 {
        let front = stable_sort(s.drop_last(), key);
        lemma_stable_sort(s.drop_last(), key);
        lemma_place(front, key, key(s.last()));
        lemma_insert_sorted(front, key, s.last());
        assert(s =~= s.drop_last().push(s.last()));
        let p = place(front, key, key(s.last()));
        vstd::seq_lib::to_multiset_insert(front, p, s.last());
        assert(stable_sort(s, key).to_multiset() =~= s.to_multiset());
    }
}

/// Sorting is stable: the rows with one key are the same, in the same order,
/// before and after.
pub proof fn lemma_equal_keys_keep_order<V>(s: Seq<V>, key: spec_fn(V) -> u32, k: u32)
    ensures
        with_key(stable_sort(s, key), key, k) == with_key(s, key, k),
    decreases s.len(),
{
    reveal(Seq::filter);
    let pred = has_key(key, k);
    if s.len() > 0 {
        let e = s.last();
        let front = stable_sort(s.drop_last(), key);
        let p = place(front, key, key(e));
        lemma_equal_keys_keep_order(s.drop_last(), key, k);
        lemma_stable_sort(s.drop_last(), key);
        lemma_place(front, key, key(e));
        let (low, high) = (front.take(p), front.skip(p));
        assert(front =~= low + high);
        assert(front.insert(p, e) =~= low.push(e) + high);
        assert(low.push(e).drop_last() =~= low);
        Seq::filter_distributes_over_add(low, high, pred);
        Seq::filter_distributes_over_add(low.push(e), high, pred);
        if key(e) == k {
            assert forall|i: int| 0 <= i < high.len() implies !pred(#[trigger] high[i]) by {
                assert(high[i] == front[p + i]);
                assert(key(front[p]) <= key(front[p + i]));
            }
            high.lemma_all_neg_filter_empty(pred);
        }
        assert(with_key(stable_sort(s, key), key, k) =~= with_key(s, key, k));
    }
}

/// What is sorted already stays as it is.
pub proof fn lemma_sorted_unchanged<V>(s: Seq<V>, key: spec_fn(V) -> u32)
    requires
        sorted(s, key),
    ensures
        stable_sort(s, key) == s,
    decreases s.len(),
{
    if s.len() > 0 {
        let t = s.drop_last();
        assert forall|i: int, j: int| 0 <= i < j < t.len() implies key(#[trigger] t[i]) <= key(
            #[trigger] t[j],
        ) by {
            assert(t[i] == s[i] && t[j] == s[j]);
        }
        lemma_sorted_unchanged(t, key);
        lemma_place(t, key, key(s.last()));
        let p = place(t, key, key(s.last()));
        if p < t.len() {
            assert(t[p] == s[p]);
            assert(key(s[p]) <= key(s[s.len() - 1]));
        }
        assert(t.insert(p, s.last()) =~= s);
    }
}

/// Puts rows in order of their keys; equal keys keep their order.
pub fn sort_rows<T: Keyed>(rows: Vec<T>) -> (r: Vec<T>)
    ensures
        views(r@) == stable_sort(views(rows@), T::by_key()),
{
    let ghost all = views(rows@);
    let ghost key = T::by_key();
    let mut rest = rows;
    let mut out: Vec<T> = Vec::new();
    let ghost mut done: int = 0;
    proof {
        assert(all.take(0) =~= Seq::empty());
        assert(views(out@) =~= Seq::empty());
        assert(all.skip(0) =~= all);
    }
    while rest.len() > 0
        invariant
            0 <= done <= all.len(),
            key == T::by_key(),
            views(rest@) == all.skip(done),
            views(out@) == stable_sort(all.take(done), key),
        decreases rest.len(),
    {
        let ghost rest_before = rest@;
        let ghost out_before = views(out@);
        let e = rest.remove(0);
        let k: u32 = e.sort_key();
        let mut p: usize = 0;
        proof {
            assert(out_before.skip(0) =~= out_before);
        }
        while p < out.len() && out[p].sort_key() <= k
            invariant
                p <= out@.len(),
                key == T::by_key(),
                out_before == views(out@),
                place(out_before, key, k) == p + place(out_before.skip(p as int), key, k),
            decreases out.len() - p,
        {
            assert(out_before.skip(p as int)[0] == out@[p as int]@);
            assert(out_before.skip(p as int).skip(1) =~= out_before.skip(p + 1));
            p += 1;
        }
        proof {
            if p < out@.len() {
                assert(out_before.skip(p as int)[0] == out@[p as int]@);
            }
            assert(place(out_before, key, k) == p);
            assert(views(rest_before).len() == rest_before.len());
            assert(all.skip(done).len() == all.len() - done);
            assert(views(rest_before)[0] == e@);
            assert(all[done] == e@);
            assert(all.take(done + 1).drop_last() =~= all.take(done));
            assert(all.take(done + 1).last() == all[done]);
            assert(views(rest@) =~= views(rest_before).skip(1));
            assert(all.skip(done).skip(1) =~= all.skip(done + 1));
        }
        out.insert(p, e);
        proof {
            assert(views(out@) =~= out_before.insert(p as int, e@));
            done = done + 1;
        }
    }
    proof {
        assert(all.skip(done).len() == 0);
        assert(all.take(done) =~= all);
    }
    out
}

} // verus!
