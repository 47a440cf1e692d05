//! Ranking: a stable sort that puts the greatest key first.
//!
//! Incidents and the updates of an incident are shown in ranked order. A key is
//! a triple of integers compared from left to right; among items with equal
//! keys the one that came first stays first.

use vstd::prelude::*;

verus! {

/// A ranking key. Keys are compared lexicographically.
pub type Key = (int, int, int);

/// `a` is strictly greater than `b`, comparing the parts from left to right.
pub open spec fn key_gt(a: Key, b: Key) -> bool {
    a.0 > b.0 || (a.0 == b.0 && (a.1 > b.1 || (a.1 == b.1 && a.2 > b.2)))
}

/// A value of a mathematical model that has a ranking key.
pub trait Keyed {
    spec fn rank_key(&self) -> Key;
}

/// An executable value whose view has a ranking key, with a test that decides
/// the order of two keys.
pub trait Ranked: View where Self::V: Keyed {
    /// Whether `self` has a strictly greater key than `other`.
    fn outranks(&self, other: &Self) -> (b: bool)
        ensures
            b == key_gt(self@.rank_key(), other@.rank_key()),
    ;
}

/// The views of a sequence of values, item by item.
pub open spec fn views<T: View>(items: Seq<T>) -> Seq<T::V> {
    items.map_values(|t: T| t@)
}

/// No item is followed by one with a strictly greater key.
pub open spec fn ordered<A: Keyed>(items: Seq<A>) -> bool {
    forall|i: int, j: int|
        0 <= i < j < items.len() ==> !key_gt(
            (#[trigger] items[j]).rank_key(),
            (#[trigger] items[i]).rank_key(),
        )
}

/// The test that an item has the key `k`.
pub open spec fn has_key<A: Keyed>(k: Key) -> spec_fn(A) -> bool {
    |a: A| a.rank_key() == k
}

/// How many items at the front of `ranked` have a key strictly greater than `k`.
pub open spec fn lead<A: Keyed>(ranked: Seq<A>, k: Key) -> nat
    decreases ranked.len(),
{
    if ranked.len() == 0 || !key_gt(ranked[0].rank_key(), k) {
        0
    } else {
        1 + lead(ranked.drop_first(), k)
    }
}

/// `ranked` with `x` put behind the items that outrank it and before all others.
pub open spec fn place<A: Keyed>(ranked: Seq<A>, x: A) -> Seq<A> {
    ranked.insert(lead(ranked, x.rank_key()) as int, x)
}

/// The items in ranked order: greatest key first, and items with equal keys in
/// the order in which `items` has them.
pub open spec fn ranking<A: Keyed>(items: Seq<A>) -> Seq<A>
    decreases items.len(),
{
    if items.len() == 0 {
        Seq::empty()
    } else {
        place(ranking(items.drop_first()), items[0])
    }
}

/// `lead` stops at the first item that does not outrank `k`.
proof fn lemma_lead_position<A: Keyed>(ranked: Seq<A>, k: Key, p: int)
    requires
        0 <= p <= ranked.len(),
        forall|j: int| 0 <= j < p ==> key_gt((#[trigger] ranked[j]).rank_key(), k),
        p < ranked.len() ==> !key_gt(ranked[p].rank_key(), k),
    ensures
        lead(ranked, k) == p,
    decreases ranked.len(),
{
    if p > 0 {
        let rest = ranked.drop_first();
        assert forall|j: int| 0 <= j < p - 1 implies key_gt(
            (#[trigger] rest[j]).rank_key(),
            k,
        ) by {
            assert(rest[j] == ranked[j + 1]);
        }
        if p < ranked.len() {
            assert(rest[p - 1] == ranked[p]);
        }
        assert(key_gt(ranked[0].rank_key(), k));
        lemma_lead_position(rest, k, p - 1);
    }
}

/// Where `lead` stops: every item before it outranks `k`, and in an ordered
/// sequence no item from there on does.
proof fn lemma_lead_splits<A: Keyed>(ranked: Seq<A>, k: Key)
    requires
        ordered(ranked),
    ensures
        lead(ranked, k) <= ranked.len(),
        forall|j: int| 0 <= j < lead(ranked, k) ==> key_gt((#[trigger] ranked[j]).rank_key(), k),
        forall|j: int|
            lead(ranked, k) <= j < ranked.len() ==> !key_gt((#[trigger] ranked[j]).rank_key(), k),
    decreases ranked.len(),
{
    if ranked.len() == 0 {
    } else if !key_gt(ranked[0].rank_key(), k) {
        assert forall|j: int| 0 <= j < ranked.len() implies !key_gt(
            (#[trigger] ranked[j]).rank_key(),
            k,
        ) by {
            if j > 0 {
                assert(!key_gt(ranked[j].rank_key(), ranked[0].rank_key()));
            }
        }
    } else {
        let rest = ranked.drop_first();
        assert forall|i: int, j: int| 0 <= i < j < rest.len() implies !key_gt(
            (#[trigger] rest[j]).rank_key(),
            (#[trigger] rest[i]).rank_key(),
        ) by {
            assert(rest[i] == ranked[i + 1]);
            assert(rest[j] == ranked[j + 1]);
        }
        lemma_lead_splits(rest, k);
        let p = lead(ranked, k) as int;
        assert forall|j: int| 0 <= j < p implies key_gt((#[trigger] ranked[j]).rank_key(), k) by {
            if j > 0 {
                assert(ranked[j] == rest[j - 1]);
            }
        }
        assert forall|j: int| p <= j < ranked.len() implies !key_gt(
            (#[trigger] ranked[j]).rank_key(),
            k,
        ) by {
            assert(ranked[j] == rest[j - 1]);
        }
    }
}

/// A sequence in which no item has the key `k` has nothing left after the
/// filter for `k`.
proof fn lemma_filter_without_key<A: Keyed>(items: Seq<A>, k: Key)
    requires
        forall|j: int| 0 <= j < items.len() ==> (#[trigger] items[j]).rank_key() != k,
    ensures
        items.filter(has_key::<A>(k)) == Seq::<A>::empty(),
    decreases items.len(),
{
    reveal(Seq::filter);
    if items.len() > 0 {
        lemma_filter_without_key(items.drop_last(), k);
    }
}

/// Placing an item into an ordered sequence keeps it ordered, adds exactly
/// that item, and puts it in front of the items that share its key.
proof fn lemma_place<A: Keyed>(ranked: Seq<A>, x: A)
    requires
        ordered(ranked),
    ensures
        ordered(place(ranked, x)),
        place(ranked, x).len() == ranked.len() + 1,
        place(ranked, x).to_multiset() == ranked.to_multiset().insert(x),
        forall|k: Key|
            #![trigger place(ranked, x).filter(has_key::<A>(k))]
            place(ranked, x).filter(has_key::<A>(k)) == if x.rank_key() == k {
                seq![x] + ranked.filter(has_key::<A>(k))
            } else {
                ranked.filter(has_key::<A>(k))
            },
{
    let kx = x.rank_key();
    let p = lead(ranked, kx) as int;
    let placed = place(ranked, x);
    lemma_lead_splits(ranked, kx);
    vstd::seq_lib::to_multiset_insert(ranked, p, x);
    assert forall|i: int, j: int| 0 <= i < j < placed.len() implies !key_gt(
        (#[trigger] placed[j]).rank_key(),
        (#[trigger] placed[i]).rank_key(),
    ) by {
        if i < p && j > p {
            assert(placed[i] == ranked[i]);
            assert(placed[j] == ranked[j - 1]);
        } else if i < p && j < p {
            assert(placed[i] == ranked[i]);
            assert(placed[j] == ranked[j]);
        } else if i < p && j == p {
            assert(placed[i] == ranked[i]);
        } else if i == p {
            assert(placed[j] == ranked[j - 1]);
        } else {
            assert(placed[i] == ranked[i - 1]);
            assert(placed[j] == ranked[j - 1]);
        }
    }
    let front = ranked.subrange(0, p);
    let back = ranked.subrange(p, ranked.len() as int);
    assert(ranked =~= front + back);
    assert(placed =~= front.push(x) + back);
    assert forall|k: Key|
        #![trigger placed.filter(has_key::<A>(k))]
        placed.filter(has_key::<A>(k)) == if kx == k {
            seq![x] + ranked.filter(has_key::<A>(k))
        } else {
            ranked.filter(has_key::<A>(k))
        } by {
        let f = has_key::<A>(k);
        Seq::filter_distributes_over_add(front, back, f);
        Seq::filter_distributes_over_add(front.push(x), back, f);
        front.lemma_filter_push(x, f);
        if kx == k {
            assert forall|j: int| 0 <= j < front.len() implies (#[trigger] front[j]).rank_key()
                != k by {
                assert(front[j] == ranked[j]);
            }
            lemma_filter_without_key(front, k);
            assert(front.filter(f).push(x) =~= seq![x]);
            assert(front.filter(f) + back.filter(f) =~= back.filter(f));
        }
    }
}

/// The filter for a key takes the first item if it has the key, and goes on
/// with the rest.
proof fn lemma_filter_head<A: Keyed>(items: Seq<A>, k: Key)
    requires
        items.len() > 0,
    ensures
        items.filter(has_key::<A>(k)) == if items[0].rank_key() == k {
            seq![items[0]] + items.drop_first().filter(has_key::<A>(k))
        } else {
            items.drop_first().filter(has_key::<A>(k))
        },
{
    let f = has_key::<A>(k);
    let x = items[0];
    let rest = items.drop_first();
    assert(items =~= seq![x] + rest);
    assert(seq![x] =~= Seq::<A>::empty().push(x));
    Seq::filter_distributes_over_add(seq![x], rest, f);
    Seq::<A>::empty().lemma_filter_push(x, f);
    assert(Seq::<A>::empty().filter(f) =~= Seq::<A>::empty()) by {
        reveal(Seq::filter);
    }
    if x.rank_key() != k {
        assert(seq![x].filter(f) + rest.filter(f) =~= rest.filter(f));
    }
}

/// A ranking is a stable sort: it is ordered, it holds exactly the items that
/// were given, and the items that share a key keep their order.
pub proof fn lemma_ranking_is_stable_sort<A: Keyed>(items: Seq<A>)
    ensures
        ordered(ranking(items)),
        ranking(items).len() == items.len(),
        ranking(items).to_multiset() == items.to_multiset(),
        forall|k: Key|
            #![trigger ranking(items).filter(has_key::<A>(k))]
            ranking(items).filter(has_key::<A>(k)) == items.filter(has_key::<A>(k)),
    decreases items.len(),
{
    if items.len() == 0 {
        assert(items =~= Seq::<A>::empty());
    } else {
        let rest = items.drop_first();
        let x = items[0];
        lemma_ranking_is_stable_sort(rest);
        lemma_place(ranking(rest), x);
        assert(items =~= rest.insert(0, x));
        vstd::seq_lib::to_multiset_insert(rest, 0, x);
        assert forall|k: Key|
            #![trigger ranking(items).filter(has_key::<A>(k))]
            ranking(items).filter(has_key::<A>(k)) == items.filter(has_key::<A>(k)) by {
            let f = has_key::<A>(k);
            assert(ranking(rest).filter(f) == rest.filter(f));
            lemma_filter_head(items, k);
            assert(place(ranking(rest), x).filter(f) == if x.rank_key() == k {
                seq![x] + ranking(rest).filter(f)
            } else {
                ranking(rest).filter(f)
            });
        }
    }
}

/// An item that the filter for `k` lets through stands in the sequence and
/// has the key `k`.
proof fn lemma_filtered_item<A: Keyed>(items: Seq<A>, k: Key) -> (j: int)
    requires
        items.filter(has_key::<A>(k)).len() > 0,
    ensures
        0 <= j < items.len(),
        items[j].rank_key() == k,
{
    let f = has_key::<A>(k);
    let x = items.filter(f)[0];
    items.lemma_filter_pred(f, 0);
    assert(items.filter(f).contains(x));
    items.lemma_filter_contains_rev(f, x);
    items.index_of(x)
}

/// Two ordered sequences that agree, key by key, on the items of that key and
/// their order are the same sequence.
proof fn lemma_ordered_sequences_agree<A: Keyed>(r: Seq<A>, s: Seq<A>)
    requires
        ordered(r),
        ordered(s),
        r.len() == s.len(),
        forall|k: Key|
            #![trigger r.filter(has_key::<A>(k))]
            r.filter(has_key::<A>(k)) == s.filter(has_key::<A>(k)),
    ensures
        r == s,
    decreases r.len(),
{
    if r.len() == 0 {
        assert(r =~= s);
    } else {
        let k0 = r[0].rank_key();
        let k1 = s[0].rank_key();
        let r_rest = r.drop_first();
        let s_rest = s.drop_first();
        lemma_filter_head(r, k0);
        lemma_filter_head(s, k1);
        assert(r.filter(has_key::<A>(k1)) == s.filter(has_key::<A>(k1)));
        let j = lemma_filtered_item(s, k0);
        let i = lemma_filtered_item(r, k1);
        if j > 0 {
            assert(!key_gt(s[j].rank_key(), s[0].rank_key()));
        }
        if i > 0 {
            assert(!key_gt(r[i].rank_key(), r[0].rank_key()));
        }
        assert(k0 == k1);
        lemma_filter_head(s, k0);
        let fr = r_rest.filter(has_key::<A>(k0));
        let fs = s_rest.filter(has_key::<A>(k0));
        assert((seq![r[0]] + fr)[0] == (seq![s[0]] + fs)[0]);
        assert(r[0] == s[0]);
        assert forall|k: Key|
            #![trigger r_rest.filter(has_key::<A>(k))]
            r_rest.filter(has_key::<A>(k)) == s_rest.filter(has_key::<A>(k)) by {
            lemma_filter_head(r, k);
            lemma_filter_head(s, k);
            assert(r.filter(has_key::<A>(k)) == s.filter(has_key::<A>(k)));
            if k == k0 {
                let a = r_rest.filter(has_key::<A>(k));
                let b = s_rest.filter(has_key::<A>(k));
                assert(a =~= (seq![r[0]] + a).drop_first());
                assert(b =~= (seq![s[0]] + b).drop_first());
            }
        }
        assert forall|a: int, b: int| 0 <= a < b < r_rest.len() implies !key_gt(
            (#[trigger] r_rest[b]).rank_key(),
            (#[trigger] r_rest[a]).rank_key(),
        ) by {
            assert(r_rest[a] == r[a + 1]);
            assert(r_rest[b] == r[b + 1]);
        }
        assert forall|a: int, b: int| 0 <= a < b < s_rest.len() implies !key_gt(
            (#[trigger] s_rest[b]).rank_key(),
            (#[trigger] s_rest[a]).rank_key(),
        ) by {
            assert(s_rest[a] == s[a + 1]);
            assert(s_rest[b] == s[b + 1]);
        }
        lemma_ordered_sequences_agree(r_rest, s_rest);
        assert(r =~= seq![r[0]] + r_rest);
        assert(s =~= seq![s[0]] + s_rest);
    }
}

/// The ranking is the only stable sort. A sequence that is ordered, is as long
/// as `items` and has, for every key, the items of that key in the order in
/// which `items` has them, is the ranking of `items`.
pub proof fn lemma_stable_sort_is_the_ranking<A: Keyed>(items: Seq<A>, sorted: Seq<A>)
    requires
        ordered(sorted),
        sorted.len() == items.len(),
        forall|k: Key|
            #![trigger sorted.filter(has_key::<A>(k))]
            sorted.filter(has_key::<A>(k)) == items.filter(has_key::<A>(k)),
    ensures
        sorted == ranking(items),
{
    lemma_ranking_is_stable_sort(items);
    assert forall|k: Key|
        #![trigger sorted.filter(has_key::<A>(k))]
        sorted.filter(has_key::<A>(k)) == ranking(items).filter(has_key::<A>(k)) by {
        assert(ranking(items).filter(has_key::<A>(k)) == items.filter(has_key::<A>(k)));
    }
    lemma_ordered_sequences_agree(sorted, ranking(items));
}

/// Sorts `items` into ranked order.
pub fn sort_ranked<T>(items: Vec<T>) -> (r: Vec<T>) where T: Ranked, T::V: Keyed
    ensures
        views(r@) == ranking(views(items@)),
{
    let ghost all = views(items@);
    let mut rest: Vec<T> = items;
    let mut out: Vec<T> = Vec::new();
    proof {
        assert(all.skip(rest@.len() as int) =~= Seq::<T::V>::empty());
        assert(views(out@) =~= Seq::<T::V>::empty());
        assert(views(rest@) =~= all.take(rest@.len() as int));
    }
    while rest.len() > 0
        invariant
            rest@.len() <= all.len(),
            views(rest@) == all.take(rest@.len() as int),
            views(out@) == ranking(all.skip(rest@.len() as int)),
        decreases rest@.len(),
    {
        let ghost n = rest@.len() as int;
        let ghost before = rest@;
        let x: T = rest.pop().unwrap();
        let mut p: usize = 0;
        while p < out.len() && out[p].outranks(&x)
            invariant
                p <= out@.len(),
                forall|j: int|
                    0 <= j < p ==> key_gt((#[trigger] views(out@)[j]).rank_key(), x@.rank_key()),
            decreases out@.len() - p,
        {
            p = p + 1;
        }
        proof {
            let done = views(out@);
            assert(views(before)[n - 1] == x@);
            assert(p < done.len() ==> done[p as int] == out@[p as int]@);
            lemma_lead_position(done, x@.rank_key(), p as int);
            let tail = all.skip(n - 1);
            assert(tail[0] == x@) by {
                assert(all.take(n)[n - 1] == all[n - 1]);
            }
            assert(tail.drop_first() =~= all.skip(n));
            assert(ranking(tail) == place(done, x@));
            assert(views(out@.insert(p as int, x)) =~= done.insert(p as int, x@));
            assert(views(rest@) =~= all.take(n - 1)) by {
                assert forall|j: int| 0 <= j < n - 1 implies views(rest@)[j] == all.take(
                    n - 1,
                )[j] by {
                    assert(all.take(n)[j] == all[j]);
                }
            }
        }
        out.insert(p, x);
    }
    proof {
        assert(all.skip(0) =~= all);
    }
    out
}

} // verus!
