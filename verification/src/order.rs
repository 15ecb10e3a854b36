//! Stable sorting: what it is to put a sequence in order, and the sort that
//! does it.

use vstd::prelude::*;

verus! {

/// Puts `x` behind every item of the ordered sequence that it does not precede.
pub open spec fn placed<T>(s: Seq<T>, x: T, precedes: spec_fn(T, T) -> bool) -> Seq<T>
    decreases s.len(),
{
    if s.len() > 0 && precedes(x, s.last()) {
        placed(s.drop_last(), x, precedes).push(s.last())
    } else {
        s.push(x)
    }
}

/// The items in order, equals in the order they came.
pub open spec fn ordered<T>(s: Seq<T>, precedes: spec_fn(T, T) -> bool) -> Seq<T>
    decreases s.len(),
{
    if s.len() == 0 {
        s
    } else {
        placed(ordered(s.drop_last(), precedes), s.last(), precedes)
    }
}

/// The items that rank with `x`: neither precedes the other.
pub open spec fn ranking_with<T>(s: Seq<T>, x: T, precedes: spec_fn(T, T) -> bool) -> Seq<T>
    decreases s.len(),
{
    if s.len() == 0 {
        s
    } else {
        let before = ranking_with(s.drop_last(), x, precedes);
        if precedes(x, s.last()) || precedes(s.last(), x) {
            before
        } else {
            before.push(s.last())
        }
    }
}

/// A strict order in which ranking together is an equivalence.
pub open spec fn ranks<T>(precedes: spec_fn(T, T) -> bool) -> bool {
    &&& forall|a: T, b: T| precedes(a, b) ==> !(#[trigger] precedes(b, a))
    &&& forall|a: T, b: T, c: T|
        !(#[trigger] precedes(a, b)) && !(#[trigger] precedes(b, c)) ==> !precedes(a, c)
}

/// No item precedes one that stands before it.
pub open spec fn in_order<T>(s: Seq<T>, precedes: spec_fn(T, T) -> bool) -> bool {
    forall|i: int, j: int| 0 <= i < j < s.len() ==> !precedes(#[trigger] s[j], #[trigger] s[i])
}

// ---------------------------------------------------------------------------
// Laws
// ---------------------------------------------------------------------------

proof fn lemma_placed_holds<T>(s: Seq<T>, x: T, precedes: spec_fn(T, T) -> bool)
    ensures
        placed(s, x, precedes).len() == s.len() + 1,
        placed(s, x, precedes).to_multiset() == s.to_multiset().insert(x),
    decreases s.len(),
{
    broadcast use vstd::seq_lib::group_to_multiset_ensures;

    if s.len() > 0 && precedes(x, s.last()) {
        let rest = s.drop_last();
        lemma_placed_holds(rest, x, precedes);
        assert(s =~= rest.push(s.last()));
        assert(rest.to_multiset().insert(x).insert(s.last()) =~= rest.to_multiset().insert(
            s.last(),
        ).insert(x));
    }
}

/// Ordering loses nothing and adds nothing.
pub proof fn ordering_rearranges<T>(s: Seq<T>, precedes: spec_fn(T, T) -> bool)
    ensures
        ordered(s, precedes).len() == s.len(),
        ordered(s, precedes).to_multiset() == s.to_multiset(),
    decreases s.len(),
{
    broadcast use vstd::seq_lib::group_to_multiset_ensures;

    if s.len() > 0 {
        ordering_rearranges(s.drop_last(), precedes);
        lemma_placed_holds(ordered(s.drop_last(), precedes), s.last(), precedes);
        assert(s =~= s.drop_last().push(s.last()));
    }
}

proof fn lemma_placed_bound<T>(s: Seq<T>, x: T, y: T, precedes: spec_fn(T, T) -> bool)
    requires
        forall|i: int| 0 <= i < s.len() ==> !precedes(y, #[trigger] s[i]),
        !precedes(y, x),
    ensures
        forall|i: int|
            0 <= i < placed(s, x, precedes).len() ==> !precedes(
                y,
                #[trigger] placed(s, x, precedes)[i],
            ),
    decreases s.len(),
{
    let r = placed(s, x, precedes);
    if s.len() > 0 && precedes(x, s.last()) {
        let rest = s.drop_last();
        assert(forall|i: int| 0 <= i < rest.len() ==> #[trigger] rest[i] == s[i]);
        lemma_placed_bound(rest, x, y, precedes);
        assert(!precedes(y, s[s.len() - 1]));
        assert forall|i: int| 0 <= i < r.len() implies !precedes(y, #[trigger] r[i]) by {
            if i < r.len() - 1 {
                assert(r[i] == placed(rest, x, precedes)[i]);
            }
        }
    } else {
        assert forall|i: int| 0 <= i < r.len() implies !precedes(y, #[trigger] r[i]) by {
            if i < s.len() {
                assert(r[i] == s[i]);
            }
        }
    }
}

proof fn lemma_placed_keeps_order<T>(s: Seq<T>, x: T, precedes: spec_fn(T, T) -> bool)
    requires
        ranks(precedes),
        in_order(s, precedes),
    ensures
        in_order(placed(s, x, precedes), precedes),
    decreases s.len(),
{
    let r = placed(s, x, precedes);
    if s.len() > 0 && precedes(x, s.last()) {
        let rest = s.drop_last();
        let last = s.last();
        let before = placed(rest, x, precedes);
        assert(forall|i: int| 0 <= i < rest.len() ==> #[trigger] rest[i] == s[i]);
        lemma_placed_keeps_order(rest, x, precedes);
        assert(last == s[s.len() - 1]);
        lemma_placed_bound(rest, x, last, precedes);
        assert forall|i: int, j: int| 0 <= i < j < r.len() implies !precedes(
            #[trigger] r[j],
            #[trigger] r[i],
        ) by {
            if j < before.len() {
                assert(r[j] == before[j] && r[i] == before[i]);
            } else {
                assert(r[j] == last && r[i] == before[i]);
            }
        }
    } else {
        assert forall|i: int, j: int| 0 <= i < j < r.len() implies !precedes(
            #[trigger] r[j],
            #[trigger] r[i],
        ) by {
            if j == s.len() {
                assert(r[j] == x && r[i] == s[i]);
                assert(!precedes(x, s[s.len() - 1]));
                if i < s.len() - 1 {
                    assert(!precedes(s[s.len() - 1], s[i]));
                }
            } else {
                assert(r[j] == s[j] && r[i] == s[i]);
            }
        }
    }
}

/// What has been ordered is in order.
pub proof fn ordering_orders<T>(s: Seq<T>, precedes: spec_fn(T, T) -> bool)
    requires
        ranks(precedes),
    ensures
        in_order(ordered(s, precedes), precedes),
    decreases s.len(),
{
    if s.len() > 0 {
        ordering_orders(s.drop_last(), precedes);
        lemma_placed_keeps_order(ordered(s.drop_last(), precedes), s.last(), precedes);
    }
}

proof fn lemma_placed_is_stable<T>(s: Seq<T>, x: T, y: T, precedes: spec_fn(T, T) -> bool)
    requires
        ranks(precedes),
    ensures
        ranking_with(placed(s, x, precedes), y, precedes) == if precedes(y, x) || precedes(x, y) {
            ranking_with(s, y, precedes)
        } else {
            ranking_with(s, y, precedes).push(x)
        },
    decreases s.len(),
{
    if s.len() > 0 && precedes(x, s.last()) {
        let rest = s.drop_last();
        let last = s.last();
        lemma_placed_is_stable(rest, x, y, precedes);
        let r = placed(rest, x, precedes).push(last);
        assert(r.drop_last() =~= placed(rest, x, precedes));
        // `x` precedes the last item, so the two do not both rank with `y`.
        assert(precedes(y, x) || precedes(x, y) || precedes(y, last) || precedes(last, y));
    } else {
        assert(s.push(x).drop_last() =~= s);
    }
}

/// Ordering is stable: items that rank together stay in the order they came.
pub proof fn ordering_is_stable<T>(s: Seq<T>, y: T, precedes: spec_fn(T, T) -> bool)
    requires
        ranks(precedes),
    ensures
        ranking_with(ordered(s, precedes), y, precedes) == ranking_with(s, y, precedes),
    decreases s.len(),
{
    if s.len() > 0 {
        ordering_is_stable(s.drop_last(), y, precedes);
        lemma_placed_is_stable(ordered(s.drop_last(), precedes), s.last(), y, precedes);
    }
}

/// Of any two items of the sequence one precedes the other.
pub open spec fn decides<T>(s: Seq<T>, precedes: spec_fn(T, T) -> bool) -> bool {
    forall|i: int, j: int|
        0 <= i < s.len() && 0 <= j < s.len() && i != j ==> precedes(
            #[trigger] s[i],
            #[trigger] s[j],
        ) || precedes(s[j], s[i])
}

/// The same items stand in both sequences.
pub open spec fn same_items<T>(a: Seq<T>, b: Seq<T>) -> bool {
    forall|x: T| #![trigger a.contains(x)] #![trigger b.contains(x)] a.contains(x) <==> b.contains(x)
}

proof fn lemma_without_last<T>(s: Seq<T>, x: T)
    requires
        s.len() > 0,
        s.no_duplicates(),
    ensures
        s.drop_last().no_duplicates(),
        s.drop_last().contains(x) <==> s.contains(x) && x != s.last(),
{
    let rest = s.drop_last();
    assert forall|i: int, j: int| 0 <= i < rest.len() && 0 <= j < rest.len() && i
        != j implies rest[i] != rest[j] by {
        assert(rest[i] == s[i] && rest[j] == s[j]);
    }
    if rest.contains(x) {
        let k = choose|k: int| 0 <= k < rest.len() && rest[k] == x;
        assert(s[k] == x);
    }
    if s.contains(x) && x != s.last() {
        let k = choose|k: int| 0 <= k < s.len() && s[k] == x;
        assert(rest[k] == x);
    }
}

/// Items that an order decides stand in order in one way alone.
pub proof fn a_decided_order_is_one<T>(a: Seq<T>, b: Seq<T>, precedes: spec_fn(T, T) -> bool)
    requires
        in_order(a, precedes),
        in_order(b, precedes),
        decides(a, precedes),
        a.no_duplicates(),
        b.no_duplicates(),
        same_items(a, b),
    ensures
        a == b,
    decreases a.len(),
{
    if a.len() == 0 {
        if b.len() > 0 {
            assert(b.contains(b[0]));
            assert(a.contains(b[0]));
        }
        assert(a =~= b);
    } else {
        let x = a.last();
        assert(a[a.len() - 1] == x);
        assert(a.contains(x));
        assert(b.contains(x));
        let j = choose|j: int| 0 <= j < b.len() && b[j] == x;
        let y = b.last();
        assert(b[b.len() - 1] == y);
        assert(b.contains(y));
        assert(a.contains(y));
        let i = choose|i: int| 0 <= i < a.len() && a[i] == y;
        if x != y {
            assert(!precedes(a[a.len() - 1], a[i]));
            assert(!precedes(b[b.len() - 1], b[j]));
            assert(precedes(a[i], a[a.len() - 1]) || precedes(a[a.len() - 1], a[i]));
            assert(false);
        }
        let c = a.drop_last();
        let d = b.drop_last();
        assert forall|z: T| #![trigger c.contains(z)] #![trigger d.contains(z)] c.contains(z) <==> d.contains(
            z,
        ) by {
            lemma_without_last(a, z);
            lemma_without_last(b, z);
            assert(a.contains(z) <==> b.contains(z));
        }
        lemma_without_last(a, x);
        lemma_without_last(b, y);
        assert(forall|k: int| 0 <= k < c.len() ==> #[trigger] c[k] == a[k]);
        assert(forall|k: int| 0 <= k < d.len() ==> #[trigger] d[k] == b[k]);
        a_decided_order_is_one(c, d, precedes);
        assert(a =~= c.push(x));
        assert(b =~= d.push(y));
    }
}

proof fn lemma_ordered_keeps<T>(s: Seq<T>, precedes: spec_fn(T, T) -> bool)
    requires
        s.no_duplicates(),
    ensures
        ordered(s, precedes).no_duplicates(),
        same_items(ordered(s, precedes), s),
{
    broadcast use vstd::seq_lib::group_to_multiset_ensures;

    let r = ordered(s, precedes);
    ordering_rearranges(s, precedes);
    s.lemma_multiset_has_no_duplicates();
    r.lemma_multiset_has_no_duplicates_conv();
    assert forall|x: T| #![trigger r.contains(x)] #![trigger s.contains(x)] r.contains(x) <==> s.contains(
        x,
    ) by {
        assert(r.contains(x) <==> r.to_multiset().count(x) > 0);
        assert(s.contains(x) <==> s.to_multiset().count(x) > 0);
    }
}

/// Ordering forgets the order the items came in, where it decides between any two
/// of them.
pub proof fn ordering_forgets_what_was<T>(s: Seq<T>, t: Seq<T>, precedes: spec_fn(T, T) -> bool)
    requires
        ranks(precedes),
        decides(s, precedes),
        s.no_duplicates(),
        t.no_duplicates(),
        same_items(s, t),
    ensures
        ordered(s, precedes) == ordered(t, precedes),
{
    let a = ordered(s, precedes);
    let b = ordered(t, precedes);
    lemma_ordered_keeps(s, precedes);
    lemma_ordered_keeps(t, precedes);
    ordering_orders(s, precedes);
    ordering_orders(t, precedes);
    assert forall|i: int, j: int| 0 <= i < a.len() && 0 <= j < a.len() && i != j implies precedes(
        #[trigger] a[i],
        #[trigger] a[j],
    ) || precedes(a[j], a[i]) by {
        assert(a.contains(a[i]) && a.contains(a[j]));
        assert(s.contains(a[i]) && s.contains(a[j]));
        let k = choose|k: int| 0 <= k < s.len() && s[k] == a[i];
        let l = choose|l: int| 0 <= l < s.len() && s[l] == a[j];
        assert(a[i] != a[j]);
        assert(k != l);
        assert(precedes(s[k], s[l]) || precedes(s[l], s[k]));
    }
    assert forall|x: T| #![trigger a.contains(x)] #![trigger b.contains(x)] a.contains(x) <==> b.contains(
        x,
    ) by {
        assert(s.contains(x) <==> t.contains(x));
    }
    a_decided_order_is_one(a, b, precedes);
}

// ---------------------------------------------------------------------------
// The sort
// ---------------------------------------------------------------------------

/// The views of a sequence's items.
pub open spec fn views<T: DeepView>(s: Seq<T>) -> Seq<T::V> {
    Seq::new(s.len(), |i: int| s[i].deep_view())
}

/// An item that knows which of two comes first.
pub trait Ranked: DeepView + Sized {
    spec fn precedes(a: Self::V, b: Self::V) -> bool;

    fn comes_before(&self, other: &Self) -> (r: bool)
        ensures
            r == Self::precedes(self.deep_view(), other.deep_view()),
    ;
}

/// The order of a ranked type, as a function.
pub open spec fn rank_of<T: Ranked>() -> spec_fn(T::V, T::V) -> bool {
    |a: T::V, b: T::V| T::precedes(a, b)
}

/// Where an item stands once it has been placed.
proof fn lemma_placed_at<T>(s: Seq<T>, x: T, k: int, precedes: spec_fn(T, T) -> bool)
    requires
        0 <= k <= s.len(),
        forall|j: int| k <= j < s.len() ==> precedes(x, #[trigger] s[j]),
        k > 0 ==> !precedes(x, s[k - 1]),
    ensures
        placed(s, x, precedes) == s.insert(k, x),
    decreases s.len(),
{
    if k < s.len() {
        let rest = s.drop_last();
        assert(precedes(x, s[s.len() - 1]));
        assert(forall|j: int| 0 <= j < rest.len() ==> rest[j] == s[j]);
        lemma_placed_at(rest, x, k, precedes);
        assert(rest.insert(k, x).push(s.last()) =~= s.insert(k, x));
    } else {
        assert(s.insert(k, x) =~= s.push(x));
    }
}

/// Sorts in place, equals in the order they came.
pub fn sort<T: Ranked>(items: &mut Vec<T>)
    ensures
        views(final(items)@) == ordered(views(old(items)@), rank_of::<T>()),
{
    let ghost whole = items@;
    let ghost rank = rank_of::<T>();
    let count: usize = items.len();
    let mut i: usize = 0;
    while i < count
        invariant
            i <= count,
            items@.len() == count,
            whole.len() == count,
            rank == rank_of::<T>(),
            views(items@.take(i as int)) == ordered(views(whole.take(i as int)), rank),
            forall|j: int| i <= j < count ==> #[trigger] items@[j] == whole[j],
        decreases count - i,
    {
        let ghost done = items@.take(i as int);
        let mut k: usize = i;
        while k > 0 && items[i].comes_before(&items[k - 1])
            invariant
                k <= i < count,
                items@.len() == count,
                done == items@.take(i as int),
                rank == rank_of::<T>(),
                forall|j: int|
                    k <= j < i ==> rank(items@[i as int].deep_view(), #[trigger] views(done)[j]),
            decreases k,
        {
            k = k - 1;
            assert(views(done)[k as int] == items@[k as int].deep_view());
        }
        let ghost before = items@;
        let ghost x = items@[i as int];
        proof {
            if k > 0 {
                assert(views(done)[k - 1] == items@[k - 1].deep_view());
            }
            lemma_placed_at(views(done), x.deep_view(), k as int, rank);
            let seen = whole.take(i + 1);
            assert(views(seen).drop_last() =~= views(whole.take(i as int)));
            assert(views(seen).last() == x.deep_view());
        }
        let item = items.remove(i);
        items.insert(k, item);
        proof {
            assert(items@ =~= before.remove(i as int).insert(k as int, x));
            assert(items@.take(i + 1) =~= done.insert(k as int, x));
            assert(views(items@.take(i + 1)) =~= views(done).insert(k as int, x.deep_view()));
            assert forall|j: int| i + 1 <= j < count implies #[trigger] items@[j] == whole[j] by {
                assert(items@[j] == before[j]);
            }
        }
        i = i + 1;
    }
    assert(items@.take(count as int) =~= items@);
    assert(whole.take(count as int) =~= whole);
}

} // verus!
