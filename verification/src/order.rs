//! Ordering: one lexicographic order on integer sequences, and the stable
//! sort that every listing of the library goes through.

use crate::text::chars_of;
use vstd::prelude::*;

verus! {

/// `left` comes before `right` in dictionary order.
pub open spec fn lex_less(left: Seq<int>, right: Seq<int>) -> bool
    decreases left.len(),
{
    if right.len() == 0 {
        false
    } else if left.len() == 0 {
        true
    } else if left[0] != right[0] {
        left[0] < right[0]
    } else {
        lex_less(left.skip(1), right.skip(1))
    }
}

pub proof fn lemma_lex_asymmetric(left: Seq<int>, right: Seq<int>)
    ensures
        lex_less(left, right) ==> !lex_less(right, left),
        !lex_less(left, left),
    decreases left.len(),
{
    if left.len() > 0 {
        lemma_lex_asymmetric(left.skip(1), right.skip(1));
    }
}

pub proof fn lemma_lex_transitive(a: Seq<int>, b: Seq<int>, c: Seq<int>)
    requires
        lex_less(a, b),
        lex_less(b, c),
    ensures
        lex_less(a, c),
    decreases a.len(),
{
    if a.len() > 0 && b.len() > 0 && a[0] == b[0] && b[0] == c[0] {
        lemma_lex_transitive(a.skip(1), b.skip(1), c.skip(1));
    }
}

pub proof fn lemma_lex_total(left: Seq<int>, right: Seq<int>)
    ensures
        lex_less(left, right) || lex_less(right, left) || left == right,
    decreases left.len(),
{
    if left.len() > 0 && right.len() > 0 && left[0] == right[0] {
        lemma_lex_total(left.skip(1), right.skip(1));
        if left.skip(1) == right.skip(1) {
            assert forall|i: int| 0 <= i < left.len() implies left[i] == right[i] by {
                if i > 0 {
                    assert(left.skip(1)[i - 1] == right.skip(1)[i - 1]);
                }
            }
            assert(left.len() == left.skip(1).len() + 1);
            assert(right.len() == right.skip(1).len() + 1);
            assert(left =~= right);
        }
    } else if left.len() == 0 && right.len() == 0 {
        assert(left =~= right);
    }
}

pub proof fn lemma_lex_before_or_equal(a: Seq<int>, b: Seq<int>, c: Seq<int>)
    requires
        !lex_less(b, a),
        !lex_less(c, b),
    ensures
        !lex_less(c, a),
{
    lemma_lex_total(a, b);
    lemma_lex_total(b, c);
    lemma_lex_asymmetric(a, c);
    if lex_less(a, b) && lex_less(b, c) {
        lemma_lex_transitive(a, b, c);
    }
}

/// The code points of `text`: strings are ordered by them.
pub open spec fn text_rank(text: Seq<char>) -> Seq<int> {
    Seq::new(text.len(), |i: int| text[i] as int)
}

pub proof fn lemma_text_rank_injective(left: Seq<char>, right: Seq<char>)
    requires
        text_rank(left) == text_rank(right),
    ensures
        left == right,
{
    assert(text_rank(left).len() == left.len());
    assert(text_rank(right).len() == right.len());
    assert forall|i: int| 0 <= i < left.len() implies left[i] == right[i] by {
        assert(text_rank(left)[i] == text_rank(right)[i]);
        assert(text_rank(left)[i] == left[i] as int);
        assert(text_rank(right)[i] == right[i] as int);
    }
    assert(left =~= right);
}

/// Whether the string `left` comes before the string `right`.
pub fn text_before(left: &str, right: &str) -> (r: bool)
    ensures
        r == lex_less(text_rank(left@), text_rank(right@)),
{
    let a = chars_of(left);
    let b = chars_of(right);
    let ghost ra = text_rank(left@);
    let ghost rb = text_rank(right@);
    let mut i: usize = 0;
    assert(ra.skip(0) =~= ra);
    assert(rb.skip(0) =~= rb);
    while i < a.len() && i < b.len()
        invariant
            a@ == left@,
            b@ == right@,
            ra == text_rank(left@),
            rb == text_rank(right@),
            i <= a@.len(),
            i <= b@.len(),
            lex_less(ra, rb) == lex_less(ra.skip(i as int), rb.skip(i as int)),
        decreases a@.len() - i,
    {
        if a[i] != b[i] {
            return a[i] < b[i];
        }
        assert(ra.skip(i as int).skip(1) =~= ra.skip(i + 1));
        assert(rb.skip(i as int).skip(1) =~= rb.skip(i + 1));
        i += 1;
    }
    i < b.len()
}

/// A value with a place in an order.
pub trait Ranked: Sized {
    spec fn rank(&self) -> Seq<int>;

    fn precedes(&self, other: &Self) -> (r: bool)
        ensures
            r == lex_less(self.rank(), other.rank()),
    ;
}

impl Ranked for String {
    open spec fn rank(&self) -> Seq<int> {
        text_rank(self@)
    }

    fn precedes(&self, other: &Self) -> (r: bool) {
        text_before(self.as_str(), other.as_str())
    }
}

impl Ranked for u32 {
    open spec fn rank(&self) -> Seq<int> {
        seq![*self as int]
    }

    fn precedes(&self, other: &Self) -> (r: bool) {
        proof {
            reveal_with_fuel(lex_less, 2);
        }
        *self < *other
    }
}

impl Ranked for u128 {
    open spec fn rank(&self) -> Seq<int> {
        seq![*self as int]
    }

    fn precedes(&self, other: &Self) -> (r: bool) {
        proof {
            reveal_with_fuel(lex_less, 2);
        }
        *self < *other
    }
}

/// No item comes before an earlier one.
pub open spec fn ordered<T: Ranked>(list: Seq<T>) -> bool {
    forall|i: int, j: int| 0 <= i < j < list.len() ==> !lex_less(list[j].rank(), list[i].rank())
}

/// Each item comes after every earlier one.
pub open spec fn strictly_ordered<T: Ranked>(list: Seq<T>) -> bool {
    forall|i: int, j: int| 0 <= i < j < list.len() ==> lex_less(list[i].rank(), list[j].rank())
}

pub open spec fn at_rank<T: Ranked>(rank: Seq<int>) -> spec_fn(T) -> bool {
    |item: T| item.rank() == rank
}

/// The items that stand at one place in the order, in the order of `list`.
pub open spec fn with_rank<T: Ranked>(list: Seq<T>, rank: Seq<int>) -> Seq<T> {
    list.filter(at_rank::<T>(rank))
}

/// `sorted` is `list` in order, items of equal rank kept in sequence.
pub open spec fn is_stable_sort<T: Ranked>(list: Seq<T>, sorted: Seq<T>) -> bool {
    &&& ordered(sorted)
    &&& sorted.to_multiset() == list.to_multiset()
    &&& forall|rank: Seq<int>| #[trigger] with_rank(sorted, rank) == with_rank(list, rank)
}

proof fn lemma_insert_keeps_runs<T: Ranked>(sorted: Seq<T>, at: int, item: T, rank: Seq<int>)
    requires
        0 <= at <= sorted.len(),
        forall|j: int| at <= j < sorted.len() ==> lex_less(item.rank(), #[trigger] sorted[j].rank()),
    ensures
        with_rank(sorted.insert(at, item), rank) == with_rank(sorted.push(item), rank),
{
    let pred = at_rank::<T>(rank);
    let low = sorted.take(at);
    let high = sorted.skip(at);
    let one = seq![item];
    assert(sorted.insert(at, item) =~= (low + one) + high);
    assert(sorted.push(item) =~= (low + high) + one);
    Seq::filter_distributes_over_add(low + one, high, pred);
    Seq::filter_distributes_over_add(low, one, pred);
    Seq::filter_distributes_over_add(low + high, one, pred);
    Seq::filter_distributes_over_add(low, high, pred);
    if item.rank() == rank {
        assert forall|j: int| 0 <= j < high.len() implies !pred(high[j]) by {
            lemma_lex_asymmetric(item.rank(), sorted[at + j].rank());
        }
        high.lemma_all_neg_filter_empty(pred);
        assert(high.filter(pred) =~= Seq::empty());
    } else {
        one.lemma_all_neg_filter_empty(pred);
        assert(one.filter(pred) =~= Seq::empty());
    }
    assert((low.filter(pred) + one.filter(pred)) + high.filter(pred) =~= (low.filter(pred)
        + high.filter(pred)) + one.filter(pred));
}

proof fn lemma_insert_multiset<T>(list: Seq<T>, at: int, item: T)
    requires
        0 <= at <= list.len(),
    ensures
        list.insert(at, item).to_multiset() == list.push(item).to_multiset(),
{
    broadcast use vstd::seq_lib::group_to_multiset_ensures;

    assert(list.insert(at, item).remove(at) =~= list);
    assert(list.insert(at, item)[at] == item);
    let whole = list.insert(at, item).to_multiset();
    assert(whole.remove(item) =~= list.to_multiset());
    assert(list.insert(at, item).contains(item));
    assert(whole.count(item) > 0);
    assert(whole =~= list.to_multiset().insert(item));
}

/// Sorts by rank; items of equal rank keep their sequence.
pub fn stable_sort<T: Ranked>(list: Vec<T>) -> (r: Vec<T>)
    ensures
        is_stable_sort(list@, r@),
        r@.len() == list@.len(),
{
    broadcast use vstd::seq_lib::group_to_multiset_ensures;

    let mut rest = list;
    let ghost all = list@;
    let mut out: Vec<T> = Vec::new();
    assert(all.skip(0) =~= all);
    assert(all.take(0) =~= Seq::<T>::empty());
    while rest.len() > 0
        invariant
            out@.len() + rest@.len() == all.len(),
            rest@ == all.skip(out@.len() as int),
            is_stable_sort(all.take(out@.len() as int), out@),
        decreases rest@.len(),
    {
        let ghost n = out@.len() as int;
        let item = rest.remove(0);
        assert(item == all[n]);
        assert(rest@ =~= all.skip(n + 1));
        let mut at: usize = out.len();
        while at > 0 && item.precedes(&out[at - 1])
            invariant
                at <= out@.len(),
                forall|j: int|
                    at <= j < out@.len() ==> lex_less(item.rank(), #[trigger] out@[j].rank()),
            decreases at,
        {
            at -= 1;
        }
        let ghost before = out@;
        proof {
            assert(all.take(n + 1) =~= all.take(n).push(item));
            lemma_insert_multiset(before, at as int, item);
            assert forall|rank: Seq<int>| #[trigger]
                with_rank(before.insert(at as int, item), rank) == with_rank(
                    all.take(n).push(item),
                    rank,
                ) by {
                lemma_insert_keeps_runs(before, at as int, item, rank);
                let pred = at_rank::<T>(rank);
                Seq::filter_distributes_over_add(before, seq![item], pred);
                Seq::filter_distributes_over_add(all.take(n), seq![item], pred);
                assert(before.push(item) =~= before + seq![item]);
                assert(all.take(n).push(item) =~= all.take(n) + seq![item]);
                assert(with_rank(before, rank) == with_rank(all.take(n), rank));
            }
            let after = before.insert(at as int, item);
            assert forall|i: int, j: int| 0 <= i < j < after.len() implies !lex_less(
                after[j].rank(),
                after[i].rank(),
            ) by {
                if i < at && j == at {
                    if i < at - 1 {
                        lemma_lex_before_or_equal(
                            before[i].rank(),
                            before[at - 1].rank(),
                            item.rank(),
                        );
                    }
                } else if i == at && j > at {
                    lemma_lex_asymmetric(item.rank(), before[j - 1].rank());
                }
            }
        }
        out.insert(at, item);
        proof {
            before.to_multiset_ensures();
            all.take(n).to_multiset_ensures();
            assert(out@.to_multiset() == before.push(item).to_multiset());
            assert(before.push(item).to_multiset() == before.to_multiset().insert(item));
            assert(all.take(n).push(item).to_multiset() == all.take(n).to_multiset().insert(item));
            assert(ordered(out@));
            assert(all.take(out@.len() as int) == all.take(n).push(item));
        }
    }
    assert(all.take(all.len() as int) =~= all);
    out
}

/// `unique` holds, in strict order, the first item of each rank in `list`.
pub open spec fn is_sorted_unique<T: Ranked>(list: Seq<T>, unique: Seq<T>) -> bool {
    &&& strictly_ordered(unique)
    &&& forall|i: int|
        0 <= i < unique.len() ==> with_rank(list, (#[trigger] unique[i]).rank()).len() > 0
            && unique[i] == with_rank(list, unique[i].rank())[0]
    &&& forall|j: int|
        0 <= j < list.len() ==> exists|i: int|
            0 <= i < unique.len() && (#[trigger] unique[i]).rank() == (#[trigger] list[j]).rank()
}

proof fn lemma_first_of_rank<T: Ranked>(sorted: Seq<T>, at: int)
    requires
        ordered(sorted),
        0 <= at < sorted.len(),
        at > 0 ==> sorted[at - 1].rank() != sorted[at].rank(),
    ensures
        with_rank(sorted, sorted[at].rank()).len() > 0,
        with_rank(sorted, sorted[at].rank())[0] == sorted[at],
{
    let rank = sorted[at].rank();
    let pred = at_rank::<T>(rank);
    let low = sorted.take(at);
    let one = seq![sorted[at]];
    let high = sorted.skip(at + 1);
    assert(sorted =~= (low + one) + high);
    Seq::filter_distributes_over_add(low + one, high, pred);
    Seq::filter_distributes_over_add(low, one, pred);
    assert forall|j: int| 0 <= j < low.len() implies !pred(low[j]) by {
        if j < at - 1 && sorted[j].rank() == rank {
            assert(!lex_less(sorted[at - 1].rank(), rank));
            assert(!lex_less(rank, sorted[at - 1].rank()));
            lemma_lex_total(rank, sorted[at - 1].rank());
        }
    }
    low.lemma_all_neg_filter_empty(pred);
    assert(one.filter(pred) =~= one) by {
        reveal_with_fuel(Seq::filter, 2);
        assert(one.drop_last() =~= Seq::empty());
        assert(one.last() == sorted[at]);
    }
    assert(low.filter(pred) =~= Seq::empty());
    assert(with_rank(sorted, rank) =~= one + high.filter(pred));
}

/// Sorts by rank and keeps only the first item of each rank.
pub fn sorted_unique<T: Ranked>(list: Vec<T>) -> (r: Vec<T>)
    ensures
        is_sorted_unique(list@, r@),
{
    let ghost all = list@;
    let mut rest = stable_sort(list);
    let ghost sorted = rest@;
    let mut out: Vec<T> = Vec::new();
    let ghost mut taken: int = 0;
    assert(sorted.skip(0) =~= sorted);
    while rest.len() > 0
        invariant
            0 <= taken <= sorted.len(),
            rest@ == sorted.skip(taken),
            ordered(sorted),
            strictly_ordered(out@),
            forall|i: int|
                0 <= i < out@.len() ==> with_rank(sorted, (#[trigger] out@[i]).rank()).len() > 0
                    && out@[i] == with_rank(sorted, out@[i].rank())[0],
            forall|j: int|
                0 <= j < taken ==> exists|i: int|
                    0 <= i < out@.len() && (#[trigger] out@[i]).rank() == (
                    #[trigger] sorted[j]).rank(),
            taken > 0 ==> out@.len() > 0 && out@.last().rank() == sorted[taken - 1].rank(),
            taken == 0 ==> out@.len() == 0,
        decreases rest@.len(),
    {
        let item = rest.remove(0);
        assert(item == sorted[taken]);
        assert(rest@ =~= sorted.skip(taken + 1));
        let fresh = out.len() == 0 || out[out.len() - 1].precedes(&item);
        let ghost before = out@;
        if fresh {
            proof {
                if taken > 0 {
                    lemma_lex_asymmetric(sorted[taken - 1].rank(), item.rank());
                }
                lemma_first_of_rank(sorted, taken);
                assert forall|i: int| 0 <= i < before.len() implies lex_less(
                    before[i].rank(),
                    item.rank(),
                ) by {
                    if i < before.len() - 1 {
                        lemma_lex_transitive(before[i].rank(), before.last().rank(), item.rank());
                    }
                }
            }
            out.push(item);
            assert(out@[out@.len() - 1].rank() == item.rank());
        } else {
            proof {
                lemma_lex_total(before.last().rank(), item.rank());
                assert(!lex_less(item.rank(), sorted[taken - 1].rank()));
                assert(before[before.len() - 1].rank() == item.rank());
            }
        }
        proof {
            assert forall|j: int| 0 <= j < taken + 1 implies exists|i: int|
                0 <= i < out@.len() && (#[trigger] out@[i]).rank() == (
                #[trigger] sorted[j]).rank() by {
                if j < taken {
                    let i = choose|i: int|
                        0 <= i < before.len() && (#[trigger] before[i]).rank() == sorted[j].rank();
                    assert(out@[i] == before[i]);
                } else {
                    assert(out@[out@.len() - 1].rank() == sorted[j].rank());
                }
            }
            taken = taken + 1;
        }
    }
    proof {
        broadcast use vstd::seq_lib::group_to_multiset_ensures;

        assert forall|j: int| 0 <= j < all.len() implies exists|i: int|
            0 <= i < out@.len() && (#[trigger] out@[i]).rank() == (#[trigger] all[j]).rank() by {
            assert(all.contains(all[j]));
            assert(sorted.to_multiset().count(all[j]) > 0);
            assert(sorted.contains(all[j]));
            let k = choose|k: int| 0 <= k < sorted.len() && sorted[k] == all[j];
            assert(sorted[k].rank() == all[j].rank());
        }
    }
    out
}

/// Sorting keeps every item: what the sorted list holds is what `list` held.
pub proof fn lemma_sort_keeps_items<T: Ranked>(list: Seq<T>, sorted: Seq<T>, item: T)
    requires
        is_stable_sort(list, sorted),
    ensures
        sorted.contains(item) <==> list.contains(item),
        sorted.len() == list.len(),
{
    broadcast use vstd::seq_lib::group_to_multiset_ensures;

    assert(sorted.contains(item) <==> sorted.to_multiset().count(item) > 0);
    assert(list.contains(item) <==> list.to_multiset().count(item) > 0);
    assert(sorted.to_multiset().len() == list.to_multiset().len());
}

/// The first item of a rank is the one with no earlier item of that rank.
pub proof fn lemma_first_with_rank<T: Ranked>(list: Seq<T>, rank: Seq<int>)
    requires
        with_rank(list, rank).len() > 0,
    ensures
        exists|j: int|
            0 <= j < list.len() && #[trigger] list[j] == with_rank(list, rank)[0] && list[j].rank()
                == rank && forall|k: int| 0 <= k < j ==> (#[trigger] list[k]).rank() != rank,
    decreases list.len(),
{
    reveal(Seq::filter);
    let pred = at_rank::<T>(rank);
    let front = list.drop_last();
    if with_rank(front, rank).len() > 0 {
        lemma_first_with_rank(front, rank);
        let j = choose|j: int|
            0 <= j < front.len() && #[trigger] front[j] == with_rank(front, rank)[0]
                && front[j].rank() == rank && forall|k: int|
                0 <= k < j ==> (#[trigger] front[k]).rank() != rank;
        assert(list[j] == with_rank(list, rank)[0]);
        assert forall|k: int| 0 <= k < j implies (#[trigger] list[k]).rank() != rank by {
            assert(front[k].rank() != rank);
        }
    } else {
        let j = list.len() - 1;
        assert(list[j] == with_rank(list, rank)[0]);
        assert forall|k: int| 0 <= k < j implies (#[trigger] list[k]).rank() != rank by {
            if list[k].rank() == rank {
                front.lemma_filter_contains(pred, k);
            }
        }
    }
}

impl Ranked for (String, String) {
    /// Pairs are ordered by their first text.
    open spec fn rank(&self) -> Seq<int> {
        text_rank(self.0@)
    }

    fn precedes(&self, other: &Self) -> (r: bool) {
        text_before(self.0.as_str(), other.0.as_str())
    }
}

/// A list in strict order is determined by its items.
pub proof fn lemma_strict_order_unique<T: Ranked>(a: Seq<T>, b: Seq<T>)
    requires
        strictly_ordered(a),
        strictly_ordered(b),
        forall|item: T| #[trigger] a.contains(item) <==> b.contains(item),
    ensures
        a == b,
    decreases a.len(),
{
    if a.len() == 0 {
        if b.len() > 0 {
            assert(b.contains(b[0]));
            assert(a.contains(b[0]));
        }
        assert(a =~= b);
    } else {
        assert(a.contains(a.last()));
        assert(b.contains(a.last()));
        let i = choose|i: int| 0 <= i < b.len() && b[i] == a.last();
        assert(b.contains(b.last()));
        assert(a.contains(b.last()));
        let j = choose|j: int| 0 <= j < a.len() && a[j] == b.last();
        if i < b.len() - 1 {
            assert(lex_less(b[i].rank(), b[b.len() - 1].rank()));
            if j < a.len() - 1 {
                assert(lex_less(a[j].rank(), a[a.len() - 1].rank()));
            }
            lemma_lex_asymmetric(b[i].rank(), b.last().rank());
        }
        assert(a.last() == b.last());
        let front_a = a.drop_last();
        let front_b = b.drop_last();
        assert forall|item: T| #[trigger] front_a.contains(item) <==> front_b.contains(item) by {
            lemma_front_of_strict(a, item);
            lemma_front_of_strict(b, item);
            assert(a.contains(item) <==> b.contains(item));
        }
        lemma_strict_order_unique(front_a, front_b);
        assert(a =~= front_a.push(a.last()));
        assert(b =~= front_b.push(b.last()));
    }
}

proof fn lemma_front_of_strict<T: Ranked>(list: Seq<T>, item: T)
    requires
        strictly_ordered(list),
        list.len() > 0,
    ensures
        list.drop_last().contains(item) <==> list.contains(item) && item != list.last(),
{
    let front = list.drop_last();
    if front.contains(item) {
        let i = choose|i: int| 0 <= i < front.len() && front[i] == item;
        assert(list[i] == item);
        assert(lex_less(list[i].rank(), list[list.len() - 1].rank()));
        lemma_lex_asymmetric(item.rank(), item.rank());
    }
    if list.contains(item) && item != list.last() {
        let i = choose|i: int| 0 <= i < list.len() && list[i] == item;
        assert(front[i] == item);
    }
}

/// Where no two items share a rank, a sort is strict.
pub proof fn lemma_sort_of_distinct<T: Ranked>(list: Seq<T>, sorted: Seq<T>)
    requires
        is_stable_sort(list, sorted),
        forall|i: int, j: int|
            0 <= i < j < list.len() ==> (#[trigger] list[i]).rank() != (#[trigger] list[j]).rank(),
    ensures
        strictly_ordered(sorted),
{
    assert forall|i: int, j: int| 0 <= i < j < sorted.len() implies lex_less(
        sorted[i].rank(),
        sorted[j].rank(),
    ) by {
        let rank = sorted[i].rank();
        lemma_lex_total(sorted[i].rank(), sorted[j].rank());
        if sorted[j].rank() == rank {
            lemma_two_of_a_rank(sorted, rank, i, j);
            assert(with_rank(sorted, rank) == with_rank(list, rank));
            lemma_at_most_one(list, rank);
        }
    }
}

proof fn lemma_two_of_a_rank<T: Ranked>(list: Seq<T>, rank: Seq<int>, i: int, j: int)
    requires
        0 <= i < j < list.len(),
        list[i].rank() == rank,
        list[j].rank() == rank,
    ensures
        with_rank(list, rank).len() >= 2,
    decreases list.len(),
{
    reveal(Seq::filter);
    let pred = at_rank::<T>(rank);
    let front = list.drop_last();
    if j < list.len() - 1 {
        lemma_two_of_a_rank(front, rank, i, j);
    } else {
        assert(front[i].rank() == rank);
        front.lemma_filter_contains(pred, i);
    }
}

proof fn lemma_at_most_one<T: Ranked>(list: Seq<T>, rank: Seq<int>)
    requires
        forall|i: int, j: int|
            0 <= i < j < list.len() ==> (#[trigger] list[i]).rank() != (#[trigger] list[j]).rank(),
    ensures
        with_rank(list, rank).len() <= 1,
    decreases list.len(),
{
    reveal(Seq::filter);
    let pred = at_rank::<T>(rank);
    if list.len() > 0 {
        let front = list.drop_last();
        assert forall|i: int, j: int| 0 <= i < j < front.len() implies (#[trigger] front[i]).rank()
            != (#[trigger] front[j]).rank() by {
            assert(list[i].rank() != list[j].rank());
        }
        lemma_at_most_one(front, rank);
        if list.last().rank() == rank && with_rank(front, rank).len() > 0 {
            lemma_first_with_rank(front, rank);
            let k = choose|k: int|
                0 <= k < front.len() && #[trigger] front[k] == with_rank(front, rank)[0]
                    && front[k].rank() == rank && forall|m: int|
                    0 <= m < k ==> (#[trigger] front[m]).rank() != rank;
            assert(list[k].rank() != list[list.len() - 1].rank());
        }
    }
}

} // verus!
