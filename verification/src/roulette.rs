//! Weighted random selection: items are drawn with a probability proportional
//! to their integer weight.

use crate::random::uniform_below;
use vstd::prelude::*;

verus! {

/// A collection of `(weight, item)` pairs to draw from.
pub struct RouletteSubjects<T>(pub Vec<(u64, T)>);

impl<T> View for RouletteSubjects<T> {
    type V = Seq<(u64, T)>;

    open spec fn view(&self) -> Seq<(u64, T)> {
        self.0@
    }
}

/// The sum of all weights in `s`.
pub open spec fn total_weight<T>(s: Seq<(u64, T)>) -> nat
    decreases s.len(),
{
    if s.len() == 0 {
        0
    } else {
        total_weight(s.drop_last()) + s.last().0 as nat
    }
}

/// The sum of the weights of the first `k` pairs of `s`.
pub open spec fn weight_before<T>(s: Seq<(u64, T)>, k: int) -> nat {
    total_weight(s.take(k))
}

/// Whether `draw` falls into the interval that the pair at index `k` occupies
/// on the cumulative scale of `s`.
pub open spec fn lands_on<T>(s: Seq<(u64, T)>, draw: nat, k: int) -> bool {
    &&& 0 <= k < s.len()
    &&& weight_before(s, k) <= draw < weight_before(s, k + 1)
}

/// The item that `draw` selects from `s`: the one whose interval on the
/// cumulative scale holds `draw`, or nothing when `draw` lies beyond the total.
pub open spec fn pick<T>(s: Seq<(u64, T)>, draw: nat) -> Option<T>
    decreases s.len(),
{
    if s.len() == 0 {
        None
    } else if draw < total_weight(s.drop_last()) {
        pick(s.drop_last(), draw)
    } else if draw < total_weight(s) {
        Some(s.last().1)
    } else {
        None
    }
}

/// `sorted` with `e` put behind the last pair whose weight does not exceed its own.
pub open spec fn insert_by_weight<T>(sorted: Seq<(u64, T)>, e: (u64, T)) -> Seq<(u64, T)>
    decreases sorted.len(),
{
    if sorted.len() > 0 && sorted.last().0 > e.0 {
        insert_by_weight(sorted.drop_last(), e).push(sorted.last())
    } else {
        sorted.push(e)
    }
}

/// The pairs of `s` in ascending order of weight, pairs of equal weight in
/// the order in which they stand in `s`.
pub open spec fn stable_sort<T>(s: Seq<(u64, T)>) -> Seq<(u64, T)>
    decreases s.len(),
{
    if s.len() == 0 {
        s
    } else {
        insert_by_weight(stable_sort(s.drop_last()), s.last())
    }
}

/// The pairs of `s` that have the weight `w`, in the order in which they
/// stand in `s`.
pub open spec fn of_weight<T>(s: Seq<(u64, T)>, w: u64) -> Seq<(u64, T)> {
    s.filter(has_weight(w))
}

/// The test that a pair has the weight `w`.
pub open spec fn has_weight<T>(w: u64) -> spec_fn((u64, T)) -> bool {
    |e: (u64, T)| e.0 == w
}

/// Whether the weights of `s` never decrease from one pair to the next.
pub open spec fn ascending<T>(s: Seq<(u64, T)>) -> bool {
    forall|i: int, j: int| 0 <= i <= j < s.len() ==> s[i].0 <= s[j].0
}

/// A total weight never exceeds the largest weight times the number of pairs.
pub proof fn lemma_total_weight_bound<T>(s: Seq<(u64, T)>)
    ensures
        total_weight(s) <= s.len() * u64::MAX,
    decreases s.len(),
{
    if s.len() > 0 {
        lemma_total_weight_bound(s.drop_last());
        assert((s.len() - 1) * u64::MAX + u64::MAX == s.len() * u64::MAX) by (nonlinear_arith);
    }
}

/// A total weight is positive exactly where some pair has a positive weight.
pub proof fn lemma_total_positive<T>(s: Seq<(u64, T)>)
    ensures
        total_weight(s) > 0 <==> exists|k: int| 0 <= k < s.len() && (#[trigger] s[k]).0 > 0,
    decreases s.len(),
{
    if s.len() > 0 {
        let front = s.drop_last();
        lemma_total_positive(front);
        if total_weight(s) > 0 {
            if s.last().0 > 0 {
                assert(s[s.len() - 1].0 > 0);
            } else {
                let k = choose|k: int| 0 <= k < front.len() && (#[trigger] front[k]).0 > 0;
                assert(s[k].0 > 0);
            }
        }
        if exists|k: int| 0 <= k < s.len() && (#[trigger] s[k]).0 > 0 {
            let k = choose|k: int| 0 <= k < s.len() && (#[trigger] s[k]).0 > 0;
            if k < s.len() - 1 {
                assert(front[k].0 > 0);
            }
        }
    }
}

/// The cumulative scale only grows: a shorter prefix weighs no more than a longer one.
pub proof fn lemma_weight_before_monotonic<T>(s: Seq<(u64, T)>, i: int, j: int)
    requires
        0 <= i <= j <= s.len(),
    ensures
        weight_before(s, i) <= weight_before(s, j),
    decreases j - i,
{
    if i < j {
        lemma_weight_before_monotonic(s, i, j - 1);
        assert(s.take(j).drop_last() == s.take(j - 1));
    }
}

/// The interval of the pair at index `k` is as long as its weight.
pub proof fn lemma_interval_length<T>(s: Seq<(u64, T)>, k: int)
    requires
        0 <= k < s.len(),
    ensures
        weight_before(s, k + 1) == weight_before(s, k) + s[k].0,
{
    assert(s.take(k + 1).drop_last() == s.take(k));
}

/// A draw that lands on the interval of the pair at index `k` selects the item
/// of that pair.
pub proof fn lemma_pick_lands<T>(s: Seq<(u64, T)>, draw: nat, k: int)
    requires
        lands_on(s, draw, k),
    ensures
        pick(s, draw) == Some(s[k].1),
    decreases s.len(),
{
    let front = s.drop_last();
    assert(s.take(s.len() as int) == s);
    assert(s.take(s.len() - 1) == front);
    if k == s.len() - 1 {
    } else {
        lemma_weight_before_monotonic(s, k + 1, s.len() - 1);
        assert(front.take(k) == s.take(k));
        assert(front.take(k + 1) == s.take(k + 1));
        lemma_pick_lands(front, draw, k);
    }
}

/// Every draw below the total weight lands on exactly one pair, whose weight
/// is positive, and selects its item; every other draw selects nothing.
pub proof fn lemma_pick_selects<T>(s: Seq<(u64, T)>, draw: nat)
    ensures
        draw >= total_weight(s) ==> pick(s, draw).is_none(),
        draw < total_weight(s) ==> exists|k: int|
            #[trigger] lands_on(s, draw, k) && s[k].0 > 0 && pick(s, draw) == Some(s[k].1),
        forall|i: int, j: int| lands_on(s, draw, i) && lands_on(s, draw, j) ==> i == j,
    decreases s.len(),
{
    assert forall|i: int, j: int| lands_on(s, draw, i) && lands_on(s, draw, j) implies i == j by {
        if i < j {
            lemma_weight_before_monotonic(s, i + 1, j);
        }
        if j < i {
            lemma_weight_before_monotonic(s, j + 1, i);
        }
    }
    if s.len() > 0 {
        let front = s.drop_last();
        let last = s.len() - 1;
        assert(s.take(s.len() as int) == s);
        assert(s.take(last) == front);
        if draw < total_weight(front) {
            lemma_pick_selects(front, draw);
            let k = choose|k: int| #[trigger]
                lands_on(front, draw, k) && front[k].0 > 0 && pick(front, draw) == Some(front[k].1);
            assert(front.take(k) == s.take(k));
            assert(front.take(k + 1) == s.take(k + 1));
            assert(lands_on(s, draw, k));
        } else if draw < total_weight(s) {
            assert(lands_on(s, draw, last));
        }
    }
}

/// The draws that land on the pair at index `k`.
pub open spec fn draws_on<T>(s: Seq<(u64, T)>, k: int) -> Set<int> {
    Set::new(|draw: int| 0 <= draw && lands_on(s, draw as nat, k))
}

/// Each pair gets as many of the draws below the total as its weight says:
/// the draws that land on it are those of one interval, as long as the
/// weight, that ends at or before the total. So where every draw below the
/// total is as likely as any other, a pair is selected with a probability
/// of its weight over the total.
pub proof fn lemma_share_of_draws<T>(s: Seq<(u64, T)>, k: int)
    requires
        0 <= k < s.len(),
    ensures
        draws_on(s, k) == vstd::set_lib::set_int_range(
            weight_before(s, k) as int,
            weight_before(s, k + 1) as int,
        ),
        draws_on(s, k).finite(),
        draws_on(s, k).len() == s[k].0,
        weight_before(s, k + 1) <= total_weight(s),
{
    let low = weight_before(s, k) as int;
    let high = weight_before(s, k + 1) as int;
    lemma_interval_length(s, k);
    lemma_weight_before_monotonic(s, k + 1, s.len() as int);
    assert(s.take(s.len() as int) == s);
    assert(draws_on(s, k) =~= vstd::set_lib::set_int_range(low, high));
    vstd::set_lib::lemma_int_range(low, high);
}

/// Inserting a pair adds its weight to the total.
pub proof fn lemma_insert_total<T>(sorted: Seq<(u64, T)>, e: (u64, T))
    ensures
        total_weight(insert_by_weight(sorted, e)) == total_weight(sorted) + e.0,
        insert_by_weight(sorted, e).len() == sorted.len() + 1,
    decreases sorted.len(),
{
    if sorted.len() > 0 && sorted.last().0 > e.0 {
        lemma_insert_total(sorted.drop_last(), e);
        assert(insert_by_weight(sorted.drop_last(), e).push(sorted.last()).drop_last()
            == insert_by_weight(sorted.drop_last(), e));
    } else {
        assert(sorted.push(e).drop_last() == sorted);
    }
}

/// Sorting keeps the number of pairs and their total weight.
pub proof fn lemma_stable_sort_total<T>(s: Seq<(u64, T)>)
    ensures
        total_weight(stable_sort(s)) == total_weight(s),
        stable_sort(s).len() == s.len(),
    decreases s.len(),
{
    if s.len() > 0 {
        lemma_stable_sort_total(s.drop_last());
        lemma_insert_total(stable_sort(s.drop_last()), s.last());
    }
}

/// Inserting into an ascending sequence leaves it ascending, and adds the
/// new pair to what it holds.
pub proof fn lemma_insert_ascending<T>(sorted: Seq<(u64, T)>, e: (u64, T))
    requires
        ascending(sorted),
    ensures
        ascending(insert_by_weight(sorted, e)),
        insert_by_weight(sorted, e).to_multiset() == sorted.to_multiset().insert(e),
    decreases sorted.len(),
{
    broadcast use vstd::seq_lib::group_to_multiset_ensures;

    let out = insert_by_weight(sorted, e);
    lemma_insert_total(sorted, e);
    if sorted.len() > 0 && sorted.last().0 > e.0 {
        let front = sorted.drop_last();
        let inner = insert_by_weight(front, e);
        assert(ascending(front));
        lemma_insert_ascending(front, e);
        lemma_insert_total(front, e);
        assert(sorted == front.push(sorted.last()));
        assert forall|i: int, j: int| 0 <= i <= j < out.len() implies out[i].0 <= out[j].0 by {
            if j == out.len() - 1 && i < j {
                assert(inner.to_multiset().count(inner[i]) > 0);
                if inner[i] != e {
                    assert(front.to_multiset().count(inner[i]) > 0);
                    assert(front.contains(inner[i]));
                    let m = choose|m: int| 0 <= m < front.len() && front[m] == inner[i];
                    assert(sorted[m].0 <= sorted[sorted.len() - 1].0);
                }
            } else if i < j {
                assert(inner[i].0 <= inner[j].0);
            }
        }
        assert(out.to_multiset() =~= sorted.to_multiset().insert(e));
    } else {
        assert forall|i: int, j: int| 0 <= i <= j < out.len() implies out[i].0 <= out[j].0 by {
            if j == out.len() - 1 && i < j {
                assert(sorted[i].0 <= sorted[sorted.len() - 1].0);
            }
        }
    }
}

/// Sorting yields the same pairs, each as often as before, in ascending
/// order of weight.
pub proof fn lemma_stable_sort_permutes<T>(s: Seq<(u64, T)>)
    ensures
        ascending(stable_sort(s)),
        stable_sort(s).to_multiset() == s.to_multiset(),
        forall|e: (u64, T)| stable_sort(s).contains(e) <==> s.contains(e),
    decreases s.len(),
{
    broadcast use vstd::seq_lib::group_to_multiset_ensures;

    if s.len() > 0 {
        lemma_stable_sort_permutes(s.drop_last());
        lemma_insert_ascending(stable_sort(s.drop_last()), s.last());
        assert(s == s.drop_last().push(s.last()));
        assert(stable_sort(s).to_multiset() =~= s.to_multiset());
    }
    assert forall|e: (u64, T)| stable_sort(s).contains(e) <==> s.contains(e) by {
        assert(stable_sort(s).to_multiset().count(e) == s.to_multiset().count(e));
    }
}

/// Inserting a pair puts it behind the pairs of its own weight and leaves
/// the pairs of every other weight as they are.
pub proof fn lemma_insert_stable<T>(sorted: Seq<(u64, T)>, e: (u64, T), w: u64)
    ensures
        of_weight(insert_by_weight(sorted, e), w) == (if e.0 == w {
            of_weight(sorted, w).push(e)
        } else {
            of_weight(sorted, w)
        }),
    decreases sorted.len(),
{
    let same = has_weight::<T>(w);
    if sorted.len() > 0 && sorted.last().0 > e.0 {
        let front = sorted.drop_last();
        lemma_insert_stable(front, e, w);
        insert_by_weight(front, e).lemma_filter_push(sorted.last(), same);
        front.lemma_filter_push(sorted.last(), same);
        assert(sorted == front.push(sorted.last()));
    } else {
        sorted.lemma_filter_push(e, same);
    }
}

/// Sorting is stable: the pairs of any one weight keep the order in which
/// they stood before.
pub proof fn lemma_stable_sort_stable<T>(s: Seq<(u64, T)>, w: u64)
    ensures
        of_weight(stable_sort(s), w) == of_weight(s, w),
    decreases s.len(),
{
    let same = has_weight::<T>(w);
    if s.len() > 0 {
        lemma_stable_sort_stable(s.drop_last(), w);
        lemma_insert_stable(stable_sort(s.drop_last()), s.last(), w);
        s.drop_last().lemma_filter_push(s.last(), same);
        assert(s == s.drop_last().push(s.last()));
    }
}

impl<T: Copy> RouletteSubjects<T> {
    pub fn new() -> (r: Self)
        ensures
            r@ == Seq::<(u64, T)>::empty(),
    {
        RouletteSubjects(Vec::new())
    }

    pub fn len(&self) -> (n: usize)
        ensures
            n == self@.len(),
    {
        self.0.len()
    }

    pub fn push(&mut self, value: (u64, T))
        ensures
            final(self)@ == old(self)@.push(value),
    {
        self.0.push(value);
    }

    /// Sorts the pairs by weight, keeping pairs of equal weight in their order.
    pub fn sort(&mut self)
        ensures
            final(self)@ == stable_sort(old(self)@),
    {
        let n: usize = self.0.len();
        let mut i: usize = 0;
        while i < n
            invariant
                i <= n,
                self.0@.len() == n,
                old(self)@.len() == n,
                self.0@.take(i as int) == stable_sort(old(self)@.take(i as int)),
                self.0@.skip(i as int) == old(self)@.skip(i as int),
            decreases n - i,
        {
            let key: (u64, T) = self.0[i];
            let ghost prefix = self.0@.take(i as int);
            let ghost before = self.0@;
            let mut j: usize = i;
            proof {
                assert(prefix.take(i as int) == prefix);
                assert(prefix.skip(i as int) == Seq::<(u64, T)>::empty());
                assert(insert_by_weight(prefix, key) + Seq::<(u64, T)>::empty() == insert_by_weight(prefix, key));
            }
            while j > 0 && self.0[j - 1].0 > key.0
                invariant
                    j <= i < n,
                    self.0@.len() == n,
                    prefix.len() == i,
                    self.0@.skip(i + 1) == before.skip(i + 1),
                    self.0@.take(j as int) == prefix.take(j as int),
                    forall|m: int| j < m <= i ==> self.0@[m] == prefix[m - 1],
                    insert_by_weight(prefix, key) == insert_by_weight(prefix.take(j as int), key)
                        + prefix.skip(j as int),
                decreases j,
            {
                let moved: (u64, T) = self.0[j - 1];
                proof {
                    let head = prefix.take(j as int);
                    assert(head.last() == prefix[j - 1]);
                    assert(self.0@[j - 1] == self.0@.take(j as int)[j - 1]);
                    assert(head.drop_last() == prefix.take(j - 1));
                    assert(insert_by_weight(head, key) == insert_by_weight(prefix.take(j - 1), key).push(
                        prefix[j - 1],
                    ));
                    assert(insert_by_weight(prefix.take(j - 1), key).push(prefix[j - 1]) + prefix.skip(
                        j as int,
                    ) == insert_by_weight(prefix.take(j - 1), key) + prefix.skip(j - 1));
                }
                self.0.set(j, moved);
                j -= 1;
                proof {
                    assert(self.0@.take(j as int) == prefix.take(j as int));
                    assert(self.0@.skip(i + 1) == before.skip(i + 1));
                }
            }
            self.0.set(j, key);
            i += 1;
            proof {
                let head = prefix.take(j as int);
                assert(insert_by_weight(head, key) == head.push(key)) by {
                    if j > 0 {
                        assert(head.last() == prefix[j - 1]);
                    }
                }
                assert(self.0@.take(i as int) == head.push(key) + prefix.skip(j as int));
                assert(old(self)@.take(i as int).drop_last() == old(self)@.take(i - 1));
                assert(old(self)@.take(i as int).last() == old(self)@.skip(i - 1)[0]);
                assert(self.0@.skip(i as int) == before.skip(i as int));
                assert(before.skip(i as int) == old(self)@.skip(i - 1).skip(1));
                assert(old(self)@.skip(i - 1).skip(1) == old(self)@.skip(i as int));
            }
        }
        proof {
            assert(self.0@.take(n as int) == self.0@);
            assert(old(self)@.take(n as int) == old(self)@);
        }
    }

    /// The sum of all weights.
    pub fn total(&self) -> (t: u128)
        ensures
            t == total_weight(self@),
    {
        let n: usize = self.0.len();
        let mut t: u128 = 0;
        let mut i: usize = 0;
        while i < n
            invariant
                i <= n,
                n == self.0@.len(),
                t == weight_before(self@, i as int),
                t <= i * u64::MAX,
            decreases n - i,
        {
            proof {
                lemma_interval_length(self@, i as int);
                assert(i * u64::MAX + u64::MAX <= u64::MAX * u64::MAX) by (nonlinear_arith)
                    requires
                        i < u64::MAX,
                ;
                assert((i + 1) * u64::MAX == i * u64::MAX + u64::MAX) by (nonlinear_arith);
            }
            t = t + self.0[i].0 as u128;
            i += 1;
        }
        proof {
            assert(self@.take(n as int) == self@);
        }
        t
    }

    /// The item that `draw` selects: the first one, in the order in which the
    /// pairs stand, whose cumulative weight exceeds `draw`.
    pub fn select(&self, draw: u128) -> (r: Option<T>)
        ensures
            r == pick(self@, draw as nat),
    {
        let n: usize = self.0.len();
        let mut previous: u128 = 0;
        let mut i: usize = 0;
        while i < n
            invariant
                i <= n,
                n == self.0@.len(),
                previous == weight_before(self@, i as int),
                previous <= draw,
            decreases n - i,
        {
            proof {
                lemma_interval_length(self@, i as int);
                lemma_total_weight_bound(self@.take(i + 1));
                assert((i + 1) * u64::MAX <= u64::MAX * u64::MAX) by (nonlinear_arith)
                    requires
                        i < u64::MAX,
                ;
            }
            let pair: (u64, T) = self.0[i];
            let boundary: u128 = previous + pair.0 as u128;
            if draw < boundary {
                proof {
                    lemma_pick_lands(self@, draw as nat, i as int);
                }
                return Some(pair.1);
            }
            previous = boundary;
            i += 1;
        }
        proof {
            assert(self@.take(n as int) == self@);
            lemma_pick_selects(self@, draw as nat);
        }
        None
    }

    /// Sorts the pairs by weight and draws one item at random, each with a
    /// probability proportional to its weight. Nothing is drawn when the
    /// weights add up to zero, as they do in an empty collection.
    pub fn roulette(&mut self) -> (r: Option<T>)
        ensures
            final(self)@ == stable_sort(old(self)@),
            old(self)@.len() == 0 ==> r.is_none(),
            r.is_some() <==> total_weight(old(self)@) > 0,
            total_weight(old(self)@) > 0 ==> exists|draw: nat|
                draw < total_weight(old(self)@) && r == #[trigger] pick(final(self)@, draw),
            r matches Some(item) ==> exists|k: int|
                0 <= k < old(self)@.len() && #[trigger] old(self)@[k].1 == item && old(self)@[k].0 > 0,
    {
        self.sort();
        proof {
            lemma_stable_sort_total(old(self)@);
        }
        let total: u128 = self.total();
        if total == 0 {
            return None;
        }
        let draw: u128 = uniform_below(total);
        let r = self.select(draw);
        proof {
            assert(r == pick(self@, draw as nat));
            lemma_pick_selects(self@, draw as nat);
            let k = choose|k: int| #[trigger]
                lands_on(self@, draw as nat, k) && self@[k].0 > 0 && pick(self@, draw as nat) == Some(self@[k].1);
            lemma_stable_sort_permutes(old(self)@);
            assert(self@.contains(self@[k]));
            assert(old(self)@.contains(self@[k]));
            let m = choose|m: int| 0 <= m < old(self)@.len() && old(self)@[m] == self@[k];
            assert(old(self)@[m].1 == r.unwrap() && old(self)@[m].0 > 0);
        }
        r
    }
}

} // verus!
