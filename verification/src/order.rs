//! Sorting by a total order, and order statistics of samples.
use vstd::prelude::*;
use vstd::relations::{sorted_by, total_ordering};

verus! {

/// A value with a place in a total order.
pub trait Ordered: Copy {
    /// The place of the value.
    closed spec fn place(self) -> int {
        arbitrary()
    }

    /// Tests whether the value does not come after `other`. Values with the same place are the
    /// same.
    fn not_after(self, other: Self) -> (r: bool)
        ensures
            r == (self.place() <= other.place()),
            forall|a: Self, b: Self| #[trigger] a.place() == #[trigger] b.place() ==> a == b,
    ;
}

impl Ordered for u32 {
    open spec fn place(self) -> int {
        self as int
    }

    fn not_after(self, other: Self) -> (r: bool) {
        self <= other
    }
}

/// The order of places.
pub open spec fn by_place<T: Ordered>() -> spec_fn(T, T) -> bool {
    |a: T, b: T| a.place() <= b.place()
}

/// Samples in order.
pub open spec fn in_order<T: Ordered>(samples: Seq<T>) -> Seq<T> {
    samples.sort_by(by_place::<T>())
}

/// The position of the nearest-rank quantile at `percent` among `n` samples in order.
pub open spec fn nearest_rank(n: int, percent: int) -> int {
    (n * percent + 99) / 100 - 1
}

/// The nearest-rank quantile at `percent`.
pub open spec fn quantile<T: Ordered>(samples: Seq<T>, percent: int) -> T {
    in_order(samples)[nearest_rank(samples.len() as int, percent)]
}

/// Whether values with the same place are the same.
pub open spec fn places_apart<T: Ordered>() -> bool {
    forall|a: T, b: T| #[trigger] a.place() == #[trigger] b.place() ==> a == b
}

/// Places order totally.
proof fn lemma_total<T: Ordered>()
    requires
        places_apart::<T>(),
    ensures
        total_ordering(by_place::<T>()),
{
}

/// Sorts samples.
fn sort<T: Ordered>(samples: &Vec<T>) -> (r: Vec<T>)
    requires
        samples.len() > 0,
    ensures
        r@ == in_order(samples@),
        r@.len() == samples@.len(),
{
    let _ = samples[0].not_after(samples[0]);
    let mut out: Vec<T> = Vec::new();
    let mut i: usize = 0;
    proof {
        assert(samples@.take(0) =~= Seq::<T>::empty());
        assert(out@ =~= Seq::<T>::empty());
    }
    while i < samples.len()
        invariant
            i <= samples.len(),
            sorted_by(out@, by_place::<T>()),
            out@.to_multiset() == samples@.take(i as int).to_multiset(),
        decreases samples.len() - i,
    {
        let value = samples[i];
        let mut at: usize = 0;
        while at < out.len() && out[at].not_after(value)
            invariant
                at <= out.len(),
                forall|k: int| 0 <= k < at ==> (#[trigger] out@[k]).place() <= value.place(),
            decreases out.len() - at,
        {
            at += 1;
        }
        let ghost before = out@;
        out.insert(at, value);
        proof {
            let after = out@;
            assert forall|a: int, b: int| 0 <= a < b < after.len() implies #[trigger] by_place::<
                T,
            >()(after[a], after[b]) by {
                let x = if a < at {
                    a
                } else {
                    a - 1
                };
                let y = if b < at {
                    b
                } else {
                    b - 1
                };
                if a != at && b != at {
                    assert(after[a] == before[x] && after[b] == before[y]);
                    assert(by_place::<T>()(before[x], before[y]));
                } else if a == at {
                    assert(after[b] == before[y]);
                    if y > at {
                        assert(by_place::<T>()(before[at as int], before[y]));
                    }
                } else {
                    assert(after[a] == before[x]);
                }
            }
            vstd::seq_lib::to_multiset_insert(before, at as int, value);
            assert(samples@.take(i + 1) =~= samples@.take(i as int).push(value));
            samples@.take(i as int).to_multiset_ensures();
        }
        i += 1;
    }
    proof {
        assert(samples@.take(samples.len() as int) =~= samples@);
        lemma_total::<T>();
        samples@.lemma_sort_by_ensures(by_place::<T>());
        vstd::seq_lib::lemma_sorted_unique(out@, in_order(samples@), by_place::<T>());
        lemma_in_order_len(samples@);
    }
    out
}

/// Sorting keeps the number of samples.
proof fn lemma_in_order_len<T: Ordered>(samples: Seq<T>)
    requires
        places_apart::<T>(),
    ensures
        in_order(samples).len() == samples.len(),
{
    broadcast use vstd::seq_lib::group_to_multiset_ensures;

    lemma_total::<T>();
    samples.lemma_sort_by_ensures(by_place::<T>());
    assert(in_order(samples).to_multiset().len() == in_order(samples).len());
    assert(samples.to_multiset().len() == samples.len());
}

/// Returns the nearest-rank quantile of some samples.
pub fn nearest_rank_quantile<T: Ordered>(samples: &Vec<T>, percent: u32) -> (r: T)
    requires
        samples.len() > 0,
        1 <= percent <= 100,
    ensures
        r == quantile(samples@, percent as int),
        0 <= nearest_rank(samples@.len() as int, percent as int) < samples@.len(),
{
    let ordered = sort(samples);
    let n: usize = samples.len();
    proof {
        let m = n as int;
        let p = percent as int;
        assert(1 <= m * p <= m * 100) by (nonlinear_arith)
            requires
                1 <= m,
                1 <= p <= 100,
        ;
    }
    let at: u128 = (n as u128 * percent as u128 + 99) / 100 - 1;
    ordered[at as usize]
}

/// A quantile is one of the samples, and a quantile at a higher percentage does not come before it.
pub proof fn law_quantiles_are_ordered_samples<T: Ordered>(samples: Seq<T>, low: int, high: int)
    requires
        places_apart::<T>(),
        samples.len() > 0,
        1 <= low <= high <= 100,
    ensures
        samples.contains(quantile(samples, low)),
        quantile(samples, low).place() <= quantile(samples, high).place(),
{
    broadcast use vstd::seq_lib::group_to_multiset_ensures;

    let n = samples.len() as int;
    let ordered = in_order(samples);
    lemma_total::<T>();
    samples.lemma_sort_by_ensures(by_place::<T>());
    lemma_in_order_len(samples);
    assert(1 <= n * low <= n * high <= n * 100) by (nonlinear_arith)
        requires
            1 <= n,
            1 <= low <= high <= 100,
    ;
    let (i, j) = (nearest_rank(n, low), nearest_rank(n, high));
    assert(0 <= i <= j < n);
    assert(ordered.contains(ordered[i]));
    assert(ordered.to_multiset().contains(ordered[i]));
    assert(samples.to_multiset().contains(ordered[i]));
    if i < j {
        assert(by_place::<T>()(ordered[i], ordered[j]));
    }
}

/// How many samples come before `value`.
pub open spec fn count_before<T: Ordered>(samples: Seq<T>, value: T) -> nat {
    samples.filter(|x: T| x.place() < value.place()).len()
}

/// How many samples do not come after `value`.
pub open spec fn count_up_to<T: Ordered>(samples: Seq<T>, value: T) -> nat {
    samples.filter(|x: T| x.place() <= value.place()).len()
}

/// Whether `value` is one of the samples such that at least `percent` in a hundred of them do not
/// come after it, and fewer than that come before it.
pub open spec fn splits_at<T: Ordered>(samples: Seq<T>, percent: int, value: T) -> bool {
    &&& samples.contains(value)
    &&& count_before(samples, value) * 100 < samples.len() * percent
    &&& samples.len() * percent <= count_up_to(samples, value) * 100
}

/// Taking one value out takes it out of what is counted.
proof fn lemma_filter_remove<T>(s: Seq<T>, i: int, p: spec_fn(T) -> bool)
    requires
        0 <= i < s.len(),
    ensures
        s.filter(p).len() == s.remove(i).filter(p).len() + if p(s[i]) {
            1nat
        } else {
            0nat
        },
{
    let (front, back) = (s.take(i), s.skip(i + 1));
    let one = seq![s[i]];
    assert(s =~= front + one + back);
    assert(s.remove(i) =~= front + back);
    Seq::filter_distributes_over_add(front + one, back, p);
    Seq::filter_distributes_over_add(front, one, p);
    Seq::filter_distributes_over_add(front, back, p);
    reveal(Seq::filter);
    assert(one.drop_last() =~= Seq::<T>::empty());
    assert(one.drop_last().filter(p) =~= Seq::<T>::empty());
}

/// What is counted does not depend on the order.
proof fn lemma_filter_permuted<T>(s: Seq<T>, t: Seq<T>, p: spec_fn(T) -> bool)
    requires
        s.to_multiset() == t.to_multiset(),
    ensures
        s.filter(p).len() == t.filter(p).len(),
    decreases s.len(),
{
    broadcast use vstd::seq_lib::group_to_multiset_ensures;

    assert(s.to_multiset().len() == s.len() && t.to_multiset().len() == t.len());
    if s.len() == 0 {
        assert(s =~= t);
    } else {
        let last = s.len() - 1;
        assert(s.contains(s[last]));
        assert(t.to_multiset().contains(s[last]));
        assert(t.contains(s[last]));
        let i = choose|i: int| 0 <= i < t.len() && t[i] == s[last];
        vstd::seq_lib::to_multiset_remove(s, last);
        vstd::seq_lib::to_multiset_remove(t, i);
        lemma_filter_remove(s, last, p);
        lemma_filter_remove(t, i, p);
        lemma_filter_permuted(s.remove(last), t.remove(i), p);
    }
}

/// No more values are counted than stand before one from which on none counts.
proof fn lemma_filter_at_most<T>(s: Seq<T>, p: spec_fn(T) -> bool, i: int)
    requires
        0 <= i <= s.len(),
        forall|j: int| i <= j < s.len() ==> !p(#[trigger] s[j]),
    ensures
        s.filter(p).len() <= i,
    decreases s.len(),
{
    reveal(Seq::filter);
    if i < s.len() {
        assert(!p(s[s.len() - 1]));
        lemma_filter_at_most(s.drop_last(), p, i);
    } else {
        s.lemma_filter_len(p);
    }
}

/// At least as many values are counted as stand before one up to which all count.
proof fn lemma_filter_at_least<T>(s: Seq<T>, p: spec_fn(T) -> bool, i: int)
    requires
        0 <= i <= s.len(),
        forall|j: int| 0 <= j < i ==> p(#[trigger] s[j]),
    ensures
        i <= s.filter(p).len(),
    decreases s.len(),
{
    reveal(Seq::filter);
    if s.len() > 0 {
        if i == s.len() {
            assert(p(s[i - 1]));
            lemma_filter_at_least(s.drop_last(), p, i - 1);
        } else {
            lemma_filter_at_least(s.drop_last(), p, i);
        }
    }
}

/// A quantile is a sample that at least the given share of the samples do not exceed, while a smaller
/// share stays below it.
pub proof fn law_quantile_splits_the_samples<T: Ordered>(samples: Seq<T>, percent: int)
    requires
        places_apart::<T>(),
        samples.len() > 0,
        1 <= percent <= 100,
    ensures
        splits_at(samples, percent, quantile(samples, percent)),
{
    let n = samples.len() as int;
    let ordered = in_order(samples);
    let q = quantile(samples, percent);
    let i = nearest_rank(n, percent);
    let before = |x: T| x.place() < q.place();
    let up_to = |x: T| x.place() <= q.place();
    law_quantiles_are_ordered_samples(samples, percent, percent);
    lemma_total::<T>();
    samples.lemma_sort_by_ensures(by_place::<T>());
    lemma_in_order_len(samples);
    assert(1 <= n * percent <= n * 100) by (nonlinear_arith)
        requires
            1 <= n,
            1 <= percent <= 100,
    ;
    assert(0 <= i < n);
    assert forall|j: int| i <= j < n implies !before(#[trigger] ordered[j]) by {
        if i < j {
            assert(by_place::<T>()(ordered[i], ordered[j]));
        }
    }
    assert forall|j: int| 0 <= j < i + 1 implies up_to(#[trigger] ordered[j]) by {
        if j < i {
            assert(by_place::<T>()(ordered[j], ordered[i]));
        }
    }
    lemma_filter_at_most(ordered, before, i);
    lemma_filter_at_least(ordered, up_to, i + 1);
    lemma_filter_permuted(ordered, samples, before);
    lemma_filter_permuted(ordered, samples, up_to);
    assert(i * 100 < n * percent <= (i + 1) * 100);
}

} // verus!
