//! Sums and ranks: figures over several backends, and over many samples.

use crate::store::BackendView;
use vstd::prelude::*;

verus! {

/// How many samples lie below `bound`.
pub open spec fn below(samples: Seq<u64>, bound: int) -> nat
    decreases samples.len(),
{
    if samples.len() == 0 {
        0
    } else {
        below(samples.drop_last(), bound) + if samples.last() < bound {
            1nat
        } else {
            0
        }
    }
}

/// Whether samples are in ascending order.
pub open spec fn ascending(samples: Seq<u64>) -> bool {
    forall|i: int, j: int| 0 <= i <= j < samples.len() ==> samples[i] <= samples[j]
}

/// Whether two rows of samples hold the same values equally often.
pub open spec fn same_samples(a: Seq<u64>, b: Seq<u64>) -> bool {
    &&& a.len() == b.len()
    &&& forall|bound: int| #[trigger] below(a, bound) == below(b, bound)
}

/// Sum of a figure over all backends.
pub open spec fn total(
    backends: Map<Seq<char>, BackendView>,
    figure: spec_fn(BackendView) -> nat,
) -> nat
    decreases backends.dom().len(),
    when backends.dom().finite()
{
    if backends.dom().len() == 0 {
        0
    } else {
        let id = backends.dom().choose();
        figure(backends[id]) + total(backends.remove(id), figure)
    }
}

/// Sum of a figure over the backends of a list.
pub open spec fn listed_total(
    backends: Map<Seq<char>, BackendView>,
    ids: Seq<Seq<char>>,
    figure: spec_fn(BackendView) -> nat,
) -> nat
    decreases ids.len(),
{
    if ids.len() == 0 {
        0
    } else {
        listed_total(backends, ids.drop_last(), figure) + figure(backends[ids.last()])
    }
}

/// Whether a list names every backend once.
pub open spec fn lists(backends: Map<Seq<char>, BackendView>, ids: Seq<Seq<char>>) -> bool {
    &&& ids.no_duplicates()
    &&& forall|id: Seq<char>| #[trigger] backends.contains_key(id) <==> ids.contains(id)
}

/// Any backend can be counted first.
pub proof fn lemma_total_without(
    backends: Map<Seq<char>, BackendView>,
    figure: spec_fn(BackendView) -> nat,
    id: Seq<char>,
)
    requires
        backends.dom().finite(),
        backends.contains_key(id),
    ensures
        total(backends, figure) == figure(backends[id]) + total(backends.remove(id), figure),
    decreases backends.dom().len(),
{
    let first: Seq<char> = backends.dom().choose();
    assert(backends.dom().contains(id));
    assert(backends.dom().len() > 0);
    assert(backends.dom().contains(first));
    if first != id {
        lemma_total_without(backends.remove(first), figure, id);
        lemma_total_without(backends.remove(id), figure, first);
        assert(backends.remove(first).remove(id) =~= backends.remove(id).remove(first));
    }
}

/// The sum over a complete list is the sum over all backends.
pub proof fn lemma_listed_total(
    backends: Map<Seq<char>, BackendView>,
    ids: Seq<Seq<char>>,
    figure: spec_fn(BackendView) -> nat,
)
    requires
        lists(backends, ids),
    ensures
        backends.dom().finite(),
        listed_total(backends, ids, figure) == total(backends, figure),
    decreases ids.len(),
{
    assert(backends.dom() =~= ids.to_set());
    vstd::seq_lib::seq_to_set_is_finite(ids);
    if ids.len() == 0 {
        assert(backends.dom() =~= Set::<Seq<char>>::empty());
    } else {
        let last: Seq<char> = ids.last();
        let rest: Map<Seq<char>, BackendView> = backends.remove(last);
        assert(ids.contains(last));
        lemma_total_without(backends, figure, last);
        let before: Seq<Seq<char>> = ids.drop_last();
        assert(lists(rest, before)) by {
            assert forall|id: Seq<char>| #[trigger] rest.contains_key(id) <==> before.contains(
                id,
            ) by {
                if before.contains(id) {
                    let i: int = choose|i: int| 0 <= i < before.len() && before[i] == id;
                    assert(ids[i] == id);
                    assert(ids.contains(id));
                    assert(ids[i] != ids[ids.len() - 1]);
                }
                if rest.contains_key(id) {
                    assert(backends.contains_key(id));
                    let i: int = choose|i: int| 0 <= i < ids.len() && ids[i] == id;
                    assert(before[i] == id);
                }
            }
        }
        lemma_listed_total(rest, before, figure);
        lemma_listed_same(backends, rest, before, figure);
    }
}

/// The sum over a list depends only on the listed backends.
proof fn lemma_listed_same(
    a: Map<Seq<char>, BackendView>,
    b: Map<Seq<char>, BackendView>,
    ids: Seq<Seq<char>>,
    figure: spec_fn(BackendView) -> nat,
)
    requires
        forall|i: int| 0 <= i < ids.len() ==> a[#[trigger] ids[i]] == b[ids[i]],
    ensures
        listed_total(a, ids, figure) == listed_total(b, ids, figure),
    decreases ids.len(),
{
    if ids.len() > 0 {
        assert forall|i: int| 0 <= i < ids.drop_last().len() implies a[#[trigger] ids.drop_last()[i]]
            == b[ids.drop_last()[i]] by {
            assert(ids[i] == ids.drop_last()[i]);
        }
        lemma_listed_same(a, b, ids.drop_last(), figure);
        assert(a[ids[ids.len() - 1]] == b[ids[ids.len() - 1]]);
    }
}

/// One more sample.
pub proof fn lemma_below_push(samples: Seq<u64>, sample: u64, bound: int)
    ensures
        below(samples.push(sample), bound) == below(samples, bound) + if sample < bound {
            1nat
        } else {
            0
        },
{
    assert(samples.push(sample).drop_last() =~= samples);
}

/// Samples of two rows together.
pub proof fn lemma_below_concat(a: Seq<u64>, b: Seq<u64>, bound: int)
    ensures
        below(a + b, bound) == below(a, bound) + below(b, bound),
    decreases b.len(),
{
    if b.len() == 0 {
        assert(a + b =~= a);
    } else {
        lemma_below_concat(a, b.drop_last(), bound);
        assert((a + b).drop_last() =~= a + b.drop_last());
    }
}

/// In ascending order, the samples below a bound are the first ones.
pub proof fn lemma_below_ascending(samples: Seq<u64>, k: int, bound: int)
    requires
        ascending(samples),
        0 <= k < samples.len(),
    ensures
        samples[k] < bound ==> below(samples, bound) >= k + 1,
        samples[k] >= bound ==> below(samples, bound) <= k,
    decreases samples.len(),
{
    let before: Seq<u64> = samples.drop_last();
    assert(ascending(before));
    if k < before.len() {
        lemma_below_ascending(before, k, bound);
        assert(samples[k] <= samples.last());
    } else if before.len() > 0 {
        lemma_below_ascending(before, k - 1, bound);
        lemma_below_at_most(before, bound);
        assert(samples[k - 1] <= samples[k]);
    } else {
        assert(below(before, bound) == 0);
    }
}

/// No more samples lie below a bound than there are.
proof fn lemma_below_at_most(samples: Seq<u64>, bound: int)
    ensures
        below(samples, bound) <= samples.len(),
    decreases samples.len(),
{
    if samples.len() > 0 {
        lemma_below_at_most(samples.drop_last(), bound);
    }
}

/// Sorts samples into ascending order.
pub fn sort_samples(samples: Vec<u64>) -> (sorted: Vec<u64>)
    ensures
        ascending(sorted@),
        same_samples(sorted@, samples@),
    decreases samples@.len(),
{
    if samples.len() < 2 {
        return samples;
    }
    let half: usize = samples.len() / 2;
    let mut left: Vec<u64> = Vec::new();
    let mut right: Vec<u64> = Vec::new();
    let mut i: usize = 0;
    while i < samples.len()
        invariant
            i <= samples@.len(),
            half <= samples@.len(),
            left@ == samples@.take(if i <= half {
                i as int
            } else {
                half as int
            }),
            right@ == samples@.subrange(
                half as int,
                if i <= half {
                    half as int
                } else {
                    i as int
                },
            ),
        decreases samples@.len() - i,
    {
        if i < half {
            left.push(samples[i]);
        } else {
            right.push(samples[i]);
        }
        i = i + 1;
    }
    let ghost l = left@;
    let ghost r = right@;
    proof {
        assert(samples@ =~= l + r);
        assert forall|bound: int| #[trigger]
            below(samples@, bound) == below(l, bound) + below(r, bound) by {
            lemma_below_concat(l, r, bound);
        }
    }
    let left: Vec<u64> = sort_samples(left);
    let right: Vec<u64> = sort_samples(right);
    merge(left, right)
}

/// Merges two ascending rows into one.
fn merge(left: Vec<u64>, right: Vec<u64>) -> (merged: Vec<u64>)
    requires
        ascending(left@),
        ascending(right@),
        left@.len() + right@.len() <= usize::MAX,
    ensures
        ascending(merged@),
        merged@.len() == left@.len() + right@.len(),
        forall|bound: int| #[trigger]
            below(merged@, bound) == below(left@, bound) + below(right@, bound),
{
    let mut merged: Vec<u64> = Vec::new();
    let mut i: usize = 0;
    let mut j: usize = 0;
    while i < left.len() || j < right.len()
        invariant
            ascending(left@),
            ascending(right@),
            left@.len() + right@.len() <= usize::MAX,
            i <= left@.len(),
            j <= right@.len(),
            merged@.len() == i + j,
            ascending(merged@),
            forall|k: int|
                0 <= k < merged@.len() && i < left@.len() ==> #[trigger] merged@[k]
                    <= left@[i as int],
            forall|k: int|
                0 <= k < merged@.len() && j < right@.len() ==> #[trigger] merged@[k]
                    <= right@[j as int],
            forall|bound: int| #[trigger]
                below(merged@, bound) == below(left@.take(i as int), bound) + below(
                    right@.take(j as int),
                    bound,
                ),
        decreases left@.len() + right@.len() - i - j,
    {
        let ghost before = merged@;
        if j == right.len() || (i < left.len() && left[i] <= right[j]) {
            merged.push(left[i]);
            proof {
                assert forall|bound: int| #[trigger]
                    below(merged@, bound) == below(left@.take(i + 1), bound) + below(
                        right@.take(j as int),
                        bound,
                    ) by {
                    lemma_below_push(before, left@[i as int], bound);
                    lemma_below_push(left@.take(i as int), left@[i as int], bound);
                    assert(left@.take(i + 1) =~= left@.take(i as int).push(left@[i as int]));
                }
            }
            i = i + 1;
        } else {
            merged.push(right[j]);
            proof {
                assert forall|bound: int| #[trigger]
                    below(merged@, bound) == below(left@.take(i as int), bound) + below(
                        right@.take(j + 1),
                        bound,
                    ) by {
                    lemma_below_push(before, right@[j as int], bound);
                    lemma_below_push(right@.take(j as int), right@[j as int], bound);
                    assert(right@.take(j + 1) =~= right@.take(j as int).push(right@[j as int]));
                }
            }
            j = j + 1;
        }
    }
    assert(left@.take(i as int) =~= left@);
    assert(right@.take(j as int) =~= right@);
    merged
}

/// The samples below a bound are counted one by one.
pub proof fn law_below_counts(samples: Seq<u64>, bound: int)
    ensures
        below(samples, bound) == samples.filter(|sample: u64| sample < bound).len(),
    decreases samples.len(),
{
    reveal(Seq::filter);
    if samples.len() > 0 {
        law_below_counts(samples.drop_last(), bound);
    }
}

/// Sorting keeps every sample, as often as it occurs, and puts none before a smaller
/// one.
pub proof fn law_sorting_keeps_samples(samples: Vec<u64>, sorted: Vec<u64>)
    requires
        call_ensures(sort_samples, (samples,), sorted),
    ensures
        sorted@.to_multiset() == samples@.to_multiset(),
        forall|i: int, j: int| 0 <= i < j < sorted@.len() ==> sorted@[i] <= sorted@[j],
{
    assert forall|sample: u64| sorted@.to_multiset().count(sample) == samples@.to_multiset().count(
        sample,
    ) by {
        lemma_occurrences(sorted@, sample);
        lemma_occurrences(samples@, sample);
        assert(below(sorted@, sample as int) == below(samples@, sample as int));
        assert(below(sorted@, sample + 1) == below(samples@, sample + 1));
    }
    assert(sorted@.to_multiset() =~= samples@.to_multiset());
}

/// How often a sample occurs, by what lies below it and not above it.
proof fn lemma_occurrences(samples: Seq<u64>, sample: u64)
    ensures
        samples.to_multiset().count(sample) == below(samples, sample + 1) - below(
            samples,
            sample as int,
        ),
    decreases samples.len(),
{
    broadcast use vstd::seq_lib::group_to_multiset_ensures;

    if samples.len() > 0 {
        let before: Seq<u64> = samples.drop_last();
        lemma_occurrences(before, sample);
        assert(samples =~= before.push(samples.last()));
    }
}

} // verus!
