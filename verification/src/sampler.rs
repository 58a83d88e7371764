//! Turning a probability distribution and a list of uniform draws into one
//! count per bucket.
//!
//! Each draw picks a bucket or none: its pick. The counts are the numbers of
//! times each bucket is picked.

use crate::probability::{
    bucket_probabilities, degenerate, preparation_gives, prepared, probabilities_give,
    rescale_due, Normalization, ProbabilityDistribution, SimulationError,
};
use crate::scalar::{
    add_gives, exact_arithmetic, lt_gives, total_arithmetic, Numerics, Scalar,
};
use crate::state::AmplitudeVector;
use vstd::prelude::*;
use vstd::std_specs::cmp::PartialOrdIs;
use vstd::std_specs::ops::AddSpec;
use vstd::string::*;

verus! {

/// How many trials landed in each bucket, bucket 0 first.
#[derive(Clone, Copy, Debug, PartialEq, Eq)]
pub struct OutcomeCounts {
    pub counts: [usize; 4],
}

// Picks and how often they occur.

/// The pick that a bucket number stands for.
pub open spec fn spec_pick(bucket: Option<usize>) -> Option<int> {
    match bucket {
        Some(k) => Some(k as int),
        None => None,
    }
}

/// Every pick is one of the four buckets or none.
pub open spec fn picks_in_range(picks: Seq<Option<int>>) -> bool {
    forall|i: int| 0 <= i < picks.len() ==> ((#[trigger] picks[i]) matches Some(k) ==> 0 <= k < 4)
}

/// How many of the picks are bucket `k`.
pub open spec fn occurrences(picks: Seq<Option<int>>, k: int) -> nat
    decreases picks.len(),
{
    if picks.len() == 0 {
        0
    } else if picks.last() == Some(k) {
        occurrences(picks.drop_last(), k) + 1
    } else {
        occurrences(picks.drop_last(), k)
    }
}

/// How many of the picks are no bucket.
pub open spec fn misses(picks: Seq<Option<int>>) -> nat
    decreases picks.len(),
{
    if picks.len() == 0 {
        0
    } else if picks.last() is None {
        misses(picks.drop_last()) + 1
    } else {
        misses(picks.drop_last())
    }
}

/// Every pick is counted once: in its bucket, or as a miss.
pub proof fn lemma_every_pick_is_counted_once(picks: Seq<Option<int>>)
    requires
        picks_in_range(picks),
    ensures
        occurrences(picks, 0) + occurrences(picks, 1) + occurrences(picks, 2) + occurrences(
            picks,
            3,
        ) + misses(picks) == picks.len(),
    decreases picks.len(),
{
    if picks.len() > 0 {
        let front = picks.drop_last();
        assert forall|i: int| 0 <= i < front.len() implies ((#[trigger] front[i]) matches Some(k)
            ==> 0 <= k < 4) by {
            assert(front[i] == picks[i]);
        }
        lemma_every_pick_is_counted_once(front);
    }
}

/// Picks that are all bucket `k` occur as often in bucket `k` as there are
/// picks, and never in another bucket.
pub proof fn lemma_occurrences_of_one_pick(picks: Seq<Option<int>>, k: int, other: int)
    requires
        forall|i: int| 0 <= i < picks.len() ==> #[trigger] picks[i] == Some(k),
        other != k,
    ensures
        occurrences(picks, k) == picks.len(),
        occurrences(picks, other) == 0,
        misses(picks) == 0,
    decreases picks.len(),
{
    if picks.len() > 0 {
        let front = picks.drop_last();
        assert forall|i: int| 0 <= i < front.len() implies #[trigger] front[i] == Some(k) by {
            assert(front[i] == picks[i]);
        }
        lemma_occurrences_of_one_pick(front, k, other);
    }
}

/// Among picks that are all buckets there is no miss.
pub proof fn lemma_no_miss_among_buckets(picks: Seq<Option<int>>)
    requires
        forall|i: int| 0 <= i < picks.len() ==> (#[trigger] picks[i]) is Some,
    ensures
        misses(picks) == 0,
    decreases picks.len(),
{
    if picks.len() > 0 {
        let front = picks.drop_last();
        assert forall|i: int| 0 <= i < front.len() implies (#[trigger] front[i]) is Some by {
            assert(front[i] == picks[i]);
        }
        lemma_no_miss_among_buckets(front);
    }
}

// What the operators may give.

/// One step of the running sum: adding the probability of bucket `j` onto
/// `sums[j]` gave `sums[j + 1]`.
pub open spec fn sum_step<T: Scalar>(sums: Seq<T>, p: Seq<T>, j: int) -> bool {
    add_gives(sums[j], p[j], sums[j + 1])
}

/// One step of the search: the running sum was taken up to bucket `j`, and
/// asking whether the draw is less than it gave `below`.
pub open spec fn search_step<T: Scalar>(
    sums: Seq<T>,
    p: Seq<T>,
    draw: T,
    j: int,
    below: bool,
) -> bool {
    sum_step(sums, p, j) && lt_gives(draw, sums[j + 1], below)
}

/// The sums explain why a draw falls in `pick`. `sums[0]` is `zero`, and
/// the search went bucket by bucket: the draw was found less than the
/// running sum at the bucket picked and at none before it, or at none of
/// the four where none is picked.
pub open spec fn explains_pick<T: Scalar>(
    sums: Seq<T>,
    p: Seq<T>,
    draw: T,
    zero: T,
    pick: Option<int>,
) -> bool {
    let searched = match pick {
        Some(k) => k,
        None => 4,
    };
    &&& sums.len() == 5
    &&& sums[0] == zero
    &&& 0 <= searched <= 4
    &&& forall|j: int| 0 <= j < searched ==> #[trigger] search_step(sums, p, draw, j, false)
    &&& pick matches Some(k) ==> k < 4 && search_step(sums, p, draw, k, true)
}

/// A draw may fall in `pick`: the first bucket, in the order 0, 1, 2, 3,
/// at which the draw is found less than the running sum of the
/// probabilities, or none.
pub open spec fn pick_gives<T: Scalar>(p: Seq<T>, draw: T, zero: T, pick: Option<int>) -> bool {
    exists|sums: Seq<T>| #[trigger] explains_pick(sums, p, draw, zero, pick)
}

/// The picks explain the counts: each draw may fall in its pick, and each
/// bucket counts the draws that picked it.
pub open spec fn explain_counts<T: Scalar>(
    picks: Seq<Option<int>>,
    p: Seq<T>,
    draws: Seq<T>,
    zero: T,
    counts: Seq<usize>,
) -> bool {
    &&& picks.len() == draws.len()
    &&& forall|i: int| 0 <= i < draws.len() ==> pick_gives(p, draws[i], zero, #[trigger] picks[i])
    &&& counts.len() == 4
    &&& forall|k: int| 0 <= k < 4 ==> #[trigger] counts[k] == occurrences(picks, k)
}

/// The draws may give the counts.
pub open spec fn counts_give<T: Scalar>(
    p: Seq<T>,
    draws: Seq<T>,
    zero: T,
    counts: Seq<usize>,
) -> bool {
    exists|picks: Seq<Option<int>>| #[trigger] explain_counts(picks, p, draws, zero, counts)
}

/// Measuring the amplitudes `before` may give `after` and `result`: the
/// amplitudes are got ready, and where that succeeds their probabilities
/// are taken and the draws counted.
pub open spec fn measurement_gives<T: Scalar, F: Fn(T) -> T>(
    before: Seq<T>,
    numerics: Numerics<T>,
    policy: Normalization,
    sqrt: &F,
    draws: Seq<T>,
    after: Seq<T>,
    result: Result<OutcomeCounts, SimulationError>,
) -> bool {
    &&& preparation_gives(before, numerics, policy, sqrt, after, result is Ok)
    &&& match result {
        Ok(outcome) => exists|p: Seq<T>|
            {
                &&& #[trigger] probabilities_give(after, p)
                &&& counts_give(p, draws, numerics.zero, outcome@)
            },
        Err(e) => {
            &&& e == SimulationError::DegenerateNormalization
            &&& after == before
        },
    }
}

/// Whatever adding the probability of bucket 0 onto `zero` gives, the draw
/// is found to be less than it.
pub open spec fn surely_in_first_bucket<T: Scalar>(p: Seq<T>, draw: T, zero: T) -> bool {
    forall|sum: T, answer: bool|
        add_gives(zero, p[0], sum) && #[trigger] lt_gives(draw, sum, answer) ==> answer
}

/// Whatever adding up all four probabilities gives, the draw is found to be
/// less than the last sum.
pub open spec fn surely_in_some_bucket<T: Scalar>(p: Seq<T>, draw: T, zero: T) -> bool {
    forall|sums: Seq<T>, answer: bool|
        {
            &&& sums.len() == 5
            &&& sums[0] == zero
            &&& forall|j: int| 0 <= j < 4 ==> #[trigger] sum_step(sums, p, j)
            &&& #[trigger] lt_gives(draw, sums[4], answer)
        } ==> answer
}

/// Whatever the draws give, the counts add up to at most the number of
/// draws.
pub proof fn lemma_counts_never_exceed_the_draws<T: Scalar>(
    p: Seq<T>,
    draws: Seq<T>,
    zero: T,
    counts: Seq<usize>,
)
    requires
        counts_give(p, draws, zero, counts),
    ensures
        counts[0] + counts[1] + counts[2] + counts[3] <= draws.len(),
{
    let picks = choose|picks: Seq<Option<int>>| explain_counts(picks, p, draws, zero, counts);
    assert forall|i: int| 0 <= i < picks.len() implies ((#[trigger] picks[i]) matches Some(k)
        ==> 0 <= k < 4) by {
        let sums = choose|sums: Seq<T>| explains_pick(sums, p, draws[i], zero, picks[i]);
    }
    lemma_every_pick_is_counted_once(picks);
}

/// Where every draw is surely less than the probability of bucket 0, every
/// trial lands in bucket 0, whatever the number type: its count is the
/// number of draws and the other counts are zero.
pub proof fn lemma_certain_bucket_counts_all<T: Scalar>(
    p: Seq<T>,
    draws: Seq<T>,
    zero: T,
    counts: Seq<usize>,
)
    requires
        forall|i: int|
            0 <= i < draws.len() ==> surely_in_first_bucket(p, #[trigger] draws[i], zero),
        counts_give(p, draws, zero, counts),
    ensures
        counts[0] == draws.len(),
        counts[1] == 0,
        counts[2] == 0,
        counts[3] == 0,
{
    let picks = choose|picks: Seq<Option<int>>| explain_counts(picks, p, draws, zero, counts);
    assert forall|i: int| 0 <= i < picks.len() implies #[trigger] picks[i] == Some(0int) by {
        let sums = choose|sums: Seq<T>| explains_pick(sums, p, draws[i], zero, picks[i]);
        if picks[i] != Some(0int) {
            assert(search_step(sums, p, draws[i], 0, false));
        }
    }
    lemma_occurrences_of_one_pick(picks, 0, 1);
    lemma_occurrences_of_one_pick(picks, 0, 2);
    lemma_occurrences_of_one_pick(picks, 0, 3);
}

/// Where every draw is surely less than the sum of all four probabilities,
/// no trial is dropped, whatever the number type: the counts add up to the
/// number of draws.
pub proof fn lemma_full_sum_counts_all<T: Scalar>(
    p: Seq<T>,
    draws: Seq<T>,
    zero: T,
    counts: Seq<usize>,
)
    requires
        forall|i: int|
            0 <= i < draws.len() ==> surely_in_some_bucket(p, #[trigger] draws[i], zero),
        counts_give(p, draws, zero, counts),
    ensures
        counts[0] + counts[1] + counts[2] + counts[3] == draws.len(),
{
    let picks = choose|picks: Seq<Option<int>>| explain_counts(picks, p, draws, zero, counts);
    assert forall|i: int| 0 <= i < picks.len() implies {
        &&& (#[trigger] picks[i]) is Some
        &&& 0 <= picks[i]->0 < 4
    } by {
        let sums = choose|sums: Seq<T>| explains_pick(sums, p, draws[i], zero, picks[i]);
        if picks[i] is None {
            assert forall|j: int| 0 <= j < 4 implies #[trigger] sum_step(sums, p, j) by {
                assert(search_step(sums, p, draws[i], j, false));
            }
            assert(search_step(sums, p, draws[i], 3, false));
        }
    }
    lemma_no_miss_among_buckets(picks);
    lemma_every_pick_is_counted_once(picks);
}

// The same as formulas, for exact arithmetic.

/// The first `n` probabilities of `p`, added from the left onto `zero`.
pub open spec fn running_sum<T: Scalar>(p: Seq<T>, n: int, zero: T) -> T
    decreases n,
{
    if n <= 0 {
        zero
    } else {
        running_sum(p, n - 1, zero).add_spec(p[n - 1])
    }
}

/// The running sum up to and including bucket `k` exceeds the draw.
pub open spec fn exceeds<T: Scalar>(p: Seq<T>, draw: T, zero: T, k: int) -> bool {
    draw.is_lt(&running_sum(p, k + 1, zero))
}

/// The bucket a draw falls in: the first, in the order 0, 1, 2, 3, whose
/// running sum exceeds the draw. A draw that no running sum exceeds falls in
/// none.
pub open spec fn selected<T: Scalar>(p: Seq<T>, draw: T, zero: T) -> Option<int> {
    if exceeds(p, draw, zero, 0) {
        Some(0)
    } else if exceeds(p, draw, zero, 1) {
        Some(1)
    } else if exceeds(p, draw, zero, 2) {
        Some(2)
    } else if exceeds(p, draw, zero, 3) {
        Some(3)
    } else {
        None
    }
}

/// The picks of the draws, one for each.
pub open spec fn selections<T: Scalar>(p: Seq<T>, draws: Seq<T>, zero: T) -> Seq<Option<int>> {
    Seq::new(draws.len(), |i: int| selected(p, draws[i], zero))
}

/// How many of the draws fall in bucket `k`.
pub open spec fn tally<T: Scalar>(p: Seq<T>, draws: Seq<T>, zero: T, k: int) -> nat {
    occurrences(selections(p, draws, zero), k)
}

/// How many of the draws fall in no bucket.
pub open spec fn dropped<T: Scalar>(p: Seq<T>, draws: Seq<T>, zero: T) -> nat {
    misses(selections(p, draws, zero))
}

/// `after` and `result` are what measuring the amplitudes `before` gives
/// with exact arithmetic: the counts are the tallies of the draws under the
/// probabilities of the amplitudes got ready, and the error comes where
/// rescaling is due and the norm is zero.
pub open spec fn measured<T: Scalar, F: Fn(T) -> T>(
    before: Seq<T>,
    numerics: Numerics<T>,
    policy: Normalization,
    sqrt: &F,
    draws: Seq<T>,
    after: Seq<T>,
    result: Result<OutcomeCounts, SimulationError>,
) -> bool {
    match result {
        Ok(outcome) => {
            &&& prepared(before, after, numerics, policy, sqrt)
            &&& forall|k: int|
                0 <= k < 4 ==> #[trigger] outcome@[k] == tally(
                    bucket_probabilities(after),
                    draws,
                    numerics.zero,
                    k,
                )
        },
        Err(_) => {
            &&& rescale_due(before, numerics, policy)
            &&& degenerate(before, numerics)
            &&& after == before
        },
    }
}

/// With exact arithmetic a draw leaves no choice: the pick it may give is
/// the bucket the formula selects.
pub proof fn lemma_exact_pick<T: Scalar>(p: Seq<T>, draw: T, zero: T, pick: Option<int>)
    requires
        exact_arithmetic::<T>(),
        pick_gives(p, draw, zero, pick),
    ensures
        pick == selected(p, draw, zero),
{
    let sums = choose|sums: Seq<T>| explains_pick(sums, p, draw, zero, pick);
    let last = match pick {
        Some(k) => k,
        None => 3,
    };
    reveal_with_fuel(running_sum, 5);
    assert(search_step(sums, p, draw, 0, pick == Some(0int)));
    if last >= 1 {
        assert(search_step(sums, p, draw, 1, pick == Some(1int)));
    }
    if last >= 2 {
        assert(search_step(sums, p, draw, 2, pick == Some(2int)));
    }
    if last >= 3 {
        assert(search_step(sums, p, draw, 3, pick == Some(3int)));
    }
}

/// With exact arithmetic the draws leave no choice: the counts they may
/// give are the tallies of the formula, and what the counts lack of the
/// number of draws are the draws that fall in no bucket.
pub proof fn lemma_exact_counts<T: Scalar>(p: Seq<T>, draws: Seq<T>, zero: T, counts: Seq<usize>)
    requires
        exact_arithmetic::<T>(),
        counts_give(p, draws, zero, counts),
    ensures
        forall|k: int| 0 <= k < 4 ==> #[trigger] counts[k] == tally(p, draws, zero, k),
        counts[0] + counts[1] + counts[2] + counts[3] + dropped(p, draws, zero) == draws.len(),
{
    let picks = choose|picks: Seq<Option<int>>| explain_counts(picks, p, draws, zero, counts);
    assert forall|i: int| 0 <= i < draws.len() implies #[trigger] picks[i] == selected(
        p,
        draws[i],
        zero,
    ) by {
        lemma_exact_pick(p, draws[i], zero, picks[i]);
    }
    assert(picks =~= selections(p, draws, zero));
    lemma_every_pick_is_counted_once(picks);
}

/// Where the probability of bucket 0, added onto zero, exceeds every draw,
/// every draw falls in bucket 0 and none anywhere else.
pub proof fn lemma_certain_bucket_takes_all<T: Scalar>(p: Seq<T>, draws: Seq<T>, zero: T)
    requires
        forall|i: int| 0 <= i < draws.len() ==> exceeds(p, #[trigger] draws[i], zero, 0),
    ensures
        tally(p, draws, zero, 0) == draws.len(),
        tally(p, draws, zero, 1) == 0,
        tally(p, draws, zero, 2) == 0,
        tally(p, draws, zero, 3) == 0,
        dropped(p, draws, zero) == 0,
{
    let picks = selections(p, draws, zero);
    lemma_occurrences_of_one_pick(picks, 0, 1);
    lemma_occurrences_of_one_pick(picks, 0, 2);
    lemma_occurrences_of_one_pick(picks, 0, 3);
}

/// Where the sum of all four probabilities exceeds every draw, no draw is
/// dropped: every one falls in a bucket.
pub proof fn lemma_full_sum_drops_nothing<T: Scalar>(p: Seq<T>, draws: Seq<T>, zero: T)
    requires
        forall|i: int| 0 <= i < draws.len() ==> exceeds(p, #[trigger] draws[i], zero, 3),
    ensures
        dropped(p, draws, zero) == 0,
        tally(p, draws, zero, 0) + tally(p, draws, zero, 1) + tally(p, draws, zero, 2) + tally(
            p,
            draws,
            zero,
            3,
        ) == draws.len(),
{
    let picks = selections(p, draws, zero);
    assert forall|i: int| 0 <= i < picks.len() implies (#[trigger] picks[i]) is Some by {
        assert(exceeds(p, draws[i], zero, 3));
    }
    lemma_no_miss_among_buckets(picks);
    lemma_every_pick_is_counted_once(picks);
}

// The results table.

/// The label of a row of the results table: the number of the row in two
/// binary digits.
pub open spec fn row_label(row: int) -> Seq<char> {
    if row == 0 {
        seq!['0', '0']
    } else if row == 1 {
        seq!['0', '1']
    } else if row == 2 {
        seq!['1', '0']
    } else {
        seq!['1', '1']
    }
}

/// The bucket whose count a row of the results table shows: rows 1 and 2
/// show the buckets 2 and 1, the other rows the bucket of their own number.
pub open spec fn row_bucket(row: int) -> int {
    if row == 1 {
        2
    } else if row == 2 {
        1
    } else {
        row
    }
}

impl OutcomeCounts {
    /// The four counts, bucket 0 first.
    pub open spec fn view(&self) -> Seq<usize> {
        self.counts@
    }

    /// The number of trials counted.
    pub open spec fn spec_total(&self) -> int {
        self@[0] + self@[1] + self@[2] + self@[3]
    }

    /// The rows of the results table from top to bottom, each with its
    /// label and its count.
    pub fn display_rows(&self) -> (rows: [(&'static str, usize); 4])
        ensures
            forall|row: int|
                0 <= row < 4 ==> {
                    &&& (#[trigger] rows@[row]).0@ == row_label(row)
                    &&& rows@[row].1 == self@[row_bucket(row)]
                },
    {
        proof {
            reveal_strlit("00");
            reveal_strlit("01");
            reveal_strlit("10");
            reveal_strlit("11");
        }
        let rows = [
            ("00", self.counts[0]),
            ("01", self.counts[2]),
            ("10", self.counts[1]),
            ("11", self.counts[3]),
        ];
        assert forall|row: int| 0 <= row < 4 implies {
            &&& (#[trigger] rows@[row]).0@ == row_label(row)
            &&& rows@[row].1 == self@[row_bucket(row)]
        } by {
            assert(rows@[row].0@ =~= row_label(row));
        }
        rows
    }
}

/// The bucket in which a draw falls: the probabilities are added up in the
/// order of the buckets, and the first bucket at which the sum exceeds the
/// draw is chosen.
pub fn select_bucket<T: Scalar>(
    distribution: &ProbabilityDistribution<T>,
    draw: T,
    zero: T,
) -> (bucket: Option<usize>)
    requires
        total_arithmetic::<T>(),
    ensures
        bucket matches Some(k) ==> k < 4,
        pick_gives(distribution@, draw, zero, spec_pick(bucket)),
        exact_arithmetic::<T>() ==> spec_pick(bucket) == selected(distribution@, draw, zero),
{
    let mut sum = zero;
    let mut k: usize = 0;
    let ghost mut sums: Seq<T> = Seq::new(5, |j: int| zero);
    while k < 4
        invariant
            k <= 4,
            total_arithmetic::<T>(),
            sums.len() == 5,
            sums[0] == zero,
            sums[k as int] == sum,
            forall|j: int|
                0 <= j < k ==> #[trigger] search_step(sums, distribution@, draw, j, false),
        decreases 4 - k,
    {
        let next = sum + distribution.buckets[k];
        let below = draw < next;
        proof {
            let earlier = sums;
            sums = sums.update(k + 1, next);
            assert forall|j: int| 0 <= j < k implies #[trigger] search_step(
                sums,
                distribution@,
                draw,
                j,
                false,
            ) by {
                assert(search_step(earlier, distribution@, draw, j, false));
            }
        }
        if below {
            proof {
                assert(explains_pick(sums, distribution@, draw, zero, Some(k as int)));
                if exact_arithmetic::<T>() {
                    lemma_exact_pick(distribution@, draw, zero, Some(k as int));
                }
            }
            return Some(k);
        }
        sum = next;
        k = k + 1;
    }
    proof {
        assert(explains_pick(sums, distribution@, draw, zero, None));
        if exact_arithmetic::<T>() {
            lemma_exact_pick(distribution@, draw, zero, None);
        }
    }
    None
}

/// Counts, for each bucket, the draws that fall in it. A draw that falls in
/// no bucket is counted nowhere, so the counts add up to at most the number
/// of draws.
pub fn sample<T: Scalar>(
    distribution: &ProbabilityDistribution<T>,
    draws: &[T],
    zero: T,
) -> (outcome: OutcomeCounts)
    requires
        total_arithmetic::<T>(),
    ensures
        counts_give(distribution@, draws@, zero, outcome@),
        outcome.spec_total() <= draws@.len(),
        exact_arithmetic::<T>() ==> forall|k: int|
            0 <= k < 4 ==> #[trigger] outcome@[k] == tally(distribution@, draws@, zero, k),
        exact_arithmetic::<T>() ==> outcome.spec_total() + dropped(distribution@, draws@, zero)
            == draws@.len(),
{
    let mut outcome = OutcomeCounts { counts: [0, 0, 0, 0] };
    let mut i: usize = 0;
    let ghost mut picks: Seq<Option<int>> = Seq::empty();
    while i < draws.len()
        invariant
            i <= draws@.len(),
            total_arithmetic::<T>(),
            picks.len() == i,
            picks_in_range(picks),
            forall|j: int|
                0 <= j < i ==> pick_gives(distribution@, draws@[j], zero, #[trigger] picks[j]),
            forall|k: int| 0 <= k < 4 ==> #[trigger] outcome@[k] == occurrences(picks, k),
        decreases draws@.len() - i,
    {
        let ghost before = outcome@;
        let ghost earlier = picks;
        let bucket = select_bucket(distribution, draws[i], zero);
        proof {
            picks = picks.push(spec_pick(bucket));
            assert(picks.drop_last() =~= earlier);
            lemma_every_pick_is_counted_once(picks);
        }
        match bucket {
            Some(k) => {
                let count = outcome.counts[k];
                outcome.counts[k] = count + 1;
            },
            None => {},
        }
        i = i + 1;
    }
    proof {
        lemma_every_pick_is_counted_once(picks);
        assert(explain_counts(picks, distribution@, draws@, zero, outcome@));
        if exact_arithmetic::<T>() {
            lemma_exact_counts(distribution@, draws@, zero, outcome@);
        }
    }
    outcome
}

/// Measures the register: derives the bucket probabilities of the
/// amplitudes, rescaling them first where the policy asks for it, and counts
/// the draws bucket by bucket. There is one trial for each draw.
pub fn measure_state_vector<T: Scalar, F: Fn(T) -> T>(
    state: &mut AmplitudeVector<T>,
    numerics: &Numerics<T>,
    policy: Normalization,
    sqrt: &F,
    draws: &[T],
) -> (result: Result<OutcomeCounts, SimulationError>)
    requires
        total_arithmetic::<T>(),
        forall|x: T| sqrt.requires((x,)),
    ensures
        measurement_gives(old(state)@, *numerics, policy, sqrt, draws@, final(state)@, result),
        result matches Ok(outcome) ==> outcome.spec_total() <= draws@.len(),
        exact_arithmetic::<T>() ==> measured(
            old(state)@,
            *numerics,
            policy,
            sqrt,
            draws@,
            final(state)@,
            result,
        ),
{
    match state.calculate_probabilities(numerics, policy, sqrt) {
        Ok(distribution) => {
            let outcome = sample(&distribution, draws, numerics.zero);
            Ok(outcome)
        },
        Err(e) => Err(e),
    }
}

} // verus!
