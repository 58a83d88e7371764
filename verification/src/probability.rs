//! The squared norm, the rescaling of drifted amplitudes and the four
//! bucket probabilities.

use crate::scalar::{
    add_gives, div_gives, eq_gives, exact_arithmetic, gt_gives, lt_gives, mul_gives, neg_gives,
    sub_gives, total_arithmetic, Numerics, Scalar,
};
use crate::state::AmplitudeVector;
use core::ops::Neg;
use std::collections::HashMap;
use vstd::prelude::*;
use vstd::std_specs::cmp::{PartialEqSpec, PartialOrdIs};
use vstd::std_specs::ops::{AddSpec, DivSpec, MulSpec, NegSpec, SubSpec};

verus! {

/// What to do with amplitudes whose squared norm has drifted from one.
#[derive(Clone, Copy, Debug, PartialEq, Eq, Structural)]
pub enum Normalization {
    /// Use the amplitudes as they stand. The probabilities then need not
    /// add up to one.
    Keep,
    /// Divide every amplitude by the norm before the probabilities are
    /// taken.
    Rescale,
}

/// Why a simulation gave no result.
#[derive(Clone, Copy, Debug, PartialEq, Eq, Structural)]
pub enum SimulationError {
    /// The amplitudes were to be rescaled, but their squared norm is zero:
    /// there is no norm to divide by.
    DegenerateNormalization,
}

/// The probabilities of the four buckets, bucket 0 first.
#[derive(Debug)]
pub struct ProbabilityDistribution<T> {
    pub buckets: [T; 4],
}

// What the operators may give.

/// Adding the squares of the cells of `s` from the left onto `zero` may
/// give `r`.
pub open spec fn squared_norm_gives<T: Scalar>(s: Seq<T>, zero: T, r: T) -> bool
    decreases s.len(),
{
    if s.len() == 0 {
        r == zero
    } else {
        exists|front: T, square: T|
            {
                &&& squared_norm_gives(s.drop_last(), zero, front)
                &&& mul_gives(s.last(), s.last(), square)
                &&& #[trigger] add_gives(front, square, r)
            }
    }
}

/// Asking whether the squared norm has drifted may give `answer`: the
/// distance is what `sq_norm - one` gives, its size is the distance with
/// the sign flipped where it is below zero, and the answer is whether the
/// size is greater than the tolerance.
pub open spec fn drift_gives<T: Scalar>(sq_norm: T, numerics: Numerics<T>, answer: bool) -> bool {
    exists|distance: T, below: bool, size: T|
        {
            &&& #[trigger] sub_gives(sq_norm, numerics.one, distance)
            &&& #[trigger] lt_gives(distance, numerics.zero, below)
            &&& if below {
                neg_gives(distance, size)
            } else {
                size == distance
            }
            &&& #[trigger] gt_gives(size, numerics.tolerance, answer)
        }
}

/// Dividing every cell of `before` by `norm` may give `after`.
pub open spec fn rescale_gives<T: Scalar>(before: Seq<T>, norm: T, after: Seq<T>) -> bool {
    &&& after.len() == before.len()
    &&& forall|i: int| 0 <= i < before.len() ==> div_gives(before[i], norm, #[trigger] after[i])
}

/// Normalizing `before` may give `after` and `result`. The squared norm is
/// compared with `zero`. Where they are equal nothing changes and the result
/// is the error; where they are not, the result is the norm, which `sqrt`
/// gave for the squared norm, and `after` is `before` divided by it.
pub open spec fn normalize_gives<T: Scalar, F: Fn(T) -> T>(
    before: Seq<T>,
    zero: T,
    sqrt: &F,
    after: Seq<T>,
    result: Result<T, SimulationError>,
) -> bool {
    exists|sq_norm: T, vanishes: bool|
        {
            &&& #[trigger] squared_norm_gives(before, zero, sq_norm)
            &&& #[trigger] eq_gives(sq_norm, zero, vanishes)
            &&& match result {
                Ok(norm) => {
                    &&& !vanishes
                    &&& sqrt.ensures((sq_norm,), norm)
                    &&& rescale_gives(before, norm, after)
                },
                Err(e) => {
                    &&& vanishes
                    &&& e == SimulationError::DegenerateNormalization
                    &&& after == before
                },
            }
        }
}

/// Getting the amplitudes `before` ready for their probabilities may give
/// `after`, and succeed or not. Under `Keep` nothing is computed. Under
/// `Rescale` the squared norm is taken and asked for drift; amplitudes that
/// have not drifted stay as they are, the others are normalized, which
/// fails where the norm is zero.
pub open spec fn preparation_gives<T: Scalar, F: Fn(T) -> T>(
    before: Seq<T>,
    numerics: Numerics<T>,
    policy: Normalization,
    sqrt: &F,
    after: Seq<T>,
    ok: bool,
) -> bool {
    match policy {
        Normalization::Keep => ok && after == before,
        Normalization::Rescale => exists|sq_norm: T, drift: bool|
            {
                &&& #[trigger] squared_norm_gives(before, numerics.zero, sq_norm)
                &&& #[trigger] drift_gives(sq_norm, numerics, drift)
                &&& if drift {
                    exists|result: Result<T, SimulationError>|
                        {
                            &&& #[trigger] normalize_gives(
                                before,
                                numerics.zero,
                                sqrt,
                                after,
                                result,
                            )
                            &&& ok == (result is Ok)
                        }
                } else {
                    ok && after == before
                }
            },
    }
}

/// The probability of bucket `k` may be `r`: what the squares of its two
/// cells give when added.
pub open spec fn bucket_gives<T: Scalar>(s: Seq<T>, k: int, r: T) -> bool {
    exists|first: T, second: T|
        {
            &&& #[trigger] mul_gives(s[2 * k], s[2 * k], first)
            &&& #[trigger] mul_gives(s[2 * k + 1], s[2 * k + 1], second)
            &&& add_gives(first, second, r)
        }
}

/// The probabilities of the four buckets may be `p`.
pub open spec fn probabilities_give<T: Scalar>(s: Seq<T>, p: Seq<T>) -> bool {
    &&& p.len() == 4
    &&& forall|k: int| 0 <= k < 4 ==> bucket_gives(s, k, #[trigger] p[k])
}

// The same as formulas, for exact arithmetic.

/// The square of `a`.
pub open spec fn squared<T: Scalar>(a: T) -> T {
    a.mul_spec(a)
}

/// The squares of the cells of `s`, added from the left onto `zero`.
pub open spec fn sum_of_squares<T: Scalar>(s: Seq<T>, zero: T) -> T
    decreases s.len(),
{
    if s.len() == 0 {
        zero
    } else {
        sum_of_squares(s.drop_last(), zero).add_spec(squared(s.last()))
    }
}

/// `d` without its sign.
pub open spec fn magnitude<T: Scalar>(d: T, zero: T) -> T {
    if d.is_lt(&zero) {
        d.neg_spec()
    } else {
        d
    }
}

/// The squared norm lies further from one than the tolerance allows.
pub open spec fn drifted<T: Scalar>(sq_norm: T, numerics: Numerics<T>) -> bool {
    magnitude(sq_norm.sub_spec(numerics.one), numerics.zero).is_gt(&numerics.tolerance)
}

/// Every cell of `s` divided by `norm`.
pub open spec fn rescaled<T: Scalar>(s: Seq<T>, norm: T) -> Seq<T> {
    Seq::new(s.len(), |i: int| s[i].div_spec(norm))
}

/// `after` is `before` divided by a norm that `sqrt` gave for the squared
/// norm of `before`.
pub open spec fn normalized_by<T: Scalar, F: Fn(T) -> T>(
    before: Seq<T>,
    after: Seq<T>,
    zero: T,
    sqrt: &F,
) -> bool {
    exists|norm: T|
        #[trigger] sqrt.ensures((sum_of_squares(before, zero),), norm) && after == rescaled(
            before,
            norm,
        )
}

/// The probability of bucket `k`: the squares of its two cells, added.
pub open spec fn bucket_probability<T: Scalar>(s: Seq<T>, k: int) -> T {
    squared(s[2 * k]).add_spec(squared(s[2 * k + 1]))
}

/// The probabilities of the four buckets.
pub open spec fn bucket_probabilities<T: Scalar>(s: Seq<T>) -> Seq<T> {
    Seq::new(4, |k: int| bucket_probability(s, k))
}

/// The amplitudes `before` are to be rescaled: the policy asks for it and
/// their squared norm has drifted.
pub open spec fn rescale_due<T: Scalar>(
    before: Seq<T>,
    numerics: Numerics<T>,
    policy: Normalization,
) -> bool {
    policy == Normalization::Rescale && drifted(sum_of_squares(before, numerics.zero), numerics)
}

/// The squared norm of `before` equals zero, so there is no norm to divide
/// by.
pub open spec fn degenerate<T: Scalar>(before: Seq<T>, numerics: Numerics<T>) -> bool {
    sum_of_squares(before, numerics.zero).eq_spec(&numerics.zero)
}

/// `after` is what the probabilities are taken of when the amplitudes were
/// `before`: `before` divided by its norm where rescaling is due, `before`
/// itself where it is not.
pub open spec fn prepared<T: Scalar, F: Fn(T) -> T>(
    before: Seq<T>,
    after: Seq<T>,
    numerics: Numerics<T>,
    policy: Normalization,
    sqrt: &F,
) -> bool {
    if rescale_due(before, numerics, policy) {
        !degenerate(before, numerics) && normalized_by(before, after, numerics.zero, sqrt)
    } else {
        after == before
    }
}

/// With exact arithmetic the squared norm is the sum of squares.
pub proof fn lemma_exact_squared_norm<T: Scalar>(s: Seq<T>, zero: T, r: T)
    requires
        exact_arithmetic::<T>(),
        squared_norm_gives(s, zero, r),
    ensures
        r == sum_of_squares(s, zero),
    decreases s.len(),
{
    if s.len() > 0 {
        let (front, square) = choose|front: T, square: T|
            {
                &&& squared_norm_gives(s.drop_last(), zero, front)
                &&& mul_gives(s.last(), s.last(), square)
                &&& #[trigger] add_gives(front, square, r)
            };
        lemma_exact_squared_norm(s.drop_last(), zero, front);
    }
}

/// Whether a squared norm has drifted: its distance from one is greater
/// than the tolerance.
pub fn has_drifted<T: Scalar>(sq_norm: T, numerics: &Numerics<T>) -> (answer: bool)
    requires
        total_arithmetic::<T>(),
    ensures
        drift_gives(sq_norm, *numerics, answer),
        exact_arithmetic::<T>() ==> answer == drifted(sq_norm, *numerics),
{
    let distance = sq_norm - numerics.one;
    let below = distance < numerics.zero;
    let size = if below {
        distance.neg()
    } else {
        distance
    };
    let answer = size > numerics.tolerance;
    proof {
        assert(sub_gives(sq_norm, numerics.one, distance));
        assert(lt_gives(distance, numerics.zero, below));
        assert(gt_gives(size, numerics.tolerance, answer));
    }
    answer
}

impl<T: Scalar> ProbabilityDistribution<T> {
    /// The four probabilities, bucket 0 first.
    pub open spec fn view(&self) -> Seq<T> {
        self.buckets@
    }

    /// The probabilities as a map from the bucket's number to its
    /// probability, for looking one up. The map has no order: whoever needs
    /// the buckets in order reads `buckets`.
    pub fn as_hashmap(&self) -> (map: HashMap<usize, T>)
        ensures
            map@.dom() == Set::new(|k: usize| k < 4),
            forall|k: usize| k < 4 ==> #[trigger] map@[k] == self@[k as int],
    {
        broadcast use vstd::std_specs::hash::group_hash_axioms;

        let mut map: HashMap<usize, T> = HashMap::new();
        map.insert(0, self.buckets[0]);
        map.insert(1, self.buckets[1]);
        map.insert(2, self.buckets[2]);
        map.insert(3, self.buckets[3]);
        map
    }
}

impl<T: Scalar> AmplitudeVector<T> {
    /// The sum of the squares of the eight amplitudes, added in order onto
    /// `zero`.
    pub fn squared_norm(&self, zero: T) -> (sq_norm: T)
        requires
            total_arithmetic::<T>(),
        ensures
            squared_norm_gives(self@, zero, sq_norm),
            exact_arithmetic::<T>() ==> sq_norm == sum_of_squares(self@, zero),
    {
        let mut sum = zero;
        let mut i: usize = 0;
        while i < 8
            invariant
                i <= 8,
                total_arithmetic::<T>(),
                squared_norm_gives(self@.take(i as int), zero, sum),
            decreases 8 - i,
        {
            let a = self.cells[i];
            let square = a * a;
            let next = sum + square;
            proof {
                let grown = self@.take(i + 1);
                assert(grown.drop_last() =~= self@.take(i as int));
                assert(add_gives(sum, square, next));
            }
            sum = next;
            i = i + 1;
        }
        proof {
            assert(self@.take(8) =~= self@);
            if exact_arithmetic::<T>() {
                lemma_exact_squared_norm(self@, zero, sum);
            }
        }
        sum
    }

    /// Divides every amplitude by the norm, the square root of the squared
    /// norm, and returns the norm. Where the squared norm equals `zero`
    /// there is nothing to divide by: the amplitudes stay as they are and
    /// the call fails.
    pub fn normalize_state_vector<F: Fn(T) -> T>(
        &mut self,
        zero: T,
        sqrt: &F,
    ) -> (result: Result<T, SimulationError>)
        requires
            total_arithmetic::<T>(),
            forall|x: T| sqrt.requires((x,)),
        ensures
            normalize_gives(old(self)@, zero, sqrt, final(self)@, result),
            exact_arithmetic::<T>() ==> match result {
                Ok(norm) => {
                    &&& !sum_of_squares(old(self)@, zero).eq_spec(&zero)
                    &&& sqrt.ensures((sum_of_squares(old(self)@, zero),), norm)
                    &&& final(self)@ == rescaled(old(self)@, norm)
                },
                Err(_) => sum_of_squares(old(self)@, zero).eq_spec(&zero),
            },
    {
        let sq_norm = self.squared_norm(zero);
        let vanishes = sq_norm == zero;
        assert(eq_gives(sq_norm, zero, vanishes));
        if vanishes {
            return Err(SimulationError::DegenerateNormalization);
        }
        let norm = sqrt(sq_norm);
        let mut i: usize = 0;
        while i < 8
            invariant
                i <= 8,
                total_arithmetic::<T>(),
                forall|k: int| i <= k < 8 ==> #[trigger] self@[k] == old(self)@[k],
                forall|k: int| 0 <= k < i ==> div_gives(old(self)@[k], norm, #[trigger] self@[k]),
            decreases 8 - i,
        {
            let ghost before = self@;
            let a = self.cells[i];
            self.cells[i] = a / norm;
            assert(self@ == before.update(i as int, self@[i as int]));
            i = i + 1;
        }
        Ok(norm)
    }

    /// The four bucket probabilities of the amplitudes as they stand.
    pub fn probabilities(&self) -> (distribution: ProbabilityDistribution<T>)
        requires
            total_arithmetic::<T>(),
        ensures
            probabilities_give(self@, distribution@),
            exact_arithmetic::<T>() ==> distribution@ == bucket_probabilities(self@),
    {
        let c = &self.cells;
        let squares = [
            c[0] * c[0],
            c[1] * c[1],
            c[2] * c[2],
            c[3] * c[3],
            c[4] * c[4],
            c[5] * c[5],
            c[6] * c[6],
            c[7] * c[7],
        ];
        let buckets = [
            squares[0] + squares[1],
            squares[2] + squares[3],
            squares[4] + squares[5],
            squares[6] + squares[7],
        ];
        let distribution = ProbabilityDistribution { buckets };
        proof {
            assert forall|k: int| 0 <= k < 4 implies bucket_gives(
                self@,
                k,
                #[trigger] distribution@[k],
            ) by {
                assert(mul_gives(self@[2 * k], self@[2 * k], squares@[2 * k]));
                assert(mul_gives(self@[2 * k + 1], self@[2 * k + 1], squares@[2 * k + 1]));
            }
        }
        distribution
    }

    /// Derives the bucket probabilities. Under `Normalization::Rescale`
    /// amplitudes that have drifted are first divided by their norm, in
    /// place; drifted amplitudes with squared norm zero are an error. Under
    /// `Normalization::Keep` the amplitudes are never changed and the call
    /// never fails.
    pub fn calculate_probabilities<F: Fn(T) -> T>(
        &mut self,
        numerics: &Numerics<T>,
        policy: Normalization,
        sqrt: &F,
    ) -> (result: Result<ProbabilityDistribution<T>, SimulationError>)
        requires
            total_arithmetic::<T>(),
            forall|x: T| sqrt.requires((x,)),
        ensures
            preparation_gives(old(self)@, *numerics, policy, sqrt, final(self)@, result is Ok),
            match result {
                Ok(distribution) => probabilities_give(final(self)@, distribution@),
                Err(e) => {
                    &&& e == SimulationError::DegenerateNormalization
                    &&& final(self)@ == old(self)@
                },
            },
            exact_arithmetic::<T>() ==> match result {
                Ok(distribution) => {
                    &&& prepared(old(self)@, final(self)@, *numerics, policy, sqrt)
                    &&& distribution@ == bucket_probabilities(final(self)@)
                },
                Err(_) => {
                    &&& rescale_due(old(self)@, *numerics, policy)
                    &&& degenerate(old(self)@, *numerics)
                },
            },
    {
        match policy {
            Normalization::Keep => {},
            Normalization::Rescale => {
                let sq_norm = self.squared_norm(numerics.zero);
                let drift = has_drifted(sq_norm, numerics);
                if drift {
                    let outcome = self.normalize_state_vector(numerics.zero, sqrt);
                    match outcome {
                        Ok(_) => {},
                        Err(e) => {
                            return Err(e);
                        },
                    }
                }
            },
        }
        Ok(self.probabilities())
    }
}

} // verus!
