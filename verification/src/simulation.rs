//! Running a whole simulation: from the input line to the counts.

use crate::probability::{Normalization, SimulationError};
use crate::sampler::{measure_state_vector, measured, measurement_gives, OutcomeCounts};
use crate::scalar::{exact_arithmetic, total_arithmetic, Numerics, Scalar};
use crate::state::{
    gate_effect, gate_gives, ground_state, lemma_exact_rule, lemma_gate_keeps_shape,
    AmplitudeVector,
};
use crate::token::{parse_gate_sequence, parsed, token_views, GateToken, SpecToken};
use vstd::prelude::*;

verus! {

// What the operators may give.

/// One token may turn the amplitudes `before` into `after`. An unknown
/// token changes nothing.
pub open spec fn token_gives<T: Scalar>(
    token: SpecToken,
    before: Seq<T>,
    root_two: T,
    after: Seq<T>,
) -> bool {
    match token {
        SpecToken::Known(gate) => gate_gives(gate, before, root_two, after),
        SpecToken::Unknown(_) => after == before,
    }
}

/// The tokens, applied in order, may turn the amplitudes `before` into
/// `after`.
pub open spec fn sequence_gives<T: Scalar>(
    tokens: Seq<SpecToken>,
    before: Seq<T>,
    root_two: T,
    after: Seq<T>,
) -> bool
    decreases tokens.len(),
{
    if tokens.len() == 0 {
        after == before
    } else {
        exists|between: Seq<T>|
            {
                &&& sequence_gives(tokens.drop_last(), before, root_two, between)
                &&& #[trigger] token_gives(tokens.last(), between, root_two, after)
            }
    }
}

/// A simulation of the tokens may end with `result`: the tokens are
/// applied to the ground state, and what they give is measured. The report
/// holds the tokens, the amplitudes as the measurement left them and the
/// counts.
pub open spec fn simulation_gives<T: Scalar, F: Fn(T) -> T>(
    tokens: Seq<SpecToken>,
    numerics: Numerics<T>,
    policy: Normalization,
    sqrt: &F,
    draws: Seq<T>,
    result: Result<SimulationReport<T>, SimulationError>,
) -> bool {
    exists|evolved: Seq<T>|
        {
            &&& #[trigger] sequence_gives(
                tokens,
                ground_state(numerics.zero, numerics.one),
                numerics.root_two,
                evolved,
            )
            &&& match result {
                Ok(report) => {
                    &&& token_views(report.tokens@) == tokens
                    &&& measurement_gives(
                        evolved,
                        numerics,
                        policy,
                        sqrt,
                        draws,
                        report.state@,
                        Ok(report.counts),
                    )
                },
                Err(e) => measurement_gives(
                    evolved,
                    numerics,
                    policy,
                    sqrt,
                    draws,
                    evolved,
                    Err(e),
                ),
            }
        }
}

// The same as formulas, for exact arithmetic.

/// The amplitudes after one token. An unknown token changes nothing.
pub open spec fn token_effect<T: Scalar>(token: SpecToken, s: Seq<T>, root_two: T) -> Seq<T> {
    match token {
        SpecToken::Known(gate) => gate_effect(gate, s, root_two),
        SpecToken::Unknown(_) => s,
    }
}

/// The amplitudes after the tokens, applied in order.
pub open spec fn sequence_effect<T: Scalar>(tokens: Seq<SpecToken>, s: Seq<T>, root_two: T) -> Seq<
    T,
>
    decreases tokens.len(),
{
    if tokens.len() == 0 {
        s
    } else {
        token_effect(tokens.last(), sequence_effect(tokens.drop_last(), s, root_two), root_two)
    }
}

/// `result` is what a simulation of the tokens gives with exact
/// arithmetic.
pub open spec fn simulated<T: Scalar, F: Fn(T) -> T>(
    tokens: Seq<SpecToken>,
    numerics: Numerics<T>,
    policy: Normalization,
    sqrt: &F,
    draws: Seq<T>,
    result: Result<SimulationReport<T>, SimulationError>,
) -> bool {
    let evolved = sequence_effect(
        tokens,
        ground_state(numerics.zero, numerics.one),
        numerics.root_two,
    );
    match result {
        Ok(report) => {
            &&& token_views(report.tokens@) == tokens
            &&& measured(
                evolved,
                numerics,
                policy,
                sqrt,
                draws,
                report.state@,
                Ok(report.counts),
            )
        },
        Err(e) => measured(evolved, numerics, policy, sqrt, draws, evolved, Err(e)),
    }
}

/// Whether the token does no arithmetic: it is unknown or its gate is a
/// swap.
pub open spec fn is_rearrangement(token: SpecToken) -> bool {
    match token {
        SpecToken::Known(gate) => gate.spec_rule() is Swap,
        SpecToken::Unknown(_) => true,
    }
}

/// How many of the tokens are unknown.
pub open spec fn unknown_count(tokens: Seq<SpecToken>) -> nat
    decreases tokens.len(),
{
    if tokens.len() == 0 {
        0
    } else if tokens.last() is Unknown {
        unknown_count(tokens.drop_last()) + 1
    } else {
        unknown_count(tokens.drop_last())
    }
}

/// The tokens that are gates, in their order.
pub open spec fn known_only(tokens: Seq<SpecToken>) -> Seq<SpecToken> {
    tokens.filter(|token: SpecToken| token is Known)
}

/// Unknown tokens change nothing: what a sequence of tokens may give is
/// what its gates alone may give, and the tokens that are not gates are the
/// unknown ones.
pub proof fn lemma_unknown_tokens_change_nothing<T: Scalar>(
    tokens: Seq<SpecToken>,
    before: Seq<T>,
    root_two: T,
    after: Seq<T>,
)
    ensures
        sequence_gives(tokens, before, root_two, after) <==> sequence_gives(
            known_only(tokens),
            before,
            root_two,
            after,
        ),
        known_only(tokens).len() + unknown_count(tokens) == tokens.len(),
    decreases tokens.len(),
{
    reveal(Seq::filter);
    if tokens.len() > 0 {
        let front = tokens.drop_last();
        lemma_unknown_tokens_change_nothing(front, before, root_two, after);
        if tokens.last() is Known {
            let gates = known_only(tokens);
            assert(gates.drop_last() =~= known_only(front));
            assert(gates.last() == tokens.last());
            assert forall|between: Seq<T>|
                sequence_gives(front, before, root_two, between) <==> sequence_gives(
                    gates.drop_last(),
                    before,
                    root_two,
                    between,
                ) by {
                lemma_unknown_tokens_change_nothing(front, before, root_two, between);
            }
            if sequence_gives(tokens, before, root_two, after) {
                let between = choose|between: Seq<T>|
                    {
                        &&& sequence_gives(front, before, root_two, between)
                        &&& #[trigger] token_gives(tokens.last(), between, root_two, after)
                    };
                assert(sequence_gives(gates.drop_last(), before, root_two, between));
            }
            if sequence_gives(gates, before, root_two, after) {
                let between = choose|between: Seq<T>|
                    {
                        &&& sequence_gives(gates.drop_last(), before, root_two, between)
                        &&& #[trigger] token_gives(gates.last(), between, root_two, after)
                    };
                assert(sequence_gives(front, before, root_two, between));
            }
        } else {
            if sequence_gives(tokens, before, root_two, after) {
                let between = choose|between: Seq<T>|
                    {
                        &&& sequence_gives(front, before, root_two, between)
                        &&& #[trigger] token_gives(tokens.last(), between, root_two, after)
                    };
                assert(between == after);
            }
            if sequence_gives(front, before, root_two, after) {
                assert(token_gives(tokens.last(), after, root_two, after));
            }
        }
    }
}

/// Whatever a sequence of tokens gives, it gives eight amplitudes for eight
/// and leaves the upper four cells as they are.
pub proof fn lemma_sequence_keeps_shape<T: Scalar>(
    tokens: Seq<SpecToken>,
    before: Seq<T>,
    root_two: T,
    after: Seq<T>,
)
    requires
        before.len() == 8,
        sequence_gives(tokens, before, root_two, after),
    ensures
        after.len() == 8,
        forall|k: int| 4 <= k < 8 ==> #[trigger] after[k] == before[k],
    decreases tokens.len(),
{
    if tokens.len() > 0 {
        let between = choose|between: Seq<T>|
            {
                &&& sequence_gives(tokens.drop_last(), before, root_two, between)
                &&& #[trigger] token_gives(tokens.last(), between, root_two, after)
            };
        lemma_sequence_keeps_shape(tokens.drop_last(), before, root_two, between);
        match tokens.last() {
            SpecToken::Known(gate) => {
                lemma_gate_keeps_shape(gate, between, root_two, after);
            },
            SpecToken::Unknown(_) => {},
        }
    }
}

/// A sequence of tokens leaves no choice where the arithmetic is exact, or
/// where no token does any arithmetic: what it may give is what the formula
/// gives.
pub proof fn lemma_exact_sequence<T: Scalar>(
    tokens: Seq<SpecToken>,
    before: Seq<T>,
    root_two: T,
    after: Seq<T>,
)
    requires
        before.len() == 8,
        sequence_gives(tokens, before, root_two, after),
        exact_arithmetic::<T>() || forall|i: int|
            0 <= i < tokens.len() ==> is_rearrangement(#[trigger] tokens[i]),
    ensures
        after == sequence_effect(tokens, before, root_two),
    decreases tokens.len(),
{
    if tokens.len() > 0 {
        let between = choose|between: Seq<T>|
            {
                &&& sequence_gives(tokens.drop_last(), before, root_two, between)
                &&& #[trigger] token_gives(tokens.last(), between, root_two, after)
            };
        assert forall|i: int| 0 <= i < tokens.drop_last().len() implies tokens.drop_last()[i]
            == tokens[i] by {}
        lemma_exact_sequence(tokens.drop_last(), before, root_two, between);
        lemma_sequence_keeps_shape(tokens.drop_last(), before, root_two, between);
        match tokens.last() {
            SpecToken::Known(gate) => {
                if exact_arithmetic::<T>() {
                    lemma_exact_rule(gate.spec_rule(), between, root_two, after);
                }
            },
            SpecToken::Unknown(_) => {},
        }
    }
}

/// What a simulation gives back.
#[derive(Debug)]
pub struct SimulationReport<T> {
    /// The tokens of the input line in order, unknown ones included.
    pub tokens: Vec<GateToken>,
    /// The amplitudes the probabilities were taken of.
    pub state: AmplitudeVector<T>,
    /// The counts of the trials.
    pub counts: OutcomeCounts,
}

impl<T: Scalar> AmplitudeVector<T> {
    /// Applies one token and says whether it was a gate. An unknown token
    /// leaves the amplitudes as they are.
    pub fn apply_token(&mut self, token: &GateToken, root_two: T) -> (known: bool)
        requires
            total_arithmetic::<T>(),
        ensures
            known == (token@ is Known),
            token_gives(token@, old(self)@, root_two, final(self)@),
            exact_arithmetic::<T>() ==> final(self)@ == token_effect(token@, old(self)@, root_two),
    {
        match token {
            GateToken::Known(gate) => {
                self.apply_gate(*gate, root_two);
                true
            },
            GateToken::Unknown(_) => false,
        }
    }

    /// Applies the tokens in order and returns how many of them were
    /// unknown. The upper four cells are never written.
    pub fn apply_sequence(&mut self, tokens: &Vec<GateToken>, root_two: T) -> (skipped: usize)
        requires
            total_arithmetic::<T>(),
        ensures
            skipped == unknown_count(token_views(tokens@)),
            sequence_gives(token_views(tokens@), old(self)@, root_two, final(self)@),
            forall|k: int| 4 <= k < 8 ==> #[trigger] final(self)@[k] == old(self)@[k],
            exact_arithmetic::<T>() ==> final(self)@ == sequence_effect(
                token_views(tokens@),
                old(self)@,
                root_two,
            ),
    {
        let mut skipped: usize = 0;
        let mut i: usize = 0;
        while i < tokens.len()
            invariant
                i <= tokens@.len(),
                total_arithmetic::<T>(),
                skipped == unknown_count(token_views(tokens@.take(i as int))),
                skipped <= i,
                sequence_gives(token_views(tokens@.take(i as int)), old(self)@, root_two, self@),
            decreases tokens@.len() - i,
        {
            let ghost between = self@;
            let known = self.apply_token(&tokens[i], root_two);
            proof {
                let grown = token_views(tokens@.take(i + 1));
                assert(grown.drop_last() =~= token_views(tokens@.take(i as int)));
            }
            if !known {
                skipped = skipped + 1;
            }
            i = i + 1;
        }
        proof {
            assert(tokens@.take(i as int) =~= tokens@);
            lemma_sequence_keeps_shape(token_views(tokens@), old(self)@, root_two, self@);
            if exact_arithmetic::<T>() {
                lemma_exact_sequence(token_views(tokens@), old(self)@, root_two, self@);
            }
        }
        skipped
    }
}

/// Runs one simulation. The line is parsed, its tokens are applied in order
/// to the ground state, and the result is measured with one trial for each
/// draw. Unknown tokens are kept in the report and change nothing.
pub fn run_simulation<T: Scalar, F: Fn(T) -> T>(
    line: &str,
    numerics: &Numerics<T>,
    policy: Normalization,
    sqrt: &F,
    draws: &[T],
) -> (result: Result<SimulationReport<T>, SimulationError>)
    requires
        total_arithmetic::<T>(),
        forall|x: T| sqrt.requires((x,)),
    ensures
        simulation_gives(parsed(line@), *numerics, policy, sqrt, draws@, result),
        policy == Normalization::Keep ==> result is Ok,
        result matches Ok(report) ==> report.counts.spec_total() <= draws@.len(),
        exact_arithmetic::<T>() ==> simulated(
            parsed(line@),
            *numerics,
            policy,
            sqrt,
            draws@,
            result,
        ),
{
    let tokens = parse_gate_sequence(line);
    let mut state = AmplitudeVector::ground(numerics.zero, numerics.one);
    state.apply_sequence(&tokens, numerics.root_two);
    let ghost evolved = state@;
    assert(sequence_gives(
        parsed(line@),
        ground_state(numerics.zero, numerics.one),
        numerics.root_two,
        evolved,
    ));
    match measure_state_vector(&mut state, numerics, policy, sqrt, draws) {
        Ok(counts) => Ok(SimulationReport { tokens, state, counts }),
        Err(e) => Err(e),
    }
}

} // verus!
