//! The amplitude vector and the gates' effect on it.

use core::ops::Neg;
use crate::gate::{Gate, Rule};
use crate::scalar::{
    add_gives, div_gives, exact_arithmetic, neg_gives, sub_gives, total_arithmetic, Scalar,
};
use vstd::prelude::*;
use vstd::std_specs::ops::{AddSpec, DivSpec, NegSpec, SubSpec};

verus! {

/// The eight amplitudes of the register. Cells `2k` and `2k + 1` belong to
/// bucket `k`.
#[derive(Debug)]
pub struct AmplitudeVector<T> {
    pub cells: [T; 8],
}

/// The amplitudes of the ground state: `one` in cell 0, `zero` elsewhere.
pub open spec fn ground_state<T>(zero: T, one: T) -> Seq<T> {
    seq![one, zero, zero, zero, zero, zero, zero, zero]
}

/// `s` with the cells `i` and `j` exchanged.
pub open spec fn swapped<T>(s: Seq<T>, i: int, j: int) -> Seq<T> {
    s.update(i, s[j]).update(j, s[i])
}

// What the operators may give.

/// Mixing `a` and `b` may give `x` and `y`: `x` is what a sum of `a` and
/// `b` gives when divided by `root_two`, `y` what a difference of them
/// gives.
pub open spec fn mix_gives<T: Scalar>(a: T, b: T, root_two: T, x: T, y: T) -> bool {
    exists|sum: T, difference: T|
        {
            &&& #[trigger] add_gives(a, b, sum)
            &&& #[trigger] sub_gives(a, b, difference)
            &&& div_gives(sum, root_two, x)
            &&& div_gives(difference, root_two, y)
        }
}

/// One rule may turn the amplitudes `before` into `after`. A swap leaves no
/// choice; a sign flip and a mixing change the cells they name to what the
/// operators give, and no other cell.
pub open spec fn rule_gives<T: Scalar>(
    rule: Rule,
    before: Seq<T>,
    root_two: T,
    after: Seq<T>,
) -> bool {
    match rule {
        Rule::Swap(i, j) => after == swapped(before, i as int, j as int),
        Rule::Negate(i) => {
            &&& after == before.update(i as int, after[i as int])
            &&& neg_gives(before[i as int], after[i as int])
        },
        Rule::Mix(base) => {
            &&& after == before.update(base as int, after[base as int]).update(
                base + 2,
                after[base + 2],
            )
            &&& mix_gives(
                before[base as int],
                before[base + 2],
                root_two,
                after[base as int],
                after[base + 2],
            )
        },
    }
}

/// One gate may turn the amplitudes `before` into `after`.
pub open spec fn gate_gives<T: Scalar>(
    gate: Gate,
    before: Seq<T>,
    root_two: T,
    after: Seq<T>,
) -> bool {
    rule_gives(gate.spec_rule(), before, root_two, after)
}

// The same as formulas, for exact arithmetic.

/// `s` with the sign of cell `i` flipped.
pub open spec fn negated<T: Scalar>(s: Seq<T>, i: int) -> Seq<T> {
    s.update(i, s[i].neg_spec())
}

/// `s` with the cells `base` and `base + 2` replaced by their sum and their
/// difference, each divided by `root_two`.
pub open spec fn mixed<T: Scalar>(s: Seq<T>, base: int, root_two: T) -> Seq<T> {
    s.update(base, s[base].add_spec(s[base + 2]).div_spec(root_two)).update(
        base + 2,
        s[base].sub_spec(s[base + 2]).div_spec(root_two),
    )
}

/// The amplitudes after one rule.
pub open spec fn rule_effect<T: Scalar>(rule: Rule, s: Seq<T>, root_two: T) -> Seq<T> {
    match rule {
        Rule::Swap(i, j) => swapped(s, i as int, j as int),
        Rule::Negate(i) => negated(s, i as int),
        Rule::Mix(base) => mixed(s, base as int, root_two),
    }
}

/// The amplitudes after one gate.
pub open spec fn gate_effect<T: Scalar>(gate: Gate, s: Seq<T>, root_two: T) -> Seq<T> {
    rule_effect(gate.spec_rule(), s, root_two)
}

/// With exact arithmetic a rule leaves no choice: what it may give is what
/// the formula gives.
pub proof fn lemma_exact_rule<T: Scalar>(rule: Rule, before: Seq<T>, root_two: T, after: Seq<T>)
    requires
        exact_arithmetic::<T>(),
        rule.in_range(),
        before.len() == 8,
        rule_gives(rule, before, root_two, after),
    ensures
        after == rule_effect(rule, before, root_two),
{
}

/// Exchanging the same two cells twice gives the sequence back.
pub proof fn lemma_swap_twice_restores<T>(s: Seq<T>, i: int, j: int)
    requires
        0 <= i < s.len(),
        0 <= j < s.len(),
    ensures
        swapped(swapped(s, i, j), i, j) == s,
{
}

/// A gate whose rule is a swap undoes itself: applied twice in succession
/// it restores every amplitude, whatever the number type.
pub proof fn lemma_swap_gate_undoes_itself<T: Scalar>(
    gate: Gate,
    before: Seq<T>,
    root_two: T,
    between: Seq<T>,
    after: Seq<T>,
)
    requires
        before.len() == 8,
        gate.spec_rule() is Swap,
        gate_gives(gate, before, root_two, between),
        gate_gives(gate, between, root_two, after),
    ensures
        after == before,
{
    match gate.spec_rule() {
        Rule::Swap(i, j) => {
            lemma_swap_twice_restores(before, i as int, j as int);
        },
        _ => {},
    }
}

/// On the number type, mixing two numbers twice with `root_two` gives the
/// two numbers back. Real numbers have this property with the square root of
/// two; rounded arithmetic has it only approximately.
pub open spec fn mixing_undoes_itself<T: Scalar>(root_two: T) -> bool {
    forall|a: T, b: T|
        {
            let sum = #[trigger] a.add_spec(b).div_spec(root_two);
            let difference = #[trigger] a.sub_spec(b).div_spec(root_two);
            &&& sum.add_spec(difference).div_spec(root_two) == a
            &&& sum.sub_spec(difference).div_spec(root_two) == b
        }
}

/// Where mixing undoes itself on the number type, mixing the same two cells
/// twice in succession restores every amplitude.
pub proof fn lemma_mix_twice_restores<T: Scalar>(s: Seq<T>, base: int, root_two: T)
    requires
        0 <= base,
        base + 2 < s.len(),
        mixing_undoes_itself(root_two),
    ensures
        mixed(mixed(s, base, root_two), base, root_two) == s,
{
    let sum = s[base].add_spec(s[base + 2]).div_spec(root_two);
    let difference = s[base].sub_spec(s[base + 2]).div_spec(root_two);
    assert(sum.add_spec(difference).div_spec(root_two) == s[base]);
    assert(sum.sub_spec(difference).div_spec(root_two) == s[base + 2]);
}

/// Whatever a gate gives, it gives eight amplitudes for eight and leaves
/// the upper four cells as they are.
pub proof fn lemma_gate_keeps_shape<T: Scalar>(
    gate: Gate,
    before: Seq<T>,
    root_two: T,
    after: Seq<T>,
)
    requires
        before.len() == 8,
        gate_gives(gate, before, root_two, after),
    ensures
        after.len() == 8,
        forall|k: int| 4 <= k < 8 ==> #[trigger] after[k] == before[k],
{
}

impl<T: Scalar> AmplitudeVector<T> {
    /// The amplitudes as a sequence of length eight.
    pub open spec fn view(&self) -> Seq<T> {
        self.cells@
    }

    /// The ground state.
    pub fn ground(zero: T, one: T) -> (state: Self)
        ensures
            state@ == ground_state(zero, one),
    {
        AmplitudeVector { cells: [one, zero, zero, zero, zero, zero, zero, zero] }
    }

    /// Exchanges the cells `i` and `j`.
    pub fn swap(&mut self, i: usize, j: usize)
        requires
            i < 8,
            j < 8,
        ensures
            final(self)@ == swapped(old(self)@, i as int, j as int),
    {
        let a = self.cells[i];
        let b = self.cells[j];
        self.cells[i] = b;
        self.cells[j] = a;
    }

    /// Flips the sign of cell `i`. No other cell changes.
    pub fn negate(&mut self, i: usize)
        requires
            i < 8,
            total_arithmetic::<T>(),
        ensures
            final(self)@ == old(self)@.update(i as int, final(self)@[i as int]),
            neg_gives(old(self)@[i as int], final(self)@[i as int]),
            exact_arithmetic::<T>() ==> final(self)@ == negated(old(self)@, i as int),
    {
        let a = self.cells[i];
        self.cells[i] = a.neg();
    }

    /// Mixes the cells `base` and `base + 2`: the first becomes their sum
    /// over `root_two`, the second their difference over `root_two`, both
    /// taken of the values before the call. No other cell changes.
    pub fn apply_hadamard(&mut self, base: usize, root_two: T)
        requires
            base < 6,
            total_arithmetic::<T>(),
        ensures
            rule_gives(Rule::Mix(base), old(self)@, root_two, final(self)@),
            exact_arithmetic::<T>() ==> final(self)@ == mixed(old(self)@, base as int, root_two),
    {
        let sum = self.cells[base] + self.cells[base + 2];
        let difference = self.cells[base] - self.cells[base + 2];
        let a = sum / root_two;
        let b = difference / root_two;
        self.cells[base] = a;
        self.cells[base + 2] = b;
        proof {
            assert(add_gives(old(self)@[base as int], old(self)@[base + 2], sum));
            assert(sub_gives(old(self)@[base as int], old(self)@[base + 2], difference));
        }
    }

    /// Applies one rule to the cells it names. No other cell changes.
    pub fn apply_rule(&mut self, rule: Rule, root_two: T)
        requires
            rule.in_range(),
            total_arithmetic::<T>(),
        ensures
            rule_gives(rule, old(self)@, root_two, final(self)@),
            exact_arithmetic::<T>() ==> final(self)@ == rule_effect(rule, old(self)@, root_two),
    {
        match rule {
            Rule::Swap(i, j) => {
                assert(rule.touches(i as int) && rule.touches(j as int));
                self.swap(i, j)
            },
            Rule::Negate(i) => {
                assert(rule.touches(i as int));
                self.negate(i)
            },
            Rule::Mix(base) => {
                assert(rule.touches(base + 2));
                self.apply_hadamard(base, root_two)
            },
        }
    }

    /// Applies one gate of the rule table.
    pub fn apply_gate(&mut self, gate: Gate, root_two: T)
        requires
            total_arithmetic::<T>(),
        ensures
            gate_gives(gate, old(self)@, root_two, final(self)@),
            exact_arithmetic::<T>() ==> final(self)@ == gate_effect(gate, old(self)@, root_two),
    {
        self.apply_rule(gate.rule(), root_two)
    }
}

} // verus!
