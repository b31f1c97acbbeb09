//! The per-trial accumulator of success probability and cost.
use vstd::prelude::*;
use crate::fixed::ONE;

verus! {

/// Probability and cost state of one computation, mutated once per trial.
///
/// `cumulative_success` is the probability of at least one success so far,
/// `fail_carry` the probability mass that has not succeeded yet; the two
/// always sum to exactly [`ONE`]. The `initial_*` fields are the values fixed
/// at configuration time, used by the rollback fallback.
#[derive(Clone, Copy, Debug, PartialEq, Eq)]
pub struct StepState {
    pub probability: u64,
    pub bonus: u64,
    pub cost: u64,
    pub cumulative_success: u64,
    pub fail_carry: u64,
    pub initial_probability: u64,
    pub initial_bonus: u64,
    pub initial_cost: u64,
}

/// Success chance of one trial: probability plus bonus, capped at one.
pub open spec fn success_rate(probability: nat, bonus: nat) -> nat {
    if probability + bonus >= ONE {
        ONE as nat
    } else {
        probability + bonus
    }
}

impl StepState {
    pub open spec fn wf(&self) -> bool {
        &&& self.probability <= ONE
        &&& self.bonus <= ONE
        &&& self.initial_probability <= ONE
        &&& self.initial_bonus <= ONE
        &&& self.cumulative_success + self.fail_carry == ONE
    }

    /// The carry after one more trial: the unresolved mass times the chance
    /// of failing, rounded down; the mass that converted goes to success.
    pub open spec fn carry_after(&self) -> nat {
        let keep = (ONE - success_rate(self.probability as nat, self.bonus as nat)) as nat;
        ((self.fail_carry as nat) * keep / (ONE as nat)) as nat
    }

    pub open spec fn advanced(self) -> StepState {
        StepState {
            cumulative_success: (self.cumulative_success + self.fail_carry
                - self.carry_after()) as u64,
            fail_carry: self.carry_after() as u64,
            ..self
        }
    }

    pub open spec fn new_spec(probability: u64, bonus: u64, cost: u64) -> StepState {
        StepState {
            probability,
            bonus,
            cost,
            cumulative_success: 0,
            fail_carry: ONE,
            initial_probability: probability,
            initial_bonus: bonus,
            initial_cost: cost,
        }
    }

    /// A fresh state: nothing succeeded yet, all mass still in play.
    pub fn new(probability: u64, bonus: u64, cost: u64) -> (r: StepState)
        requires
            probability <= ONE,
            bonus <= ONE,
        ensures
            r.wf(),
            r == StepState::new_spec(probability, bonus, cost),
            r.probability == probability && r.initial_probability == probability,
            r.bonus == bonus && r.initial_bonus == bonus,
            r.cost == cost && r.initial_cost == cost,
            r.cumulative_success == 0,
            r.fail_carry == ONE,
    {
        StepState {
            probability,
            bonus,
            cost,
            cumulative_success: 0,
            fail_carry: ONE,
            initial_probability: probability,
            initial_bonus: bonus,
            initial_cost: cost,
        }
    }

    /// Runs one trial: a share of the unresolved mass equal to the trial's
    /// success chance converts to success.
    pub fn advance(&mut self)
        requires
            old(self).wf(),
        ensures
            *final(self) == old(self).advanced(),
            final(self).wf(),
            final(self).cumulative_success >= old(self).cumulative_success,
            final(self).fail_carry <= old(self).fail_carry,
    {
        let sum = self.probability + self.bonus;
        let success = if sum >= ONE {
            ONE
        } else {
            sum
        };
        assert(self.fail_carry * (ONE - success) <= ONE * ONE) by (nonlinear_arith)
            requires
                self.fail_carry <= ONE,
                success <= ONE,
        ;
        let product = self.fail_carry * (ONE - success);
        assert(product <= self.fail_carry * ONE) by (nonlinear_arith)
            requires
                product == self.fail_carry * (ONE - success),
                success <= ONE,
        ;
        let carry = product / ONE;
        assert(carry <= self.fail_carry) by (nonlinear_arith)
            requires
                carry == product / ONE,
                product <= self.fail_carry * ONE,
        ;
        self.cumulative_success = self.cumulative_success + (self.fail_carry - carry);
        self.fail_carry = carry;
    }
}

} // verus!
