//! A single stake as sortition sees it.

use vstd::prelude::*;

verus! {

/// The stake of a provisioner: the amount locked, the part of it that is
/// still in play during a sortition, the reward collected so far, the replay
/// counter and the round from which the stake counts.
#[derive(Clone, Copy, Debug)]
pub struct Stake {
    /// The amount locked. Sortition never changes it.
    pub value: u64,
    /// What is left of `value` while a committee is being drawn.
    pub intermediate_value: u64,
    pub reward: u64,
    pub counter: u64,
    pub eligible_since: u64,
}

impl Default for Stake {
    fn default() -> (stake: Self)
        ensures
            stake.amount() == 0,
            stake.intermediate_value == 0,
            stake.reward == 0,
            stake.counter == 0,
            stake.eligible_since == 0,
    {
        Stake { value: 0, intermediate_value: 0, reward: 0, counter: 0, eligible_since: 0 }
    }
}

impl Stake {
    /// The amount locked, as a specification value.
    pub open spec fn amount(&self) -> u64 {
        self.value
    }

    /// Whether the stake counts toward sortition at `round`.
    pub open spec fn eligible_at(&self, round: u64) -> bool {
        self.eligible_since <= round
    }

    /// What `new` returns.
    pub open spec fn new_spec(value: u64, reward: u64, eligible_since: u64) -> Stake {
        Stake { value, intermediate_value: value, reward, eligible_since, counter: 0 }
    }

    /// A stake of `value` with a fresh counter, fully in play.
    pub fn new(value: u64, reward: u64, eligible_since: u64) -> (stake: Self)
        ensures
            stake == Self::new_spec(value, reward, eligible_since),
    {
        Stake { value, intermediate_value: value, reward, eligible_since, counter: 0 }
    }

    #[verifier::when_used_as_spec(amount)]
    pub fn value(&self) -> (value: u64)
        ensures
            value == self.amount(),
    {
        self.value
    }

    /// A stake of `value` that is eligible from the first round on.
    pub fn from_value(value: u64) -> (stake: Self)
        ensures
            stake.amount() == value,
            stake.intermediate_value == value,
            stake.reward == 0,
            stake.counter == 0,
            stake.eligible_since == 0,
    {
        Stake { value, intermediate_value: value, ..Default::default() }
    }

    pub fn is_eligible(&self, round: u64) -> (eligible: bool)
        ensures
            eligible == self.eligible_at(round),
    {
        self.eligible_since <= round
    }

    /// Takes `sub` out of the locked amount, or all of it where less is
    /// left, and returns what was taken. The part in play never exceeds the
    /// amount afterwards.
    pub fn subtract(&mut self, sub: u64) -> (taken: u64)
        ensures
            taken == if old(self).amount() <= sub { old(self).amount() } else { sub },
            final(self).amount() == old(self).amount() - taken,
            final(self).intermediate_value == if old(self).intermediate_value <= final(self).amount() {
                old(self).intermediate_value
            } else {
                final(self).amount()
            },
            final(self).reward == old(self).reward,
            final(self).counter == old(self).counter,
            final(self).eligible_since == old(self).eligible_since,
    {
        let taken = if self.value <= sub { self.value } else { sub };
        self.value = self.value - taken;
        if self.intermediate_value > self.value {
            self.intermediate_value = self.value;
        }
        taken
    }

    /// Puts the whole amount back in play.
    pub fn restore_intermediate_value(&mut self)
        ensures
            final(self).intermediate_value == old(self).amount(),
            final(self).amount() == old(self).amount(),
            final(self).reward == old(self).reward,
            final(self).counter == old(self).counter,
            final(self).eligible_since == old(self).eligible_since,
    {
        self.intermediate_value = self.value;
    }
}

} // verus!
