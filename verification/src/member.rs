//! A provisioner: a public key with the stakes locked under it.

use crate::keys::PublicKey;
use crate::stake::Stake;
use vstd::prelude::*;

verus! {

/// What `stake` weighs in a sortition for `round`: the part of it still in
/// play once it is eligible, nothing before.
pub open spec fn stake_weight(stake: Stake, round: u64) -> nat {
    if stake.eligible_since <= round {
        stake.intermediate_value as nat
    } else {
        0
    }
}

/// The sum of the weights of `stakes` at `round`.
pub open spec fn eligible_weight(stakes: Seq<Stake>, round: u64) -> nat
    decreases stakes.len(),
{
    if stakes.len() == 0 {
        0
    } else {
        eligible_weight(stakes.drop_last(), round) + stake_weight(stakes.last(), round)
    }
}

/// What `stakes` have in play together, whether they count yet or not.
pub open spec fn in_play(stakes: Seq<Stake>) -> nat
    decreases stakes.len(),
{
    if stakes.len() == 0 {
        0
    } else {
        in_play(stakes.drop_last()) + stakes.last().intermediate_value as nat
    }
}

/// What stake `k` gives to a subtraction of `value`: what is still asked
/// once the stakes before it have given, or all that it has in play where
/// that is less.
pub open spec fn share(stakes: Seq<Stake>, value: nat, k: int) -> nat {
    let before = in_play(stakes.take(k));
    let asked = if value > before {
        (value - before) as nat
    } else {
        0
    };
    if asked < stakes[k].intermediate_value {
        asked
    } else {
        stakes[k].intermediate_value as nat
    }
}

/// `stakes` after a subtraction of `value`: the stakes give in their
/// order, each what is still asked or all that it has in play.
pub open spec fn drain(stakes: Seq<Stake>, value: nat) -> Seq<Stake> {
    Seq::new(stakes.len(), |k: int| drained(stakes[k], share(stakes, value, k) as u64))
}

/// `stake` with `taken` removed from the part in play.
pub open spec fn drained(stake: Stake, taken: u64) -> Stake {
    Stake { intermediate_value: (stake.intermediate_value - taken) as u64, ..stake }
}

/// `stake` with its whole amount back in play.
pub open spec fn refilled(stake: Stake) -> Stake {
    Stake { intermediate_value: stake.value, ..stake }
}

/// A provisioner as contracts see it: the encoding of its key and its
/// stakes in the order they were added.
pub struct MemberView {
    pub key: Seq<u8>,
    pub stakes: Seq<Stake>,
}

impl MemberView {
    /// The weight of the member in a sortition for `round`.
    pub open spec fn weight(self, round: u64) -> nat {
        eligible_weight(self.stakes, round)
    }

    /// The member has a stake that counts at `round`.
    pub open spec fn eligible(self, round: u64) -> bool {
        exists|i: int| 0 <= i < self.stakes.len() && (#[trigger] self.stakes[i]).eligible_since <= round
    }

    /// What the member has in play, over all its stakes.
    pub open spec fn in_play(self) -> nat {
        in_play(self.stakes)
    }

    /// What a subtraction of `value` takes: `value`, or all that the
    /// member has in play where that is less.
    pub open spec fn taken(self, value: u64) -> u64 {
        if value < self.in_play() {
            value
        } else {
            self.in_play() as u64
        }
    }

    /// The member after a subtraction of `value`: its stakes have given in
    /// their order until `value` was met or nothing was left in play.
    pub open spec fn after_subtract(self, value: u64) -> MemberView {
        MemberView { key: self.key, stakes: drain(self.stakes, value as nat) }
    }

    /// The member with every stake fully back in play.
    pub open spec fn restored(self) -> MemberView {
        MemberView { key: self.key, stakes: self.stakes.map_values(|s: Stake| refilled(s)) }
    }
}

/// The stakes before `i` and stake `i` have in play what the stakes
/// before `i + 1` have.
pub proof fn lemma_in_play_take(stakes: Seq<Stake>, i: int)
    requires
        0 <= i < stakes.len(),
    ensures
        in_play(stakes.take(i + 1)) == in_play(stakes.take(i)) + stakes[i].intermediate_value,
{
    assert(stakes.take(i + 1).drop_last() =~= stakes.take(i));
}

/// More stakes have no less in play.
pub proof fn lemma_in_play_grows(stakes: Seq<Stake>, i: int, k: int)
    requires
        0 <= i <= k <= stakes.len(),
    ensures
        in_play(stakes.take(i)) <= in_play(stakes.take(k)) <= in_play(stakes),
    decreases stakes.len() - i,
{
    if k < stakes.len() {
        lemma_in_play_take(stakes, k);
        lemma_in_play_grows(stakes, k + 1, k + 1);
    } else {
        assert(stakes.take(k) =~= stakes);
    }
    if i < k {
        lemma_in_play_take(stakes, i);
        lemma_in_play_grows(stakes, i + 1, k);
    }
}

/// Where every stake counts at `round`, the weight is all that is in play.
pub proof fn lemma_in_play_is_weight(stakes: Seq<Stake>, round: u64)
    requires
        forall|k: int| 0 <= k < stakes.len() ==> (#[trigger] stakes[k]).eligible_since <= round,
    ensures
        eligible_weight(stakes, round) == in_play(stakes),
    decreases stakes.len(),
{
    if stakes.len() > 0 {
        assert forall|k: int| 0 <= k < stakes.drop_last().len() implies (
        #[trigger] stakes.drop_last()[k]).eligible_since <= round by {
            assert(stakes[k].eligible_since <= round);
        }
        lemma_in_play_is_weight(stakes.drop_last(), round);
        assert(stakes[stakes.len() - 1].eligible_since <= round);
    }
}

/// A subtraction from all but the last stake is where the subtraction
/// from all the stakes begins.
pub proof fn lemma_drain_drop_last(stakes: Seq<Stake>, value: nat)
    requires
        stakes.len() > 0,
    ensures
        drain(stakes, value).drop_last() == drain(stakes.drop_last(), value),
        drain(stakes, value).last() == drained(
            stakes.last(),
            share(stakes, value, stakes.len() - 1) as u64,
        ),
        share(stakes, value, stakes.len() - 1) == if value <= in_play(stakes.drop_last()) {
            0
        } else if value - in_play(stakes.drop_last()) < stakes.last().intermediate_value {
            value - in_play(stakes.drop_last())
        } else {
            stakes.last().intermediate_value as int
        },
{
    let front = stakes.drop_last();
    assert(stakes.take(stakes.len() - 1) =~= front);
    assert forall|k: int| 0 <= k < front.len() implies share(front, value, k) == share(
        stakes,
        value,
        k,
    ) by {
        assert(front.take(k) =~= stakes.take(k));
    }
    assert(drain(stakes, value).drop_last() =~= drain(front, value));
}

/// A subtraction lowers what the stakes have in play by exactly what it
/// takes, the least of `value` and what was in play. Their weight at
/// `round` falls by no more than that, and does not rise.
pub proof fn lemma_drain(stakes: Seq<Stake>, value: nat, round: u64)
    ensures
        in_play(drain(stakes, value)) + (if value < in_play(stakes) {
            value
        } else {
            in_play(stakes)
        }) == in_play(stakes),
        eligible_weight(drain(stakes, value), round) <= eligible_weight(stakes, round),
        eligible_weight(stakes, round) <= eligible_weight(drain(stakes, value), round) + (if value
            < in_play(stakes) {
            value
        } else {
            in_play(stakes)
        }),
    decreases stakes.len(),
{
    if stakes.len() > 0 {
        lemma_drain_drop_last(stakes, value);
        lemma_drain(stakes.drop_last(), value, round);
    } else {
        assert(drain(stakes, value) =~= stakes);
    }
}

/// Replacing one stake changes the weight by the difference of the two.
pub proof fn lemma_eligible_weight_update(stakes: Seq<Stake>, round: u64, i: int, stake: Stake)
    requires
        0 <= i < stakes.len(),
    ensures
        eligible_weight(stakes.update(i, stake), round) + stake_weight(stakes[i], round)
            == eligible_weight(stakes, round) + stake_weight(stake, round),
    decreases stakes.len(),
{
    let updated = stakes.update(i, stake);
    if i == stakes.len() - 1 {
        assert(updated.drop_last() =~= stakes.drop_last());
    } else {
        assert(updated.drop_last() =~= stakes.drop_last().update(i, stake));
        lemma_eligible_weight_update(stakes.drop_last(), round, i, stake);
    }
}

/// A member with weight has a stake that counts.
pub proof fn lemma_weight_needs_eligible(stakes: Seq<Stake>, round: u64)
    requires
        eligible_weight(stakes, round) > 0,
    ensures
        exists|i: int| 0 <= i < stakes.len() && (#[trigger] stakes[i]).eligible_since <= round,
    decreases stakes.len(),
{
    if stake_weight(stakes.last(), round) > 0 {
        assert(stakes[stakes.len() - 1].eligible_since <= round);
    } else {
        lemma_weight_needs_eligible(stakes.drop_last(), round);
        let i = choose|i: int|
            0 <= i < stakes.drop_last().len() && (#[trigger] stakes.drop_last()[i]).eligible_since
                <= round;
    }
}

/// A subtraction lowers what a member has in play by exactly what it
/// takes. No stake has more in play than before, and the amount, reward,
/// counter and round of every stake stay. The weight of the member at
/// `round` falls by no more than what was taken.
pub proof fn lemma_subtract_weight(member: MemberView, value: u64, round: u64)
    ensures
        member.after_subtract(value).in_play() + member.taken(value) == member.in_play(),
        member.after_subtract(value).weight(round) <= member.weight(round),
        member.weight(round) <= member.after_subtract(value).weight(round) + member.taken(value),
        member.after_subtract(value).key == member.key,
        member.after_subtract(value).eligible(round) == member.eligible(round),
        member.after_subtract(value).stakes.len() == member.stakes.len(),
        forall|k: int|
            0 <= k < member.stakes.len() ==> {
                let before = member.stakes[k];
                let after = #[trigger] member.after_subtract(value).stakes[k];
                &&& after.intermediate_value <= before.intermediate_value
                &&& after.value == before.value
                &&& after.reward == before.reward
                &&& after.counter == before.counter
                &&& after.eligible_since == before.eligible_since
            },
{
    lemma_drain(member.stakes, value as nat, round);
    let after = member.after_subtract(value);
    if member.eligible(round) {
        let k = choose|k: int|
            0 <= k < member.stakes.len() && (#[trigger] member.stakes[k]).eligible_since <= round;
        assert(after.stakes[k].eligible_since <= round);
    }
    if after.eligible(round) {
        let k = choose|k: int|
            0 <= k < after.stakes.len() && (#[trigger] after.stakes[k]).eligible_since <= round;
        assert(member.stakes[k].eligible_since <= round);
    }
}

/// A provisioner: its public key and the stakes locked under it.
#[derive(Debug)]
pub struct Member {
    stakes: Vec<Stake>,
    pubkey_bls: PublicKey,
}

impl View for Member {
    type V = MemberView;

    closed spec fn view(&self) -> MemberView {
        MemberView { key: self.pubkey_bls@, stakes: self.stakes@ }
    }
}

impl Clone for Member {
    fn clone(&self) -> (copy: Self)
        ensures
            copy@ == self@,
    {
        let mut stakes: Vec<Stake> = Vec::new();
        let mut i: usize = 0;
        while i < self.stakes.len()
            invariant
                i <= self.stakes.len(),
                stakes@ == self.stakes@.take(i as int),
            decreases self.stakes.len() - i,
        {
            stakes.push(self.stakes[i]);
            i += 1;
        }
        assert(self.stakes@.take(i as int) =~= self.stakes@);
        Member { stakes, pubkey_bls: self.pubkey_bls }
    }
}

impl Member {
    /// A member without stakes.
    pub fn new(pubkey_bls: PublicKey) -> (member: Self)
        ensures
            member@.key == pubkey_bls@,
            member@.stakes == Seq::<Stake>::empty(),
    {
        Member { stakes: Vec::new(), pubkey_bls }
    }

    pub fn first_stake(&self) -> (stake: Option<&Stake>)
        ensures
            match stake {
                Some(s) => self@.stakes.len() > 0 && *s == self@.stakes[0],
                None => self@.stakes.len() == 0,
            },
    {
        if self.stakes.len() > 0 {
            Some(&self.stakes[0])
        } else {
            None
        }
    }

    pub fn public_key(&self) -> (key: &PublicKey)
        ensures
            key@ == self@.key,
    {
        &self.pubkey_bls
    }

    /// Appends a stake to the stakes of the member.
    pub fn add_stake(&mut self, stake: Stake)
        ensures
            final(self)@.key == old(self)@.key,
            final(self)@.stakes == old(self)@.stakes.push(stake),
    {
        self.stakes.push(stake);
    }

    /// Whether any stake of the member counts at `round`.
    pub fn is_eligible(&self, round: u64) -> (eligible: bool)
        ensures
            eligible == self@.eligible(round),
    {
        let mut i: usize = 0;
        while i < self.stakes.len()
            invariant
                i <= self.stakes.len(),
                forall|k: int| 0 <= k < i ==> (#[trigger] self.stakes@[k]).eligible_since > round,
            decreases self.stakes.len() - i,
        {
            if self.stakes[i].eligible_since <= round {
                assert(self@.stakes[i as int].eligible_since <= round);
                return true;
            }
            i += 1;
        }
        false
    }

    /// Lowers what the member has in play by `value`, or by all of it
    /// where that is less, and returns what was taken. The stakes give in
    /// their order, each until `value` is met or it has nothing left.
    pub fn subtract_from_stake(&mut self, value: u64) -> (taken: u64)
        ensures
            taken == old(self)@.taken(value),
            final(self)@ == old(self)@.after_subtract(value),
            final(self)@.in_play() + taken == old(self)@.in_play(),
    {
        let len = self.stakes.len();
        let mut remaining = value;
        let mut i: usize = 0;
        assert(self.stakes@.take(0) =~= Seq::<Stake>::empty());
        while i < len && remaining > 0
            invariant
                i <= len,
                len == old(self).stakes@.len(),
                len == self.stakes@.len(),
                self.pubkey_bls == old(self).pubkey_bls,
                remaining <= value,
                remaining == if value > in_play(old(self).stakes@.take(i as int)) {
                    value - in_play(old(self).stakes@.take(i as int))
                } else {
                    0
                },
                forall|k: int|
                    0 <= k < i ==> self.stakes@[k] == drained(
                        #[trigger] old(self).stakes@[k],
                        share(old(self).stakes@, value as nat, k) as u64,
                    ),
                forall|k: int| i <= k < len ==> self.stakes@[k] == old(self).stakes@[k],
            decreases len - i,
        {
            let in_stake = self.stakes[i].intermediate_value;
            let given = if in_stake < remaining { in_stake } else { remaining };
            proof {
                lemma_in_play_take(old(self).stakes@, i as int);
            }
            let stake = &mut self.stakes[i];
            stake.intermediate_value = in_stake - given;
            remaining = remaining - given;
            i += 1;
        }
        proof {
            let before = old(self).stakes@;
            lemma_in_play_grows(before, i as int, i as int);
            assert forall|k: int| i <= k < len implies self.stakes@[k] == drained(
                #[trigger] before[k],
                share(before, value as nat, k) as u64,
            ) by {
                lemma_in_play_grows(before, i as int, k);
            }
            if i == len {
                assert(before.take(i as int) =~= before);
            }
            assert(self.stakes@ =~= drain(before, value as nat));
            lemma_drain(before, value as nat, 0);
        }
        value - remaining
    }

    /// Puts every stake of the member fully back in play.
    pub fn restore_intermediate_value(&mut self)
        ensures
            final(self)@ == old(self)@.restored(),
    {
        let mut i: usize = 0;
        while i < self.stakes.len()
            invariant
                i <= self.stakes.len(),
                self.pubkey_bls == old(self).pubkey_bls,
                self.stakes@.len() == old(self).stakes@.len(),
                forall|k: int| 0 <= k < i ==> self.stakes@[k] == refilled(#[trigger] old(self).stakes@[k]),
                forall|k: int| i <= k < self.stakes@.len() ==> self.stakes@[k] == old(self).stakes@[k],
            decreases self.stakes.len() - i,
        {
            let stake = &mut self.stakes[i];
            stake.restore_intermediate_value();
            i += 1;
        }
        assert(self@.stakes =~= old(self)@.restored().stakes);
    }

    /// The weight of the member in a sortition for `round`.
    pub fn get_total_eligible_stake(&self, round: u64) -> (total: u128)
        ensures
            total == self@.weight(round),
    {
        let mut total: u128 = 0;
        let mut i: usize = 0;
        while i < self.stakes.len()
            invariant
                i <= self.stakes.len(),
                total == eligible_weight(self.stakes@.take(i as int), round),
                total <= i * 0xffff_ffff_ffff_ffff,
            decreases self.stakes.len() - i,
        {
            proof {
                assert(self.stakes@.take(i + 1).drop_last() =~= self.stakes@.take(i as int));
            }
            if self.stakes[i].eligible_since <= round {
                total = total + self.stakes[i].intermediate_value as u128;
            }
            i += 1;
        }
        assert(self.stakes@.take(i as int) =~= self.stakes@);
        total
    }
}

} // verus!
