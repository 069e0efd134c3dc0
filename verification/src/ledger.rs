//! The stake ledger: who has locked how much, since when, with what reward,
//! and how much has been confiscated.
//!
//! The ledger decides; it moves no coins itself. What a deposit brings in
//! and what a withdrawal or an unstake pays out is handed to the caller in
//! the receipt, and the caller settles it with the transfer contract. A
//! request that is refused leaves the ledger as it was.

use crate::contract_id::{transfer_contract_id, uninitialized_id, ContractId};
use crate::keys::PublicKey;
use crate::ordered_map::{get, put, sorted_by_key, OrderedMap};
use vstd::prelude::*;

verus! {

/// The minimum amount one can stake: 1,000 coins.
pub const MINIMUM_STAKE: u64 = 1_000_000_000_000;

/// The record of one validator: the amount staked with the round from
/// which it counts, the reward collected, and the number of requests the
/// validator has had accepted.
#[derive(Clone, Copy, Debug, PartialEq, Eq)]
pub struct StakeData {
    /// The amount staked and the round from which it is eligible.
    pub amount: Option<(u64, u64)>,
    pub reward: u64,
    pub counter: u64,
}

/// The record of a key that the ledger has never seen.
pub open spec fn vacant_record() -> StakeData {
    StakeData { amount: None, reward: 0, counter: 0 }
}

impl StakeData {
    /// The amount staked, zero where nothing is.
    pub open spec fn staked(self) -> nat {
        match self.amount {
            Some((value, _)) => value as nat,
            None => 0,
        }
    }

    /// What the record holds for its validator: stake and reward.
    pub open spec fn held(self) -> nat {
        self.staked() + self.reward as nat
    }

    /// The record with `value` taken out of the amount staked.
    pub open spec fn less_staked(self, value: nat) -> StakeData {
        match self.amount {
            Some((staked, since)) => StakeData {
                amount: Some(((staked - value) as u64, since)),
                ..self
            },
            None => self,
        }
    }

    /// A record with nothing staked, no reward and a fresh counter.
    pub fn vacant() -> (record: Self)
        ensures
            record == vacant_record(),
    {
        StakeData { amount: None, reward: 0, counter: 0 }
    }

    /// The amount staked, zero where nothing is.
    pub fn staked_amount(&self) -> (value: u64)
        ensures
            value == self.staked(),
    {
        match self.amount {
            Some((value, _)) => value,
            None => 0,
        }
    }
}

/// Why the ledger refused a request.
#[derive(Clone, Copy, Debug, PartialEq, Eq)]
pub enum Error {
    /// The caller may not make this call.
    Unauthorized,
    /// The counter of the request is not the counter of the record.
    Replay,
    /// The signature over the request did not verify.
    InvalidSignature,
    /// There is no reward to withdraw.
    NoReward,
    /// There is no stake to take out.
    NoStake,
    /// The deposit is below the minimum stake.
    InsufficientStake,
    /// An amount or a counter would exceed 64 bits.
    Overflow,
}

/// What happened to a stake.
#[derive(Clone, Copy, Debug, PartialEq, Eq)]
pub enum Topic {
    Stake,
    Unstake,
    Withdraw,
    Reward,
    Slash,
    HardSlash,
}

/// The event that an accepted request emits: what happened, to whom, and
/// the amount that moved.
#[derive(Clone, Copy, Debug, PartialEq, Eq)]
pub struct StakingEvent {
    pub topic: Topic,
    pub public_key: PublicKey,
    pub value: u64,
}

/// What the caller has to settle after an accepted request.
#[derive(Clone, Copy, Debug, PartialEq, Eq)]
pub struct Receipt {
    pub event: StakingEvent,
    /// Coins that enter the ledger: a deposit or a reward.
    pub paid_in: u64,
    /// Coins that leave the ledger toward the validator.
    pub paid_out: u64,
}

/// A request that moves value through the ledger.
///
/// `authentic` tells whether the signature over the message of the request
/// verified; the message binds the request to `counter`.
#[derive(Clone, Copy, Debug, PartialEq, Eq)]
pub enum Operation {
    Stake { public_key: PublicKey, value: u64, eligible_since: u64, counter: u64, authentic: bool },
    Withdraw { public_key: PublicKey, counter: u64, authentic: bool },
    Unstake { public_key: PublicKey, counter: u64, authentic: bool },
    Reward { public_key: PublicKey, value: u64 },
    Slash { public_key: PublicKey, value: u64 },
    HardSlash { public_key: PublicKey, value: u64 },
}

impl Operation {
    /// The key whose record the request is about.
    pub open spec fn key(self) -> PublicKey {
        match self {
            Operation::Stake { public_key, .. } => public_key,
            Operation::Withdraw { public_key, .. } => public_key,
            Operation::Unstake { public_key, .. } => public_key,
            Operation::Reward { public_key, .. } => public_key,
            Operation::Slash { public_key, .. } => public_key,
            Operation::HardSlash { public_key, .. } => public_key,
        }
    }

    /// The request is one that only the transfer contract may make.
    pub open spec fn from_transfer(self) -> bool {
        self is Stake || self is Withdraw || self is Unstake
    }
}

/// The ledger as contracts see it: the records in canonical key order, the
/// pool of confiscated coins, and the version of the ledger's code.
pub struct LedgerView {
    pub records: Seq<(Seq<u8>, StakeData)>,
    pub slashed: u64,
    pub version: u32,
}

/// The record that `records` hold for `key`, or the vacant record.
pub open spec fn record_at(records: Seq<(Seq<u8>, StakeData)>, key: Seq<u8>) -> StakeData {
    match get(records, key) {
        Some(record) => record,
        None => vacant_record(),
    }
}

/// The sum of what the records hold.
pub open spec fn locked(records: Seq<(Seq<u8>, StakeData)>) -> nat
    decreases records.len(),
{
    if records.len() == 0 {
        0
    } else {
        locked(records.drop_last()) + records.last().1.held()
    }
}

/// What a confiscation of `value` takes from a record: from the reward and
/// from the amount staked. A soft one takes from the reward first, a hard
/// one from the amount.
pub open spec fn confiscated(record: StakeData, value: u64, hard: bool) -> (nat, nat) {
    if hard {
        let from_amount = if (value as nat) < record.staked() {
            value as nat
        } else {
            record.staked()
        };
        let rest = (value - from_amount) as nat;
        let from_reward = if rest < record.reward {
            rest
        } else {
            record.reward as nat
        };
        (from_reward, from_amount)
    } else {
        let from_reward = if value < record.reward {
            value as nat
        } else {
            record.reward as nat
        };
        let rest = (value - from_reward) as nat;
        let from_amount = if rest < record.staked() {
            rest
        } else {
            record.staked()
        };
        (from_reward, from_amount)
    }
}

impl LedgerView {
    /// All the value the ledger accounts for: what the records hold and
    /// the pool of confiscated coins.
    pub open spec fn value_held(self) -> nat {
        locked(self.records) + self.slashed as nat
    }

    /// The record of the key of `op`.
    pub open spec fn record(self, op: Operation) -> StakeData {
        record_at(self.records, op.key()@)
    }

    /// Why a caller's request is refused, if it is. The checks are made in
    /// this order: the caller, the counter, the signature, what the
    /// request needs of the record, and the 64 bits of the sums.
    pub open spec fn refusal(self, caller: Seq<u8>, op: Operation) -> Option<Error> {
        let record = self.record(op);
        match op {
            Operation::Stake { value, counter, authentic, .. } => {
                if caller != transfer_contract_id() {
                    Some(Error::Unauthorized)
                } else if counter != record.counter {
                    Some(Error::Replay)
                } else if !authentic {
                    Some(Error::InvalidSignature)
                } else if value < MINIMUM_STAKE {
                    Some(Error::InsufficientStake)
                } else if record.staked() + value > u64::MAX || record.counter == u64::MAX {
                    Some(Error::Overflow)
                } else {
                    None
                }
            },
            Operation::Withdraw { counter, authentic, .. } => {
                if caller != transfer_contract_id() {
                    Some(Error::Unauthorized)
                } else if counter != record.counter {
                    Some(Error::Replay)
                } else if !authentic {
                    Some(Error::InvalidSignature)
                } else if record.reward == 0 {
                    Some(Error::NoReward)
                } else if record.counter == u64::MAX {
                    Some(Error::Overflow)
                } else {
                    None
                }
            },
            Operation::Unstake { counter, authentic, .. } => {
                if caller != transfer_contract_id() {
                    Some(Error::Unauthorized)
                } else if counter != record.counter {
                    Some(Error::Replay)
                } else if !authentic {
                    Some(Error::InvalidSignature)
                } else if record.staked() == 0 {
                    Some(Error::NoStake)
                } else if record.counter == u64::MAX {
                    Some(Error::Overflow)
                } else {
                    None
                }
            },
            Operation::Reward { value, .. } => {
                if caller != uninitialized_id() {
                    Some(Error::Unauthorized)
                } else if record.reward + value > u64::MAX {
                    Some(Error::Overflow)
                } else {
                    None
                }
            },
            Operation::Slash { value, .. } => {
                let (from_reward, from_amount) = confiscated(record, value, false);
                if caller != uninitialized_id() {
                    Some(Error::Unauthorized)
                } else if self.slashed + from_reward + from_amount > u64::MAX {
                    Some(Error::Overflow)
                } else {
                    None
                }
            },
            Operation::HardSlash { value, .. } => {
                let (from_reward, from_amount) = confiscated(record, value, true);
                if caller != uninitialized_id() {
                    Some(Error::Unauthorized)
                } else if self.slashed + from_reward + from_amount > u64::MAX {
                    Some(Error::Overflow)
                } else {
                    None
                }
            },
        }
    }

    /// The record of the key of `op` once `op` is accepted.
    pub open spec fn record_after(self, op: Operation) -> StakeData {
        let record = self.record(op);
        match op {
            Operation::Stake { value, eligible_since, .. } => StakeData {
                amount: Some(
                    match record.amount {
                        Some((staked, since)) => ((staked + value) as u64, since),
                        None => (value, eligible_since),
                    },
                ),
                reward: record.reward,
                counter: (record.counter + 1) as u64,
            },
            Operation::Withdraw { .. } => StakeData {
                reward: 0,
                counter: (record.counter + 1) as u64,
                ..record
            },
            Operation::Unstake { .. } => StakeData {
                amount: None,
                counter: (record.counter + 1) as u64,
                ..record
            },
            Operation::Reward { value, .. } => StakeData {
                reward: (record.reward + value) as u64,
                ..record
            },
            Operation::Slash { value, .. } => {
                let (from_reward, from_amount) = confiscated(record, value, false);
                StakeData { reward: (record.reward - from_reward) as u64, ..record }.less_staked(
                    from_amount,
                )
            },
            Operation::HardSlash { value, .. } => {
                let (from_reward, from_amount) = confiscated(record, value, true);
                StakeData { reward: (record.reward - from_reward) as u64, ..record }.less_staked(
                    from_amount,
                )
            },
        }
    }

    /// What an accepted `op` adds to the pool of confiscated coins.
    pub open spec fn pool_gain(self, op: Operation) -> nat {
        let record = self.record(op);
        match op {
            Operation::Slash { value, .. } => confiscated(record, value, false).0 + confiscated(
                record,
                value,
                false,
            ).1,
            Operation::HardSlash { value, .. } => confiscated(record, value, true).0 + confiscated(
                record,
                value,
                true,
            ).1,
            _ => 0,
        }
    }

    /// Whether an accepted `op` writes a record. A confiscation from a key
    /// that has no record writes none.
    pub open spec fn writes(self, op: Operation) -> bool {
        !(op is Slash || op is HardSlash) || get(self.records, op.key()@).is_some()
    }

    /// The ledger once `op` is accepted.
    pub open spec fn accepted(self, op: Operation) -> LedgerView {
        LedgerView {
            records: if self.writes(op) {
                put(self.records, op.key()@, self.record_after(op))
            } else {
                self.records
            },
            slashed: (self.slashed + self.pool_gain(op)) as u64,
            version: self.version,
        }
    }

    /// What an accepted `op` brings into the ledger.
    pub open spec fn paid_in(self, op: Operation) -> u64 {
        match op {
            Operation::Stake { value, .. } => value,
            Operation::Reward { value, .. } => value,
            _ => 0,
        }
    }

    /// What an accepted `op` pays out of the ledger.
    pub open spec fn paid_out(self, op: Operation) -> u64 {
        match op {
            Operation::Withdraw { .. } => self.record(op).reward,
            Operation::Unstake { .. } => self.record(op).staked() as u64,
            _ => 0,
        }
    }

    /// The event that an accepted `op` emits.
    pub open spec fn emitted(self, op: Operation) -> StakingEvent {
        match op {
            Operation::Stake { public_key, value, .. } => StakingEvent {
                topic: Topic::Stake,
                public_key,
                value,
            },
            Operation::Withdraw { public_key, .. } => StakingEvent {
                topic: Topic::Withdraw,
                public_key,
                value: self.paid_out(op),
            },
            Operation::Unstake { public_key, .. } => StakingEvent {
                topic: Topic::Unstake,
                public_key,
                value: self.paid_out(op),
            },
            Operation::Reward { public_key, value } => StakingEvent {
                topic: Topic::Reward,
                public_key,
                value,
            },
            Operation::Slash { public_key, .. } => StakingEvent {
                topic: Topic::Slash,
                public_key,
                value: self.pool_gain(op) as u64,
            },
            Operation::HardSlash { public_key, .. } => StakingEvent {
                topic: Topic::HardSlash,
                public_key,
                value: self.pool_gain(op) as u64,
            },
        }
    }

    /// What the caller gets back for an accepted `op`.
    pub open spec fn receipt(self, op: Operation) -> Receipt {
        Receipt { event: self.emitted(op), paid_in: self.paid_in(op), paid_out: self.paid_out(op) }
    }

    /// The ledger after `caller` has made the request `op`: as it was where
    /// the request is refused.
    pub open spec fn after(self, caller: Seq<u8>, op: Operation) -> LedgerView {
        if self.refusal(caller, op).is_some() {
            self
        } else {
            self.accepted(op)
        }
    }
}

/// A request as it reaches the ledger: who makes it, and what it asks.
#[derive(Clone, Copy, Debug)]
pub struct Request {
    pub caller: ContractId,
    pub op: Operation,
}

/// The ledger after the requests have been made one after another.
pub open spec fn after_all(ledger: LedgerView, requests: Seq<Request>) -> LedgerView
    decreases requests.len(),
{
    if requests.len() == 0 {
        ledger
    } else {
        after_all(ledger, requests.drop_last()).after(requests.last().caller@, requests.last().op)
    }
}

/// Every one of the requests is accepted when its turn comes.
pub open spec fn all_accepted(ledger: LedgerView, requests: Seq<Request>) -> bool {
    forall|k: int|
        0 <= k < requests.len() ==> after_all(ledger, #[trigger] requests.take(k)).refusal(
            requests[k].caller@,
            requests[k].op,
        ).is_none()
}

/// The receipts of the requests, each for the ledger as it was at its
/// turn.
pub open spec fn receipts_of(ledger: LedgerView, requests: Seq<Request>) -> Seq<Receipt>
    decreases requests.len(),
{
    if requests.len() == 0 {
        Seq::empty()
    } else {
        receipts_of(ledger, requests.drop_last()).push(
            after_all(ledger, requests.drop_last()).receipt(requests.last().op),
        )
    }
}

/// The stake ledger.
pub struct StakeState {
    stakes: OrderedMap<StakeData>,
    slashed_amount: u64,
    version: u32,
}

impl View for StakeState {
    type V = LedgerView;

    closed spec fn view(&self) -> LedgerView {
        LedgerView { records: self.stakes@, slashed: self.slashed_amount, version: self.version }
    }
}

/// Lets a call pass that the transfer contract makes.
pub fn assert_transfer_caller(caller: &ContractId) -> (outcome: Result<(), Error>)
    ensures
        outcome == if caller@ == transfer_contract_id() {
            Ok::<(), Error>(())
        } else {
            Err::<(), Error>(Error::Unauthorized)
        },
{
    if caller.same(&crate::contract_id::transfer_contract()) {
        Ok(())
    } else {
        Err(Error::Unauthorized)
    }
}

/// Lets a call pass that comes from outside the virtual machine, and not
/// from a contract.
pub fn assert_external_caller(caller: &ContractId) -> (outcome: Result<(), Error>)
    ensures
        outcome == if caller@ == uninitialized_id() {
            Ok::<(), Error>(())
        } else {
            Err::<(), Error>(Error::Unauthorized)
        },
{
    if caller.is_uninitialized() {
        Ok(())
    } else {
        Err(Error::Unauthorized)
    }
}

/// Takes `value` from a record, from the reward first or, where `hard`,
/// from the amount staked first. Returns the record that is left and what
/// was taken.
pub fn confiscate(record: &StakeData, value: u64, hard: bool) -> (taken: (StakeData, u64))
    ensures
        taken.1 == confiscated(*record, value, hard).0 + confiscated(*record, value, hard).1,
        taken.0 == (StakeData {
            reward: (record.reward - confiscated(*record, value, hard).0) as u64,
            ..*record
        }).less_staked(confiscated(*record, value, hard).1),
        taken.0.held() + taken.1 == record.held(),
        taken.1 <= value,
{
    let staked = record.staked_amount();
    let (from_reward, from_amount) = if hard {
        let from_amount = if value < staked { value } else { staked };
        let rest = value - from_amount;
        let from_reward = if rest < record.reward { rest } else { record.reward };
        (from_reward, from_amount)
    } else {
        let from_reward = if value < record.reward { value } else { record.reward };
        let rest = value - from_reward;
        let from_amount = if rest < staked { rest } else { staked };
        (from_reward, from_amount)
    };
    let amount = match record.amount {
        Some((staked, since)) => Some((staked - from_amount, since)),
        None => None,
    };
    (
        StakeData { amount, reward: record.reward - from_reward, counter: record.counter },
        from_reward + from_amount,
    )
}

impl StakeState {
    /// The records stand in canonical key order, each key once.
    pub closed spec fn wf(&self) -> bool {
        self.stakes.wf()
    }

    pub proof fn lemma_sorted(&self)
        requires
            self.wf(),
        ensures
            sorted_by_key(self@.records),
    {
    }

    /// An empty ledger that runs the code of `version`.
    pub fn new(version: u32) -> (state: Self)
        ensures
            state.wf(),
            state@ == (LedgerView { records: Seq::empty(), slashed: 0, version }),
    {
        StakeState { stakes: OrderedMap::new(), slashed_amount: 0, version }
    }

    /// The record of `public_key`, if the ledger has one.
    pub fn get_stake(&self, public_key: &PublicKey) -> (record: Option<StakeData>)
        requires
            self.wf(),
        ensures
            record == get(self@.records, public_key@),
    {
        match self.stakes.get(public_key) {
            Some(record) => Some(*record),
            None => None,
        }
    }

    /// The total of the coins confiscated so far.
    pub fn slashed_amount(&self) -> (slashed: u64)
        ensures
            slashed == self@.slashed,
    {
        self.slashed_amount
    }

    /// The version of the code that runs the ledger.
    pub fn get_version(&self) -> (version: u32)
        ensures
            version == self@.version,
    {
        self.version
    }

    /// The number of records.
    pub fn len(&self) -> (len: usize)
        ensures
            len == self@.records.len(),
    {
        self.stakes.len()
    }

    /// Every key with its record, in canonical key order.
    pub fn stakes(&self) -> (all: Vec<(PublicKey, StakeData)>)
        ensures
            all@.len() == self@.records.len(),
            forall|i: int|
                0 <= i < all@.len() ==> (#[trigger] all@[i]).0@ == self@.records[i].0 && all@[i].1
                    == self@.records[i].1,
    {
        let len = self.stakes.len();
        let mut all: Vec<(PublicKey, StakeData)> = Vec::new();
        let mut i: usize = 0;
        while i < len
            invariant
                i <= len,
                len == self@.records.len(),
                all@.len() == i,
                forall|k: int|
                    0 <= k < i ==> (#[trigger] all@[k]).0@ == self@.records[k].0 && all@[k].1
                        == self@.records[k].1,
            decreases len - i,
        {
            all.push((self.stakes.key_at(i), *self.stakes.value_at(i)));
            i += 1;
        }
        all
    }

    /// Puts `record` in place of whatever the ledger holds for
    /// `public_key`. Only a call from outside the virtual machine may.
    pub fn insert_stake(
        &mut self,
        caller: &ContractId,
        public_key: PublicKey,
        record: StakeData,
    ) -> (outcome: Result<(), Error>)
        requires
            old(self).wf(),
        ensures
            final(self).wf(),
            caller@ == uninitialized_id() ==> outcome.is_ok() && final(self)@ == (LedgerView {
                records: put(old(self)@.records, public_key@, record),
                ..old(self)@
            }),
            caller@ != uninitialized_id() ==> outcome == Err::<(), Error>(Error::Unauthorized)
                && final(self)@ == old(self)@,
    {
        if !caller.is_uninitialized() {
            return Err(Error::Unauthorized);
        }
        self.stakes.insert(public_key, record);
        Ok(())
    }

    /// Overwrites the total of the coins confiscated. Only a call from
    /// outside the virtual machine may.
    pub fn set_slashed_amount(&mut self, caller: &ContractId, value: u64) -> (outcome: Result<(), Error>)
        ensures
            final(self).wf() == old(self).wf(),
            caller@ == uninitialized_id() ==> outcome.is_ok() && final(self)@ == (LedgerView {
                slashed: value,
                ..old(self)@
            }),
            caller@ != uninitialized_id() ==> outcome == Err::<(), Error>(Error::Unauthorized)
                && final(self)@ == old(self)@,
    {
        if !caller.is_uninitialized() {
            return Err(Error::Unauthorized);
        }
        self.slashed_amount = value;
        Ok(())
    }

    /// Decides the request `op` of `caller`, and carries it out where it
    /// is accepted.
    pub fn call(&mut self, caller: &ContractId, op: &Operation) -> (outcome: Result<Receipt, Error>)
        requires
            old(self).wf(),
        ensures
            final(self).wf(),
            final(self)@ == old(self)@.after(caller@, *op),
            outcome == match old(self)@.refusal(caller@, *op) {
                Some(error) => Err::<Receipt, Error>(error),
                None => Ok::<Receipt, Error>(old(self)@.receipt(*op)),
            },
    {
        let key = match op {
            Operation::Stake { public_key, .. } => *public_key,
            Operation::Withdraw { public_key, .. } => *public_key,
            Operation::Unstake { public_key, .. } => *public_key,
            Operation::Reward { public_key, .. } => *public_key,
            Operation::Slash { public_key, .. } => *public_key,
            Operation::HardSlash { public_key, .. } => *public_key,
        };
        let found = self.get_stake(&key);
        let record = match found {
            Some(record) => record,
            None => StakeData::vacant(),
        };
        match *op {
            Operation::Stake { public_key, value, eligible_since, counter, authentic } => {
                assert_transfer_caller(caller)?;
                if counter != record.counter {
                    return Err(Error::Replay);
                }
                if !authentic {
                    return Err(Error::InvalidSignature);
                }
                if value < MINIMUM_STAKE {
                    return Err(Error::InsufficientStake);
                }
                let staked = record.staked_amount();
                if staked > u64::MAX - value || record.counter == u64::MAX {
                    return Err(Error::Overflow);
                }
                let amount = match record.amount {
                    Some((staked, since)) => (staked + value, since),
                    None => (value, eligible_since),
                };
                self.stakes.insert(
                    key,
                    StakeData {
                        amount: Some(amount),
                        reward: record.reward,
                        counter: record.counter + 1,
                    },
                );
                Ok(
                    Receipt {
                        event: StakingEvent { topic: Topic::Stake, public_key, value },
                        paid_in: value,
                        paid_out: 0,
                    },
                )
            },
            Operation::Withdraw { public_key, counter, authentic } => {
                assert_transfer_caller(caller)?;
                if counter != record.counter {
                    return Err(Error::Replay);
                }
                if !authentic {
                    return Err(Error::InvalidSignature);
                }
                if record.reward == 0 {
                    return Err(Error::NoReward);
                }
                if record.counter == u64::MAX {
                    return Err(Error::Overflow);
                }
                self.stakes.insert(
                    key,
                    StakeData { amount: record.amount, reward: 0, counter: record.counter + 1 },
                );
                Ok(
                    Receipt {
                        event: StakingEvent {
                            topic: Topic::Withdraw,
                            public_key,
                            value: record.reward,
                        },
                        paid_in: 0,
                        paid_out: record.reward,
                    },
                )
            },
            Operation::Unstake { public_key, counter, authentic } => {
                assert_transfer_caller(caller)?;
                if counter != record.counter {
                    return Err(Error::Replay);
                }
                if !authentic {
                    return Err(Error::InvalidSignature);
                }
                let staked = record.staked_amount();
                if staked == 0 {
                    return Err(Error::NoStake);
                }
                if record.counter == u64::MAX {
                    return Err(Error::Overflow);
                }
                self.stakes.insert(
                    key,
                    StakeData { amount: None, reward: record.reward, counter: record.counter + 1 },
                );
                Ok(
                    Receipt {
                        event: StakingEvent { topic: Topic::Unstake, public_key, value: staked },
                        paid_in: 0,
                        paid_out: staked,
                    },
                )
            },
            Operation::Reward { public_key, value } => {
                assert_external_caller(caller)?;
                if record.reward > u64::MAX - value {
                    return Err(Error::Overflow);
                }
                self.stakes.insert(
                    key,
                    StakeData {
                        amount: record.amount,
                        reward: record.reward + value,
                        counter: record.counter,
                    },
                );
                Ok(
                    Receipt {
                        event: StakingEvent { topic: Topic::Reward, public_key, value },
                        paid_in: value,
                        paid_out: 0,
                    },
                )
            },
            Operation::Slash { public_key, value } => {
                assert_external_caller(caller)?;
                let (left, taken) = confiscate(&record, value, false);
                if taken > u64::MAX - self.slashed_amount {
                    return Err(Error::Overflow);
                }
                if found.is_some() {
                    self.stakes.insert(key, left);
                }
                self.slashed_amount = self.slashed_amount + taken;
                Ok(
                    Receipt {
                        event: StakingEvent { topic: Topic::Slash, public_key, value: taken },
                        paid_in: 0,
                        paid_out: 0,
                    },
                )
            },
            Operation::HardSlash { public_key, value } => {
                assert_external_caller(caller)?;
                let (left, taken) = confiscate(&record, value, true);
                if taken > u64::MAX - self.slashed_amount {
                    return Err(Error::Overflow);
                }
                if found.is_some() {
                    self.stakes.insert(key, left);
                }
                self.slashed_amount = self.slashed_amount + taken;
                Ok(
                    Receipt {
                        event: StakingEvent { topic: Topic::HardSlash, public_key, value: taken },
                        paid_in: 0,
                        paid_out: 0,
                    },
                )
            },
        }
    }
    /// Makes the requests one after another, up to the first that is
    /// refused. Returns the receipts where all were accepted, and else the
    /// index of the refused request with the reason; the ledger is then as
    /// the requests before that one left it.
    pub fn call_all(&mut self, requests: &Vec<Request>) -> (outcome: Result<
        Vec<Receipt>,
        (usize, Error),
    >)
        requires
            old(self).wf(),
        ensures
            final(self).wf(),
            match outcome {
                Ok(receipts) => {
                    &&& all_accepted(old(self)@, requests@)
                    &&& final(self)@ == after_all(old(self)@, requests@)
                    &&& receipts@ == receipts_of(old(self)@, requests@)
                },
                Err((at, error)) => {
                    &&& at < requests@.len()
                    &&& all_accepted(old(self)@, requests@.take(at as int))
                    &&& final(self)@ == after_all(old(self)@, requests@.take(at as int))
                    &&& final(self)@.refusal(requests@[at as int].caller@, requests@[at as int].op)
                        == Some(error)
                },
            },
    {
        let mut receipts: Vec<Receipt> = Vec::new();
        let mut i: usize = 0;
        while i < requests.len()
            invariant
                i <= requests.len(),
                self.wf(),
                all_accepted(old(self)@, requests@.take(i as int)),
                self@ == after_all(old(self)@, requests@.take(i as int)),
                receipts@ == receipts_of(old(self)@, requests@.take(i as int)),
            decreases requests.len() - i,
        {
            let outcome = self.call(&requests[i].caller, &requests[i].op);
            proof {
                let done = requests@.take(i as int);
                let next = requests@.take(i + 1);
                assert(next.drop_last() =~= done);
                assert forall|k: int| 0 <= k < next.len() implies after_all(
                    old(self)@,
                    #[trigger] next.take(k),
                ).refusal(next[k].caller@, next[k].op).is_none() == (k < i || outcome.is_ok()) by {
                    if k < i {
                        assert(next.take(k) =~= done.take(k));
                    } else {
                        assert(next.take(k) =~= done);
                    }
                }
            }
            match outcome {
                Ok(receipt) => {
                    receipts.push(receipt);
                },
                Err(error) => {
                    return Err((i, error));
                },
            }
            i += 1;
        }
        assert(requests@.take(i as int) =~= requests@);
        Ok(receipts)
    }

    /// A deposit of `value` under `public_key`, to count from
    /// `eligible_since` where the key has nothing staked yet.
    pub fn stake(
        &mut self,
        caller: &ContractId,
        public_key: PublicKey,
        value: u64,
        eligible_since: u64,
        counter: u64,
        authentic: bool,
    ) -> (outcome: Result<Receipt, Error>)
        requires
            old(self).wf(),
        ensures
            final(self).wf(),
            ({
                let op = Operation::Stake { public_key, value, eligible_since, counter, authentic };
                &&& final(self)@ == old(self)@.after(caller@, op)
                &&& outcome == match old(self)@.refusal(caller@, op) {
                    Some(error) => Err::<Receipt, Error>(error),
                    None => Ok::<Receipt, Error>(old(self)@.receipt(op)),
                }
            }),
    {
        let op = Operation::Stake { public_key, value, eligible_since, counter, authentic };
        self.call(caller, &op)
    }

    /// Takes the whole amount staked under `public_key` out of the ledger.
    /// The record stays, with its reward and its counter.
    pub fn unstake(
        &mut self,
        caller: &ContractId,
        public_key: PublicKey,
        counter: u64,
        authentic: bool,
    ) -> (outcome: Result<Receipt, Error>)
        requires
            old(self).wf(),
        ensures
            final(self).wf(),
            ({
                let op = Operation::Unstake { public_key, counter, authentic };
                &&& final(self)@ == old(self)@.after(caller@, op)
                &&& outcome == match old(self)@.refusal(caller@, op) {
                    Some(error) => Err::<Receipt, Error>(error),
                    None => Ok::<Receipt, Error>(old(self)@.receipt(op)),
                }
            }),
    {
        self.call(caller, &Operation::Unstake { public_key, counter, authentic })
    }

    /// Takes the whole reward of `public_key` out of the ledger.
    pub fn withdraw(
        &mut self,
        caller: &ContractId,
        public_key: PublicKey,
        counter: u64,
        authentic: bool,
    ) -> (outcome: Result<Receipt, Error>)
        requires
            old(self).wf(),
        ensures
            final(self).wf(),
            ({
                let op = Operation::Withdraw { public_key, counter, authentic };
                &&& final(self)@ == old(self)@.after(caller@, op)
                &&& outcome == match old(self)@.refusal(caller@, op) {
                    Some(error) => Err::<Receipt, Error>(error),
                    None => Ok::<Receipt, Error>(old(self)@.receipt(op)),
                }
            }),
    {
        self.call(caller, &Operation::Withdraw { public_key, counter, authentic })
    }

    /// Credits `value` to the reward of `public_key`, which need not have
    /// staked. The counter of the record stays.
    pub fn reward(
        &mut self,
        caller: &ContractId,
        public_key: PublicKey,
        value: u64,
    ) -> (outcome: Result<Receipt, Error>)
        requires
            old(self).wf(),
        ensures
            final(self).wf(),
            ({
                let op = Operation::Reward { public_key, value };
                &&& final(self)@ == old(self)@.after(caller@, op)
                &&& outcome == match old(self)@.refusal(caller@, op) {
                    Some(error) => Err::<Receipt, Error>(error),
                    None => Ok::<Receipt, Error>(old(self)@.receipt(op)),
                }
            }),
    {
        self.call(caller, &Operation::Reward { public_key, value })
    }

    /// Moves `value` from `public_key` into the pool of confiscated coins:
    /// from the reward, and from the amount staked what the reward does
    /// not cover.
    pub fn slash(
        &mut self,
        caller: &ContractId,
        public_key: PublicKey,
        value: u64,
    ) -> (outcome: Result<Receipt, Error>)
        requires
            old(self).wf(),
        ensures
            final(self).wf(),
            ({
                let op = Operation::Slash { public_key, value };
                &&& final(self)@ == old(self)@.after(caller@, op)
                &&& outcome == match old(self)@.refusal(caller@, op) {
                    Some(error) => Err::<Receipt, Error>(error),
                    None => Ok::<Receipt, Error>(old(self)@.receipt(op)),
                }
            }),
    {
        self.call(caller, &Operation::Slash { public_key, value })
    }

    /// Moves `value` from `public_key` into the pool of confiscated coins:
    /// from the amount staked, and from the reward what the amount does
    /// not cover.
    pub fn hard_slash(
        &mut self,
        caller: &ContractId,
        public_key: PublicKey,
        value: u64,
    ) -> (outcome: Result<Receipt, Error>)
        requires
            old(self).wf(),
        ensures
            final(self).wf(),
            ({
                let op = Operation::HardSlash { public_key, value };
                &&& final(self)@ == old(self)@.after(caller@, op)
                &&& outcome == match old(self)@.refusal(caller@, op) {
                    Some(error) => Err::<Receipt, Error>(error),
                    None => Ok::<Receipt, Error>(old(self)@.receipt(op)),
                }
            }),
    {
        self.call(caller, &Operation::HardSlash { public_key, value })
    }
}

} // verus!