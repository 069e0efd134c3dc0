//! The calls that close a block: the rewards of the protocol and of the
//! generator, the penalties of the generators that missed their turn, and
//! the update of the root.

use crate::contract_id::ContractId;
use crate::keys::PublicKey;
use crate::conservation::{inflow, lemma_value_conserved, outflow};
use crate::ledger::{after_all, all_accepted, LedgerView, Operation, Request};
use crate::ordered_map::sorted_by_key;
use crate::session::Error;
use vstd::prelude::*;

verus! {

/// The gas limit of the calls that close a block: they run with unbounded
/// gas.
pub const COINBASE_GAS_LIMIT: u64 = u64::MAX;

/// What a block mints and takes at its height: the share of the protocol,
/// the coinbase of the height, and the penalty for a missed turn.
#[derive(Clone, Copy, Debug, PartialEq, Eq)]
pub struct Coinbase {
    /// What the protocol key is rewarded.
    pub dusk_value: u64,
    /// What the block emits at its height.
    pub emission: u64,
    /// What a generator that missed its turn is slashed.
    pub penalty: u64,
}

/// A call that the session makes, with unbounded gas, after the
/// transactions of a block.
#[derive(Clone, Copy, Debug, PartialEq, Eq)]
pub enum CoinbaseCall {
    /// `reward` on the stake contract.
    Reward { public_key: PublicKey, value: u64 },
    /// `slash` on the stake contract.
    Slash { public_key: PublicKey, value: u64 },
    /// `update_root` on the transfer contract.
    UpdateRoot,
}

impl Coinbase {
    /// What is left for the generator: the coinbase of the height and the
    /// fees of the block, less the share of the protocol.
    pub open spec fn generator_value(self, dusk_spent: u64) -> int {
        self.emission + dusk_spent - self.dusk_value
    }

    /// The share of the generator is a 64-bit amount.
    pub open spec fn payable(self, dusk_spent: u64) -> bool {
        0 <= self.generator_value(dusk_spent) <= u64::MAX
    }

    /// The calls that close a block, in the order they are made.
    pub open spec fn calls(
        self,
        dusk_spent: u64,
        dusk_key: PublicKey,
        generator: PublicKey,
        slashing: Seq<PublicKey>,
    ) -> Seq<CoinbaseCall> {
        seq![
            CoinbaseCall::Reward { public_key: dusk_key, value: self.dusk_value },
            CoinbaseCall::Reward {
                public_key: generator,
                value: self.generator_value(dusk_spent) as u64,
            },
        ] + slash_calls(slashing, self.penalty) + seq![CoinbaseCall::UpdateRoot]
    }
}

/// A slash of `penalty` for each of `keys`.
pub open spec fn slash_calls(keys: Seq<PublicKey>, penalty: u64) -> Seq<CoinbaseCall> {
    keys.map_values(|key: PublicKey| CoinbaseCall::Slash { public_key: key, value: penalty })
}

/// What the protocol and the generator are rewarded for a block that
/// collected `dusk_spent` in fees.
pub fn coinbase_value(terms: &Coinbase, dusk_spent: u64) -> (values: Result<(u64, u64), Error>)
    ensures
        match values {
            Ok((dusk_value, generator_value)) => {
                &&& terms.payable(dusk_spent)
                &&& dusk_value == terms.dusk_value
                &&& generator_value == terms.generator_value(dusk_spent)
            },
            Err(error) => !terms.payable(dusk_spent) && error == Error::Overflow,
        },
{
    match terms.emission.checked_add(dusk_spent) {
        Some(minted) => {
            if minted < terms.dusk_value {
                Err(Error::Overflow)
            } else {
                Ok((terms.dusk_value, minted - terms.dusk_value))
            }
        },
        None => {
            // the share of the protocol may still bring the sum back into range
            let over = terms.emission - (u64::MAX - dusk_spent);
            if terms.dusk_value >= over {
                Ok((terms.dusk_value, u64::MAX - (terms.dusk_value - over)))
            } else {
                Err(Error::Overflow)
            }
        },
    }
}

/// The calls that close a block: reward the protocol key, reward the
/// generator with the rest of coinbase and fees, slash every generator
/// that missed its turn, and update the root.
pub fn reward_slash_and_update_root(
    terms: &Coinbase,
    dusk_spent: u64,
    dusk_key: &PublicKey,
    generator: &PublicKey,
    slashing: &Vec<PublicKey>,
) -> (calls: Result<Vec<CoinbaseCall>, Error>)
    ensures
        match calls {
            Ok(calls) => terms.payable(dusk_spent) && calls@ == terms.calls(
                dusk_spent,
                *dusk_key,
                *generator,
                slashing@,
            ),
            Err(error) => !terms.payable(dusk_spent) && error == Error::Overflow,
        },
{
    let (dusk_value, generator_value) = coinbase_value(terms, dusk_spent)?;
    let mut calls: Vec<CoinbaseCall> = Vec::new();
    calls.push(CoinbaseCall::Reward { public_key: *dusk_key, value: dusk_value });
    calls.push(CoinbaseCall::Reward { public_key: *generator, value: generator_value });
    let ghost head = calls@;
    let mut i: usize = 0;
    while i < slashing.len()
        invariant
            i <= slashing.len(),
            calls@ == head + slash_calls(slashing@.take(i as int), terms.penalty),
        decreases slashing.len() - i,
    {
        calls.push(CoinbaseCall::Slash { public_key: slashing[i], value: terms.penalty });
        i += 1;
    }
    calls.push(CoinbaseCall::UpdateRoot);
    Ok(calls)
}

/// The requests that the calls make of the stake contract, as they reach
/// it from `caller`. The update of the root is no call of the stake
/// contract.
pub open spec fn stake_requests(calls: Seq<CoinbaseCall>, caller: ContractId) -> Seq<Request>
    decreases calls.len(),
{
    if calls.len() == 0 {
        Seq::empty()
    } else {
        let before = stake_requests(calls.drop_last(), caller);
        match calls.last() {
            CoinbaseCall::Reward { public_key, value } => before.push(
                Request { caller, op: Operation::Reward { public_key, value } },
            ),
            CoinbaseCall::Slash { public_key, value } => before.push(
                Request { caller, op: Operation::Slash { public_key, value } },
            ),
            CoinbaseCall::UpdateRoot => before,
        }
    }
}

/// Turns the calls of the stake contract among `calls` into requests of
/// `caller`.
pub fn to_stake_requests(calls: &Vec<CoinbaseCall>, caller: ContractId) -> (requests: Vec<Request>)
    ensures
        requests@ == stake_requests(calls@, caller),
{
    let mut requests: Vec<Request> = Vec::new();
    let mut i: usize = 0;
    while i < calls.len()
        invariant
            i <= calls.len(),
            requests@ == stake_requests(calls@.take(i as int), caller),
        decreases calls.len() - i,
    {
        proof {
            assert(calls@.take(i + 1).drop_last() =~= calls@.take(i as int));
        }
        match calls[i] {
            CoinbaseCall::Reward { public_key, value } => {
                requests.push(Request { caller, op: Operation::Reward { public_key, value } });
            },
            CoinbaseCall::Slash { public_key, value } => {
                requests.push(Request { caller, op: Operation::Slash { public_key, value } });
            },
            CoinbaseCall::UpdateRoot => {},
        }
        i += 1;
    }
    assert(calls@.take(i as int) =~= calls@);
    requests
}

/// What the rewards among `requests` credit.
pub open spec fn minted(requests: Seq<Request>) -> nat
    decreases requests.len(),
{
    if requests.len() == 0 {
        0
    } else {
        minted(requests.drop_last()) + match requests.last().op {
            Operation::Reward { value, .. } => value as nat,
            _ => 0,
        }
    }
}

/// Every one of `requests` is a reward or a slash.
pub open spec fn rewards_and_slashes(requests: Seq<Request>) -> bool {
    forall|k: int|
        0 <= k < requests.len() ==> (#[trigger] requests[k]).op is Reward || requests[k].op is Slash
}

/// Accepted rewards and slashes bring in what the rewards credit, and pay
/// nothing out.
pub proof fn lemma_rewards_and_slashes_flow(ledger: LedgerView, requests: Seq<Request>)
    requires
        rewards_and_slashes(requests),
        all_accepted(ledger, requests),
    ensures
        inflow(ledger, requests) == minted(requests),
        outflow(ledger, requests) == 0,
    decreases requests.len(),
{
    if requests.len() > 0 {
        let front = requests.drop_last();
        assert forall|k: int| 0 <= k < front.len() implies after_all(
            ledger,
            #[trigger] front.take(k),
        ).refusal(front[k].caller@, front[k].op).is_none() by {
            assert(front.take(k) =~= requests.take(k));
        }
        assert forall|k: int| 0 <= k < front.len() implies (#[trigger] front[k]).op is Reward
            || front[k].op is Slash by {
            assert(front[k] == requests[k]);
        }
        lemma_rewards_and_slashes_flow(ledger, front);
    }
}

/// The requests of the calls that close a block: the two rewards, then a
/// slash for every generator that missed its turn.
pub proof fn lemma_stake_requests_of_calls(
    terms: Coinbase,
    dusk_spent: u64,
    dusk_key: PublicKey,
    generator: PublicKey,
    slashing: Seq<PublicKey>,
    caller: ContractId,
)
    ensures
        rewards_and_slashes(
            stake_requests(terms.calls(dusk_spent, dusk_key, generator, slashing), caller),
        ),
        minted(stake_requests(terms.calls(dusk_spent, dusk_key, generator, slashing), caller))
            == terms.dusk_value + (terms.generator_value(dusk_spent) as u64),
        stake_requests(terms.calls(dusk_spent, dusk_key, generator, slashing), caller).len() == 2
            + slashing.len(),
{
    let head = seq![
        CoinbaseCall::Reward { public_key: dusk_key, value: terms.dusk_value },
        CoinbaseCall::Reward {
            public_key: generator,
            value: terms.generator_value(dusk_spent) as u64,
        },
    ];
    let calls = terms.calls(dusk_spent, dusk_key, generator, slashing);
    assert(calls.drop_last() =~= head + slash_calls(slashing, terms.penalty));
    lemma_stake_requests_of_slashes(head, terms, slashing, caller);
}

proof fn lemma_stake_requests_of_slashes(
    head: Seq<CoinbaseCall>,
    terms: Coinbase,
    slashing: Seq<PublicKey>,
    caller: ContractId,
)
    requires
        head.len() == 2,
        head[0] is Reward,
        head[1] is Reward,
    ensures
        rewards_and_slashes(stake_requests(head + slash_calls(slashing, terms.penalty), caller)),
        minted(stake_requests(head + slash_calls(slashing, terms.penalty), caller)) == head[0]->Reward_value
            + head[1]->Reward_value,
        stake_requests(head + slash_calls(slashing, terms.penalty), caller).len() == 2
            + slashing.len(),
    decreases slashing.len(),
{
    let calls = head + slash_calls(slashing, terms.penalty);
    let requests = stake_requests(calls, caller);
    if slashing.len() == 0 {
        let none = Seq::<CoinbaseCall>::empty();
        let one = head.drop_last();
        assert(one.drop_last() =~= none);
        assert(stake_requests(none, caller) =~= Seq::<Request>::empty());
        let first = stake_requests(one, caller);
        assert(minted(first.drop_last()) == 0);
        assert(minted(first) == head[0]->Reward_value);
        assert(requests.drop_last() =~= first);
    } else {
        let front = slashing.drop_last();
        assert(calls.drop_last() =~= head + slash_calls(front, terms.penalty));
        assert(calls.last() == CoinbaseCall::Slash {
            public_key: slashing.last(),
            value: terms.penalty,
        });
        lemma_stake_requests_of_slashes(head, terms, front, caller);
        let before = stake_requests(calls.drop_last(), caller);
        assert(requests.drop_last() =~= before);
    }
}

/// Closing a block adds to the value that the ledger accounts for exactly
/// the coinbase of the height and the fees of the block: the rewards mint
/// them, and the slashes only move coins into the pool.
pub proof fn lemma_coinbase_mints(
    ledger: LedgerView,
    terms: Coinbase,
    dusk_spent: u64,
    dusk_key: PublicKey,
    generator: PublicKey,
    slashing: Seq<PublicKey>,
    caller: ContractId,
)
    requires
        sorted_by_key(ledger.records),
        terms.payable(dusk_spent),
        all_accepted(
            ledger,
            stake_requests(terms.calls(dusk_spent, dusk_key, generator, slashing), caller),
        ),
    ensures
        after_all(
            ledger,
            stake_requests(terms.calls(dusk_spent, dusk_key, generator, slashing), caller),
        ).value_held() == ledger.value_held() + terms.emission + dusk_spent,
{
    let requests = stake_requests(terms.calls(dusk_spent, dusk_key, generator, slashing), caller);
    lemma_stake_requests_of_calls(terms, dusk_spent, dusk_key, generator, slashing, caller);
    lemma_rewards_and_slashes_flow(ledger, requests);
    lemma_value_conserved(ledger, requests);
}

} // verus!
