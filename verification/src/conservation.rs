//! What holds of the ledger whatever requests reach it.

use crate::ledger::{after_all, locked, record_at, LedgerView, Operation, Request, StakeData};
use crate::ordered_map::{
    get, has_key, lemma_put, lemma_put_other, lemma_rank_bounds, put, rank, sorted_by_key,
};
use vstd::prelude::*;

verus! {

/// Replacing one record changes what the records hold by the difference
/// of the two.
pub proof fn lemma_locked_update(
    records: Seq<(Seq<u8>, StakeData)>,
    i: int,
    entry: (Seq<u8>, StakeData),
)
    requires
        0 <= i < records.len(),
    ensures
        locked(records.update(i, entry)) + records[i].1.held() == locked(records) + entry.1.held(),
    decreases records.len(),
{
    let updated = records.update(i, entry);
    if i == records.len() - 1 {
        assert(updated.drop_last() =~= records.drop_last());
    } else {
        assert(updated.drop_last() =~= records.drop_last().update(i, entry));
        lemma_locked_update(records.drop_last(), i, entry);
    }
}

/// A new record adds what it holds.
pub proof fn lemma_locked_insert(
    records: Seq<(Seq<u8>, StakeData)>,
    i: int,
    entry: (Seq<u8>, StakeData),
)
    requires
        0 <= i <= records.len(),
    ensures
        locked(records.insert(i, entry)) == locked(records) + entry.1.held(),
    decreases records.len(),
{
    let inserted = records.insert(i, entry);
    if i == records.len() {
        assert(inserted.drop_last() =~= records);
    } else {
        assert(inserted.drop_last() =~= records.drop_last().insert(i, entry));
        lemma_locked_insert(records.drop_last(), i, entry);
    }
}

/// Storing a record changes what the records hold by the difference
/// between it and the record that the key had.
pub proof fn lemma_locked_put(records: Seq<(Seq<u8>, StakeData)>, key: Seq<u8>, record: StakeData)
    ensures
        locked(put(records, key, record)) + record_at(records, key).held() == locked(records)
            + record.held(),
{
    lemma_rank_bounds(records, key);
    if has_key(records, key) {
        lemma_locked_update(records, rank(records, key), (key, record));
    } else {
        lemma_locked_insert(records, rank(records, key), (key, record));
    }
}

/// An accepted request keeps the records in key order, writes the record
/// it is about and leaves every other.
pub proof fn lemma_accepted_records(ledger: LedgerView, op: Operation, other: Seq<u8>)
    requires
        sorted_by_key(ledger.records),
    ensures
        sorted_by_key(ledger.accepted(op).records),
        ledger.writes(op) ==> get(ledger.accepted(op).records, op.key()@) == Some(
            ledger.record_after(op),
        ),
        !ledger.writes(op) ==> ledger.accepted(op).records == ledger.records,
        other != op.key()@ ==> get(ledger.accepted(op).records, other) == get(ledger.records, other),
{
    lemma_put(ledger.records, op.key()@, ledger.record_after(op));
    if other != op.key()@ {
        lemma_put_other(ledger.records, op.key()@, ledger.record_after(op), other);
    }
}

/// Whatever a caller requests, the ledger stays in key order.
pub proof fn lemma_after_sorted(ledger: LedgerView, caller: Seq<u8>, op: Operation)
    requires
        sorted_by_key(ledger.records),
    ensures
        sorted_by_key(ledger.after(caller, op).records),
{
    lemma_accepted_records(ledger, op, op.key()@);
}

/// A deposit, a withdrawal or an unstake is accepted from the transfer
/// contract alone; a reward or a confiscation only from outside the
/// virtual machine.
pub proof fn lemma_unauthorized_refused(ledger: LedgerView, caller: Seq<u8>, op: Operation)
    requires
        caller != if op.from_transfer() {
            crate::contract_id::transfer_contract_id()
        } else {
            crate::contract_id::uninitialized_id()
        },
    ensures
        ledger.refusal(caller, op) == Some(crate::ledger::Error::Unauthorized),
        ledger.after(caller, op) == ledger,
{
}

/// A refused request changes nothing.
pub proof fn lemma_refused_unchanged(ledger: LedgerView, caller: Seq<u8>, op: Operation)
    requires
        ledger.refusal(caller, op).is_some(),
    ensures
        ledger.after(caller, op) == ledger,
{
}

/// An accepted deposit, withdrawal or unstake raises the counter of its
/// record by exactly one; a reward or a confiscation leaves it.
pub proof fn lemma_counter_step(ledger: LedgerView, caller: Seq<u8>, op: Operation)
    requires
        sorted_by_key(ledger.records),
        ledger.refusal(caller, op).is_none(),
    ensures
        record_at(ledger.after(caller, op).records, op.key()@).counter == ledger.record(op).counter
            + if op.from_transfer() {
            1int
        } else {
            0int
        },
{
    lemma_accepted_records(ledger, op, op.key()@);
}

/// A request whose counter is not that of the record is refused.
pub proof fn lemma_replay_refused(ledger: LedgerView, caller: Seq<u8>, op: Operation)
    requires
        op.from_transfer(),
        match op {
            Operation::Stake { counter, .. } => counter != ledger.record(op).counter,
            Operation::Withdraw { counter, .. } => counter != ledger.record(op).counter,
            Operation::Unstake { counter, .. } => counter != ledger.record(op).counter,
            _ => false,
        },
    ensures
        ledger.refusal(caller, op).is_some(),
        ledger.after(caller, op) == ledger,
{
}

/// While an amount stays staked, the round from which it counts never
/// moves.
pub proof fn lemma_eligibility_kept(ledger: LedgerView, op: Operation)
    ensures
        match (ledger.record(op).amount, ledger.record_after(op).amount) {
            (Some((_, before)), Some((_, since))) => since == before,
            _ => true,
        },
{
}

/// An accepted request changes the value that the ledger accounts for by
/// what came in less what was paid out; a confiscation moves coins into
/// the pool and changes nothing.
pub proof fn lemma_accepted_conserves(ledger: LedgerView, caller: Seq<u8>, op: Operation)
    requires
        sorted_by_key(ledger.records),
        ledger.refusal(caller, op).is_none(),
    ensures
        ledger.accepted(op).value_held() + ledger.paid_out(op) == ledger.value_held() + ledger.paid_in(
            op,
        ),
{
    lemma_locked_put(ledger.records, op.key()@, ledger.record_after(op));
}

/// The coins that the accepted ones among the requests brought in:
/// deposits and rewards.
pub open spec fn inflow(ledger: LedgerView, requests: Seq<Request>) -> nat
    decreases requests.len(),
{
    if requests.len() == 0 {
        0
    } else {
        let before = after_all(ledger, requests.drop_last());
        inflow(ledger, requests.drop_last()) + if before.refusal(
            requests.last().caller@,
            requests.last().op,
        ).is_none() {
            before.paid_in(requests.last().op) as nat
        } else {
            0
        }
    }
}

/// The coins that the accepted ones among the requests paid out:
/// withdrawn rewards and unstaked amounts.
pub open spec fn outflow(ledger: LedgerView, requests: Seq<Request>) -> nat
    decreases requests.len(),
{
    if requests.len() == 0 {
        0
    } else {
        let before = after_all(ledger, requests.drop_last());
        outflow(ledger, requests.drop_last()) + if before.refusal(
            requests.last().caller@,
            requests.last().op,
        ).is_none() {
            before.paid_out(requests.last().op) as nat
        } else {
            0
        }
    }
}

/// Over any sequence of requests, what the records hold together with the
/// pool of confiscated coins is what it was, plus what came in, less what
/// was paid out.
pub proof fn lemma_value_conserved(ledger: LedgerView, requests: Seq<Request>)
    requires
        sorted_by_key(ledger.records),
    ensures
        sorted_by_key(after_all(ledger, requests).records),
        after_all(ledger, requests).value_held() + outflow(ledger, requests) == ledger.value_held()
            + inflow(ledger, requests),
    decreases requests.len(),
{
    if requests.len() > 0 {
        let before = after_all(ledger, requests.drop_last());
        let last = requests.last();
        lemma_value_conserved(ledger, requests.drop_last());
        lemma_after_sorted(before, last.caller@, last.op);
        if before.refusal(last.caller@, last.op).is_none() {
            lemma_accepted_conserves(before, last.caller@, last.op);
        }
    }
}

} // verus!
