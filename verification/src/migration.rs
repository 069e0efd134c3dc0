//! Moving the ledger to a new version of its code without losing a record.

use crate::chain::{Rusk, MIGRATION_BLOCK};
use crate::contract_id::ContractId;
use crate::ledger::{LedgerView, StakeData, StakeState};
use crate::ordered_map::{lemma_put_last, sorted_by_key};
use vstd::prelude::*;

verus! {

/// A ledger that runs the code of `version` and holds what `old` holds:
/// every record under its key, and the pool of confiscated coins.
///
/// The records are read out of `old` in key order and inserted into the
/// new ledger one by one, as a caller from outside the virtual machine
/// does; the pool is set last.
pub fn migrate(old: &StakeState, version: u32) -> (new: StakeState)
    requires
        old.wf(),
    ensures
        new.wf(),
        new@ == (LedgerView { version, ..old@ }),
{
    let caller = ContractId::uninitialized();
    let stakes = old.stakes();
    let mut new = StakeState::new(version);
    let mut i: usize = 0;
    proof {
        old.lemma_sorted();
        assert(old@.records.take(0) =~= Seq::<(Seq<u8>, StakeData)>::empty());
    }
    while i < stakes.len()
        invariant
            i <= stakes.len(),
            stakes@.len() == old@.records.len(),
            forall|k: int|
                0 <= k < stakes@.len() ==> (#[trigger] stakes@[k]).0@ == old@.records[k].0
                    && stakes@[k].1 == old@.records[k].1,
            sorted_by_key(old@.records),
            caller@ == crate::contract_id::uninitialized_id(),
            new.wf(),
            new@ == (LedgerView {
                records: old@.records.take(i as int),
                slashed: 0,
                version,
            }),
        decreases stakes.len() - i,
    {
        let (key, record) = stakes[i];
        proof {
            let done = old@.records.take(i as int);
            assert forall|j: int| 0 <= j < done.len() implies crate::keys::lex_lt(
                #[trigger] done[j].0,
                key@,
            ) by {
                assert(crate::keys::lex_lt(old@.records[j].0, old@.records[i as int].0));
            }
            lemma_put_last(done, key@, record);
            assert(done.push((key@, record)) =~= old@.records.take(i + 1));
        }
        let _ = new.insert_stake(&caller, key, record);
        i += 1;
    }
    assert(old@.records.take(i as int) =~= old@.records);
    let _ = new.set_slashed_amount(&caller, old.slashed_amount());
    new
}

/// Migrates `ledger` to the code of `version` where the block at
/// `block_height` is the one that migrates, and hands it back as it is at
/// any other height.
pub fn migrate_at(rusk: &Rusk, ledger: StakeState, block_height: u64, version: u32) -> (after:
    StakeState)
    requires
        ledger.wf(),
    ensures
        after.wf(),
        after@ == if block_height == match rusk@.migration_height {
            Some(height) => height,
            None => MIGRATION_BLOCK,
        } {
            LedgerView { version, ..ledger@ }
        } else {
            ledger@
        },
{
    if rusk.migrates_at(block_height) {
        migrate(&ledger, version)
    } else {
        ledger
    }
}

} // verus!
