//! What a block execution session does with each transaction.
//!
//! The session itself runs in the virtual machine; here stand its
//! decisions. The driver executes a transaction, hands the receipt to the
//! ledger of the block, and does what the answer tells: go on, or rewind
//! the session and run the spent transactions again.

use crate::events::{event_views, events_bytes, update_hasher_all, Event, EventHasher};
use crate::hashing::sha3_256_digest;
use vstd::prelude::*;

verus! {

/// A transaction as the session needs it: what it may spend on gas, at
/// what price, and the bytes that the virtual machine executes.
#[derive(Debug)]
pub struct Transaction {
    pub gas_limit: u64,
    pub gas_price: u64,
    pub payload: Vec<u8>,
}

/// What the virtual machine reports of a call.
#[derive(Debug)]
pub struct CallReceipt {
    pub gas_limit: u64,
    pub gas_spent: u64,
    pub events: Vec<Event>,
    /// What the call returned, or the error of the contract in words.
    pub data: Result<Vec<u8>, String>,
}

/// A transaction that is part of a block, with what it cost.
#[derive(Debug)]
pub struct SpentTransaction {
    pub inner: Transaction,
    pub gas_spent: u64,
    pub block_height: u64,
    /// The error of the contract call, where it failed.
    pub err: Option<String>,
}

/// What a block commits to: the root of the state after it, and the hash
/// over the events of its transactions.
#[derive(Clone, Copy, Debug, PartialEq, Eq)]
pub struct VerificationOutput {
    pub state_root: [u8; 32],
    pub event_hash: [u8; 32],
}

/// Why a block or a request on the chain state fails.
#[derive(Clone, Copy, Debug, PartialEq, Eq)]
pub enum Error {
    /// The transactions of the block spend more gas than the block may.
    OutOfGas,
    /// The block does not lead to the state it claims.
    InconsistentState(VerificationOutput),
    /// The state store has no commit of this identifier.
    CommitNotFound([u8; 32]),
    /// The stored commit identifier does not have 32 bytes but this many.
    CommitIdLength(usize),
    /// A transaction of a block under verification cannot be spent.
    Unspendable,
    /// An amount would exceed 64 bits.
    Overflow,
}

/// Where a session stands between its start and its end.
#[derive(Clone, Copy, Debug, PartialEq, Eq)]
pub enum SessionState {
    /// Nothing was executed yet.
    Fresh,
    /// Transactions are being executed.
    Executing,
    /// The session was given up; what it did is gone.
    Discarded,
    /// The state of the session is stored under a commit, which a later
    /// session may still revert.
    Committed,
    /// The commit of the session is the base of the store.
    Finalized,
}

/// What happens to a session.
#[derive(Clone, Copy, Debug, PartialEq, Eq)]
pub enum SessionEvent {
    Execute,
    Discard,
    Commit,
    Finalize,
}

impl SessionState {
    /// The state that `event` leads to, where it may happen in this
    /// state.
    pub open spec fn next(self, event: SessionEvent) -> Option<SessionState> {
        match (self, event) {
            (SessionState::Fresh, SessionEvent::Execute) => Some(SessionState::Executing),
            (SessionState::Executing, SessionEvent::Execute) => Some(SessionState::Executing),
            (SessionState::Fresh, SessionEvent::Discard) => Some(SessionState::Discarded),
            (SessionState::Executing, SessionEvent::Discard) => Some(SessionState::Discarded),
            (SessionState::Fresh, SessionEvent::Commit) => Some(SessionState::Committed),
            (SessionState::Executing, SessionEvent::Commit) => Some(SessionState::Committed),
            (SessionState::Committed, SessionEvent::Finalize) => Some(SessionState::Finalized),
            _ => None,
        }
    }

    /// Nothing happens to a session in this state any more.
    pub open spec fn terminal(self) -> bool {
        self is Discarded || self is Finalized
    }

    /// A discarded or finalized session takes no event, and a committed
    /// one only its finalization.
    pub proof fn lemma_terminal(self, event: SessionEvent)
        ensures
            self.terminal() ==> self.next(event).is_none(),
            self is Committed ==> (self.next(event).is_some() <==> event is Finalize),
            event is Finalize ==> (self.next(event).is_some() <==> self is Committed),
    {
    }

    /// Takes the session to the state that `event` leads to, or tells
    /// that the event may not happen now.
    pub fn advance(self, event: SessionEvent) -> (next: Option<SessionState>)
        ensures
            next == self.next(event),
    {
        match (self, event) {
            (SessionState::Fresh, SessionEvent::Execute) => Some(SessionState::Executing),
            (SessionState::Executing, SessionEvent::Execute) => Some(SessionState::Executing),
            (SessionState::Fresh, SessionEvent::Discard) => Some(SessionState::Discarded),
            (SessionState::Executing, SessionEvent::Discard) => Some(SessionState::Discarded),
            (SessionState::Fresh, SessionEvent::Commit) => Some(SessionState::Committed),
            (SessionState::Executing, SessionEvent::Commit) => Some(SessionState::Committed),
            (SessionState::Committed, SessionEvent::Finalize) => Some(SessionState::Finalized),
            _ => None,
        }
    }
}

/// Whether two hashes are the same.
pub fn same_hash(a: &[u8; 32], b: &[u8; 32]) -> (same: bool)
    ensures
        same == (a@ == b@),
{
    let mut i: usize = 0;
    while i < 32
        invariant
            i <= 32,
            forall|k: int| 0 <= k < i ==> a@[k] == b@[k],
        decreases 32 - i,
    {
        if a[i] != b[i] {
            return false;
        }
        i += 1;
    }
    assert(a@ =~= b@);
    true
}

impl VerificationOutput {
    /// Whether two outputs commit to the same state and the same events.
    pub fn same(&self, other: &VerificationOutput) -> (same: bool)
        ensures
            same == (self.state_root@ == other.state_root@ && self.event_hash@ == other.event_hash@),
    {
        same_hash(&self.state_root, &other.state_root) && same_hash(
            &self.event_hash,
            &other.event_hash,
        )
    }
}

/// Charges a failed contract call all the gas it was allowed: a receipt
/// whose call returned an error has spent its limit.
pub fn charge(receipt: &mut CallReceipt)
    ensures
        final(receipt).gas_spent == if old(receipt).data.is_err() {
            old(receipt).gas_limit
        } else {
            old(receipt).gas_spent
        },
        final(receipt).gas_limit == old(receipt).gas_limit,
        final(receipt).events == old(receipt).events,
        final(receipt).data == old(receipt).data,
{
    if receipt.data.is_err() {
        receipt.gas_spent = receipt.gas_limit;
    }
}

/// Adds the events of the refund call to those of the transaction.
pub fn absorb_refund(receipt: &mut CallReceipt, refund_events: Vec<Event>)
    ensures
        final(receipt).events@ == old(receipt).events@ + refund_events@,
        final(receipt).gas_spent == old(receipt).gas_spent,
        final(receipt).gas_limit == old(receipt).gas_limit,
        final(receipt).data == old(receipt).data,
{
    let mut refund_events = refund_events;
    receipt.events.append(&mut refund_events);
}

/// What the driver of a session does next.
#[derive(Debug)]
pub enum Step {
    /// Go on with the next transaction.
    Next,
    /// The transaction does not fit the gas left in the block. Start the
    /// session anew from the commit of the block and execute the spent
    /// transactions again, then go on. The transaction is handed back: it
    /// is valid and may enter a later block.
    Rewind(Transaction),
}

/// The books of one block: the gas left, the fees collected, and what
/// became of each transaction so far.
pub struct BlockExecution {
    block_height: u64,
    gas_limit: u64,
    gas_left: u64,
    dusk_spent: u64,
    spent: Vec<SpentTransaction>,
    discarded: Vec<Transaction>,
    hasher: EventHasher,
}

/// The books of a block as contracts see them.
pub struct BlockView {
    pub block_height: u64,
    /// The gas that the block may spend.
    pub gas_limit: u64,
    pub gas_left: u64,
    pub dusk_spent: u64,
    pub spent: Seq<SpentTransaction>,
    pub discarded: Seq<Transaction>,
    /// What the events of the spent transactions contribute to the event
    /// hash.
    pub absorbed: Seq<u8>,
}

impl View for BlockExecution {
    type V = BlockView;

    closed spec fn view(&self) -> BlockView {
        BlockView {
            block_height: self.block_height,
            gas_limit: self.gas_limit,
            gas_left: self.gas_left,
            dusk_spent: self.dusk_spent,
            spent: self.spent@,
            discarded: self.discarded@,
            absorbed: self.hasher@,
        }
    }
}

/// The gas that the spent transactions spent.
pub open spec fn gas_of(spent: Seq<SpentTransaction>) -> nat
    decreases spent.len(),
{
    if spent.len() == 0 {
        0
    } else {
        gas_of(spent.drop_last()) + spent.last().gas_spent as nat
    }
}

/// The fees of the spent transactions: for each the gas it spent at the
/// price it offered.
pub open spec fn fees_of(spent: Seq<SpentTransaction>) -> nat
    decreases spent.len(),
{
    if spent.len() == 0 {
        0
    } else {
        fees_of(spent.drop_last()) + BlockView::fee(
            spent.last().gas_spent,
            spent.last().inner.gas_price,
        )
    }
}

/// Entering a spent transaction keeps the books balanced.
pub proof fn lemma_with_spent_balanced(block: BlockView, tx: Transaction, receipt: CallReceipt)
    requires
        block.balanced(),
        receipt.gas_spent <= block.gas_left,
        !block.fee_overflows(tx, receipt),
    ensures
        block.with_spent(tx, receipt).balanced(),
        gas_of(block.with_spent(tx, receipt).spent) <= block.gas_limit,
{
    let after = block.with_spent(tx, receipt);
    assert(after.spent.drop_last() =~= block.spent);
}

/// The error of a contract call, where it failed.
pub open spec fn call_error(data: Result<Vec<u8>, String>) -> Option<String> {
    match data {
        Ok(_) => None,
        Err(error) => Some(error),
    }
}

impl BlockView {
    /// The fee of a transaction that spent `gas_spent` at `gas_price`.
    pub open spec fn fee(gas_spent: u64, gas_price: u64) -> nat {
        (gas_spent * gas_price) as nat
    }

    /// The books with `tx` entered as spent with `receipt`.
    pub open spec fn with_spent(self, tx: Transaction, receipt: CallReceipt) -> BlockView {
        BlockView {
            gas_left: (self.gas_left - receipt.gas_spent) as u64,
            dusk_spent: (self.dusk_spent + Self::fee(receipt.gas_spent, tx.gas_price)) as u64,
            spent: self.spent.push(
                SpentTransaction {
                    inner: tx,
                    gas_spent: receipt.gas_spent,
                    block_height: self.block_height,
                    err: call_error(receipt.data),
                },
            ),
            absorbed: self.absorbed + events_bytes(event_views(receipt.events@)),
            ..self
        }
    }

    /// The books add up: the gas of the spent transactions and the gas
    /// left make the gas of the block, and the fees are those of the spent
    /// transactions.
    pub open spec fn balanced(self) -> bool {
        &&& self.gas_left + gas_of(self.spent) == self.gas_limit
        &&& self.dusk_spent == fees_of(self.spent)
    }

    /// The fees would no longer fit 64 bits with those of this receipt.
    pub open spec fn fee_overflows(self, tx: Transaction, receipt: CallReceipt) -> bool {
        self.dusk_spent + Self::fee(receipt.gas_spent, tx.gas_price) > u64::MAX
    }
}

impl BlockExecution {
    /// The books of a block at `block_height` that may spend
    /// `block_gas_limit`.
    pub fn new(block_height: u64, block_gas_limit: u64) -> (block: Self)
        ensures
            block@.balanced(),
            block@ == (BlockView {
                block_height,
                gas_limit: block_gas_limit,
                gas_left: block_gas_limit,
                dusk_spent: 0,
                spent: Seq::empty(),
                discarded: Seq::empty(),
                absorbed: Seq::empty(),
            }),
    {
        BlockExecution {
            block_height,
            gas_limit: block_gas_limit,
            gas_left: block_gas_limit,
            dusk_spent: 0,
            spent: Vec::new(),
            discarded: Vec::new(),
            hasher: EventHasher::new(),
        }
    }

    /// The gas that the block may spend.
    pub fn gas_limit(&self) -> (gas: u64)
        ensures
            gas == self@.gas_limit,
    {
        self.gas_limit
    }

    pub fn gas_left(&self) -> (gas: u64)
        ensures
            gas == self@.gas_left,
    {
        self.gas_left
    }

    /// The fees collected from the spent transactions.
    pub fn dusk_spent(&self) -> (fees: u64)
        ensures
            fees == self@.dusk_spent,
    {
        self.dusk_spent
    }

    /// The transactions spent so far, in the order they were executed.
    pub fn spent(&self) -> (spent: &Vec<SpentTransaction>)
        ensures
            spent@ == self@.spent,
    {
        &self.spent
    }

    /// The transactions discarded so far.
    pub fn discarded(&self) -> (discarded: &Vec<Transaction>)
        ensures
            discarded@ == self@.discarded,
    {
        &self.discarded
    }

    fn fee_of(&self, tx: &Transaction, receipt: &CallReceipt) -> (fees: Option<u64>)
        ensures
            match fees {
                Some(fees) => !self@.fee_overflows(*tx, *receipt) && fees == self@.dusk_spent
                    + BlockView::fee(receipt.gas_spent, tx.gas_price),
                None => self@.fee_overflows(*tx, *receipt),
            },
    {
        match receipt.gas_spent.checked_mul(tx.gas_price) {
            Some(fee) => self.dusk_spent.checked_add(fee),
            None => None,
        }
    }

    fn enter(&mut self, tx: Transaction, receipt: CallReceipt, fees: u64)
        requires
            receipt.gas_spent <= old(self)@.gas_left,
            fees == old(self)@.dusk_spent + BlockView::fee(receipt.gas_spent, tx.gas_price),
        ensures
            final(self)@ == old(self)@.with_spent(tx, receipt),
    {
        update_hasher_all(&mut self.hasher, &receipt.events);
        self.gas_left = self.gas_left - receipt.gas_spent;
        self.dusk_spent = fees;
        let err = match receipt.data {
            Ok(_) => None,
            Err(error) => Some(error),
        };
        self.spent.push(
            SpentTransaction {
                inner: tx,
                gas_spent: receipt.gas_spent,
                block_height: self.block_height,
                err,
            },
        );
    }

    /// Enters what became of `tx` while a block is being built.
    ///
    /// `outcome` is the receipt of the transaction, charged and with the
    /// events of its refund, or `None` where the transaction could not be
    /// spent. A transaction that could not be spent is discarded. One that
    /// spent more gas than the block has left is handed back, and the
    /// session is to be rewound. Any other is spent: its gas comes off the
    /// gas left, its fee is collected, and its events are hashed.
    pub fn execute_step(&mut self, tx: Transaction, outcome: Option<CallReceipt>) -> (step: Result<
        Step,
        Error,
    >)
        ensures
            old(self)@.balanced() ==> final(self)@.balanced(),
            match outcome {
                None => step matches Ok(Step::Next) && final(self)@ == (BlockView {
                    discarded: old(self)@.discarded.push(tx),
                    ..old(self)@
                }),
                Some(receipt) => if receipt.gas_spent > old(self)@.gas_left {
                    step matches Ok(Step::Rewind(held)) && held == tx && final(self)@ == old(self)@
                } else if old(self)@.fee_overflows(tx, receipt) {
                    step matches Err(Error::Overflow) && final(self)@ == old(self)@
                } else {
                    step matches Ok(Step::Next) && final(self)@ == old(self)@.with_spent(tx, receipt)
                },
            },
    {
        match outcome {
            None => {
                self.discarded.push(tx);
                Ok(Step::Next)
            },
            Some(receipt) => {
                if receipt.gas_spent > self.gas_left {
                    return Ok(Step::Rewind(tx));
                }
                match self.fee_of(&tx, &receipt) {
                    Some(fees) => {
                        proof {
                            if self@.balanced() {
                                lemma_with_spent_balanced(self@, tx, receipt);
                            }
                        }
                        self.enter(tx, receipt, fees);
                        Ok(Step::Next)
                    },
                    None => Err(Error::Overflow),
                }
            },
        }
    }

    /// Enters what became of `tx` while a block is being verified.
    ///
    /// Every transaction of such a block has to be spent within the gas of
    /// the block: one that could not be spent, or that spent more than is
    /// left, fails the block.
    pub fn accept_step(&mut self, tx: Transaction, outcome: Option<CallReceipt>) -> (step: Result<
        (),
        Error,
    >)
        ensures
            old(self)@.balanced() ==> final(self)@.balanced(),
            match outcome {
                None => step == Err::<(), Error>(Error::Unspendable) && final(self)@ == old(self)@,
                Some(receipt) => if old(self)@.fee_overflows(tx, receipt) {
                    step == Err::<(), Error>(Error::Overflow) && final(self)@ == old(self)@
                } else if receipt.gas_spent > old(self)@.gas_left {
                    step == Err::<(), Error>(Error::OutOfGas) && final(self)@ == old(self)@
                } else {
                    step.is_ok() && final(self)@ == old(self)@.with_spent(tx, receipt)
                },
            },
    {
        match outcome {
            None => Err(Error::Unspendable),
            Some(receipt) => {
                match self.fee_of(&tx, &receipt) {
                    Some(fees) => {
                        if receipt.gas_spent > self.gas_left {
                            return Err(Error::OutOfGas);
                        }
                        proof {
                            if self@.balanced() {
                                lemma_with_spent_balanced(self@, tx, receipt);
                            }
                        }
                        self.enter(tx, receipt, fees);
                        Ok(())
                    },
                    None => Err(Error::Overflow),
                }
            },
        }
    }

    /// Closes the books: the spent and the discarded transactions, and
    /// what the block commits to, given the root of the state after it.
    pub fn finish(self, state_root: [u8; 32]) -> (closed: (
        Vec<SpentTransaction>,
        Vec<Transaction>,
        VerificationOutput,
    ))
        ensures
            closed.0@ == self@.spent,
            closed.1@ == self@.discarded,
            closed.2.state_root == state_root,
            closed.2.event_hash@ == sha3_256_digest(self@.absorbed),
    {
        let event_hash = self.hasher.finalize();
        (self.spent, self.discarded, VerificationOutput { state_root, event_hash })
    }
}

/// Holds the output of a block against the output that the block claims.
pub fn check_consistency(
    expected: &Option<VerificationOutput>,
    produced: &VerificationOutput,
) -> (outcome: Result<(), Error>)
    ensures
        outcome == match *expected {
            Some(claimed) => if claimed.state_root@ == produced.state_root@ && claimed.event_hash@
                == produced.event_hash@ {
                Ok::<(), Error>(())
            } else {
                Err::<(), Error>(Error::InconsistentState(*produced))
            },
            None => Ok::<(), Error>(()),
        },
{
    match expected {
        Some(claimed) => {
            if claimed.same(produced) {
                Ok(())
            } else {
                Err(Error::InconsistentState(*produced))
            }
        },
        None => Ok(()),
    }
}

} // verus!
