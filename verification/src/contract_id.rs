//! Identifiers of contracts, by which the ledger tells who calls it.

use vstd::prelude::*;

verus! {

/// The length of a contract identifier.
pub const CONTRACT_ID_BYTES: usize = 32;

/// The identifier that stands for "no contract": a call that carries it
/// comes from outside the virtual machine.
pub open spec fn uninitialized_id() -> Seq<u8> {
    Seq::new(32, |i: int| 0u8)
}

/// The identifier reserved under number `n`: `n` followed by zeroes.
pub open spec fn reserved_id(n: u8) -> Seq<u8> {
    Seq::new(
        32,
        |i: int|
            if i == 0 {
                n
            } else {
                0u8
            },
    )
}

/// The identifier of the transfer contract.
pub open spec fn transfer_contract_id() -> Seq<u8> {
    reserved_id(1)
}

/// The identifier of the stake contract.
pub open spec fn stake_contract_id() -> Seq<u8> {
    reserved_id(2)
}

/// The identifier of a contract, 32 bytes.
#[derive(Clone, Copy, Debug, PartialEq, Eq)]
pub struct ContractId {
    bytes: [u8; 32],
}

impl View for ContractId {
    type V = Seq<u8>;

    closed spec fn view(&self) -> Seq<u8> {
        self.bytes@
    }
}

impl ContractId {
    pub fn from_bytes(bytes: [u8; 32]) -> (id: Self)
        ensures
            id@ == bytes@,
    {
        ContractId { bytes }
    }

    pub fn to_bytes(&self) -> (bytes: [u8; 32])
        ensures
            bytes@ == self@,
    {
        self.bytes
    }

    /// The identifier of a call from outside the virtual machine.
    pub fn uninitialized() -> (id: Self)
        ensures
            id@ == uninitialized_id(),
    {
        let id = ContractId { bytes: [0u8; 32] };
        id
    }

    /// The identifier reserved under number `n`.
    pub fn reserved(n: u8) -> (id: Self)
        ensures
            id@ == reserved_id(n),
    {
        let mut bytes = [0u8; 32];
        bytes[0] = n;
        let id = ContractId { bytes };
        id
    }

    pub fn is_uninitialized(&self) -> (uninitialized: bool)
        ensures
            uninitialized == (self@ == uninitialized_id()),
    {
        let mut i: usize = 0;
        while i < 32
            invariant
                i <= 32,
                forall|k: int| 0 <= k < i ==> self.bytes@[k] == 0,
            decreases 32 - i,
        {
            if self.bytes[i] != 0 {
                return false;
            }
            i += 1;
        }
        assert(self@ =~= uninitialized_id());
        true
    }

    /// Whether the two identifiers are the same.
    pub fn same(&self, other: &ContractId) -> (same: bool)
        ensures
            same == (self@ == other@),
    {
        let mut i: usize = 0;
        while i < 32
            invariant
                i <= 32,
                forall|k: int| 0 <= k < i ==> self.bytes@[k] == other.bytes@[k],
            decreases 32 - i,
        {
            if self.bytes[i] != other.bytes[i] {
                return false;
            }
            i += 1;
        }
        assert(self@ =~= other@);
        true
    }
}

/// The transfer contract, from which deposits and withdrawals arrive.
pub fn transfer_contract() -> (id: ContractId)
    ensures
        id@ == transfer_contract_id(),
{
    ContractId::reserved(1)
}

/// The stake contract itself.
pub fn stake_contract() -> (id: ContractId)
    ensures
        id@ == stake_contract_id(),
{
    ContractId::reserved(2)
}

} // verus!
