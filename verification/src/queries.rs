//! Reading the ledger: the stream of all stakes, the provisioners of a
//! round, and how a query names its contract.

use crate::contract_id::ContractId;
use crate::keys::PublicKey;
use crate::ledger::{StakeData, StakeState, MINIMUM_STAKE};
use crate::member::MemberView;
use crate::provisioners::{with_stake, Provisioners};
use crate::stake::Stake;
use crate::wire::{decode_entry, encode_entry, entry_bytes, stored_record};
use vstd::prelude::*;

verus! {

/// Every entry of the ledger as the bytes handed to a reader, in canonical
/// key order.
pub fn feed_stakes(ledger: &StakeState) -> (items: Vec<Vec<u8>>)
    ensures
        items@.len() == ledger@.records.len(),
        forall|i: int|
            0 <= i < items@.len() ==> (#[trigger] items@[i])@ == entry_bytes(
                ledger@.records[i].0,
                ledger@.records[i].1,
            ),
{
    let stakes = ledger.stakes();
    let mut items: Vec<Vec<u8>> = Vec::new();
    let mut i: usize = 0;
    while i < stakes.len()
        invariant
            i <= stakes.len(),
            stakes@.len() == ledger@.records.len(),
            forall|k: int|
                0 <= k < stakes@.len() ==> (#[trigger] stakes@[k]).0@ == ledger@.records[k].0
                    && stakes@[k].1 == ledger@.records[k].1,
            items@.len() == i,
            forall|k: int|
                0 <= k < i ==> (#[trigger] items@[k])@ == entry_bytes(
                    ledger@.records[k].0,
                    ledger@.records[k].1,
                ),
        decreases stakes.len() - i,
    {
        items.push(encode_entry(&stakes[i].0, &stakes[i].1));
        i += 1;
    }
    items
}

/// Reads the entries back from the bytes of a stream. `None` where an item
/// is not the bytes of an entry.
pub fn collect_stakes(items: &Vec<Vec<u8>>) -> (stakes: Option<Vec<(PublicKey, StakeData)>>)
    ensures
        match stakes {
            Some(stakes) => {
                &&& stakes@.len() == items@.len()
                &&& forall|i: int|
                    0 <= i < items@.len() ==> {
                        &&& (#[trigger] items@[i])@.len() == crate::wire::ENTRY_SIZE
                        &&& stakes@[i].0@ == items@[i]@.subrange(0, 96)
                        &&& stored_record(items@[i]@.subrange(96, 129)) == Some(stakes@[i].1)
                    }
            },
            None => exists|i: int|
                0 <= i < items@.len() && ((#[trigger] items@[i])@.len() != crate::wire::ENTRY_SIZE
                    || stored_record(items@[i]@.subrange(96, 129)).is_none()),
        },
{
    let mut stakes: Vec<(PublicKey, StakeData)> = Vec::new();
    let mut i: usize = 0;
    while i < items.len()
        invariant
            i <= items.len(),
            stakes@.len() == i,
            forall|k: int|
                0 <= k < i ==> {
                    &&& (#[trigger] items@[k])@.len() == crate::wire::ENTRY_SIZE
                    &&& stakes@[k].0@ == items@[k]@.subrange(0, 96)
                    &&& stored_record(items@[k]@.subrange(96, 129)) == Some(stakes@[k].1)
                },
        decreases items.len() - i,
    {
        match decode_entry(items[i].as_slice()) {
            Some(entry) => {
                stakes.push(entry);
            },
            None => {
                return None;
            },
        }
        i += 1;
    }
    Some(stakes)
}

/// The provisioners that the stakes make: every stake of at least the
/// minimum amount, under its key, with its reward and the round from which
/// it counts.
pub open spec fn provisioners_of(stakes: Seq<(PublicKey, StakeData)>) -> Seq<MemberView>
    decreases stakes.len(),
{
    if stakes.len() == 0 {
        Seq::empty()
    } else {
        let before = provisioners_of(stakes.drop_last());
        match stakes.last().1.amount {
            Some((value, since)) => if value >= MINIMUM_STAKE {
                with_stake(
                    before,
                    stakes.last().0@,
                    Stake::new_spec(value, stakes.last().1.reward, since),
                )
            } else {
                before
            },
            None => before,
        }
    }
}

/// Builds the provisioners of a round from the stakes of the ledger.
pub fn query_provisioners(stakes: &Vec<(PublicKey, StakeData)>) -> (provisioners: Provisioners)
    ensures
        provisioners.wf(),
        provisioners@ == provisioners_of(stakes@),
{
    let mut provisioners = Provisioners::new();
    let mut i: usize = 0;
    while i < stakes.len()
        invariant
            i <= stakes.len(),
            provisioners.wf(),
            provisioners@ == provisioners_of(stakes@.take(i as int)),
        decreases stakes.len() - i,
    {
        proof {
            assert(stakes@.take(i + 1).drop_last() =~= stakes@.take(i as int));
        }
        let (key, record) = stakes[i];
        match record.amount {
            Some((value, since)) => {
                if value >= MINIMUM_STAKE {
                    provisioners.add_member_with_stake(key, Stake::new(value, record.reward, since));
                }
            },
            None => {},
        }
        i += 1;
    }
    assert(stakes@.take(i as int) =~= stakes@);
    provisioners
}

/// The Base58 text of `bytes` in the Bitcoin alphabet.
pub uninterp spec fn bs58_encoding(bytes: Seq<u8>) -> Seq<char>;

/// Calls `bs58::encode` with the default alphabet and collects the text
/// with `into_string`. The text depends on the bytes alone.
#[verifier::external_body]
fn bs58_encode(bytes: &[u8]) -> (text: String)
    ensures
        text@ == bs58_encoding(bytes@),
{
    bs58::encode(bytes).into_string()
}

/// A provisioner as a listing shows it.
#[derive(Debug)]
pub struct Provisioner {
    /// The key in Base58.
    pub key: String,
    pub amount: u64,
    pub eligibility: u64,
}

/// A provisioner of a listing as contracts see it.
pub struct ProvisionerView {
    pub key: Seq<char>,
    pub amount: u64,
    pub eligibility: u64,
}

impl View for Provisioner {
    type V = ProvisionerView;

    open spec fn view(&self) -> ProvisionerView {
        ProvisionerView { key: self.key@, amount: self.amount, eligibility: self.eligibility }
    }
}

/// The listing of the stakes: every key with something staked, in the
/// order of the stakes.
pub open spec fn listing(stakes: Seq<(PublicKey, StakeData)>) -> Seq<ProvisionerView>
    decreases stakes.len(),
{
    if stakes.len() == 0 {
        Seq::empty()
    } else {
        let before = listing(stakes.drop_last());
        match stakes.last().1.amount {
            Some((amount, eligibility)) => if amount > 0 {
                before.push(
                    ProvisionerView {
                        key: bs58_encoding(stakes.last().0@),
                        amount,
                        eligibility,
                    },
                )
            } else {
                before
            },
            None => before,
        }
    }
}

/// The views of `list`.
pub open spec fn provisioner_views(list: Seq<Provisioner>) -> Seq<ProvisionerView> {
    list.map_values(|p: Provisioner| p@)
}

/// Lists the provisioners with something staked.
pub fn get_provisioners(stakes: &Vec<(PublicKey, StakeData)>) -> (list: Vec<Provisioner>)
    ensures
        provisioner_views(list@) == listing(stakes@),
{
    let mut list: Vec<Provisioner> = Vec::new();
    let mut i: usize = 0;
    assert(stakes@.take(0) =~= Seq::<(PublicKey, StakeData)>::empty());
    assert(provisioner_views(list@) =~= Seq::<ProvisionerView>::empty());
    while i < stakes.len()
        invariant
            i <= stakes.len(),
            provisioner_views(list@) == listing(stakes@.take(i as int)),
        decreases stakes.len() - i,
    {
        proof {
            assert(stakes@.take(i + 1).drop_last() =~= stakes@.take(i as int));
        }
        let (key, record) = stakes[i];
        match record.amount {
            Some((amount, eligibility)) => {
                if amount > 0 {
                    let bytes = key.to_bytes();
                    let ghost before = provisioner_views(list@);
                    let listed = Provisioner { key: bs58_encode(&bytes), amount, eligibility };
                    list.push(listed);
                    assert(provisioner_views(list@) =~= before.push(listed@));
                }
            },
            None => {},
        }
        i += 1;
    }
    assert(stakes@.take(i as int) =~= stakes@);
    list
}

/// The value of a hexadecimal digit, in either case.
pub open spec fn hex_digit(c: u8) -> Option<u8> {
    if 0x30 <= c <= 0x39 {
        Some((c - 0x30) as u8)
    } else if 0x61 <= c <= 0x66 {
        Some((c - 0x61 + 10) as u8)
    } else if 0x41 <= c <= 0x46 {
        Some((c - 0x41 + 10) as u8)
    } else {
        None
    }
}

/// The bytes that the hexadecimal text spells, two digits to a byte, where
/// it has an even number of characters and each is a digit.
pub open spec fn hex_decoded(text: Seq<u8>) -> Option<Seq<u8>> {
    if text.len() % 2 == 0 && forall|i: int| 0 <= i < text.len() ==> hex_digit(#[trigger] text[i]).is_some() {
        Some(
            Seq::new(
                text.len() / 2,
                |i: int| (hex_digit(text[2 * i]).unwrap() * 16 + hex_digit(text[2 * i + 1]).unwrap()) as u8,
            ),
        )
    } else {
        None
    }
}

/// The error of `hex::decode`.
#[verifier::external_type_specification]
#[verifier::external_body]
pub struct ExFromHexError(hex::FromHexError);

/// Calls `hex::decode`, which reads two digits of either case for each
/// byte and fails on an odd number of characters or on a character that
/// is no digit.
#[verifier::external_body]
fn hex_decode(text: &[u8]) -> (bytes: Result<Vec<u8>, hex::FromHexError>)
    ensures
        match bytes {
            Ok(bytes) => hex_decoded(text@) == Some(bytes@),
            Err(_) => hex_decoded(text@).is_none(),
        },
{
    hex::decode(text)
}

/// Why a query does not name a contract.
#[derive(Clone, Copy, Debug, PartialEq, Eq)]
pub enum QueryError {
    /// The name of the contract is no hexadecimal text.
    InvalidHex,
    /// The name of the contract does not spell 32 bytes.
    InvalidContractBytes,
}

/// The contract that a query names by the hexadecimal text of its
/// identifier.
pub fn parse_contract_id(target: &[u8]) -> (id: Result<ContractId, QueryError>)
    ensures
        match id {
            Ok(id) => hex_decoded(target@) == Some(id@),
            Err(QueryError::InvalidHex) => hex_decoded(target@).is_none(),
            Err(QueryError::InvalidContractBytes) => hex_decoded(target@).is_some() && hex_decoded(
                target@,
            ).unwrap().len() != 32,
        },
{
    let bytes = match hex_decode(target) {
        Ok(bytes) => bytes,
        Err(_) => {
            return Err(QueryError::InvalidHex);
        },
    };
    if bytes.len() != 32 {
        return Err(QueryError::InvalidContractBytes);
    }
    let mut id = [0u8; 32];
    let mut i: usize = 0;
    while i < 32
        invariant
            i <= 32,
            bytes@.len() == 32,
            forall|k: int| 0 <= k < i ==> id@[k] == bytes@[k],
        decreases 32 - i,
    {
        id[i] = bytes[i];
        i += 1;
    }
    Ok(ContractId::from_bytes(id))
}

/// What a request is addressed to.
#[derive(Clone, Copy, Debug, PartialEq, Eq)]
pub enum Target {
    /// A contract, named by its identifier.
    Contract,
    /// A component of the node itself.
    Host,
    /// Nothing that the node knows.
    Unknown,
}

/// What the node does with a request.
#[derive(Clone, Copy, Debug, PartialEq, Eq)]
pub enum Route {
    /// Query a contract, and stream the answer where `feeder` is set.
    ContractQuery { feeder: bool },
    /// Check whether a transaction may enter the pool.
    Preverify,
    /// List the provisioners.
    Provisioners,
    /// Hand out the common reference string.
    Crs,
    /// Refuse the request.
    Unsupported,
}

/// The bytes of `rusk`.
pub open spec fn rusk_name() -> Seq<u8> {
    seq![0x72u8, 0x75, 0x73, 0x6b]
}

/// The bytes of `preverify`.
pub open spec fn preverify_name() -> Seq<u8> {
    seq![0x70u8, 0x72, 0x65, 0x76, 0x65, 0x72, 0x69, 0x66, 0x79]
}

/// The bytes of `provisioners`.
pub open spec fn provisioners_name() -> Seq<u8> {
    seq![0x70u8, 0x72, 0x6f, 0x76, 0x69, 0x73, 0x69, 0x6f, 0x6e, 0x65, 0x72, 0x73]
}

/// The bytes of `crs`.
pub open spec fn crs_name() -> Seq<u8> {
    seq![0x63u8, 0x72, 0x73]
}

/// Whether two byte strings are the same.
pub fn same_bytes(a: &[u8], b: &[u8]) -> (same: bool)
    ensures
        same == (a@ == b@),
{
    if a.len() != b.len() {
        return false;
    }
    let mut i: usize = 0;
    while i < a.len()
        invariant
            i <= a.len(),
            a@.len() == b@.len(),
            forall|k: int| 0 <= k < i ==> a@[k] == b@[k],
        decreases a.len() - i,
    {
        if a[i] != b[i] {
            return false;
        }
        i += 1;
    }
    assert(a@ =~= b@);
    true
}

/// Where a request goes: to a contract whatever its topic, to one of the
/// three services of the component `rusk`, or nowhere.
pub fn route(target: Target, component: &[u8], topic: &[u8], feeder: bool) -> (route: Route)
    ensures
        route == match target {
            Target::Contract => Route::ContractQuery { feeder },
            Target::Host => if component@ != rusk_name() {
                Route::Unsupported
            } else if topic@ == preverify_name() {
                Route::Preverify
            } else if topic@ == provisioners_name() {
                Route::Provisioners
            } else if topic@ == crs_name() {
                Route::Crs
            } else {
                Route::Unsupported
            },
            Target::Unknown => Route::Unsupported,
        },
{
    match target {
        Target::Contract => Route::ContractQuery { feeder },
        Target::Host => {
            let rusk = [0x72u8, 0x75, 0x73, 0x6b];
            let preverify = [0x70u8, 0x72, 0x65, 0x76, 0x65, 0x72, 0x69, 0x66, 0x79];
            let provisioners = [0x70u8, 0x72, 0x6f, 0x76, 0x69, 0x73, 0x69, 0x6f, 0x6e, 0x65, 0x72, 0x73];
            let crs = [0x63u8, 0x72, 0x73];
            if !same_bytes(component, &rusk) {
                Route::Unsupported
            } else if same_bytes(topic, &preverify) {
                Route::Preverify
            } else if same_bytes(topic, &provisioners) {
                Route::Provisioners
            } else if same_bytes(topic, &crs) {
                Route::Crs
            } else {
                Route::Unsupported
            }
        },
        Target::Unknown => Route::Unsupported,
    }
}

} // verus!
