//! The bytes of signed messages and of stored records.

use crate::encoding::{
    le_bytes, le_value, lemma_le_bytes_len, lemma_le_round_trip, lemma_le_value_bytes,
    lemma_pow256_8, push_bytes, push_le, read_le,
};
use crate::keys::PublicKey;
use crate::ledger::StakeData;
use vstd::prelude::*;
use vstd::slice::slice_subrange;

verus! {

/// The message that a deposit signs: the counter of the record, then the
/// value, each in 8 bytes little-endian.
pub open spec fn stake_message(counter: u64, value: u64) -> Seq<u8> {
    le_bytes(counter as nat, 8) + le_bytes(value as nat, 8)
}

/// The message that a withdrawal signs: the counter of the record in 8
/// bytes little-endian, the address that receives the reward, and a nonce.
pub open spec fn withdraw_message(counter: u64, address: Seq<u8>, nonce: Seq<u8>) -> Seq<u8> {
    le_bytes(counter as nat, 8) + address + nonce
}

/// The message that an unstake signs: the counter of the record in 8
/// bytes little-endian, then the note that receives the stake.
pub open spec fn unstake_message(counter: u64, note: Seq<u8>) -> Seq<u8> {
    le_bytes(counter as nat, 8) + note
}

pub fn stake_signature_message(counter: u64, value: u64) -> (message: Vec<u8>)
    ensures
        message@ == stake_message(counter, value),
        message@.len() == 16,
{
    let mut message: Vec<u8> = Vec::new();
    push_le(&mut message, counter, 8);
    push_le(&mut message, value, 8);
    proof {
        lemma_le_bytes_len(counter as nat, 8);
        lemma_le_bytes_len(value as nat, 8);
    }
    message
}

pub fn withdraw_signature_message(counter: u64, address: &[u8], nonce: &[u8]) -> (message: Vec<u8>)
    ensures
        message@ == withdraw_message(counter, address@, nonce@),
{
    let mut message: Vec<u8> = Vec::new();
    push_le(&mut message, counter, 8);
    push_bytes(&mut message, address);
    push_bytes(&mut message, nonce);
    message
}

pub fn unstake_signature_message(counter: u64, note: &[u8]) -> (message: Vec<u8>)
    ensures
        message@ == unstake_message(counter, note@),
{
    let mut message: Vec<u8> = Vec::new();
    push_le(&mut message, counter, 8);
    push_bytes(&mut message, note);
    message
}

/// The length of a stored record.
pub const RECORD_SIZE: usize = 33;

/// The length of a stored entry: a key and its record.
pub const ENTRY_SIZE: usize = 129;

/// The bytes of a record: a byte that tells whether an amount is staked,
/// then the amount, the round from which it counts, the reward and the
/// counter, each in 8 bytes little-endian. Without an amount the first two
/// fields are zero.
pub open spec fn record_bytes(record: StakeData) -> Seq<u8> {
    let (tag, value, since) = match record.amount {
        Some((value, since)) => (1u8, value, since),
        None => (0u8, 0u64, 0u64),
    };
    seq![tag] + le_bytes(value as nat, 8) + le_bytes(since as nat, 8) + le_bytes(
        record.reward as nat,
        8,
    ) + le_bytes(record.counter as nat, 8)
}

/// The record that `bytes` store, where they store one: 33 bytes that
/// begin with 1, or with 0 and then sixteen zeroes.
pub open spec fn stored_record(bytes: Seq<u8>) -> Option<StakeData> {
    if bytes.len() != RECORD_SIZE {
        None
    } else {
        let value = le_value(bytes.subrange(1, 9)) as u64;
        let since = le_value(bytes.subrange(9, 17)) as u64;
        let reward = le_value(bytes.subrange(17, 25)) as u64;
        let counter = le_value(bytes.subrange(25, 33)) as u64;
        if bytes[0] == 1 {
            Some(StakeData { amount: Some((value, since)), reward, counter })
        } else if bytes[0] == 0 && value == 0 && since == 0 {
            Some(StakeData { amount: None, reward, counter })
        } else {
            None
        }
    }
}

/// The bytes of a record have its fields at fixed places.
pub proof fn lemma_record_bytes_fields(record: StakeData)
    ensures
        record_bytes(record).len() == RECORD_SIZE,
        record_bytes(record)[0] == if record.amount.is_some() {
            1u8
        } else {
            0u8
        },
        record_bytes(record).subrange(1, 9) == le_bytes(
            match record.amount {
                Some((value, _)) => value as nat,
                None => 0,
            },
            8,
        ),
        record_bytes(record).subrange(9, 17) == le_bytes(
            match record.amount {
                Some((_, since)) => since as nat,
                None => 0,
            },
            8,
        ),
        record_bytes(record).subrange(17, 25) == le_bytes(record.reward as nat, 8),
        record_bytes(record).subrange(25, 33) == le_bytes(record.counter as nat, 8),
{
    let (value, since) = match record.amount {
        Some((value, since)) => (value, since),
        None => (0u64, 0u64),
    };
    lemma_le_bytes_len(value as nat, 8);
    lemma_le_bytes_len(since as nat, 8);
    lemma_le_bytes_len(record.reward as nat, 8);
    lemma_le_bytes_len(record.counter as nat, 8);
    let bytes = record_bytes(record);
    assert(bytes.subrange(1, 9) =~= le_bytes(value as nat, 8));
    assert(bytes.subrange(9, 17) =~= le_bytes(since as nat, 8));
    assert(bytes.subrange(17, 25) =~= le_bytes(record.reward as nat, 8));
    assert(bytes.subrange(25, 33) =~= le_bytes(record.counter as nat, 8));
}

/// Reading the bytes of a record gives the record back.
pub proof fn lemma_record_round_trip(record: StakeData)
    ensures
        stored_record(record_bytes(record)) == Some(record),
{
    lemma_record_bytes_fields(record);
    lemma_pow256_8();
    let (value, since) = match record.amount {
        Some((value, since)) => (value, since),
        None => (0u64, 0u64),
    };
    lemma_le_round_trip(value as nat, 8);
    lemma_le_round_trip(since as nat, 8);
    lemma_le_round_trip(record.reward as nat, 8);
    lemma_le_round_trip(record.counter as nat, 8);
}

/// Writing the record that bytes store gives the same bytes.
pub proof fn lemma_stored_bytes_round_trip(bytes: Seq<u8>)
    requires
        stored_record(bytes).is_some(),
    ensures
        record_bytes(stored_record(bytes).unwrap()) == bytes,
{
    let record = stored_record(bytes).unwrap();
    lemma_record_bytes_fields(record);
    lemma_pow256_8();
    lemma_le_value_bytes(bytes.subrange(1, 9));
    lemma_le_value_bytes(bytes.subrange(9, 17));
    lemma_le_value_bytes(bytes.subrange(17, 25));
    lemma_le_value_bytes(bytes.subrange(25, 33));
    let again = record_bytes(record);
    assert forall|i: int| 0 <= i < 33 implies again[i] == bytes[i] by {
        if 1 <= i < 9 {
            assert(again[i] == again.subrange(1, 9)[i - 1]);
        } else if 9 <= i < 17 {
            assert(again[i] == again.subrange(9, 17)[i - 9]);
        } else if 17 <= i < 25 {
            assert(again[i] == again.subrange(17, 25)[i - 17]);
        } else if 25 <= i {
            assert(again[i] == again.subrange(25, 33)[i - 25]);
        }
    }
}

/// Writing a record, reading it and writing it again gives the bytes of
/// the first writing.
pub proof fn lemma_record_bytes_stable(record: StakeData)
    ensures
        stored_record(record_bytes(record)).is_some(),
        record_bytes(stored_record(record_bytes(record)).unwrap()) == record_bytes(record),
{
    lemma_record_round_trip(record);
}

impl StakeData {
    /// Writes the record as 33 bytes.
    pub fn to_bytes(&self) -> (bytes: Vec<u8>)
        ensures
            bytes@ == record_bytes(*self),
            bytes@.len() == RECORD_SIZE,
    {
        let mut bytes: Vec<u8> = Vec::new();
        let (tag, value, since) = match self.amount {
            Some((value, since)) => (1u8, value, since),
            None => (0u8, 0u64, 0u64),
        };
        bytes.push(tag);
        push_le(&mut bytes, value, 8);
        push_le(&mut bytes, since, 8);
        push_le(&mut bytes, self.reward, 8);
        push_le(&mut bytes, self.counter, 8);
        proof {
            lemma_record_bytes_fields(*self);
        }
        bytes
    }

    /// Reads a record from the bytes that `to_bytes` wrote.
    pub fn from_bytes(bytes: &[u8]) -> (record: Option<Self>)
        ensures
            record == stored_record(bytes@),
    {
        if bytes.len() != 33 {
            return None;
        }
        let tag = bytes[0];
        let value = read_le(bytes, 1, 8);
        let since = read_le(bytes, 9, 8);
        let reward = read_le(bytes, 17, 8);
        let counter = read_le(bytes, 25, 8);
        if tag == 1 {
            Some(StakeData { amount: Some((value, since)), reward, counter })
        } else if tag == 0 && value == 0 && since == 0 {
            Some(StakeData { amount: None, reward, counter })
        } else {
            None
        }
    }
}

/// The bytes of an entry of the ledger: the key, then the record.
pub open spec fn entry_bytes(key: Seq<u8>, record: StakeData) -> Seq<u8> {
    key + record_bytes(record)
}

/// Writes a key and its record as 129 bytes, as they are handed to a
/// reader of the whole ledger.
pub fn encode_entry(key: &PublicKey, record: &StakeData) -> (bytes: Vec<u8>)
    ensures
        bytes@ == entry_bytes(key@, *record),
        bytes@.len() == ENTRY_SIZE,
{
    let mut bytes: Vec<u8> = Vec::new();
    let key_bytes = key.to_bytes();
    push_bytes(&mut bytes, &key_bytes);
    let record_bytes = record.to_bytes();
    push_bytes(&mut bytes, record_bytes.as_slice());
    proof {
        key.lemma_len();
    }
    bytes
}

/// Reads a key and its record from the bytes that `encode_entry` wrote.
pub fn decode_entry(bytes: &[u8]) -> (entry: Option<(PublicKey, StakeData)>)
    ensures
        match entry {
            Some((key, record)) => bytes@.len() == ENTRY_SIZE && key@ == bytes@.subrange(0, 96)
                && stored_record(bytes@.subrange(96, 129)) == Some(record),
            None => bytes@.len() != ENTRY_SIZE || stored_record(bytes@.subrange(96, 129)).is_none(),
        },
{
    if bytes.len() != 129 {
        return None;
    }
    let key = match PublicKey::from_slice(slice_subrange(bytes, 0, 96)) {
        Some(key) => key,
        None => {
            return None;
        },
    };
    match StakeData::from_bytes(slice_subrange(bytes, 96, 129)) {
        Some(record) => Some((key, record)),
        None => None,
    }
}

/// Reading the bytes of an entry gives the entry back.
pub proof fn lemma_entry_round_trip(key: Seq<u8>, record: StakeData)
    requires
        key.len() == 96,
    ensures
        entry_bytes(key, record).len() == ENTRY_SIZE,
        entry_bytes(key, record).subrange(0, 96) == key,
        stored_record(entry_bytes(key, record).subrange(96, 129)) == Some(record),
{
    lemma_record_bytes_fields(record);
    lemma_record_round_trip(record);
    assert(entry_bytes(key, record).subrange(96, 129) =~= record_bytes(record));
}

} // verus!
