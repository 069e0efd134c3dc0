//! The inputs of one committee extraction and the score of each draw.

use crate::encoding::{be_value, le_bytes, push_bytes, push_le};
use crate::hashing::{sha3_256, sha3_256_digest};
use vstd::prelude::*;

verus! {

/// What a committee is drawn for: the block seed, the round, the step, and
/// the number of seats.
#[derive(Clone, Copy, Debug)]
pub struct Config {
    pub seed: [u8; 32],
    pub round: u64,
    pub step: u16,
    pub committee_size: usize,
}

impl Config {
    pub fn new(seed: [u8; 32], round: u64, step: u16, committee_size: usize) -> (cfg: Self)
        ensures
            cfg.seed == seed,
            cfg.round == round,
            cfg.step == step,
            cfg.committee_size == committee_size,
    {
        Config { seed, round, step, committee_size }
    }
}

/// What is hashed for draw number `counter`: the seed, then the round in 8
/// bytes, the step in 2 and the counter in 4, each little-endian.
pub open spec fn sortition_preimage(seed: Seq<u8>, round: u64, step: u16, counter: nat) -> Seq<u8> {
    seed + le_bytes(round as nat, 8) + le_bytes(step as nat, 2) + le_bytes(counter, 4)
}

/// The hash of draw number `counter`.
pub open spec fn sortition_hash(cfg: Config, counter: nat) -> Seq<u8> {
    sha3_256_digest(sortition_preimage(cfg.seed@, cfg.round, cfg.step, counter))
}

/// The score of draw number `counter` against a pool of weight `total`: the
/// hash read as a big-endian number, reduced modulo `total`.
pub open spec fn sortition_score(cfg: Config, counter: nat, total: nat) -> nat
    recommends
        total > 0,
{
    be_value(sortition_hash(cfg, counter)) % total
}

/// Hashes the configuration together with the draw counter.
pub fn create_sortition_hash(cfg: &Config, counter: u32) -> (hash: [u8; 32])
    ensures
        hash@ == sortition_hash(*cfg, counter as nat),
{
    let mut preimage: Vec<u8> = Vec::new();
    push_bytes(&mut preimage, &cfg.seed);
    push_le(&mut preimage, cfg.round, 8);
    push_le(&mut preimage, cfg.step as u64, 2);
    push_le(&mut preimage, counter as u64, 4);
    sha3_256(preimage.as_slice())
}

/// Calls `num_bigint::BigUint::from_bytes_be` on the hash and takes the
/// remainder of dividing it by `total` with the `%` of `BigUint`: the
/// big-endian value of the 32 bytes modulo `total`. The division stops the
/// program on a zero divisor, which `requires` leaves out. The remainder is
/// below `total` and so goes back into a `u128`.
#[verifier::external_body]
fn big_endian_remainder(hash: &[u8; 32], total: u128) -> (remainder: u128)
    requires
        total > 0,
    ensures
        remainder == be_value(hash@) % (total as nat),
{
    let number = num_bigint::BigUint::from_bytes_be(hash);
    let remainder = number % num_bigint::BigUint::from(total);
    u128::try_from(remainder).unwrap_or(0)
}

/// The score of a draw: `hash` as a big-endian number, modulo `total`.
pub fn generate_sortition_score(hash: &[u8; 32], total: u128) -> (score: u128)
    requires
        total > 0,
    ensures
        score == be_value(hash@) % (total as nat),
        score < total,
{
    let score = big_endian_remainder(hash, total);
    assert(be_value(hash@) % (total as nat) < total) by (nonlinear_arith)
        requires
            total > 0,
    ;
    score
}

} // verus!
