//! Stake ledger and deterministic sortition for a proof-of-stake node.
//!
//! The crate keeps the registry of validator stakes, draws the committee of
//! a consensus step from it, and decides what a block execution session
//! does with each transaction receipt.
//!
//! - [`ledger`] is the registry: deposits, withdrawals, rewards and
//!   confiscations, each behind the check of who calls. [`conservation`]
//!   holds what is true of every sequence of requests.
//! - [`provisioners`], [`member`] and [`stake`] are the view of the ledger
//!   that a sortition works on; [`sortition`] gives each draw its score and
//!   [`committee`] holds what is true of every committee.
//! - [`session`], [`coinbase`], [`chain`] and [`migration`] decide what
//!   happens block by block; the virtual machine itself stays outside.
//! - [`queries`], [`wire`], [`events`] and [`encoding`] fix the bytes that
//!   leave the node.
//!
//! Every executable function is verified against the contract it carries.
//! Four calls leave the crate, to SHA3-256, to big-integer division, to
//! Base58 and to hexadecimal decoding; each stands in a function of its own
//! whose contract is taken on trust and says so.

pub mod chain;
pub mod coinbase;
pub mod committee;
pub mod config;
pub mod conservation;
pub mod contract_id;
pub mod encoding;
pub mod events;
pub mod hashing;
pub mod keys;
pub mod ledger;
pub mod member;
pub mod mempool;
pub mod metrics;
pub mod migration;
pub mod ordered_map;
pub mod provisioners;
pub mod queries;
pub mod session;
pub mod sortition;
pub mod stake;
pub mod wire;
