//! What the pool of pending transactions lets in.

use vstd::prelude::*;

verus! {

/// The filter that stands before the pool. It lets every message pass.
#[derive(Clone, Copy, Debug, Default)]
pub struct TxFilter {}

impl TxFilter {
    /// Whether `msg` may go on to the pool.
    pub fn filter(&mut self, msg: &[u8]) -> (passed: Result<(), ()>)
        ensures
            passed.is_ok(),
    {
        Ok(())
    }
}

} // verus!
