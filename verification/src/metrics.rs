//! The average of the last validation times.

use crate::encoding::{le_bytes, le_value, lemma_le_bytes_len, lemma_le_round_trip, lemma_pow256_8};
use std::collections::VecDeque;
use vstd::prelude::*;

verus! {

/// The last `n` values of `values`, or all where they are fewer.
pub open spec fn last_n(values: Seq<u16>, n: nat) -> Seq<u16> {
    if values.len() <= n {
        values
    } else {
        values.subrange(values.len() - n, values.len() as int)
    }
}

/// The sum of `values`.
pub open spec fn sum_of(values: Seq<u16>) -> nat
    decreases values.len(),
{
    if values.len() == 0 {
        0
    } else {
        sum_of(values.drop_last()) + values.last() as nat
    }
}

/// The bytes of `values`: each in 2 bytes little-endian, in their order.
pub open spec fn values_bytes(values: Seq<u16>) -> Seq<u8>
    decreases values.len(),
{
    if values.len() == 0 {
        Seq::empty()
    } else {
        values_bytes(values.drop_last()) + le_bytes(values.last() as nat, 2)
    }
}

/// The values that `bytes` store, two bytes to a value.
pub open spec fn stored_values(bytes: Seq<u8>) -> Seq<u16> {
    Seq::new(bytes.len() / 2, |i: int| le_value(bytes.subrange(2 * i, 2 * i + 2)) as u16)
}

pub proof fn lemma_values_bytes_len(values: Seq<u16>)
    ensures
        values_bytes(values).len() == 2 * values.len(),
    decreases values.len(),
{
    if values.len() > 0 {
        lemma_values_bytes_len(values.drop_last());
        lemma_le_bytes_len(values.last() as nat, 2);
    }
}

/// Reading the bytes of values gives the values back.
pub proof fn lemma_values_round_trip(values: Seq<u16>)
    ensures
        stored_values(values_bytes(values)) == values,
    decreases values.len(),
{
    lemma_values_bytes_len(values);
    if values.len() > 0 {
        let front = values.drop_last();
        let last = values.last();
        lemma_values_round_trip(front);
        lemma_values_bytes_len(front);
        lemma_le_bytes_len(last as nat, 2);
        lemma_pow256_8();
        lemma_le_round_trip(last as nat, 2);
        let bytes = values_bytes(values);
        let read = stored_values(bytes);
        assert forall|i: int| 0 <= i < values.len() implies read[i] == values[i] by {
            if i < front.len() {
                assert(bytes.subrange(2 * i, 2 * i + 2) =~= values_bytes(front).subrange(
                    2 * i,
                    2 * i + 2,
                ));
                assert(stored_values(values_bytes(front))[i] == front[i]);
            } else {
                assert(bytes.subrange(2 * i, 2 * i + 2) =~= le_bytes(last as nat, 2));
            }
        }
    } else {
        assert(stored_values(values_bytes(values)) =~= values);
    }
}

/// Implements logic of calculating the average of last N stored values
pub struct AvgValidationTime {
    values: VecDeque<u16>,
    window: usize,
}

/// The stored values as contracts see them.
pub struct AvgView {
    /// The values, oldest first.
    pub values: Seq<u16>,
    /// How many values are kept at most.
    pub window: nat,
}

impl View for AvgValidationTime {
    type V = AvgView;

    closed spec fn view(&self) -> AvgView {
        AvgView { values: self.values@, window: self.window as nat }
    }
}

impl AvgValidationTime {
    /// No more values are stored than are kept.
    pub open spec fn wf(&self) -> bool {
        self@.values.len() <= self@.window
    }

    /// Stores `value` as the newest, and lets the oldest go where the
    /// window is full.
    pub fn push_back(&mut self, value: u16)
        requires
            old(self).wf(),
        ensures
            final(self).wf(),
            final(self)@.window == old(self)@.window,
            final(self)@.values == last_n(old(self)@.values.push(value), old(self)@.window),
    {
        if self.window == 0 {
            return ;
        }
        if self.values.len() == self.window {
            let _ = self.values.pop_front();
        }
        self.values.push_back(value);
    }

    /// The average of the stored values, rounded down. `None` where the
    /// values add up to nothing.
    pub fn average(&self) -> (average: Option<u16>)
        ensures
            average == if sum_of(self@.values) == 0 {
                None::<u16>
            } else {
                Some((sum_of(self@.values) / self@.values.len()) as u16)
            },
    {
        let len = self.values.len();
        let mut sum: u128 = 0;
        let mut i: usize = 0;
        while i < len
            invariant
                i <= len,
                len == self.values@.len(),
                sum == sum_of(self.values@.take(i as int)),
                sum <= i * 0xffff,
            decreases len - i,
        {
            proof {
                assert(self.values@.take(i + 1).drop_last() =~= self.values@.take(i as int));
            }
            sum = sum + self.values[i] as u128;
            i += 1;
        }
        assert(self.values@.take(len as int) =~= self.values@);
        if sum == 0 {
            return None;
        }
        assert(sum / (len as u128) <= 0xffff) by (nonlinear_arith)
            requires
                sum <= len * 0xffff,
                len > 0,
        ;
        Some((sum / len as u128) as u16)
    }

    /// The stored values as bytes, each in 2 bytes little-endian, oldest
    /// first.
    pub fn to_bytes(self) -> (bytes: Vec<u8>)
        ensures
            bytes@ == values_bytes(self@.values),
    {
        let mut bytes: Vec<u8> = Vec::new();
        let len = self.values.len();
        let mut i: usize = 0;
        while i < len
            invariant
                i <= len,
                len == self.values@.len(),
                bytes@ == values_bytes(self.values@.take(i as int)),
            decreases len - i,
        {
            proof {
                assert(self.values@.take(i + 1).drop_last() =~= self.values@.take(i as int));
            }
            crate::encoding::push_le(&mut bytes, self.values[i] as u64, 2);
            i += 1;
        }
        assert(self.values@.take(len as int) =~= self.values@);
        bytes
    }

    /// A window of `len` values, filled from `buf` where `buf` holds
    /// exactly `len` values of 2 bytes, and empty where it does not.
    pub fn from_bytes(buf: &Vec<u8>, len: usize) -> (stored: Self)
        ensures
            stored.wf(),
            stored@.window == len,
            stored@.values == if buf@.len() == 2 * len {
                stored_values(buf@)
            } else {
                Seq::<u16>::empty()
            },
    {
        let mut stored = AvgValidationTime { values: VecDeque::new(), window: len };
        let buf_len = buf.len();
        if len > usize::MAX / 2 || buf_len != len * 2 {
            return stored;
        }
        let mut i: usize = 0;
        while i < len
            invariant
                i <= len,
                buf@.len() == 2 * len,
                len <= usize::MAX / 2,
                stored.window == len,
                stored.values@.len() == i,
                forall|k: int| 0 <= k < i ==> stored.values@[k] == stored_values(buf@)[k],
            decreases len - i,
        {
            let value = crate::encoding::read_le(buf.as_slice(), 2 * i, 2);
            proof {
                lemma_pow256_8();
                crate::encoding::lemma_le_value_bytes(buf@.subrange(2 * i, 2 * i + 2));
            }
            stored.values.push_back(value as u16);
            i += 1;
        }
        stored
    }
}

} // verus!
