//! The stateful per-base generator: a cursor over the index space of one
//! base, advanced one position per produced value or in bulk by a skip.

use vstd::prelude::*;

use crate::radix::{index_digits, lemma_halton_digits_wf, Value};
use crate::HaltonError;

verus! {

/// Where a cursor stands after one produced value: one past where it was,
/// until the index space runs out, where it stays for good.
pub open spec fn stepped_cursor(cursor: u64) -> u64 {
    if cursor == u64::MAX {
        cursor
    } else {
        (cursor + 1) as u64
    }
}

/// Where a cursor stands after a bulk skip of `n` positions: clamped to the
/// end of the index space.
pub open spec fn skipped_cursor(cursor: u64, n: u64) -> u64 {
    if cursor + n <= u64::MAX {
        (cursor + n) as u64
    } else {
        u64::MAX
    }
}

/// Where a cursor stands after `k` single steps in a row.
pub open spec fn repeatedly_stepped_cursor(cursor: u64, k: nat) -> u64
    decreases k,
{
    if k == 0 {
        cursor
    } else {
        stepped_cursor(repeatedly_stepped_cursor(cursor, (k - 1) as nat))
    }
}

/// `k` single steps land the cursor `k` past where it was, clamped to the
/// end of the index space.
pub proof fn lemma_repeated_step_is_bulk_advance(cursor: u64, k: nat)
    ensures
        repeatedly_stepped_cursor(cursor, k) == if cursor + k <= u64::MAX {
            cursor + k
        } else {
            u64::MAX as int
        },
    decreases k,
{
    if k > 0 {
        lemma_repeated_step_is_bulk_advance(cursor, (k - 1) as nat);
    }
}

/// Skip equivalence: a bulk skip of `n` followed by one produced value lands
/// the cursor exactly where `n + 1` produced values one by one land it, so
/// the value it then yields is the value the last of those calls yields.
pub proof fn lemma_skip_then_next_is_repeated_next(cursor: u64, n: u64)
    ensures
        stepped_cursor(skipped_cursor(cursor, n)) == repeatedly_stepped_cursor(
            cursor,
            (n + 1) as nat,
        ),
{
    lemma_repeated_step_is_bulk_advance(cursor, (n + 1) as nat);
    lemma_repeated_step_is_bulk_advance(cursor, n as nat);
}

/// Exhaustion is sticky: from the exhausted cursor, any number of further
/// steps leaves the cursor exhausted, so every later call yields the
/// terminal signal again.
pub proof fn lemma_exhaustion_sticky(cursor: u64, k: nat)
    requires
        cursor == u64::MAX,
    ensures
        repeatedly_stepped_cursor(cursor, k) == u64::MAX,
    decreases k,
{
    if k > 0 {
        lemma_exhaustion_sticky(cursor, (k - 1) as nat);
    }
}

/// Sequence/core agreement: from a fresh cursor, the `k`-th produced value
/// is read at cursor `k`, so it is the digit-radix core's value for index
/// `k` — the generator surfaces `number(base, 1), number(base, 2), ...` in
/// order.
pub proof fn lemma_sequence_core_agreement(k: nat)
    requires
        k <= u64::MAX,
    ensures
        repeatedly_stepped_cursor(0, k) == k,
{
    lemma_repeated_step_is_bulk_advance(0, k);
}

/// A resumable Halton sequence for one base: an immutable radix and a
/// cursor that only ever moves forward.
#[derive(Clone, Copy, Debug, PartialEq, Eq)]
pub struct Sequence {
    /// The radix; immutable after construction, at least two.
    pub base: u8,
    /// The index of the value produced last; zero on a fresh generator.
    pub current_index: u64,
}

impl Sequence {
    /// Well-formedness: the radix is at least two.
    pub open spec fn wf(&self) -> bool {
        self.base >= 2
    }

    /// Has the cursor reached the end of the index space?
    pub open spec fn exhausted(&self) -> bool {
        self.current_index == u64::MAX
    }

    /// A fresh generator for `base`, with its cursor at zero; a base below
    /// two is refused.
    pub fn new(base: u8) -> (r: Result<Sequence, HaltonError>)
        ensures
            base >= 2 ==> (r matches Ok(s) && s == (Sequence { base, current_index: 0 })),
            base < 2 ==> (r matches Err(e) && e == HaltonError::InvalidBase),
    {
        if base < 2 {
            Err(HaltonError::InvalidBase)
        } else {
            Ok(Sequence { base, current_index: 0 })
        }
    }

    /// Advance the cursor by one and produce the value there; the terminal
    /// signal once the index space is out, with the state left untouched,
    /// so the signal repeats on every later call.
    pub fn next(&mut self) -> (r: Option<Value>)
        requires
            old(self).wf(),
        ensures
            final(self).base == old(self).base,
            final(self).current_index == stepped_cursor(old(self).current_index),
            !old(self).exhausted() ==> (r matches Some(v) && v.wf() && v.is_for(
                old(self).base as int,
                old(self).current_index + 1,
            )),
            old(self).exhausted() ==> r is None && *final(self) == *old(self),
    {
        if self.current_index == u64::MAX {
            None
        } else {
            self.current_index = self.current_index + 1;
            let digits = index_digits(self.base, self.current_index);
            proof {
                lemma_halton_digits_wf(self.base as int, self.current_index as int);
            }
            Some(Value { base: self.base, digits })
        }
    }

    /// Move the cursor `n` positions without producing the values in
    /// between; clamps to the exhausted state at the end of the index
    /// space.
    pub fn skip(&mut self, n: u64)
        ensures
            final(self).base == old(self).base,
            final(self).current_index == skipped_cursor(old(self).current_index, n),
    {
        if n <= u64::MAX - self.current_index {
            self.current_index = self.current_index + n;
        } else {
            self.current_index = u64::MAX;
        }
    }

    /// How many values the generator can still produce before the index
    /// space is out. The index space of this generator is always bounded,
    /// so the count is always known.
    pub fn remaining(&self) -> (r: Option<u64>)
        ensures
            r matches Some(k) && k == u64::MAX - self.current_index,
    {
        Some(u64::MAX - self.current_index)
    }

    /// The next `n` values, read from a private copy of the generator: the
    /// receiver's own cursor is untouched. Shorter than `n` only when the
    /// copy exhausts its index space first.
    pub fn take(&self, n: usize) -> (r: Vec<Value>)
        requires
            self.wf(),
        ensures
            r@.len() == if n <= u64::MAX - self.current_index {
                n as int
            } else {
                u64::MAX - self.current_index
            },
            forall|j: int|
                0 <= j < r@.len() ==> (#[trigger] r@[j]).wf() && r@[j].is_for(
                    self.base as int,
                    self.current_index + 1 + j,
                ),
    {
        let mut copy: Sequence = *self;
        let mut out: Vec<Value> = Vec::new();
        let mut j: usize = 0;
        while j < n
            invariant
                self.wf(),
                copy.base == self.base,
                j <= n,
                out@.len() == j as int,
                copy.current_index == self.current_index + j,
                forall|m: int|
                    0 <= m < j ==> (#[trigger] out@[m]).wf() && out@[m].is_for(
                        self.base as int,
                        self.current_index + 1 + m,
                    ),
            ensures
                out@.len() == if n <= u64::MAX - self.current_index {
                    n as int
                } else {
                    u64::MAX - self.current_index
                },
                forall|m: int|
                    0 <= m < out@.len() ==> (#[trigger] out@[m]).wf() && out@[m].is_for(
                        self.base as int,
                        self.current_index + 1 + m,
                    ),
            decreases n - j,
        {
            match copy.next() {
                Some(v) => {
                    out.push(v);
                    j = j + 1;
                },
                None => {
                    break ;
                },
            }
        }
        out
    }
}

} // verus!
