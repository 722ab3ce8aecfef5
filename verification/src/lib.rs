//! A Halton low-discrepancy sequence engine.
//!
//! The engine works on the exact digit expansion of each value: the Halton
//! value for a base `b` and an index `i` is `sum over k of d_k * b^-(k+1)`,
//! where `d_0, d_1, ...` are the base-`b` digits of `i`, least significant
//! first. A [`radix::Value`] holds those digits as plain integers, so every
//! result is exact; a host turns one into its floating-point reading when it
//! needs to.
//!
//! - [`radix`] holds the stateless digit-radix core.
//! - [`sequence`] holds the stateful per-base generator.
//! - [`composite`] holds the multi-stream composer that advances several
//!   generators in lockstep.

use vstd::prelude::*;

pub mod composite;
pub mod radix;
pub mod sequence;

verus! {

/// Why a construction or a computation was refused.
#[derive(Clone, Copy, Debug, PartialEq, Eq)]
pub enum HaltonError {
    /// A radix below two was supplied.
    InvalidBase,
    /// A composer needs at least one base.
    NoBases,
}

} // verus!
