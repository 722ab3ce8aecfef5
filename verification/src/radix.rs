//! The digit-radix core: the Halton value for an arbitrary `(base, index)`
//! pair, held exactly as the reversed digit expansion of the index.

use vstd::arithmetic::div_mod::lemma_div_is_strictly_smaller;
use vstd::arithmetic::power::pow;
use vstd::prelude::*;

use crate::HaltonError;

verus! {

/// The fractional digits of the Halton value for `index` in radix `base`:
/// digit `k` is the coefficient of `base^-(k+1)` in the value. They are the
/// base-`base` digits of `index`, least significant first, so the digit
/// string is empty exactly when `index` is zero and never ends in a zero.
pub open spec fn halton_digits(base: int, index: int) -> Seq<u8>
    decreases index via halton_digits_decreases
{
    if base < 2 || index <= 0 {
        Seq::empty()
    } else {
        seq![(index % base) as u8] + halton_digits(base, index / base)
    }
}

#[via_fn]
proof fn halton_digits_decreases(base: int, index: int) {
    if !(base < 2 || index <= 0) {
        lemma_div_is_strictly_smaller(index, base);
        vstd::arithmetic::div_mod::lemma_div_pos_is_pos(index, base);
    }
}

/// One Halton value, exactly: it denotes `sum over k of
/// digits[k] * base^-(k+1)`.
#[derive(Debug, PartialEq, Eq)]
pub struct Value {
    /// The radix of the expansion; at least two.
    pub base: u8,
    /// The fractional digits, each below `base`, the last one never zero.
    pub digits: Vec<u8>,
}

/// A digit string that fits radix `base`: each digit below the base and no
/// trailing zero, so each index has exactly one such expansion.
pub open spec fn digits_wf(base: int, digits: Seq<u8>) -> bool {
    &&& forall|k: int| 0 <= k < digits.len() ==> digits[k] < base
    &&& digits.len() > 0 ==> digits.last() != 0
}

impl Value {
    /// Well-formedness: a valid radix and a digit string that fits it.
    pub open spec fn wf(&self) -> bool {
        &&& self.base >= 2
        &&& digits_wf(self.base as int, self.digits@)
    }

    /// Does this value stand for the Halton value of `(base, index)`?
    pub open spec fn is_for(&self, base: int, index: int) -> bool {
        &&& self.base == base
        &&& self.digits@ == halton_digits(base, index)
    }
}

/// The value that a digit string denotes, scaled by `base` to the power of
/// its length: the exact integer numerator of the fraction
/// `sum over k of digits[k] * base^-(k+1)` over `base^len`.
pub open spec fn scaled_value(base: int, digits: Seq<u8>) -> int
    decreases digits.len(),
{
    if digits.len() == 0 {
        0
    } else {
        scaled_value(base, digits.drop_last()) * base + digits.last()
    }
}

/// Every digit string whose digits fit the base denotes a value in the
/// half-open unit interval: scaled by `base^len` it lies in `[0, base^len)`,
/// so every Halton value satisfies `0 <= value < 1`.
pub proof fn lemma_value_in_unit_interval(base: int, digits: Seq<u8>)
    requires
        base >= 2,
        forall|k: int| 0 <= k < digits.len() ==> digits[k] < base,
    ensures
        0 <= scaled_value(base, digits) < pow(base, digits.len()),
    decreases digits.len(),
{
    reveal(pow);
    if digits.len() == 0 {
        assert(pow(base, 0) == 1);
    } else {
        let rest = digits.drop_last();
        lemma_value_in_unit_interval(base, rest);
        let s = scaled_value(base, rest);
        let p = pow(base, rest.len());
        assert(pow(base, digits.len()) == base * p);
        assert(0 <= s * base + digits.last() < base * p) by (nonlinear_arith)
            requires
                0 <= s < p,
                0 <= digits.last() < base,
                base >= 2,
        ;
    }
}

/// Every Halton value lies in the half-open unit interval: for any valid
/// base and any index, the digit string that [`number`] returns denotes a
/// value in `[0, 1)`.
pub proof fn lemma_number_in_unit_interval(base: int, index: int)
    requires
        2 <= base <= u8::MAX,
        index >= 0,
    ensures
        0 <= scaled_value(base, halton_digits(base, index)) < pow(
            base,
            halton_digits(base, index).len(),
        ),
{
    lemma_halton_digits_wf(base, index);
    lemma_value_in_unit_interval(base, halton_digits(base, index));
}

/// The zeroth value of every base is zero: index zero expands to the empty
/// digit string, which denotes zero.
pub proof fn lemma_number_zero(base: int)
    requires
        base >= 2,
    ensures
        halton_digits(base, 0) == Seq::<u8>::empty(),
        scaled_value(base, halton_digits(base, 0)) == 0,
{
}

/// Determinism: the contract of [`number`] pins its result completely, so
/// any two results for the same arguments agree digit for digit.
pub proof fn lemma_number_deterministic(base: int, index: int, v1: Value, v2: Value)
    requires
        v1.is_for(base, index),
        v2.is_for(base, index),
    ensures
        v1.base == v2.base,
        v1.digits@ == v2.digits@,
{
}

/// The digit string of any index is well formed: each digit fits the base,
/// and the leading digit of the index, which comes out last, is not zero.
pub proof fn lemma_halton_digits_wf(base: int, index: int)
    requires
        2 <= base <= u8::MAX,
        index >= 0,
    ensures
        digits_wf(base, halton_digits(base, index)),
    decreases index,
{
    if index > 0 {
        vstd::arithmetic::div_mod::lemma_mod_bound(index, base);
        vstd::arithmetic::div_mod::lemma_div_pos_is_pos(index, base);
        lemma_div_is_strictly_smaller(index, base);
        lemma_halton_digits_wf(base, index / base);
        if index / base == 0 {
            vstd::arithmetic::div_mod::lemma_small_div_converse(index, base);
            vstd::arithmetic::div_mod::lemma_small_mod(index as nat, base as nat);
        }
    }
}

/// The index that a digit string expands: `sum over k of
/// digits[k] * base^k`. The inverse reading of [`halton_digits`].
pub open spec fn index_of_digits(base: int, digits: Seq<u8>) -> int
    decreases digits.len(),
{
    if digits.len() == 0 {
        0
    } else {
        digits[0] + base * index_of_digits(base, digits.drop_first())
    }
}

/// The digit expansion is faithful: reading the digits of any index back as
/// a base-`base` numeral gives that index again.
pub proof fn lemma_digits_reconstruct_index(base: int, index: int)
    requires
        2 <= base <= u8::MAX,
        index >= 0,
    ensures
        index_of_digits(base, halton_digits(base, index)) == index,
    decreases index,
{
    if index > 0 {
        vstd::arithmetic::div_mod::lemma_mod_bound(index, base);
        vstd::arithmetic::div_mod::lemma_div_pos_is_pos(index, base);
        lemma_div_is_strictly_smaller(index, base);
        lemma_digits_reconstruct_index(base, index / base);
        let ds = halton_digits(base, index);
        let rest = halton_digits(base, index / base);
        assert(ds.drop_first() =~= rest);
        vstd::arithmetic::div_mod::lemma_fundamental_div_mod(index, base);
    }
}

/// A nonempty well-formed digit string expands a positive index: its last
/// digit, the leading digit of the numeral, is not zero.
proof fn lemma_index_of_digits_pos(base: int, digits: Seq<u8>)
    requires
        base >= 2,
        digits_wf(base, digits),
        digits.len() > 0,
    ensures
        index_of_digits(base, digits) > 0,
    decreases digits.len(),
{
    let rest = digits.drop_first();
    if digits.len() == 1 {
        assert(digits.last() == digits[0]);
    } else {
        assert(rest.last() == digits.last());
        assert(forall|k: int| 0 <= k < rest.len() ==> rest[k] == digits[k + 1]);
        lemma_index_of_digits_pos(base, rest);
        assert(base * index_of_digits(base, rest) >= base) by (nonlinear_arith)
            requires
                base >= 2,
                index_of_digits(base, rest) >= 1,
        ;
    }
}

/// Well-formed digit strings are canonical: a digit string that fits the
/// base and has no trailing zero is exactly the expansion of the index it
/// denotes, so no index has a second representation.
pub proof fn lemma_digits_canonical(base: int, digits: Seq<u8>)
    requires
        base >= 2,
        digits_wf(base, digits),
    ensures
        digits == halton_digits(base, index_of_digits(base, digits)),
    decreases digits.len(),
{
    let index = index_of_digits(base, digits);
    if digits.len() == 0 {
        assert(digits =~= halton_digits(base, 0));
    } else {
        let rest = digits.drop_first();
        assert(forall|k: int| 0 <= k < rest.len() ==> rest[k] == digits[k + 1]);
        if rest.len() > 0 {
            assert(rest.last() == digits.last());
        }
        lemma_index_of_digits_pos(base, digits);
        assert(0 <= digits[0] < base);
        assert(index == digits[0] + base * index_of_digits(base, rest));
        assert(index_of_digits(base, rest) * base == base * index_of_digits(base, rest))
            by (nonlinear_arith);
        assert(index == index_of_digits(base, rest) * base + digits[0]);
        vstd::arithmetic::div_mod::lemma_fundamental_div_mod_converse(
            index,
            base,
            index_of_digits(base, rest),
            digits[0] as int,
        );
        lemma_digits_canonical(base, rest);
        assert(digits =~= seq![(index % base) as u8] + halton_digits(base, index / base));
    }
}

/// The base-`base` digits of `index`, least significant first.
pub fn index_digits(base: u8, index: u64) -> (r: Vec<u8>)
    requires
        base >= 2,
    ensures
        r@ == halton_digits(base as int, index as int),
{
    let b: u64 = base as u64;
    let mut digits: Vec<u8> = Vec::new();
    let mut i: u64 = index;
    while i > 0
        invariant
            base >= 2,
            b == base as u64,
            halton_digits(base as int, index as int) == digits@ + halton_digits(
                base as int,
                i as int,
            ),
        decreases i,
    {
        let d: u8 = (i % b) as u8;
        let rest: u64 = i / b;
        proof {
            assert((digits@ + seq![d]) + halton_digits(base as int, rest as int) =~= digits@
                + (seq![d] + halton_digits(base as int, rest as int)));
        }
        digits.push(d);
        i = rest;
    }
    proof {
        assert(digits@ + halton_digits(base as int, 0) =~= digits@);
    }
    digits
}

/// Digit-radix core: the Halton value for `(base, index)`, as its exact
/// digit expansion. A base below two is refused; index zero gives the empty
/// expansion, which denotes zero.
pub fn number(base: u8, index: u64) -> (r: Result<Value, HaltonError>)
    ensures
        base >= 2 ==> (r matches Ok(v) && v.wf() && v.is_for(base as int, index as int)),
        base < 2 ==> (r matches Err(e) && e == HaltonError::InvalidBase),
{
    if base < 2 {
        return Err(HaltonError::InvalidBase);
    }
    let digits = index_digits(base, index);
    proof {
        lemma_halton_digits_wf(base as int, index as int);
    }
    Ok(Value { base, digits })
}

} // verus!
