//! The multi-stream composer: several independent per-base generators
//! advanced in lockstep, one tuple of values per step.

use vstd::pervasive::VecAdditionalExecFns;
use vstd::prelude::*;

use crate::radix::Value;
use crate::sequence::Sequence;
use crate::HaltonError;

verus! {

/// The position of the first exhausted generator in a row of them, or the
/// row's length when none is: the component at which a lockstep advance
/// stops short.
pub open spec fn first_exhausted(seqs: Seq<Sequence>) -> int
    decreases seqs.len(),
{
    if seqs.len() == 0 {
        0
    } else if seqs[0].exhausted() {
        0
    } else {
        1 + first_exhausted(seqs.drop_first())
    }
}

/// `first_exhausted` is what its name says: exactly the generators before it
/// are not exhausted, and it points at an exhausted one whenever it is short
/// of the row's length.
pub proof fn lemma_first_exhausted_at(seqs: Seq<Sequence>, j: int)
    requires
        0 <= j <= seqs.len(),
        forall|m: int| 0 <= m < j ==> !(#[trigger] seqs[m]).exhausted(),
        j < seqs.len() ==> seqs[j].exhausted(),
    ensures
        first_exhausted(seqs) == j,
    decreases j,
{
    if j == 0 {
    } else {
        assert(!seqs[0].exhausted());
        let rest = seqs.drop_first();
        assert(forall|m: int| 0 <= m < j - 1 ==> !(#[trigger] rest[m]).exhausted()) by {
            assert(forall|m: int| 0 <= m < j - 1 ==> rest[m] == seqs[m + 1]);
        }
        lemma_first_exhausted_at(rest, j - 1);
    }
}

/// The smallest remaining count among a row of generators, or the whole
/// index space when the row is empty.
pub open spec fn min_remaining(seqs: Seq<Sequence>) -> int
    decreases seqs.len(),
{
    if seqs.len() == 0 {
        u64::MAX as int
    } else {
        let first = u64::MAX - seqs[0].current_index;
        let rest = min_remaining(seqs.drop_first());
        if first <= rest {
            first
        } else {
            rest
        }
    }
}

/// The smallest remaining count never exceeds the whole index space.
pub proof fn lemma_min_remaining_bound(seqs: Seq<Sequence>)
    ensures
        0 <= min_remaining(seqs) <= u64::MAX,
    decreases seqs.len(),
{
    if seqs.len() > 0 {
        lemma_min_remaining_bound(seqs.drop_first());
    }
}

/// A multi-stream Halton sequence: one generator per axis, all advanced
/// together, one ordered tuple of values per external step.
#[derive(Debug, PartialEq, Eq)]
pub struct Composite {
    /// The component generators, in axis order; never empty, each with a
    /// valid base.
    pub seqs: Vec<Sequence>,
}

impl Composite {
    /// Well-formedness: at least one axis, and every component generator
    /// well formed.
    pub open spec fn wf(&self) -> bool {
        &&& self.seqs@.len() >= 1
        &&& forall|i: int| 0 <= i < self.seqs@.len() ==> (#[trigger] self.seqs@[i]).wf()
    }

    /// One fresh generator per base, in the order given. An empty list is
    /// refused before any generator is made; so is a base below two.
    pub fn new(bases: &Vec<u8>) -> (r: Result<Composite, HaltonError>)
        ensures
            bases@.len() == 0 ==> (r matches Err(e) && e == HaltonError::NoBases),
            bases@.len() >= 1 && (exists|i: int| 0 <= i < bases@.len() && bases@[i] < 2) ==> (
            r matches Err(e) && e == HaltonError::InvalidBase),
            bases@.len() >= 1 && (forall|i: int| 0 <= i < bases@.len() ==> bases@[i] >= 2) ==> (
            r matches Ok(c) && c.wf() && c.seqs@.len() == bases@.len() && forall|i: int|
                0 <= i < bases@.len() ==> #[trigger] c.seqs@[i] == (Sequence {
                    base: bases@[i],
                    current_index: 0,
                })),
    {
        if bases.len() == 0 {
            return Err(HaltonError::NoBases);
        }
        let mut seqs: Vec<Sequence> = Vec::new();
        let mut i: usize = 0;
        while i < bases.len()
            invariant
                i <= bases@.len(),
                seqs@.len() == i as int,
                forall|m: int| 0 <= m < i ==> bases@[m] >= 2,
                forall|m: int|
                    0 <= m < i ==> #[trigger] seqs@[m] == (Sequence {
                        base: bases@[m],
                        current_index: 0,
                    }),
            decreases bases@.len() - i,
        {
            let base: u8 = bases[i];
            if base < 2 {
                return Err(HaltonError::InvalidBase);
            }
            seqs.push(Sequence { base, current_index: 0 });
            i = i + 1;
        }
        Ok(Composite { seqs })
    }

    /// A composer over pre-built generators, kept in the order given. An
    /// empty row is refused; so is a component with a base below two.
    pub fn from_generators(seqs: Vec<Sequence>) -> (r: Result<Composite, HaltonError>)
        ensures
            seqs@.len() == 0 ==> (r matches Err(e) && e == HaltonError::NoBases),
            seqs@.len() >= 1 && (exists|i: int| 0 <= i < seqs@.len() && !(#[trigger] seqs@[i]).wf())
                ==> (r matches Err(e) && e == HaltonError::InvalidBase),
            seqs@.len() >= 1 && (forall|i: int| 0 <= i < seqs@.len() ==> (#[trigger] seqs@[i]).wf())
                ==> (r matches Ok(c) && c.wf() && c.seqs@ == seqs@),
    {
        if seqs.len() == 0 {
            return Err(HaltonError::NoBases);
        }
        let mut i: usize = 0;
        while i < seqs.len()
            invariant
                i <= seqs@.len(),
                forall|m: int| 0 <= m < i ==> (#[trigger] seqs@[m]).wf(),
            decreases seqs@.len() - i,
        {
            if seqs[i].base < 2 {
                return Err(HaltonError::InvalidBase);
            }
            i = i + 1;
        }
        Ok(Composite { seqs })
    }

    /// A two-axis composer, one generator for each of the bases given.
    pub fn pair(x_base: u8, y_base: u8) -> (r: Result<Composite, HaltonError>)
        ensures
            x_base >= 2 && y_base >= 2 ==> (r matches Ok(c) && c.wf() && c.seqs@ =~= seq![
                Sequence { base: x_base, current_index: 0 },
                Sequence { base: y_base, current_index: 0 },
            ]),
            x_base < 2 || y_base < 2 ==> (r matches Err(e) && e == HaltonError::InvalidBase),
    {
        let bases: Vec<u8> = vec![x_base, y_base];
        Self::new(&bases)
    }

    /// A three-axis composer, one generator for each of the bases given.
    pub fn triple(x_base: u8, y_base: u8, z_base: u8) -> (r: Result<Composite, HaltonError>)
        ensures
            x_base >= 2 && y_base >= 2 && z_base >= 2 ==> (r matches Ok(c) && c.wf() && c.seqs@
                =~= seq![
                Sequence { base: x_base, current_index: 0 },
                Sequence { base: y_base, current_index: 0 },
                Sequence { base: z_base, current_index: 0 },
            ]),
            x_base < 2 || y_base < 2 || z_base < 2 ==> (r matches Err(e) && e
                == HaltonError::InvalidBase),
    {
        let bases: Vec<u8> = vec![x_base, y_base, z_base];
        Self::new(&bases)
    }

    /// Advance every component once, in axis order, and produce the tuple
    /// of their values. The moment one component reports exhaustion the
    /// step stops short with the terminal signal: components before it have
    /// already advanced and are not rolled back; it and those after it are
    /// untouched.
    pub fn next(&mut self) -> (r: Option<Vec<Value>>)
        requires
            old(self).wf(),
        ensures
            final(self).wf(),
            final(self).seqs@.len() == old(self).seqs@.len(),
            forall|i: int|
                0 <= i < old(self).seqs@.len() ==> (#[trigger] final(self).seqs@[i]).base == old(
                    self,
                ).seqs@[i].base,
            (forall|i: int| 0 <= i < old(self).seqs@.len() ==> !(#[trigger] old(
                self,
            ).seqs@[i]).exhausted()) ==> (r matches Some(vs) && vs@.len() == old(self).seqs@.len()
                && (forall|i: int|
                0 <= i < vs@.len() ==> (#[trigger] vs@[i]).wf() && vs@[i].is_for(
                    old(self).seqs@[i].base as int,
                    old(self).seqs@[i].current_index + 1,
                )) && (forall|i: int|
                0 <= i < old(self).seqs@.len() ==> (#[trigger] final(self).seqs@[i]).current_index
                    == old(self).seqs@[i].current_index + 1)),
            (exists|i: int| 0 <= i < old(self).seqs@.len() && (#[trigger] old(
                self,
            ).seqs@[i]).exhausted()) ==> (r is None && {
                let j = first_exhausted(old(self).seqs@);
                &&& forall|m: int|
                    0 <= m < j ==> (#[trigger] final(self).seqs@[m]).current_index == old(
                        self,
                    ).seqs@[m].current_index + 1
                &&& forall|m: int|
                    j <= m < old(self).seqs@.len() ==> #[trigger] final(self).seqs@[m] == old(
                        self,
                    ).seqs@[m]
            }),
    {
        let ghost orig = self.seqs@;
        let mut out: Vec<Value> = Vec::new();
        let mut idx: usize = 0;
        while idx < self.seqs.len()
            invariant
                self.wf(),
                orig == old(self).seqs@,
                self.seqs@.len() == orig.len(),
                idx <= orig.len(),
                out@.len() == idx as int,
                forall|m: int| 0 <= m < idx ==> !(#[trigger] orig[m]).exhausted(),
                forall|m: int|
                    0 <= m < idx ==> (#[trigger] self.seqs@[m]).base == orig[m].base
                        && self.seqs@[m].current_index == orig[m].current_index + 1,
                forall|m: int| idx <= m < orig.len() ==> #[trigger] self.seqs@[m] == orig[m],
                forall|m: int|
                    0 <= m < idx ==> (#[trigger] out@[m]).wf() && out@[m].is_for(
                        orig[m].base as int,
                        orig[m].current_index + 1,
                    ),
            decreases orig.len() - idx,
        {
            let mut component: Sequence = self.seqs[idx];
            let stepped = component.next();
            self.seqs.set(idx, component);
            match stepped {
                Some(v) => {
                    out.push(v);
                    idx = idx + 1;
                },
                None => {
                    proof {
                        assert(component == orig[idx as int]);
                        assert(orig[idx as int].exhausted());
                        lemma_first_exhausted_at(orig, idx as int);
                    }
                    return None;
                },
            }
        }
        Some(out)
    }

    /// How many lockstep steps the composer can still take: the smallest
    /// remaining count among its components, since the first of them to
    /// exhaust ends the composed sequence.
    pub fn remaining(&self) -> (r: Option<u64>)
        ensures
            r matches Some(k) && k == min_remaining(self.seqs@),
    {
        let mut least: u64 = u64::MAX;
        let mut idx: usize = 0;
        proof {
            lemma_min_remaining_bound(self.seqs@);
            assert(self.seqs@.skip(0) =~= self.seqs@);
        }
        while idx < self.seqs.len()
            invariant
                idx <= self.seqs@.len(),
                least <= u64::MAX,
                min_remaining(self.seqs@) == if least <= min_remaining(self.seqs@.skip(idx as int)) {
                    least as int
                } else {
                    min_remaining(self.seqs@.skip(idx as int))
                },
            decreases self.seqs@.len() - idx,
        {
            let here: u64 = u64::MAX - self.seqs[idx].current_index;
            proof {
                assert(self.seqs@.skip(idx as int).drop_first() =~= self.seqs@.skip(idx as int + 1));
                assert(self.seqs@.skip(idx as int)[0] == self.seqs@[idx as int]);
            }
            if here < least {
                least = here;
            }
            idx = idx + 1;
        }
        proof {
            assert(self.seqs@.skip(self.seqs@.len() as int) =~= Seq::<Sequence>::empty());
        }
        Some(least)
    }
}

} // verus!
