use vstd::prelude::*;

verus! {

/// The sample budget of a pixel: sampling never goes beyond `max` samples,
/// and the convergence test counts only once `min` samples have been taken.
#[derive(Clone, Copy, Debug, PartialEq, Eq, Structural)]
pub struct SampleRange {
    pub min: u32,
    pub max: u32,
}

impl SampleRange {
    pub fn new(min: u32, max: u32) -> (range: Self)
        ensures
            range.min == min,
            range.max == max,
    {
        SampleRange { min, max }
    }

    /// Whether sampling ends once `taken` samples are in, where `converged`
    /// says whether the estimate then passes the convergence test: it ends
    /// when the budget is spent, or when at least `min` samples are in and
    /// the test is passed.
    pub open spec fn stops_after(self, taken: nat, converged: bool) -> bool {
        taken >= self.max || (taken >= self.min && converged)
    }

    /// The number of samples drawn in all, counting on from `taken`, where
    /// `verdict(k)` says whether the estimate passes the convergence test
    /// once `k` samples are in.
    pub open spec fn drawn_from(self, verdict: spec_fn(nat) -> bool, taken: nat) -> nat
        decreases self.max - taken,
    {
        if taken >= self.max {
            taken
        } else if self.stops_after(taken + 1, verdict(taken + 1)) {
            taken + 1
        } else {
            self.drawn_from(verdict, taken + 1)
        }
    }

    /// The number of samples that a pixel takes under this budget.
    pub open spec fn samples_drawn(self, verdict: spec_fn(nat) -> bool) -> nat {
        self.drawn_from(verdict, 0)
    }
}

/// The sampling of one pixel: how many samples are in, and whether more are
/// wanted. The renderer draws a sample while `finished` is false and reports
/// each with `record`.
#[derive(Clone, Copy, Debug, PartialEq, Eq, Structural)]
pub struct PixelSampler {
    pub range: SampleRange,
    pub taken: u32,
    pub finished: bool,
}

impl PixelSampler {
    /// The count is within the budget, and below it while more samples are
    /// wanted.
    pub open spec fn well_formed(self) -> bool {
        &&& self.taken <= self.range.max
        &&& !self.finished ==> self.taken < self.range.max
    }

    /// The sampler has done what the budget asks on the verdicts so far: once
    /// it is finished it has drawn exactly what `samples_drawn` says, and
    /// before that the count still to come is the one that counting on from
    /// `taken` gives.
    pub open spec fn follows(self, verdict: spec_fn(nat) -> bool) -> bool {
        &&& self.well_formed()
        &&& self.range.samples_drawn(verdict) == if self.finished {
            self.taken as nat
        } else {
            self.range.drawn_from(verdict, self.taken as nat)
        }
    }

    /// A sampler with no sample in. It is finished at once where the budget
    /// is empty.
    pub fn new(range: SampleRange) -> (sampler: Self)
        ensures
            sampler.range == range,
            sampler.taken == 0,
            sampler.finished == (range.max == 0),
            sampler.well_formed(),
            forall|verdict: spec_fn(nat) -> bool| #[trigger] sampler.follows(verdict),
    {
        PixelSampler { range, taken: 0, finished: range.max == 0 }
    }

    /// Takes note of one more sample, where `converged` says whether the
    /// estimate passes the convergence test with that sample in.
    pub fn record(&mut self, converged: bool)
        requires
            old(self).well_formed(),
            !old(self).finished,
        ensures
            final(self).well_formed(),
            final(self).range == old(self).range,
            final(self).taken == old(self).taken + 1,
            final(self).finished == old(self).range.stops_after(
                (old(self).taken + 1) as nat,
                converged,
            ),
            forall|verdict: spec_fn(nat) -> bool|
                old(self).follows(verdict) && verdict((old(self).taken + 1) as nat) == converged
                    ==> #[trigger] final(self).follows(verdict),
    {
        self.taken = self.taken + 1;
        self.finished = self.taken >= self.range.max || (self.taken >= self.range.min && converged);
    }
}

/// A pixel takes at most `max` samples, at least one where the budget is not
/// empty, and never stops before `min` samples while the budget lasts.
pub proof fn lemma_samples_within_range(range: SampleRange, verdict: spec_fn(nat) -> bool)
    ensures
        range.samples_drawn(verdict) <= range.max,
        range.max >= 1 ==> range.samples_drawn(verdict) >= 1,
        range.samples_drawn(verdict) >= range.min || range.samples_drawn(verdict) == range.max,
{
    lemma_drawn_from_bounds(range, verdict, 0);
}

/// Counting on from `taken` ends within the budget, beyond `taken` where the
/// budget was not spent, and not short of `min` unless the budget is spent.
pub proof fn lemma_drawn_from_bounds(range: SampleRange, verdict: spec_fn(nat) -> bool, taken: nat)
    requires
        taken <= range.max,
    ensures
        taken <= range.drawn_from(verdict, taken) <= range.max,
        taken < range.max ==> range.drawn_from(verdict, taken) > taken,
        range.drawn_from(verdict, taken) >= range.min || range.drawn_from(verdict, taken)
            == range.max || range.drawn_from(verdict, taken) == taken,
    decreases range.max - taken,
{
    if taken < range.max && !range.stops_after(taken + 1, verdict(taken + 1)) {
        lemma_drawn_from_bounds(range, verdict, taken + 1);
    }
}

/// Where the estimate passes the convergence test as soon as `min` samples
/// are in, as it does on a pixel whose samples all have the same luminance,
/// and `min` is at least one and within the budget, the pixel takes exactly
/// `min` samples.
pub proof fn lemma_converged_pixel_stops_at_min(
    range: SampleRange,
    verdict: spec_fn(nat) -> bool,
)
    requires
        1 <= range.min <= range.max,
        verdict(range.min as nat),
    ensures
        range.samples_drawn(verdict) == range.min,
{
    lemma_counts_on_to_min(range, verdict, 0);
}

/// Below `min` no verdict ends the sampling: counting on from any count
/// below `min` arrives at `min`, where the passed test ends it.
proof fn lemma_counts_on_to_min(range: SampleRange, verdict: spec_fn(nat) -> bool, taken: nat)
    requires
        1 <= range.min <= range.max,
        verdict(range.min as nat),
        taken < range.min,
    ensures
        range.drawn_from(verdict, taken) == range.min,
    decreases range.min - taken,
{
    if taken + 1 < range.min {
        lemma_counts_on_to_min(range, verdict, taken + 1);
    }
}

/// Where the estimate never passes the convergence test, the pixel takes the
/// whole budget.
pub proof fn lemma_unconverged_pixel_spends_budget(
    range: SampleRange,
    verdict: spec_fn(nat) -> bool,
)
    requires
        forall|k: nat| !#[trigger] verdict(k),
    ensures
        range.samples_drawn(verdict) == range.max,
{
    lemma_counts_on_to_max(range, verdict, 0);
}

proof fn lemma_counts_on_to_max(range: SampleRange, verdict: spec_fn(nat) -> bool, taken: nat)
    requires
        forall|k: nat| !#[trigger] verdict(k),
        taken <= range.max,
    ensures
        range.drawn_from(verdict, taken) == range.max,
    decreases range.max - taken,
{
    if taken < range.max {
        if taken + 1 < range.max {
            lemma_counts_on_to_max(range, verdict, taken + 1);
        }
    }
}

} // verus!
