use vstd::prelude::*;

verus! {

/// `most` is the largest of the counts, or zero where there is none.
pub open spec fn is_most(counts: Seq<u32>, most: u32) -> bool {
    &&& forall|i: int| 0 <= i < counts.len() ==> counts[i] <= most
    &&& most == 0 || exists|i: int| 0 <= i < counts.len() && counts[i] == most
}

/// The largest number of samples that any pixel took: the count against
/// which a heat map scales every pixel. Zero where there is no pixel.
pub fn most_samples(counts: &Vec<u32>) -> (most: u32)
    ensures
        is_most(counts@, most),
{
    let mut most: u32 = 0;
    let mut i: usize = 0;
    while i < counts.len()
        invariant
            0 <= i <= counts.len(),
            is_most(counts@.take(i as int), most),
        decreases counts.len() - i,
    {
        let ghost before = counts@.take(i as int);
        let ghost after = counts@.take(i + 1);
        let ghost previous = most;
        if counts[i] > most {
            most = counts[i];
        }
        proof {
            assert(forall|k: int| 0 <= k < before.len() ==> before[k] == after[k]);
            assert(after[i as int] == counts[i as int]);
            if most != 0 {
                if most == previous {
                    let k = choose|k: int| 0 <= k < before.len() && before[k] == previous;
                    assert(after[k] == most);
                } else {
                    assert(after[i as int] == most);
                }
            }
        }
        i = i + 1;
    }
    proof {
        assert(counts@.take(counts.len() as int) =~= counts@);
    }
    most
}

/// A place on the heat scale as a fraction: `num` parts of `den`, from zero
/// for the coolest pixel to `den` parts of `den` for the hottest.
#[derive(Clone, Copy, Debug, PartialEq, Eq, Structural)]
pub struct HeatLevel {
    pub num: u32,
    pub den: u32,
}

/// A colour of the heat ramp. Each channel is a fraction of full intensity
/// whose numerator stands here and whose denominator is that of the level
/// the colour was made for.
#[derive(Clone, Copy, Debug, PartialEq, Eq, Structural)]
pub struct HeatColor {
    pub r: u64,
    pub g: u64,
    pub b: u64,
}

/// The place on the heat scale of a pixel that took `count` samples, where
/// every pixel takes `min` samples at least and the busiest took `most`: the
/// samples beyond `min` as a fraction of `most - min`, kept within the scale.
pub open spec fn level_of(count: u32, min: u32, most: u32) -> HeatLevel
    recommends
        min < most,
{
    HeatLevel {
        num: if count <= min {
            0
        } else if count >= most {
            (most - min) as u32
        } else {
            (count - min) as u32
        },
        den: (most - min) as u32,
    }
}

/// The place of a pixel on the heat scale, or `None` where the scale has no
/// extent because no pixel took more than `min` samples.
pub fn heat_level(count: u32, min: u32, most: u32) -> (level: Option<HeatLevel>)
    ensures
        level is None <==> most <= min,
        level matches Some(l) ==> l == level_of(count, min, most),
{
    if most <= min {
        None
    } else {
        let den: u32 = most - min;
        let num: u32 = if count <= min {
            0
        } else if count >= most {
            den
        } else {
            count - min
        };
        Some(HeatLevel { num, den })
    }
}

/// The colour of the ramp at a level. The ramp runs in four straight pieces
/// of a quarter of the scale each: from blue to cyan, on to green, on to
/// yellow, and on to red. A level beyond the end of the scale counts as the
/// end.
pub open spec fn ramp_of(level: HeatLevel) -> HeatColor {
    let d = level.den as int;
    let n = if level.num > level.den {
        d
    } else {
        level.num as int
    };
    if 4 * n <= d {
        HeatColor { r: 0, g: (4 * n) as u64, b: d as u64 }
    } else if 2 * n <= d {
        HeatColor { r: 0, g: d as u64, b: (2 * d - 4 * n) as u64 }
    } else if 4 * n <= 3 * d {
        HeatColor { r: (4 * n - 2 * d) as u64, g: d as u64, b: 0 }
    } else {
        HeatColor { r: d as u64, g: (4 * d - 4 * n) as u64, b: 0 }
    }
}

/// The colour of the heat ramp at `level`.
pub fn get_heatmap_color(level: HeatLevel) -> (color: HeatColor)
    ensures
        color == ramp_of(level),
        color.r <= level.den,
        color.g <= level.den,
        color.b <= level.den,
{
    let d: u64 = level.den as u64;
    let n: u64 = if level.num > level.den {
        d
    } else {
        level.num as u64
    };
    if 4 * n <= d {
        HeatColor { r: 0, g: 4 * n, b: d }
    } else if 2 * n <= d {
        HeatColor { r: 0, g: d, b: 2 * d - 4 * n }
    } else if 4 * n <= 3 * d {
        HeatColor { r: 4 * n - 2 * d, g: d, b: 0 }
    } else {
        HeatColor { r: d, g: 4 * d - 4 * n, b: 0 }
    }
}

/// The ramp starts at blue and ends at red.
pub proof fn lemma_ramp_ends(den: u32)
    requires
        den > 0,
    ensures
        ramp_of(HeatLevel { num: 0, den }) == (HeatColor { r: 0, g: 0, b: den as u64 }),
        ramp_of(HeatLevel { num: den, den }) == (HeatColor { r: den as u64, g: 0, b: 0 }),
{
}

/// The ramp has no jump: from one level to the next no channel moves by more
/// than four parts of the scale, which is the slope of its steepest piece.
pub proof fn lemma_ramp_is_continuous(num: u32, den: u32)
    requires
        num < den,
    ensures
        ({
            let here = ramp_of(HeatLevel { num, den });
            let next = ramp_of(HeatLevel { num: (num + 1) as u32, den });
            &&& -4 <= next.r - here.r <= 4
            &&& -4 <= next.g - here.g <= 4
            &&& -4 <= next.b - here.b <= 4
        }),
{
}

/// Along the ramp red never falls and blue never rises.
pub proof fn lemma_ramp_warms(low: u32, high: u32, den: u32)
    requires
        low <= high <= den,
    ensures
        ramp_of(HeatLevel { num: low, den }).r <= ramp_of(HeatLevel { num: high, den }).r,
        ramp_of(HeatLevel { num: low, den }).b >= ramp_of(HeatLevel { num: high, den }).b,
{
}

} // verus!
