use vstd::prelude::*;

verus! {

/// The density that is 1 everywhere on the unit interval.
pub struct Uniform;

/// The density `3 x^2` on the unit interval.
pub struct Custom;

/// A logistic density on the unit interval, centred on one half.
pub struct Logistic;

/// The densities that a sampler of the shutter time can draw from.
pub struct Randomizer;

impl Randomizer {
    pub const UNIFORM: Uniform = Uniform;

    pub const CUSTOM: Custom = Custom;

    pub const LOGISTIC: Logistic = Logistic;
}

/// The digits of `index` in the given base, the lowest first; none for zero.
pub open spec fn digits_of(index: nat, base: nat) -> Seq<nat>
    decreases index,
{
    if index == 0 || base < 2 {
        Seq::empty()
    } else {
        proof {
            assert(index / base < index) by (nonlinear_arith)
                requires
                    index > 0,
                    base >= 2,
            ;
        }
        seq![index % base] + digits_of(index / base, base)
    }
}

/// The number whose digits in the given base are `digits`, the lowest first.
pub open spec fn number_of(digits: Seq<nat>, base: nat) -> nat
    decreases digits.len(),
{
    if digits.len() == 0 {
        0
    } else {
        digits.first() + base * number_of(digits.drop_first(), base)
    }
}

/// The digits of `index` in `base`, the lowest first. A radical-inverse
/// sequence mirrors them at the radix point: digit number `k`, counted from
/// zero, weighs `base` to the power `-(k + 1)`. The base must be two or more,
/// except for index zero, which has no digits in any base.
pub fn radical_digits(index: u32, base: u32) -> (digits: Vec<u32>)
    requires
        index == 0 || base >= 2,
    ensures
        digits@.map_values(|d: u32| d as nat) == digits_of(index as nat, base as nat),
{
    let mut digits: Vec<u32> = Vec::new();
    let mut rest: u32 = index;
    while rest > 0
        invariant
            rest == 0 || base >= 2,
            digits@.map_values(|d: u32| d as nat) + digits_of(rest as nat, base as nat)
                == digits_of(index as nat, base as nat),
        decreases rest,
    {
        let ghost before = digits@.map_values(|d: u32| d as nat);
        let d: u32 = rest % base;
        digits.push(d);
        proof {
            let tail = digits_of((rest / base) as nat, base as nat);
            assert(digits_of(rest as nat, base as nat) == seq![d as nat] + tail);
            assert(digits@.map_values(|d: u32| d as nat) =~= before.push(d as nat));
            assert(before.push(d as nat) + tail =~= before + (seq![d as nat] + tail));
            assert(rest / base < rest) by (nonlinear_arith)
                requires
                    rest > 0,
                    base >= 2,
            ;
        }
        rest = rest / base;
    }
    proof {
        assert(digits@.map_values(|d: u32| d as nat) + Seq::<nat>::empty()
            =~= digits@.map_values(|d: u32| d as nat));
    }
    digits
}

/// The digits stand for the index: each is below the base, the highest is
/// not zero, and together they give the index back.
pub proof fn lemma_digits_give_index(index: nat, base: nat)
    requires
        base >= 2,
    ensures
        number_of(digits_of(index, base), base) == index,
        forall|k: int|
            0 <= k < digits_of(index, base).len() ==> #[trigger] digits_of(index, base)[k] < base,
        index > 0 ==> digits_of(index, base).len() > 0 && digits_of(index, base).last() != 0,
        index == 0 ==> digits_of(index, base).len() == 0,
    decreases index,
{
    if index > 0 {
        let rest = digits_of(index / base, base);
        let all = digits_of(index, base);
        lemma_digits_give_index(index / base, base);
        assert(all.drop_first() =~= rest);
        assert(all.first() == index % base);
        assert(forall|k: int| 1 <= k < all.len() ==> all[k] == rest[k - 1]);
        assert(index % base + base * (index / base) == index) by (nonlinear_arith)
            requires
                base >= 2,
        ;
        if index / base > 0 {
            assert(all.last() == rest.last());
        } else {
            assert(rest.len() == 0);
            assert(all.last() == index % base);
            assert(index % base == index) by (nonlinear_arith)
                requires
                    index / base == 0,
                    base >= 2,
                    index >= 0,
            ;
        }
    }
}

} // verus!
