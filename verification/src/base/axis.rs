use vstd::prelude::*;

verus! {

/// One of the three coordinate axes.
#[derive(Clone, Copy, Debug, PartialEq, Eq, Structural)]
pub enum Axis {
    X,
    Y,
    Z,
}

impl Axis {
    /// The three axes in their cyclic order.
    pub const AXES: [Axis; 3] = [Axis::X, Axis::Y, Axis::Z];

    /// Position of the axis in the cyclic order X, Y, Z.
    pub open spec fn index(self) -> int {
        match self {
            Axis::X => 0,
            Axis::Y => 1,
            Axis::Z => 2,
        }
    }

    /// The axis one step further in the cyclic order X, Y, Z, X.
    pub open spec fn successor(self) -> Axis {
        match self {
            Axis::X => Axis::Y,
            Axis::Y => Axis::Z,
            Axis::Z => Axis::X,
        }
    }

    /// The axis one step back in the cyclic order X, Y, Z, X.
    pub open spec fn predecessor(self) -> Axis {
        match self {
            Axis::X => Axis::Z,
            Axis::Y => Axis::X,
            Axis::Z => Axis::Y,
        }
    }

    /// The axis that follows this one in the cyclic order X, Y, Z, X.
    pub fn next(&self) -> (r: Self)
        ensures
            r == self.successor(),
    {
        match self {
            Self::X => Self::Y,
            Self::Y => Self::Z,
            Self::Z => Self::X,
        }
    }

    /// The axis that precedes this one in the cyclic order X, Y, Z, X.
    pub fn prev(&self) -> (r: Self)
        ensures
            r == self.predecessor(),
    {
        match self {
            Self::X => Self::Z,
            Self::Y => Self::X,
            Self::Z => Self::Y,
        }
    }

    /// Of three values, one for each axis in the order X, Y, Z, the one that
    /// belongs to this axis.
    pub open spec fn choice<T>(self, x: T, y: T, z: T) -> T {
        match self {
            Axis::X => x,
            Axis::Y => y,
            Axis::Z => z,
        }
    }

    /// Picks the value that belongs to this axis.
    pub fn pick<T>(&self, x: T, y: T, z: T) -> (picked: T)
        ensures
            picked == self.choice(x, y, z),
    {
        match self {
            Self::X => x,
            Self::Y => y,
            Self::Z => z,
        }
    }

    /// The axis that a drawn number selects: 0 is X, 1 is Y, and every other
    /// number is Z.
    pub fn from_draw(draw: u32) -> (r: Self)
        ensures
            draw < 3 ==> r.index() == draw,
            draw >= 3 ==> r == Axis::Z,
    {
        match draw {
            0 => Axis::X,
            1 => Axis::Y,
            _ => Axis::Z,
        }
    }

    /// An axis chosen by the thread's random generator: `from_draw` of a
    /// number below three. Two calls may differ, so the contract only says
    /// that one of the three axes comes back.
    pub fn random() -> (r: Self)
        ensures
            r == Axis::X || r == Axis::Y || r == Axis::Z,
    {
        let draw: u32 = draw_below_three();
        Axis::from_draw(draw)
    }
}

/// Calls `rand::random_range` on the half-open range from 0 to 3. The range
/// is not empty, so the call does not panic, and rand samples an integer
/// range only within its bounds: the draw is 0, 1 or 2. Nothing is claimed
/// about which of them it is.
#[verifier::external_body]
fn draw_below_three() -> (draw: u32)
    ensures
        draw < 3,
{
    rand::random_range(0u32..3u32)
}

/// `next` and `prev` undo each other, three steps of `next` come back to the
/// start, and an axis together with its two neighbours makes up all three
/// axes.
pub proof fn lemma_axis_cycle(a: Axis)
    ensures
        a.successor().predecessor() == a,
        a.predecessor().successor() == a,
        a.successor().successor().successor() == a,
        a.successor().successor() == a.predecessor(),
        a.successor() != a,
        a.predecessor() != a,
        a.successor() != a.predecessor(),
        a.successor().index() == (a.index() + 1) % 3,
        a.predecessor().index() == (a.index() + 2) % 3,
{
}

/// Two axes with the same position are the same axis.
pub proof fn lemma_axis_index_injective(a: Axis, b: Axis)
    requires
        a.index() == b.index(),
    ensures
        a == b,
{
}

} // verus!
