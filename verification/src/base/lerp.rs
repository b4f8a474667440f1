use vstd::prelude::*;

verus! {

/// The two ends of a linear interpolation: the value at the start of the
/// shutter interval and the value at its end.
pub struct Lerp<T> {
    pub begin: T,
    pub end: T,
}

impl<T> Lerp<T> {
    pub fn new(begin: T, end: T) -> (lerp: Self)
        ensures
            lerp.begin == begin,
            lerp.end == end,
    {
        Self { begin, end }
    }
}

} // verus!
