use vstd::prelude::*;

verus! {

/// Holds a surface while instance wrappers are put around it one by one, and
/// hands the finished surface out.
pub struct HittableBuilder<T> {
    object: T,
}

impl<T> HittableBuilder<T> {
    /// The surface that the builder holds.
    pub closed spec fn object(self) -> T {
        self.object
    }

    pub fn new(object: T) -> (builder: Self)
        ensures
            builder.object() == object,
    {
        Self { object }
    }

    pub fn build(self) -> (object: T)
        ensures
            object == self.object(),
    {
        self.object
    }
}

} // verus!
