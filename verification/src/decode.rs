use vstd::prelude::*;

verus! {

/// Types whose encoded size is known without looking at a value.
pub trait StaticSize {
    const SIZE: usize;
}

/// Types that can tell the encoded size of a value.
pub trait DynamicSize {
    /// The number of bytes that the value's encoding takes.
    spec fn spec_size(&self) -> nat;

    fn size(&self) -> (n: usize)
        ensures
            n == self.spec_size(),
    ;
}

impl<T> DynamicSize for T where T: StaticSize {
    open spec fn spec_size(&self) -> nat {
        Self::SIZE as nat
    }

    fn size(&self) -> (n: usize) {
        Self::SIZE
    }
}

} // verus!
