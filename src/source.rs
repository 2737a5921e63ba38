//! A borrowed slice of integer tokens, as handed to the alignment.

use vstd::prelude::*;

verus! {

/// A sequence of `i32` tokens borrowed from a slice.
#[derive(Clone, Copy)]
pub struct I32Slice<'a>(pub &'a [i32]);

impl<'a> View for I32Slice<'a> {
    type V = Seq<i32>;

    open spec fn view(&self) -> Seq<i32> {
        self.0@
    }
}

impl<'a> I32Slice<'a> {
    /// The tokens, in order.
    pub fn tokens(&self) -> (r: &'a [i32])
        ensures
            r@ == self@,
    {
        self.0
    }

    /// The number of tokens.
    pub fn estimate_tokens(&self) -> (r: u32)
        requires
            self@.len() <= u32::MAX,
        ensures
            r == self@.len(),
    {
        self.0.len() as u32
    }
}

} // verus!
