//! Placement: an algorithm that moves a placer state forward step by step.

use vstd::prelude::*;

verus! {

/// A state of a placer.
pub trait State {

}

/// A placement algorithm.
pub trait Placer<I: State> {
    type Ctx;

    type Err;

    /// Sets the algorithm up.
    fn setup<'cx>(&mut self, ctx: &'cx Self::Ctx, state: I) -> Result<(), Self::Err>;

    /// Advances the algorithm: the next state of the placer.
    fn step<'cx>(&mut self, ctx: &'cx Self::Ctx, state: I) -> Result<I, Self::Err>;
}

} // verus!
