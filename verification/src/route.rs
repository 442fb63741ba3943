//! Routing: an algorithm that moves a router state forward step by step.

use vstd::prelude::*;

verus! {

/// A state of a router.
pub trait State {

}

/// A routing algorithm.
pub trait Router<I: State> {
    type Ctx;

    type Err;

    /// Sets the algorithm up.
    fn setup<'cx>(&mut self, ctx: &'cx Self::Ctx, state: I) -> Result<(), Self::Err>;

    /// Advances the algorithm: the next state of the router.
    fn step<'cx>(&mut self, ctx: &'cx Self::Ctx, state: I) -> Result<I, Self::Err>;
}

} // verus!
