//! A flow: a placer and a router, each with its state.

use crate::place::{self, Placer};
use crate::route::{self, Router};
use vstd::prelude::*;

verus! {

/// A flow of a placer `P` over states `PS` and a router `R` over states `RS`.
pub trait Flow<PS: place::State, P: Placer<PS>, RS: route::State, R: Router<RS>> {

}

} // verus!
