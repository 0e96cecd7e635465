//! The system that walks monsters towards their destinations.

use vstd::prelude::*;

verus! {

/// Names the system that moves each monster towards its destination by its
/// speed times the time that has passed. The step itself is floating-point
/// arithmetic on world positions and is taken where the engine's storages
/// are at hand; nothing of it is stated here.
#[derive(Debug, Clone, Copy, PartialEq, Eq)]
pub struct MonsterMovementSystem;

} // verus!
