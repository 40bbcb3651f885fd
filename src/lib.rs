//! A CHIP-8 virtual machine whose instruction semantics are stated as a
//! mathematical state-transition model and proved against it.
use vstd::prelude::*;

pub mod chip8;
pub mod display;
pub mod laws;
pub mod machine;
pub mod random;

pub use chip8::{CHIP8, DEFAULT_CYCLES_PER_FRAME, DEFAULT_SEED};
pub use machine::{ExecutionError, RomError};

verus! {

} // verus!
