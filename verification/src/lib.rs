//! An interpreter core for the Gekko processor: decoder, register file, memory image and
//! execution engine.
//!
//! What every instruction does is stated as a function on a mathematical model of the
//! machine (`machine`, `semantics`), and the engine is proved to compute that function.
//! A step is defined where `can_step` holds: the word at PC lies in memory, and the
//! instruction it encodes has operands that exist and touches memory inside the image.
//!
//! The engine keeps floating-point registers as bit patterns and computes no floating-point
//! number itself. An instruction that needs one names the computation (`pending_float`), and
//! the host completes the step with the result (`step_float`), or hands its floating-point
//! unit to `step_with`.

use vstd::prelude::*;

pub mod util;
pub mod register;
pub mod instruction;
pub mod float;
pub mod machine;
pub mod semantics;
pub mod interpreter;
pub mod engine;

pub use float::{FloatOp, FloatResult};
pub use instruction::Instruction;
pub use interpreter::{BreakData, GekkoInterpreter};
pub use register::{GekkoRegister, Spr, Tbr};

verus! {

/// The opcode that stops a run: primary opcode 59 with every other bit clear.
pub const OPCODE_BREAK: u32 = 0xEC00_0000;

/// The virtual address at which the memory image begins.
pub const BASE_RW_ADRESS: u32 = 0x8000_3100;

} // verus!
