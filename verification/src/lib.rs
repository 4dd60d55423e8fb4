use vstd::prelude::*;

pub mod assembler;
pub mod bytes;
pub mod codec;
pub mod disasm;
pub mod isa;
pub mod jit;
pub mod machine;
pub mod lexer;
pub mod literals;
pub mod vm;

verus! {

/// Number of 64-bit words the operand stack can hold.
pub const STACK_CAPACITY: usize = 524288;

} // verus!
