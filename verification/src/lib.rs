//! A compiler and virtual machine for the Brainfuck language.
//!
//! Source text is assembled into a list of [`instruction::Instruction`]s whose
//! jump operands are resolved by bracket matching ([`compiler::compile_bf`]),
//! and the list is then run against a fixed tape of byte cells
//! ([`machine::Machine`], [`executor::execute_bf`]).
pub mod instruction;
pub mod syntax;
pub mod compiler;
pub mod machine;
pub mod executor;
