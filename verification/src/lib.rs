//! Execution engine for Moostar, a Brainfuck dialect with named subroutines
//! and a second ("meta") tape.
//!
//! A source text is compiled into a linear program of instructions, each
//! carrying the byte span of the text it came from. A [`Runner`] executes
//! that program one instruction at a time and exposes what a visualiser needs
//! between two steps: the span of the current instruction, the return stack,
//! the tapes and the output.
//!
//! Every executable function carries a contract stated over the mathematical
//! model in [`machine`] and [`compiler`], and is proved against it; [`laws`]
//! holds what follows for every program. [`pacing`] and [`display`] serve a
//! driver that steps a runner at a chosen frequency and shows where it stands.
pub mod compiler;
pub mod display;
pub mod error;
pub mod instruction;
pub mod laws;
pub mod machine;
pub mod pacing;
pub mod runner;
pub mod text;

pub use crate::compiler::fetch_identifier;
pub use crate::error::{MooError, MooErrorKind, MooFault};
pub use crate::instruction::MooInst;
pub use crate::pacing::Frequency;
pub use crate::runner::Runner;
