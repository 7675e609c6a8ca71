//! Gearwork: a small stack-based virtual machine.
//!
//! The crate has three parts: a bytecode emitter that produces a portable
//! image (`bytecode`), a loader that validates and decodes such an image
//! (`loader`), and an interpreter over the decoded program (`vm`).  Values
//! are tagged (`value`), with their IEEE-754 arithmetic named in `fp`;
//! the wire format is fixed big-endian (`codec`).

pub mod bytecode;
pub mod codec;
pub mod fp;
pub mod loader;
pub mod opcode;
pub mod value;
pub mod vm;

pub use loader::Loader;
