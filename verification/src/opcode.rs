use vstd::prelude::*;

verus! {

/// One decoded instruction.  Jump targets and constant references are
/// instruction-pool indices, not byte offsets.
#[derive(Clone, Copy, PartialEq, Eq, Structural, Debug)]
pub enum Opcode {
    /// Push the constant at the given pool index.
    Ldc(u32),
    /// Pop the top of the stack and print it.
    Dump,
    Add,
    Sub,
    Mul,
    Div,
    Mod,
    /// Duplicate the top of the stack.
    Dup,
    /// Swap the two topmost stack items.
    Swp,
    /// Pop the top of the stack into the local variable with this index.
    Store(u16),
    /// Push the local variable with this index.
    Load(u16),
    /// Set the program counter to this instruction index.
    Goto(u32),
    Nop,
    /// Register a function: constant-pool index of its name, parameter count.
    /// The body follows, up to the matching `Return`.
    Func(u32, u8),
    /// End the current frame; its operand stack is the result.
    Return,
    /// Call a registered function: name index and parameter count.
    Invoke(u32, u8),
}

} // verus!
