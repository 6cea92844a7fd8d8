//! The instructions of a function, as far as dead store elimination reads them.
use vstd::prelude::*;

verus! {

/// A position in the instruction sequence of a function.
pub type CodeOffset = u16;

/// A slot of a function's frame: a parameter, a local or a temporary.
pub type TempIndex = usize;

/// One instruction of the stack-less bytecode.
///
/// Only the two shapes that write a local and do nothing else are told
/// apart; every other instruction is carried through unread.
#[derive(Clone, Copy, Debug, PartialEq, Eq, Structural)]
pub enum Bytecode {
    /// `Assign(dst, src)`: copy or move the local `src` into `dst`.
    Assign(TempIndex, TempIndex),
    /// `Load(dst, constant)`: write a constant into `dst`.
    Load(TempIndex, u64),
    /// Any other instruction, named by the handle its owner gave it.
    Other(u64),
}

impl Bytecode {
    /// The local that a restricted definition writes: `Some(dst)` for an
    /// `Assign` or a `Load`, `None` for anything else.
    pub open spec fn definition(self) -> Option<TempIndex> {
        match self {
            Bytecode::Assign(dst, _) => Some(dst),
            Bytecode::Load(dst, _) => Some(dst),
            Bytecode::Other(_) => None,
        }
    }

    /// An instruction whose only effect is to write one local.
    pub open spec fn is_restricted_definition(self) -> bool {
        self.definition() is Some
    }

    /// An assignment of a local to itself.
    pub open spec fn is_self_assignment(self) -> bool {
        match self {
            Bytecode::Assign(dst, src) => dst == src,
            _ => false,
        }
    }

    /// The local written by this instruction, if it is a restricted definition.
    pub fn dest(&self) -> (dst: Option<TempIndex>)
        ensures
            dst == self.definition(),
    {
        match self {
            Bytecode::Assign(dst, _) => Some(*dst),
            Bytecode::Load(dst, _) => Some(*dst),
            Bytecode::Other(_) => None,
        }
    }

    /// Whether this instruction assigns a local to itself.
    pub fn is_self_assign(&self) -> (b: bool)
        ensures
            b == self.is_self_assignment(),
    {
        match self {
            Bytecode::Assign(dst, src) => *dst == *src,
            _ => false,
        }
    }
}

} // verus!
