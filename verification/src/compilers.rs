//! The choice of output format for compilation.

use vstd::prelude::*;

verus! {

/// The formats a finalized program can be compiled into.
#[derive(Copy, Clone, PartialEq, Eq, Debug)]
pub enum CompileFormat {
    Bytecode,
    Rust,
}

impl Default for CompileFormat {
    /// The compact bytecode format is the default.
    fn default() -> (r: Self)
        ensures
            r == CompileFormat::Bytecode,
    {
        CompileFormat::Bytecode
    }
}

} // verus!
