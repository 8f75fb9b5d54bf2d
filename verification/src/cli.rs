use vstd::prelude::*;

verus! {

/// What the compiler is asked to compile, and how.
#[derive(Debug, PartialEq)]
pub struct CompilationTarget {
    /// Rot code file
    pub rot_file: String,
    /// Output file
    pub out: Option<String>,
    /// Save the generated assembly file
    pub save_asm: bool,
    /// Output compilation steps
    pub verbose: bool,
}

#[derive(Debug, PartialEq)]
pub enum CliAction {
    /// Compile a Rot program
    Compile(CompilationTarget),
}

/// Rot compiler
#[derive(Debug, PartialEq)]
pub struct RotArgs {
    pub action: CliAction,
}

} // verus!
