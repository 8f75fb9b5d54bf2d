use vstd::prelude::*;
use crate::class::location::Location;
use crate::class::op::{ids_in_order, markers_of, Op};
use crate::control_flow::jumps_of;
use crate::laws::exits::follows_blocks;
use crate::laws::ranges::all_resolved;
use crate::class::signature::{Signature, SignatureView};
use crate::class::token::Token;

verus! {

/// A function as it stands in the token stream: its name, its signature and
/// the tokens between its braces.
#[derive(Debug, PartialEq)]
pub struct FunctionSource {
    pub name: String,
    pub signature: Signature,
    pub tokens: Vec<Token>,
    /// Where the name of the function stands.
    pub location: Location,
}

pub ghost struct FunctionSourceView {
    pub name: String,
    pub signature: SignatureView,
    pub tokens: Seq<Token>,
    pub location: Location,
}

impl View for FunctionSource {
    type V = FunctionSourceView;

    open spec fn view(&self) -> FunctionSourceView {
        FunctionSourceView {
            name: self.name,
            signature: self.signature@,
            tokens: self.tokens@,
            location: self.location,
        }
    }
}

/// A function with its body as stack operations.
#[derive(Debug, PartialEq)]
pub struct Function {
    pub name: String,
    pub signature: Signature,
    pub ops: Vec<Op>,
    /// Where the name of the function stands.
    pub location: Location,
}

pub ghost struct FunctionView {
    pub name: String,
    pub signature: SignatureView,
    pub ops: Seq<Op>,
    pub location: Location,
}

impl View for Function {
    type V = FunctionView;

    open spec fn view(&self) -> FunctionView {
        FunctionView {
            name: self.name,
            signature: self.signature@,
            ops: self.ops@,
            location: self.location,
        }
    }
}

impl FunctionView {
    /// Whether the function is what the lowering of a function is: the ids
    /// of its operations count up from zero, its block keywords are
    /// balanced, their jumps are those of the blocks that they form, and
    /// each keyword that jumps has the position that it jumps to.
    pub open spec fn well_formed(self) -> bool {
        &&& ids_in_order(self.ops)
        &&& follows_blocks(markers_of(self.ops), jumps_of(self.ops))
        &&& all_resolved(markers_of(self.ops), jumps_of(self.ops))
    }
}

/// The functions as values of their model, in order.
pub open spec fn function_views(functions: Seq<Function>) -> Seq<FunctionView> {
    Seq::new(functions.len(), |i: int| functions[i]@)
}

} // verus!
