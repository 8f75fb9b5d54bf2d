use vstd::prelude::*;
use crate::class::signature::{Signature, SignatureView};
use crate::class::statement::{Statement, StatementView};

verus! {

/// A function as it is declared: its name, its signature and its body as a
/// compound statement.
#[derive(Debug, PartialEq)]
pub struct FunctionDefinition {
    pub name: String,
    pub signature: Signature,
    pub statement: Statement,
}

pub ghost struct FunctionDefinitionView {
    pub name: String,
    pub signature: SignatureView,
    pub statement: StatementView,
}

impl View for FunctionDefinition {
    type V = FunctionDefinitionView;

    open spec fn view(&self) -> FunctionDefinitionView {
        FunctionDefinitionView {
            name: self.name,
            signature: self.signature@,
            statement: self.statement@,
        }
    }
}

/// The functions as values of their model, in order.
pub open spec fn definition_views(functions: Seq<FunctionDefinition>) -> Seq<
    FunctionDefinitionView,
> {
    Seq::new(functions.len(), |i: int| functions[i]@)
}

/// The functions of a source text, in the order in which they are declared.
#[derive(Debug, PartialEq)]
pub struct Program {
    pub functions: Vec<FunctionDefinition>,
}

impl View for Program {
    type V = Seq<FunctionDefinitionView>;

    open spec fn view(&self) -> Seq<FunctionDefinitionView> {
        definition_views(self.functions@)
    }
}

} // verus!
