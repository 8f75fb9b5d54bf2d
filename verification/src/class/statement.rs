use vstd::prelude::*;
use crate::class::expression::{Expression, ExpressionView};
use crate::data_types::DataType;

verus! {

#[derive(Debug, Clone, Copy, PartialEq, Eq, Structural)]
pub enum Conditional {
    If,
    Elif,
    Else,
}

#[derive(Debug, PartialEq)]
pub enum StatementType {
    Assignment(DataType),
    Compound,
    Conditional(Conditional),
    Expression,
    Loop,
    NoOperation,
    Return,
}

/// A statement of the source, with the expression and the statements it holds.
#[derive(Debug, PartialEq)]
pub struct Statement {
    pub typ: StatementType,
    pub value: Option<String>,
    pub expression: Option<Expression>,
    pub statements: Option<Vec<Statement>>,
}

/// A statement with the statements it holds as a sequence.
pub ghost struct StatementView {
    pub typ: StatementType,
    pub value: Option<String>,
    pub expression: Option<ExpressionView>,
    pub statements: Option<Seq<StatementView>>,
}

impl Statement {
    /// The statement with the statements it holds as a sequence.
    pub open spec fn model(self) -> StatementView
        decreases self,
    {
        StatementView {
            typ: self.typ,
            value: self.value,
            expression: match self.expression {
                Some(expression) => Some(expression@),
                None => None,
            },
            statements: match self.statements {
                Some(statements) => Some(
                    Seq::new(
                        statements.len() as nat,
                        |i: int|
                            if 0 <= i < statements.len() {
                                statements[i].model()
                            } else {
                                arbitrary()
                            },
                    ),
                ),
                None => None,
            },
        }
    }
}

impl View for Statement {
    type V = StatementView;

    open spec fn view(&self) -> StatementView {
        self.model()
    }
}

/// The statements as values of their model, in order.
pub open spec fn statement_views(statements: Seq<Statement>) -> Seq<StatementView> {
    Seq::new(statements.len(), |i: int| statements[i]@)
}

/// The model of a statement holds the models of its parts.
pub proof fn lemma_statement_view(statement: Statement)
    ensures
        statement@.typ == statement.typ,
        statement@.value == statement.value,
        statement@.expression == match statement.expression {
            Some(expression) => Some(expression@),
            None => None,
        },
        statement@.statements == match statement.statements {
            Some(statements) => Some(statement_views(statements@)),
            None => None,
        },
{
    match statement.statements {
        Some(statements) => {
            assert(statement@.statements->Some_0 =~= statement_views(statements@));
        },
        None => {},
    }
}

} // verus!
