use vstd::prelude::*;
use crate::class::token::BinaryOperator;
use crate::data_types::DataType;

verus! {

#[derive(Debug, PartialEq)]
pub enum ExpressionType {
    Binary(BinaryOperator),
    Enclosure,
    FunctionCall,
    Identifier,
    /// A literal with its type, or a name, which has none.
    Literal(Option<DataType>),
    Unary,
}

/// A value written in the source, with the expressions it is made of.
#[derive(Debug, PartialEq)]
pub struct Expression {
    pub typ: ExpressionType,
    pub value: Option<String>,
    pub expressions: Vec<Expression>,
}

/// An expression with the expressions it is made of as a sequence.
pub ghost struct ExpressionView {
    pub typ: ExpressionType,
    pub value: Option<String>,
    pub expressions: Seq<ExpressionView>,
}

impl Expression {
    /// The expression with the expressions it is made of as a sequence.
    pub open spec fn model(self) -> ExpressionView
        decreases self,
    {
        ExpressionView {
            typ: self.typ,
            value: self.value,
            expressions: Seq::new(
                self.expressions.len() as nat,
                |i: int|
                    if 0 <= i < self.expressions.len() {
                        self.expressions[i].model()
                    } else {
                        arbitrary()
                    },
            ),
        }
    }
}

impl View for Expression {
    type V = ExpressionView;

    open spec fn view(&self) -> ExpressionView {
        self.model()
    }
}

/// The expressions as values of their model, in order.
pub open spec fn expression_views(expressions: Seq<Expression>) -> Seq<ExpressionView> {
    Seq::new(expressions.len(), |i: int| expressions[i]@)
}

/// The model of an expression holds the models of its parts.
pub proof fn lemma_expression_view(expression: Expression)
    ensures
        expression@.typ == expression.typ,
        expression@.value == expression.value,
        expression@.expressions == expression_views(expression.expressions@),
{
    assert(expression@.expressions =~= expression_views(expression.expressions@));
}

} // verus!
