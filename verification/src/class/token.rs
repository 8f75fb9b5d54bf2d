use vstd::prelude::*;
use crate::class::location::Location;
use crate::data_types::DataType;
use crate::intrinsics::Intrinsic;

verus! {

/// Operator between two operands.
#[derive(Debug, Clone, Copy, PartialEq, Eq, Structural)]
pub enum BinaryOperator {
    Addition,
    Subtraction,
    Division,
    Multiplication,
    Assignment,
    Equals,
    GreaterOrEqual,
    GreaterThan,
    LessOrEqual,
    LessThan,
    NotEquals,
}

#[derive(Debug, Clone, Copy, PartialEq, Eq, Structural)]
pub enum Delimiter {
    Arrow,
    Point,
    Comma,
    Colon,
    SemiColon,
    OpenParen,
    CloseParen,
    OpenSquare,
    CloseSquare,
    OpenCurly,
    CloseCurly,
}

#[derive(Debug, Clone, Copy, PartialEq, Eq, Structural)]
pub enum Keyword {
    Break,
    Cast,
    Continue,
    Do,
    Done,
    Elif,
    Else,
    Endif,
    Fun,
    If,
    Let,
    Return,
    While,
}

/// Kind of a token.
#[derive(Debug, PartialEq)]
pub enum TokenType {
    BinaryOperator(BinaryOperator),
    Delimiter(Delimiter),
    Identifier,
    Intrinsic(Intrinsic),
    Literal(DataType),
    Keyword(Keyword),
    /// Text that yields no token: white space and comments.
    Skipped,
}

impl Clone for TokenType {
    fn clone(&self) -> (copy: Self)
        ensures
            copy == *self,
    {
        match self {
            TokenType::BinaryOperator(operator) => TokenType::BinaryOperator(*operator),
            TokenType::Delimiter(delimiter) => TokenType::Delimiter(*delimiter),
            TokenType::Identifier => TokenType::Identifier,
            TokenType::Intrinsic(intrinsic) => TokenType::Intrinsic(*intrinsic),
            TokenType::Literal(data_type) => TokenType::Literal(data_type.clone()),
            TokenType::Keyword(keyword) => TokenType::Keyword(*keyword),
            TokenType::Skipped => TokenType::Skipped,
        }
    }
}

impl TokenType {
    /// Whether the two kinds are the same, the type of a literal taken by its model.
    pub open spec fn same(self, other: TokenType) -> bool {
        match (self, other) {
            (TokenType::BinaryOperator(left), TokenType::BinaryOperator(right)) => left == right,
            (TokenType::Delimiter(left), TokenType::Delimiter(right)) => left == right,
            (TokenType::Identifier, TokenType::Identifier) => true,
            (TokenType::Intrinsic(left), TokenType::Intrinsic(right)) => left == right,
            (TokenType::Literal(left), TokenType::Literal(right)) => left@ == right@,
            (TokenType::Keyword(left), TokenType::Keyword(right)) => left == right,
            (TokenType::Skipped, TokenType::Skipped) => true,
            _ => false,
        }
    }

    /// Whether the two kinds are the same.
    pub fn same_as(&self, other: &TokenType) -> (same: bool)
        ensures
            same == self.same(*other),
    {
        match (self, other) {
            (TokenType::BinaryOperator(left), TokenType::BinaryOperator(right)) => *left == *right,
            (TokenType::Delimiter(left), TokenType::Delimiter(right)) => *left == *right,
            (TokenType::Identifier, TokenType::Identifier) => true,
            (TokenType::Intrinsic(left), TokenType::Intrinsic(right)) => *left == *right,
            (TokenType::Literal(left), TokenType::Literal(right)) => left.same_as(right),
            (TokenType::Keyword(left), TokenType::Keyword(right)) => *left == *right,
            (TokenType::Skipped, TokenType::Skipped) => true,
            _ => false,
        }
    }

    /// The operator of an operator token.
    pub open spec fn operator(self) -> Option<BinaryOperator> {
        match self {
            TokenType::BinaryOperator(operator) => Some(operator),
            _ => None,
        }
    }

    /// The operator of an operator token.
    pub fn into(self) -> (operator: Option<BinaryOperator>)
        ensures
            operator == self.operator(),
    {
        match self {
            TokenType::BinaryOperator(operator) => Some(operator),
            _ => None,
        }
    }

    /// Whether the kind is that of the given delimiter.
    pub open spec fn is_delimiter(self, delimiter: Delimiter) -> bool {
        self == TokenType::Delimiter(delimiter)
    }

    /// Whether the kind is that of the given keyword.
    pub open spec fn is_keyword(self, keyword: Keyword) -> bool {
        self == TokenType::Keyword(keyword)
    }

    /// Whether the kind is that of the given delimiter.
    pub fn delimiter(&self, delimiter: Delimiter) -> (is: bool)
        ensures
            is == self.is_delimiter(delimiter),
    {
        match self {
            TokenType::Delimiter(found) => *found == delimiter,
            _ => false,
        }
    }

    /// Whether the kind is that of the given keyword.
    pub fn keyword(&self, keyword: Keyword) -> (is: bool)
        ensures
            is == self.is_keyword(keyword),
    {
        match self {
            TokenType::Keyword(found) => *found == keyword,
            _ => false,
        }
    }
}

/// One word of the source text.
#[derive(Debug, PartialEq)]
pub struct Token {
    pub value: String,
    pub typ: TokenType,
    pub start_loc: Location,
    pub end_loc: Location,
}

/// A token with its text as a sequence of characters.
pub ghost struct TokenView {
    pub value: Seq<char>,
    pub typ: TokenType,
    pub start_loc: Location,
    pub end_loc: Location,
}

impl View for Token {
    type V = TokenView;

    open spec fn view(&self) -> TokenView {
        TokenView {
            value: self.value@,
            typ: self.typ,
            start_loc: self.start_loc,
            end_loc: self.end_loc,
        }
    }
}

/// The tokens as values of their model, in order.
pub open spec fn token_views(tokens: Seq<Token>) -> Seq<TokenView> {
    Seq::new(tokens.len(), |i: int| tokens[i]@)
}

impl Clone for Token {
    fn clone(&self) -> (copy: Self)
        ensures
            copy == *self,
    {
        Token {
            value: self.value.clone(),
            typ: self.typ.clone(),
            start_loc: self.start_loc.clone(),
            end_loc: self.end_loc.clone(),
        }
    }
}

} // verus!
