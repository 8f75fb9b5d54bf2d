use vstd::prelude::*;
use crate::class::expression::{
    Expression, expression_views, ExpressionType, ExpressionView, lemma_expression_view,
};
use crate::class::program::{definition_views, FunctionDefinition, FunctionDefinitionView, Program};
use crate::class::signature::{Parameter, Signature, SignatureView};
use crate::class::statement::{
    Conditional, lemma_statement_view, Statement, statement_views, StatementType, StatementView,
};
use crate::class::token::{BinaryOperator, Delimiter, Keyword, Token, TokenType};
use crate::compiler::{CompilerError, ParserError};
use crate::data_types::DataType;
use crate::text::str_eq;

verus! {

/// The error for tokens that end where another one is needed.
pub open spec fn end_of_tokens() -> CompilerError {
    CompilerError::ParserError(ParserError::UnexpectedEof)
}

/// The token at `cursor`.
pub open spec fn peek(tokens: Seq<Token>, cursor: int) -> Result<Token, CompilerError> {
    if 0 <= cursor < tokens.len() {
        Ok(tokens[cursor])
    } else {
        Err(end_of_tokens())
    }
}

/// The token at `cursor`, which must be of the kind `expected`.
pub open spec fn expect(tokens: Seq<Token>, cursor: int, expected: TokenType) -> Result<
    Token,
    CompilerError,
> {
    match peek(tokens, cursor) {
        Err(error) => Err(error),
        Ok(token) => if token.typ.same(expected) {
            Ok(token)
        } else {
            Err(CompilerError::ParserError(ParserError::UnexpectedToken { expected, found: token }))
        },
    }
}

/// The kind of a token that is the given delimiter.
pub open spec fn delimiter(delimiter: Delimiter) -> TokenType {
    TokenType::Delimiter(delimiter)
}

/// The kind of a token that is the given keyword.
pub open spec fn keyword(keyword: Keyword) -> TokenType {
    TokenType::Keyword(keyword)
}

/// The literal or name at `cursor`, and the index behind it.
pub open spec fn literal_at(tokens: Seq<Token>, cursor: int) -> Result<
    (ExpressionView, int),
    CompilerError,
> {
    match peek(tokens, cursor) {
        Err(error) => Err(error),
        Ok(token) => match token.typ {
            TokenType::Literal(data_type) => Ok(
                (
                    ExpressionView {
                        typ: ExpressionType::Literal(Some(data_type)),
                        value: Some(token.value),
                        expressions: Seq::empty(),
                    },
                    cursor + 1,
                ),
            ),
            TokenType::Identifier => Ok(
                (
                    ExpressionView {
                        typ: ExpressionType::Literal(None),
                        value: Some(token.value),
                        expressions: Seq::empty(),
                    },
                    cursor + 1,
                ),
            ),
            _ => Err(CompilerError::ParserError(ParserError::UnknownLiteral { found: token })),
        },
    }
}

/// The expression that starts at `cursor`, with the operator and the right
/// side that follow it if an operator does, and the index behind it. A token
/// must follow the first operand.
pub open spec fn combined_expression_at(tokens: Seq<Token>, cursor: int) -> Result<
    (ExpressionView, int),
    CompilerError,
>
    decreases tokens.len() - cursor, 3int,
{
    match expression_at(tokens, cursor) {
        Err(error) => Err(error),
        Ok((first, next)) => match peek(tokens, next) {
            Err(error) => Err(error),
            Ok(token) => match token.typ {
                TokenType::BinaryOperator(operator) => {
                    if next < cursor {
                        // Not taken: an operand takes at least one token.
                        Err(end_of_tokens())
                    } else {
                        match combined_expression_at(tokens, next + 1) {
                            Err(error) => Err(error),
                            Ok((second, end)) => Ok(
                                (
                                    ExpressionView {
                                        typ: ExpressionType::Binary(operator),
                                        value: None,
                                        expressions: seq![first, second],
                                    },
                                    end,
                                ),
                            ),
                        }
                    }
                },
                _ => Ok((first, next)),
            },
        },
    }
}

/// The operand that starts at `cursor`: an expression in parentheses, a call,
/// a literal or a name. A token must follow the first token of the operand.
pub open spec fn expression_at(tokens: Seq<Token>, cursor: int) -> Result<
    (ExpressionView, int),
    CompilerError,
>
    decreases tokens.len() - cursor, 2int,
{
    match peek(tokens, cursor) {
        Err(error) => Err(error),
        Ok(token) => if token.typ.is_delimiter(Delimiter::OpenParen) {
            enclosure_at(tokens, cursor)
        } else {
            match peek(tokens, cursor + 1) {
                Err(error) => Err(error),
                Ok(lookahead) => if token.typ is Identifier && lookahead.typ.is_delimiter(
                    Delimiter::OpenParen,
                ) {
                    call_at(tokens, cursor)
                } else {
                    literal_at(tokens, cursor)
                },
            }
        },
    }
}

/// The expression in parentheses that starts at `cursor`.
pub open spec fn enclosure_at(tokens: Seq<Token>, cursor: int) -> Result<
    (ExpressionView, int),
    CompilerError,
>
    decreases tokens.len() - cursor, 1int,
{
    match expect(tokens, cursor, delimiter(Delimiter::OpenParen)) {
        Err(error) => Err(error),
        Ok(_) => match combined_expression_at(tokens, cursor + 1) {
            Err(error) => Err(error),
            Ok((inner, next)) => match expect(tokens, next, delimiter(Delimiter::CloseParen)) {
                Err(error) => Err(error),
                Ok(_) => Ok(
                    (
                        ExpressionView {
                            typ: ExpressionType::Enclosure,
                            value: None,
                            expressions: seq![inner],
                        },
                        next + 1,
                    ),
                ),
            },
        },
    }
}

/// The call that starts at `cursor`: a name and its arguments in parentheses.
pub open spec fn call_at(tokens: Seq<Token>, cursor: int) -> Result<
    (ExpressionView, int),
    CompilerError,
>
    decreases tokens.len() - cursor, 1int,
{
    match expect(tokens, cursor, TokenType::Identifier) {
        Err(error) => Err(error),
        Ok(name) => match expect(tokens, cursor + 1, delimiter(Delimiter::OpenParen)) {
            Err(error) => Err(error),
            Ok(_) => match call_arguments_at(tokens, cursor + 2, Seq::empty()) {
                Err(error) => Err(error),
                Ok((arguments, next)) => match expect(
                    tokens,
                    next,
                    delimiter(Delimiter::CloseParen),
                ) {
                    Err(error) => Err(error),
                    Ok(_) => Ok(
                        (
                            ExpressionView {
                                typ: ExpressionType::FunctionCall,
                                value: Some(name.value),
                                expressions: arguments,
                            },
                            next + 1,
                        ),
                    ),
                },
            },
        },
    }
}

/// The arguments of a call from `cursor` to its closing parenthesis, behind
/// those in `found`, and the index of that parenthesis. A comma or the
/// parenthesis follows each argument.
pub open spec fn call_arguments_at(
    tokens: Seq<Token>,
    cursor: int,
    found: Seq<ExpressionView>,
) -> Result<(Seq<ExpressionView>, int), CompilerError>
    decreases tokens.len() - cursor, 4int,
{
    match peek(tokens, cursor) {
        Err(error) => Err(error),
        Ok(token) => if token.typ.is_delimiter(Delimiter::CloseParen) {
            Ok((found, cursor))
        } else {
            match combined_expression_at(tokens, cursor) {
                Err(error) => Err(error),
                Ok((argument, next)) => match peek(tokens, next) {
                    Err(error) => Err(error),
                    Ok(after) => if next <= cursor {
                        // Not taken: an argument takes at least one token.
                        Err(end_of_tokens())
                    } else if after.typ.is_delimiter(Delimiter::Comma) {
                        call_arguments_at(tokens, next + 1, found.push(argument))
                    } else if after.typ.is_delimiter(Delimiter::CloseParen) {
                        Ok((found.push(argument), next))
                    } else {
                        Err(CompilerError::SyntaxError(after))
                    },
                },
            }
        },
    }
}

/// The operation on a literal or name that starts at `cursor`: the operand,
/// an operator and the expression on its right.
pub open spec fn binary_at(tokens: Seq<Token>, cursor: int) -> Result<
    (ExpressionView, int),
    CompilerError,
> {
    match literal_at(tokens, cursor) {
        Err(error) => Err(error),
        Ok((first, next)) => match peek(tokens, next) {
            Err(error) => Err(error),
            Ok(token) => match token.typ {
                TokenType::BinaryOperator(operator) => match combined_expression_at(
                    tokens,
                    next + 1,
                ) {
                    Err(error) => Err(error),
                    Ok((second, end)) => Ok(
                        (
                            ExpressionView {
                                typ: ExpressionType::Binary(operator),
                                value: None,
                                expressions: seq![first, second],
                            },
                            end,
                        ),
                    ),
                },
                _ => Err(CompilerError::SyntaxError(token)),
            },
        },
    }
}

/// A statement without parts.
pub open spec fn plain_statement(typ: StatementType) -> StatementView {
    StatementView { typ, value: None, expression: None, statements: None }
}

/// The empty statement at `cursor`: a semicolon.
pub open spec fn no_operation_at(tokens: Seq<Token>, cursor: int) -> Result<
    (StatementView, int),
    CompilerError,
> {
    match expect(tokens, cursor, delimiter(Delimiter::SemiColon)) {
        Err(error) => Err(error),
        Ok(_) => Ok((plain_statement(StatementType::NoOperation), cursor + 1)),
    }
}

/// The expression from `cursor` to a semicolon, as a statement of the kind `typ`.
pub open spec fn closed_expression_at(tokens: Seq<Token>, cursor: int, typ: StatementType) -> Result<
    (StatementView, int),
    CompilerError,
> {
    match combined_expression_at(tokens, cursor) {
        Err(error) => Err(error),
        Ok((expression, next)) => match expect(tokens, next, delimiter(Delimiter::SemiColon)) {
            Err(error) => Err(error),
            Ok(_) => Ok(
                (
                    StatementView { typ, value: None, expression: Some(expression), statements: None },
                    next + 1,
                ),
            ),
        },
    }
}

/// The statement at `cursor` that is an expression and a semicolon.
pub open spec fn expression_statement_at(tokens: Seq<Token>, cursor: int) -> Result<
    (StatementView, int),
    CompilerError,
> {
    closed_expression_at(tokens, cursor, StatementType::Expression)
}

/// The return statement at `cursor`: the keyword, an expression and a semicolon.
pub open spec fn return_at(tokens: Seq<Token>, cursor: int) -> Result<
    (StatementView, int),
    CompilerError,
> {
    match expect(tokens, cursor, keyword(Keyword::Return)) {
        Err(error) => Err(error),
        Ok(_) => closed_expression_at(tokens, cursor + 1, StatementType::Return),
    }
}

/// The assignment at `cursor`: `let`, a name, a colon, the name of a type,
/// the assignment operator, an expression and a semicolon.
pub open spec fn assignment_at(tokens: Seq<Token>, cursor: int) -> Result<
    (StatementView, int),
    CompilerError,
> {
    match expect(tokens, cursor, keyword(Keyword::Let)) {
        Err(error) => Err(error),
        Ok(_) => match expect(tokens, cursor + 1, TokenType::Identifier) {
            Err(error) => Err(error),
            Ok(name) => match expect(tokens, cursor + 2, delimiter(Delimiter::Colon)) {
                Err(error) => Err(error),
                Ok(_) => match expect(tokens, cursor + 3, TokenType::Identifier) {
                    Err(error) => Err(error),
                    Ok(type_text) => match expect(
                        tokens,
                        cursor + 4,
                        TokenType::BinaryOperator(BinaryOperator::Assignment),
                    ) {
                        Err(error) => Err(error),
                        Ok(_) => match closed_expression_at(
                            tokens,
                            cursor + 5,
                            StatementType::Assignment(DataType::of_name(type_text.value)),
                        ) {
                            Err(error) => Err(error),
                            Ok((statement, next)) => Ok(
                                (
                                    StatementView {
                                        typ: statement.typ,
                                        value: Some(name.value),
                                        expression: statement.expression,
                                        statements: None,
                                    },
                                    next,
                                ),
                            ),
                        },
                    },
                },
            },
        },
    }
}

/// The kind of block that a keyword text opens.
pub open spec fn block_type(text: Seq<char>) -> Option<StatementType> {
    if text == "if"@ {
        Some(StatementType::Conditional(Conditional::If))
    } else if text == "elif"@ {
        Some(StatementType::Conditional(Conditional::Elif))
    } else if text == "else"@ {
        Some(StatementType::Conditional(Conditional::Else))
    } else if text == "while"@ {
        Some(StatementType::Loop)
    } else {
        None
    }
}

/// The statement that starts at `cursor`, chosen by its first token.
pub open spec fn statement_at(tokens: Seq<Token>, cursor: int) -> Result<
    (StatementView, int),
    CompilerError,
>
    decreases tokens.len() - cursor, 2int,
{
    match peek(tokens, cursor) {
        Err(error) => Err(error),
        Ok(token) => match token.typ {
            TokenType::Delimiter(Delimiter::SemiColon) => no_operation_at(tokens, cursor),
            TokenType::Delimiter(Delimiter::OpenCurly) => compound_at(tokens, cursor),
            TokenType::Keyword(Keyword::Return) => return_at(tokens, cursor),
            TokenType::Keyword(Keyword::Let) => assignment_at(tokens, cursor),
            TokenType::Keyword(Keyword::If) => block_at(tokens, cursor),
            TokenType::Keyword(Keyword::Elif) => block_at(tokens, cursor),
            TokenType::Keyword(Keyword::Else) => block_at(tokens, cursor),
            TokenType::Keyword(Keyword::While) => block_at(tokens, cursor),
            _ => expression_statement_at(tokens, cursor),
        },
    }
}

/// The statements from `cursor` to a closing brace, behind those in `found`,
/// and the index of that brace.
pub open spec fn statements_at(tokens: Seq<Token>, cursor: int, found: Seq<StatementView>) -> Result<
    (Seq<StatementView>, int),
    CompilerError,
>
    decreases tokens.len() - cursor, 3int,
{
    match peek(tokens, cursor) {
        Err(error) => Err(error),
        Ok(token) => if token.typ.is_delimiter(Delimiter::CloseCurly) {
            Ok((found, cursor))
        } else {
            match statement_at(tokens, cursor) {
                Err(error) => Err(error),
                Ok((statement, next)) => if !(cursor < next <= tokens.len()) {
                    // Not taken: a statement takes at least one token.
                    Err(end_of_tokens())
                } else {
                    statements_at(tokens, next, found.push(statement))
                },
            }
        },
    }
}

/// The statements in braces that start at `cursor`.
pub open spec fn compound_at(tokens: Seq<Token>, cursor: int) -> Result<
    (StatementView, int),
    CompilerError,
>
    decreases tokens.len() - cursor, 1int,
{
    match expect(tokens, cursor, delimiter(Delimiter::OpenCurly)) {
        Err(error) => Err(error),
        Ok(_) => match statements_at(tokens, cursor + 1, Seq::empty()) {
            Err(error) => Err(error),
            Ok((statements, next)) => match expect(tokens, next, delimiter(Delimiter::CloseCurly)) {
                Err(error) => Err(error),
                Ok(_) => Ok(
                    (
                        StatementView {
                            typ: StatementType::Compound,
                            value: None,
                            expression: None,
                            statements: Some(statements),
                        },
                        next + 1,
                    ),
                ),
            },
        },
    }
}

/// The block that starts at `cursor`: its keyword, its condition in
/// parentheses unless the token is the keyword `else`, and its statements in braces.
pub open spec fn block_at(tokens: Seq<Token>, cursor: int) -> Result<
    (StatementView, int),
    CompilerError,
>
    decreases tokens.len() - cursor, 1int,
{
    match peek(tokens, cursor) {
        Err(error) => Err(error),
        Ok(token) => match block_type(token.value@) {
            None => Err(CompilerError::SyntaxError(token)),
            Some(typ) => {
                let condition = if token.typ.is_keyword(Keyword::Else) {
                    Ok((None, cursor + 1))
                } else {
                    match enclosure_at(tokens, cursor + 1) {
                        Err(error) => Err(error),
                        Ok((expression, next)) => Ok((Some(expression), next)),
                    }
                };
                match condition {
                    Err(error) => Err(error),
                    Ok((expression, next)) => if !(cursor < next <= tokens.len()) {
                        // Not taken: a condition takes at least one token.
                        Err(end_of_tokens())
                    } else {
                        match compound_at(tokens, next) {
                            Err(error) => Err(error),
                            Ok((body, end)) => Ok(
                                (
                                    StatementView {
                                        typ,
                                        value: None,
                                        expression,
                                        statements: Some(seq![body]),
                                    },
                                    end,
                                ),
                            ),
                        }
                    },
                }
            },
        },
    }
}

/// The parameter at `cursor`: a name, a colon and the name of a type.
pub open spec fn parameter_at(tokens: Seq<Token>, cursor: int) -> Result<Parameter, CompilerError> {
    match expect(tokens, cursor, TokenType::Identifier) {
        Err(error) => Err(error),
        Ok(name) => match expect(tokens, cursor + 1, delimiter(Delimiter::Colon)) {
            Err(error) => Err(error),
            Ok(_) => match expect(tokens, cursor + 2, TokenType::Identifier) {
                Err(error) => Err(error),
                Ok(type_text) => Ok(
                    Parameter { name: name.value, typ: DataType::of_name(type_text.value) },
                ),
            },
        },
    }
}

/// The parameters from `cursor` on, behind those in `found`, and the index
/// behind the last of them: a comma stands between two parameters, and one
/// may follow the last.
pub open spec fn parameters_at(tokens: Seq<Token>, cursor: int, found: Seq<Parameter>) -> Result<
    (Seq<Parameter>, int),
    CompilerError,
>
    decreases tokens.len() - cursor,
{
    if expect(tokens, cursor, delimiter(Delimiter::CloseParen)) is Ok {
        Ok((found, cursor))
    } else {
        match parameter_at(tokens, cursor) {
            Err(error) => Err(error),
            Ok(parameter) => if expect(tokens, cursor + 3, delimiter(Delimiter::Comma)) is Ok {
                parameters_at(tokens, cursor + 4, found.push(parameter))
            } else {
                Ok((found.push(parameter), cursor + 3))
            },
        }
    }
}

/// The return type declared at `cursor`: none where the body starts, else
/// an arrow and the name of a type.
pub open spec fn return_type_at(tokens: Seq<Token>, cursor: int) -> Result<
    (Option<DataType>, int),
    CompilerError,
> {
    if expect(tokens, cursor, delimiter(Delimiter::OpenCurly)) is Ok {
        Ok((None, cursor))
    } else {
        match expect(tokens, cursor, delimiter(Delimiter::Arrow)) {
            Err(error) => Err(error),
            Ok(_) => match expect(tokens, cursor + 1, TokenType::Identifier) {
                Err(error) => Err(error),
                Ok(type_text) => Ok((Some(DataType::of_name(type_text.value)), cursor + 2)),
            },
        }
    }
}

/// The signature that starts at `cursor` with an opening parenthesis, and
/// the index behind it.
pub open spec fn signature_at(tokens: Seq<Token>, cursor: int) -> Result<
    (SignatureView, int),
    CompilerError,
> {
    match expect(tokens, cursor, delimiter(Delimiter::OpenParen)) {
        Err(error) => Err(error),
        Ok(_) => match parameters_at(tokens, cursor + 1, Seq::empty()) {
            Err(error) => Err(error),
            Ok((parameters, next)) => match expect(tokens, next, delimiter(Delimiter::CloseParen)) {
                Err(error) => Err(error),
                Ok(_) => match return_type_at(tokens, next + 1) {
                    Err(error) => Err(error),
                    Ok((return_type, end)) => Ok((SignatureView { parameters, return_type }, end)),
                },
            },
        },
    }
}

/// The function that starts at `cursor`: the keyword, a name, the signature
/// and the body in braces.
pub open spec fn function_at(tokens: Seq<Token>, cursor: int) -> Result<
    (FunctionDefinitionView, int),
    CompilerError,
> {
    match expect(tokens, cursor, keyword(Keyword::Fun)) {
        Err(error) => Err(error),
        Ok(_) => match expect(tokens, cursor + 1, TokenType::Identifier) {
            Err(error) => Err(error),
            Ok(name) => match signature_at(tokens, cursor + 2) {
                Err(error) => Err(error),
                Ok((signature, next)) => match compound_at(tokens, next) {
                    Err(error) => Err(error),
                    Ok((statement, end)) => Ok(
                        (FunctionDefinitionView { name: name.value, signature, statement }, end),
                    ),
                },
            },
        },
    }
}

/// The functions from `cursor` to the end of the tokens, behind those in `found`.
pub open spec fn functions_at(
    tokens: Seq<Token>,
    cursor: int,
    found: Seq<FunctionDefinitionView>,
) -> Result<Seq<FunctionDefinitionView>, CompilerError>
    decreases tokens.len() - cursor,
{
    if cursor < 0 || cursor >= tokens.len() {
        Ok(found)
    } else {
        match function_at(tokens, cursor) {
            Err(error) => Err(error),
            Ok((function, next)) => if !(cursor < next <= tokens.len()) {
                // Not taken: a function takes at least one token.
                Err(end_of_tokens())
            } else {
                functions_at(tokens, next, found.push(function))
            },
        }
    }
}

/// Whether a parser's outcome and the cursor it leaves are what `expected`
/// says: the value with the given model and the cursor behind it, or the error.
pub open spec fn agrees<T: View>(
    outcome: Result<T, CompilerError>,
    cursor: usize,
    expected: Result<(T::V, int), CompilerError>,
) -> bool {
    match expected {
        Ok((model, next)) => outcome is Ok && outcome->Ok_0@ == model && cursor == next,
        Err(error) => outcome == Err::<T, CompilerError>(error),
    }
}

/// Reads the token at the cursor.
pub fn peek_cursor(cursor: usize, tokens: &Vec<Token>) -> (token: Result<Token, CompilerError>)
    ensures
        token == peek(tokens@, cursor as int),
        token is Ok ==> cursor < tokens.len(),
{
    if cursor >= tokens.len() {
        return Err(CompilerError::ParserError(ParserError::UnexpectedEof));
    }
    Ok(tokens[cursor].clone())
}

/// Reads the token at the cursor, which must be of the expected kind.
pub fn check_cursor(cursor: usize, tokens: &Vec<Token>, expected_type: &TokenType) -> (token: Result<
    Token,
    CompilerError,
>)
    ensures
        token == expect(tokens@, cursor as int, *expected_type),
        token is Ok ==> cursor < tokens.len(),
{
    let token: Token = peek_cursor(cursor, tokens)?;
    if !token.typ.same_as(expected_type) {
        return Err(
            CompilerError::ParserError(
                ParserError::UnexpectedToken { expected: expected_type.clone(), found: token },
            ),
        );
    }
    Ok(token)
}

/// Reads the token at the cursor, which must be of the expected kind, and
/// moves the cursor behind it. After an error the cursor is where it was.
pub fn advance_cursor(cursor: &mut usize, tokens: &Vec<Token>, expected_type: &TokenType) -> (token:
    Result<Token, CompilerError>)
    ensures
        token == expect(tokens@, *old(cursor) as int, *expected_type),
        token is Ok ==> *final(cursor) == *old(cursor) + 1 && *old(cursor) < tokens.len(),
        token is Err ==> *final(cursor) == *old(cursor),
{
    match check_cursor(*cursor, tokens, expected_type) {
        Ok(token) => {
            *cursor += 1;
            Ok(token)
        },
        Err(error) => Err(error),
    }
}

/// Parses a literal or a name.
pub fn literal_expression(tokens: &Vec<Token>, cursor: &mut usize) -> (outcome: Result<
    Expression,
    CompilerError,
>)
    ensures
        agrees(outcome, *final(cursor), literal_at(tokens@, *old(cursor) as int)),
        outcome is Ok ==> *old(cursor) < *final(cursor) <= tokens.len(),
        *old(cursor) <= *final(cursor),
{
    let index: usize = *cursor;
    if index >= tokens.len() {
        return Err(CompilerError::ParserError(ParserError::UnexpectedEof));
    }
    let typ = match &tokens[index].typ {
        TokenType::Literal(data_type) => ExpressionType::Literal(Some(data_type.clone())),
        TokenType::Identifier => ExpressionType::Literal(None),
        _ => {
            return Err(
                CompilerError::ParserError(
                    ParserError::UnknownLiteral { found: tokens[index].clone() },
                ),
            );
        },
    };
    *cursor += 1;
    let expression = Expression {
        typ,
        value: Some(tokens[index].value.clone()),
        expressions: Vec::new(),
    };
    proof {
        lemma_expression_view(expression);
        assert(expression@.expressions =~= Seq::empty());
    }
    Ok(expression)
}

/// An expression of the kind `typ` made of two expressions.
fn pair_expression(typ: ExpressionType, first: Expression, second: Expression) -> (expression:
    Expression)
    ensures
        expression@ == (ExpressionView { typ, value: None, expressions: seq![first@, second@] }),
{
    let mut expressions: Vec<Expression> = Vec::new();
    expressions.push(first);
    expressions.push(second);
    let expression = Expression { typ, value: None, expressions };
    proof {
        lemma_expression_view(expression);
        assert(expression@.expressions =~= seq![first@, second@]);
    }
    expression
}

/// Parses an operand and, if an operator follows it, the operator and the
/// expression on its right: operators bind to the right.
pub fn parse_combined_expression(tokens: &Vec<Token>, cursor: &mut usize) -> (outcome: Result<
    Expression,
    CompilerError,
>)
    ensures
        agrees(outcome, *final(cursor), combined_expression_at(tokens@, *old(cursor) as int)),
        outcome is Ok ==> *old(cursor) < *final(cursor) <= tokens.len(),
        *old(cursor) <= *final(cursor),
    decreases tokens.len() - *old(cursor), 3int,
{
    let first = parse_expression(tokens, cursor)?;
    if *cursor >= tokens.len() {
        return Err(CompilerError::ParserError(ParserError::UnexpectedEof));
    }
    match &tokens[*cursor].typ {
        TokenType::BinaryOperator(operator) => {
            *cursor += 1;
            let second = parse_combined_expression(tokens, cursor)?;
            Ok(pair_expression(ExpressionType::Binary(*operator), first, second))
        },
        _ => Ok(first),
    }
}

/// Parses an operand: an expression in parentheses, a call, a literal or a name.
pub fn parse_expression(tokens: &Vec<Token>, cursor: &mut usize) -> (outcome: Result<
    Expression,
    CompilerError,
>)
    ensures
        agrees(outcome, *final(cursor), expression_at(tokens@, *old(cursor) as int)),
        outcome is Ok ==> *old(cursor) < *final(cursor) <= tokens.len(),
        *old(cursor) <= *final(cursor),
    decreases tokens.len() - *old(cursor), 2int,
{
    if *cursor >= tokens.len() {
        return Err(CompilerError::ParserError(ParserError::UnexpectedEof));
    }
    if tokens[*cursor].typ.delimiter(Delimiter::OpenParen) {
        return enclosure_expression(tokens, cursor);
    }
    if *cursor + 1 >= tokens.len() {
        return Err(CompilerError::ParserError(ParserError::UnexpectedEof));
    }
    let named = match &tokens[*cursor].typ {
        TokenType::Identifier => true,
        _ => false,
    };
    if named && tokens[*cursor + 1].typ.delimiter(Delimiter::OpenParen) {
        return function_call_expression(tokens, cursor);
    }
    literal_expression(tokens, cursor)
}

/// Parses a call: a name and, in parentheses, its arguments with commas between them.
pub fn function_call_expression(tokens: &Vec<Token>, cursor: &mut usize) -> (outcome: Result<
    Expression,
    CompilerError,
>)
    ensures
        agrees(outcome, *final(cursor), call_at(tokens@, *old(cursor) as int)),
        outcome is Ok ==> *old(cursor) < *final(cursor) <= tokens.len(),
        *old(cursor) <= *final(cursor),
    decreases tokens.len() - *old(cursor), 1int,
{
    let function_name: String = advance_cursor(cursor, tokens, &TokenType::Identifier)?.value;
    advance_cursor(cursor, tokens, &TokenType::Delimiter(Delimiter::OpenParen))?;
    let mut expressions: Vec<Expression> = Vec::new();
    assert(expression_views(expressions@) =~= Seq::empty());
    loop
        invariant
            *old(cursor) + 2 <= *cursor,
            expect(tokens@, *old(cursor) as int, TokenType::Identifier) is Ok,
            expect(tokens@, *old(cursor) + 1, delimiter(Delimiter::OpenParen)) is Ok,
            call_arguments_at(tokens@, *cursor as int, expression_views(expressions@))
                == call_arguments_at(tokens@, *old(cursor) + 2, Seq::empty()),
        ensures
            *old(cursor) + 2 <= *cursor < tokens.len(),
            call_arguments_at(tokens@, *old(cursor) + 2, Seq::empty()) == Ok::<
                (Seq<ExpressionView>, int),
                CompilerError,
            >((expression_views(expressions@), *cursor as int)),
            tokens[*cursor as int].typ.is_delimiter(Delimiter::CloseParen),
        decreases tokens.len() - *cursor,
    {
        if *cursor >= tokens.len() {
            return Err(CompilerError::ParserError(ParserError::UnexpectedEof));
        }
        if tokens[*cursor].typ.delimiter(Delimiter::CloseParen) {
            break;
        }
        let ghost before = expression_views(expressions@);
        let argument = parse_combined_expression(tokens, cursor)?;
        expressions.push(argument);
        assert(expression_views(expressions@) =~= before.push(argument@));
        if *cursor >= tokens.len() {
            return Err(CompilerError::ParserError(ParserError::UnexpectedEof));
        }
        if tokens[*cursor].typ.delimiter(Delimiter::Comma) {
            *cursor += 1;
        } else if !tokens[*cursor].typ.delimiter(Delimiter::CloseParen) {
            return Err(CompilerError::SyntaxError(tokens[*cursor].clone()));
        } else {
            break;
        }
    }
    advance_cursor(cursor, tokens, &TokenType::Delimiter(Delimiter::CloseParen))?;
    let expression = Expression {
        typ: ExpressionType::FunctionCall,
        value: Some(function_name),
        expressions,
    };
    proof {
        lemma_expression_view(expression);
    }
    Ok(expression)
}

/// Parses an expression in parentheses.
pub fn enclosure_expression(tokens: &Vec<Token>, cursor: &mut usize) -> (outcome: Result<
    Expression,
    CompilerError,
>)
    ensures
        agrees(outcome, *final(cursor), enclosure_at(tokens@, *old(cursor) as int)),
        outcome is Ok ==> *old(cursor) < *final(cursor) <= tokens.len(),
        *old(cursor) <= *final(cursor),
    decreases tokens.len() - *old(cursor), 1int,
{
    advance_cursor(cursor, tokens, &TokenType::Delimiter(Delimiter::OpenParen))?;
    let inner = parse_combined_expression(tokens, cursor)?;
    advance_cursor(cursor, tokens, &TokenType::Delimiter(Delimiter::CloseParen))?;
    let mut expressions: Vec<Expression> = Vec::new();
    expressions.push(inner);
    let expression = Expression { typ: ExpressionType::Enclosure, value: None, expressions };
    proof {
        lemma_expression_view(expression);
        assert(expression@.expressions =~= seq![inner@]);
    }
    Ok(expression)
}

/// Parses a literal or a name, an operator and the expression on its right.
pub fn binary_expression(tokens: &Vec<Token>, cursor: &mut usize) -> (outcome: Result<
    Expression,
    CompilerError,
>)
    ensures
        agrees(outcome, *final(cursor), binary_at(tokens@, *old(cursor) as int)),
        outcome is Ok ==> *old(cursor) < *final(cursor) <= tokens.len(),
        *old(cursor) <= *final(cursor),
{
    let first = literal_expression(tokens, cursor)?;
    if *cursor >= tokens.len() {
        return Err(CompilerError::ParserError(ParserError::UnexpectedEof));
    }
    match &tokens[*cursor].typ {
        TokenType::BinaryOperator(operator) => {
            *cursor += 1;
            let second = parse_combined_expression(tokens, cursor)?;
            Ok(pair_expression(ExpressionType::Binary(*operator), first, second))
        },
        _ => Err(CompilerError::SyntaxError(tokens[*cursor].clone())),
    }
}

/// Parses the empty statement: a semicolon.
pub fn no_operation_statement(tokens: &Vec<Token>, cursor: &mut usize) -> (outcome: Result<
    Statement,
    CompilerError,
>)
    ensures
        agrees(outcome, *final(cursor), no_operation_at(tokens@, *old(cursor) as int)),
        outcome is Ok ==> *old(cursor) < *final(cursor) <= tokens.len(),
        *old(cursor) <= *final(cursor),
{
    advance_cursor(cursor, tokens, &TokenType::Delimiter(Delimiter::SemiColon))?;
    let statement = Statement {
        typ: StatementType::NoOperation,
        value: None,
        expression: None,
        statements: None,
    };
    proof {
        lemma_statement_view(statement);
    }
    Ok(statement)
}

/// Parses an expression and the semicolon behind it into a statement of the kind `typ`.
fn closed_expression(tokens: &Vec<Token>, cursor: &mut usize, typ: StatementType) -> (outcome:
    Result<Statement, CompilerError>)
    ensures
        agrees(outcome, *final(cursor), closed_expression_at(tokens@, *old(cursor) as int, typ)),
        outcome is Ok ==> *old(cursor) < *final(cursor) <= tokens.len(),
        *old(cursor) <= *final(cursor),
{
    let expression = parse_combined_expression(tokens, cursor)?;
    advance_cursor(cursor, tokens, &TokenType::Delimiter(Delimiter::SemiColon))?;
    let statement = Statement { typ, value: None, expression: Some(expression), statements: None };
    proof {
        lemma_statement_view(statement);
    }
    Ok(statement)
}

/// Parses an expression and the semicolon behind it.
pub fn expression_statement(tokens: &Vec<Token>, cursor: &mut usize) -> (outcome: Result<
    Statement,
    CompilerError,
>)
    ensures
        agrees(outcome, *final(cursor), expression_statement_at(tokens@, *old(cursor) as int)),
        outcome is Ok ==> *old(cursor) < *final(cursor) <= tokens.len(),
        *old(cursor) <= *final(cursor),
{
    closed_expression(tokens, cursor, StatementType::Expression)
}

/// Parses a return statement: the keyword, an expression and a semicolon.
pub fn return_statement(tokens: &Vec<Token>, cursor: &mut usize) -> (outcome: Result<
    Statement,
    CompilerError,
>)
    ensures
        agrees(outcome, *final(cursor), return_at(tokens@, *old(cursor) as int)),
        outcome is Ok ==> *old(cursor) < *final(cursor) <= tokens.len(),
        *old(cursor) <= *final(cursor),
{
    advance_cursor(cursor, tokens, &TokenType::Keyword(Keyword::Return))?;
    closed_expression(tokens, cursor, StatementType::Return)
}

/// Parses an assignment: `let`, a name, a colon, the name of a type, the
/// assignment operator, an expression and a semicolon.
pub fn assignment_statement(tokens: &Vec<Token>, cursor: &mut usize) -> (outcome: Result<
    Statement,
    CompilerError,
>)
    ensures
        agrees(outcome, *final(cursor), assignment_at(tokens@, *old(cursor) as int)),
        outcome is Ok ==> *old(cursor) < *final(cursor) <= tokens.len(),
        *old(cursor) <= *final(cursor),
{
    advance_cursor(cursor, tokens, &TokenType::Keyword(Keyword::Let))?;
    let variable_name: String = advance_cursor(cursor, tokens, &TokenType::Identifier)?.value;
    advance_cursor(cursor, tokens, &TokenType::Delimiter(Delimiter::Colon))?;
    let type_text: String = advance_cursor(cursor, tokens, &TokenType::Identifier)?.value;
    let data_type = DataType::from_name(&type_text);
    advance_cursor(cursor, tokens, &TokenType::BinaryOperator(BinaryOperator::Assignment))?;
    let expression = parse_combined_expression(tokens, cursor)?;
    advance_cursor(cursor, tokens, &TokenType::Delimiter(Delimiter::SemiColon))?;
    let statement = Statement {
        typ: StatementType::Assignment(data_type),
        value: Some(variable_name),
        expression: Some(expression),
        statements: None,
    };
    proof {
        lemma_statement_view(statement);
    }
    Ok(statement)
}

/// The kind of block that a keyword text opens, if it opens one.
pub fn find_block_type(block_type_str: &str) -> (typ: Option<StatementType>)
    ensures
        typ == block_type(block_type_str@),
{
    if str_eq(block_type_str, "if") {
        Some(StatementType::Conditional(Conditional::If))
    } else if str_eq(block_type_str, "elif") {
        Some(StatementType::Conditional(Conditional::Elif))
    } else if str_eq(block_type_str, "else") {
        Some(StatementType::Conditional(Conditional::Else))
    } else if str_eq(block_type_str, "while") {
        Some(StatementType::Loop)
    } else {
        None
    }
}

/// The kind of block that a keyword text opens.
pub fn block_statement_type_from_str(block_type_str: &str) -> (typ: StatementType)
    requires
        block_type(block_type_str@) is Some,
    ensures
        Some(typ) == block_type(block_type_str@),
{
    match find_block_type(block_type_str) {
        Some(typ) => typ,
        None => StatementType::Loop,
    }
}

/// Parses the statement at the cursor, which its first token chooses.
pub fn parse_statement(tokens: &Vec<Token>, cursor: &mut usize) -> (outcome: Result<
    Statement,
    CompilerError,
>)
    ensures
        agrees(outcome, *final(cursor), statement_at(tokens@, *old(cursor) as int)),
        outcome is Ok ==> *old(cursor) < *final(cursor) <= tokens.len(),
        *old(cursor) <= *final(cursor),
    decreases tokens.len() - *old(cursor), 2int,
{
    if *cursor >= tokens.len() {
        return Err(CompilerError::ParserError(ParserError::UnexpectedEof));
    }
    match &tokens[*cursor].typ {
        TokenType::Delimiter(Delimiter::SemiColon) => no_operation_statement(tokens, cursor),
        TokenType::Delimiter(Delimiter::OpenCurly) => compound_statement(tokens, cursor),
        TokenType::Keyword(Keyword::Return) => return_statement(tokens, cursor),
        TokenType::Keyword(Keyword::Let) => assignment_statement(tokens, cursor),
        TokenType::Keyword(Keyword::If) => block_statement(tokens, cursor),
        TokenType::Keyword(Keyword::Elif) => block_statement(tokens, cursor),
        TokenType::Keyword(Keyword::Else) => block_statement(tokens, cursor),
        TokenType::Keyword(Keyword::While) => block_statement(tokens, cursor),
        _ => expression_statement(tokens, cursor),
    }
}

/// Parses statements in braces.
pub fn compound_statement(tokens: &Vec<Token>, cursor: &mut usize) -> (outcome: Result<
    Statement,
    CompilerError,
>)
    ensures
        agrees(outcome, *final(cursor), compound_at(tokens@, *old(cursor) as int)),
        outcome is Ok ==> *old(cursor) < *final(cursor) <= tokens.len(),
        *old(cursor) <= *final(cursor),
    decreases tokens.len() - *old(cursor), 1int,
{
    advance_cursor(cursor, tokens, &TokenType::Delimiter(Delimiter::OpenCurly))?;
    let mut statements: Vec<Statement> = Vec::new();
    assert(statement_views(statements@) =~= Seq::empty());
    loop
        invariant
            *old(cursor) + 1 <= *cursor,
            expect(tokens@, *old(cursor) as int, delimiter(Delimiter::OpenCurly)) is Ok,
            statements_at(tokens@, *cursor as int, statement_views(statements@)) == statements_at(
                tokens@,
                *old(cursor) + 1,
                Seq::empty(),
            ),
        ensures
            *old(cursor) + 1 <= *cursor < tokens.len(),
            statements_at(tokens@, *old(cursor) + 1, Seq::empty()) == Ok::<
                (Seq<StatementView>, int),
                CompilerError,
            >((statement_views(statements@), *cursor as int)),
            tokens[*cursor as int].typ.is_delimiter(Delimiter::CloseCurly),
        decreases tokens.len() - *cursor,
    {
        if *cursor >= tokens.len() {
            return Err(CompilerError::ParserError(ParserError::UnexpectedEof));
        }
        if tokens[*cursor].typ.delimiter(Delimiter::CloseCurly) {
            break;
        }
        let ghost before = statement_views(statements@);
        let statement = parse_statement(tokens, cursor)?;
        statements.push(statement);
        assert(statement_views(statements@) =~= before.push(statement@));
    }
    advance_cursor(cursor, tokens, &TokenType::Delimiter(Delimiter::CloseCurly))?;
    let statement = Statement {
        typ: StatementType::Compound,
        value: None,
        expression: None,
        statements: Some(statements),
    };
    proof {
        lemma_statement_view(statement);
    }
    Ok(statement)
}

/// Parses a block: its keyword, its condition in parentheses unless the
/// keyword is `else`, and its statements in braces.
pub fn block_statement(tokens: &Vec<Token>, cursor: &mut usize) -> (outcome: Result<
    Statement,
    CompilerError,
>)
    ensures
        agrees(outcome, *final(cursor), block_at(tokens@, *old(cursor) as int)),
        outcome is Ok ==> *old(cursor) < *final(cursor) <= tokens.len(),
        *old(cursor) <= *final(cursor),
    decreases tokens.len() - *old(cursor), 1int,
{
    if *cursor >= tokens.len() {
        return Err(CompilerError::ParserError(ParserError::UnexpectedEof));
    }
    let opened: usize = *cursor;
    let typ: StatementType = match find_block_type(tokens[opened].value.as_str()) {
        Some(typ) => typ,
        None => {
            return Err(CompilerError::SyntaxError(tokens[opened].clone()));
        },
    };
    let mut expression: Option<Expression> = None;
    *cursor += 1;
    if !tokens[opened].typ.keyword(Keyword::Else) {
        expression = Some(enclosure_expression(tokens, cursor)?);
    }
    let body = compound_statement(tokens, cursor)?;
    let mut statements: Vec<Statement> = Vec::new();
    statements.push(body);
    let statement = Statement { typ, value: None, expression, statements: Some(statements) };
    proof {
        lemma_statement_view(statement);
        assert(statement_views(statements@) =~= seq![body@]);
    }
    Ok(statement)
}

/// Parses a parameter: a name, a colon and the name of a type.
pub fn parse_next_parameter(tokens: &Vec<Token>, cursor: &mut usize) -> (outcome: Result<
    Parameter,
    CompilerError,
>)
    ensures
        match parameter_at(tokens@, *old(cursor) as int) {
            Ok(parameter) => outcome == Ok::<Parameter, CompilerError>(parameter) && *final(cursor)
                == *old(cursor) + 3 && *final(cursor) <= tokens.len(),
            Err(error) => outcome == Err::<Parameter, CompilerError>(error),
        },
        *old(cursor) <= *final(cursor),
{
    let name: String = advance_cursor(cursor, tokens, &TokenType::Identifier)?.value;
    advance_cursor(cursor, tokens, &TokenType::Delimiter(Delimiter::Colon))?;
    let datatype_str: String = advance_cursor(cursor, tokens, &TokenType::Identifier)?.value;
    let typ: DataType = DataType::from_name(&datatype_str);
    Ok(Parameter::new(name, typ))
}

/// Parses the parameters of a function up to the closing parenthesis or
/// to what else stands behind the last parameter: a comma stands between
/// two parameters, and one may follow the last.
pub fn parse_function_parameters(tokens: &Vec<Token>, cursor: &mut usize) -> (outcome: Result<
    Vec<Parameter>,
    CompilerError,
>)
    ensures
        agrees(outcome, *final(cursor), parameters_at(tokens@, *old(cursor) as int, Seq::empty())),
        outcome is Ok ==> *old(cursor) <= *final(cursor) <= tokens.len(),
        *old(cursor) <= *final(cursor),
{
    let mut parameters: Vec<Parameter> = Vec::new();
    loop
        invariant_except_break
            parameters_at(tokens@, *cursor as int, parameters@) == parameters_at(
                tokens@,
                *old(cursor) as int,
                Seq::empty(),
            ),
        invariant
            *old(cursor) <= *cursor,
        ensures
            *old(cursor) <= *cursor <= tokens.len(),
            parameters_at(tokens@, *old(cursor) as int, Seq::empty()) == Ok::<
                (Seq<Parameter>, int),
                CompilerError,
            >((parameters@, *cursor as int)),
        decreases tokens.len() - *cursor,
    {
        if check_cursor(*cursor, tokens, &TokenType::Delimiter(Delimiter::CloseParen)).is_ok() {
            break;
        }
        let parameter = parse_next_parameter(tokens, cursor)?;
        parameters.push(parameter);
        if check_cursor(*cursor, tokens, &TokenType::Delimiter(Delimiter::Comma)).is_err() {
            break;
        }
        *cursor += 1;
    }
    Ok(parameters)
}

/// Parses the return type of a function: none where the body starts, else
/// an arrow and the name of a type.
pub fn parse_return_type(tokens: &Vec<Token>, cursor: &mut usize) -> (outcome: Result<
    Option<DataType>,
    CompilerError,
>)
    ensures
        match return_type_at(tokens@, *old(cursor) as int) {
            Ok((return_type, next)) => outcome == Ok::<Option<DataType>, CompilerError>(return_type)
                && *final(cursor) == next,
            Err(error) => outcome == Err::<Option<DataType>, CompilerError>(error),
        },
        outcome is Ok ==> *old(cursor) <= *final(cursor) <= tokens.len(),
        *old(cursor) <= *final(cursor),
{
    if check_cursor(*cursor, tokens, &TokenType::Delimiter(Delimiter::OpenCurly)).is_ok() {
        return Ok(None);
    }
    advance_cursor(cursor, tokens, &TokenType::Delimiter(Delimiter::Arrow))?;
    let type_text: String = advance_cursor(cursor, tokens, &TokenType::Identifier)?.value;
    Ok(Some(DataType::from_name(&type_text)))
}

/// Parses a signature: the parameters in parentheses and the return type.
pub fn parse_signature(tokens: &Vec<Token>, cursor: &mut usize) -> (outcome: Result<
    Signature,
    CompilerError,
>)
    ensures
        agrees(outcome, *final(cursor), signature_at(tokens@, *old(cursor) as int)),
        outcome is Ok ==> *old(cursor) < *final(cursor) <= tokens.len(),
        *old(cursor) <= *final(cursor),
{
    advance_cursor(cursor, tokens, &TokenType::Delimiter(Delimiter::OpenParen))?;
    let parameters: Vec<Parameter> = parse_function_parameters(tokens, cursor)?;
    advance_cursor(cursor, tokens, &TokenType::Delimiter(Delimiter::CloseParen))?;
    let return_type = parse_return_type(tokens, cursor)?;
    Ok(Signature { parameters, return_type })
}

/// fun name(param1: int, param2: str) -> bool { }
pub fn parse_function(tokens: &Vec<Token>, cursor: &mut usize) -> (outcome: Result<
    FunctionDefinition,
    CompilerError,
>)
    ensures
        agrees(outcome, *final(cursor), function_at(tokens@, *old(cursor) as int)),
        outcome is Ok ==> *old(cursor) < *final(cursor) <= tokens.len(),
        *old(cursor) <= *final(cursor),
{
    advance_cursor(cursor, tokens, &TokenType::Keyword(Keyword::Fun))?;
    let name: String = advance_cursor(cursor, tokens, &TokenType::Identifier)?.value;
    let signature: Signature = parse_signature(tokens, cursor)?;
    let statement = compound_statement(tokens, cursor)?;
    Ok(FunctionDefinition { name, signature, statement })
}

/// Parses the functions of a token stream into a program.
pub fn generate_ast(tokens: &Vec<Token>) -> (outcome: Result<Program, CompilerError>)
    ensures
        match functions_at(tokens@, 0, Seq::empty()) {
            Ok(functions) => outcome matches Ok(program) && program@ == functions,
            Err(error) => outcome == Err::<Program, CompilerError>(error),
        },
{
    let mut functions: Vec<FunctionDefinition> = Vec::new();
    let mut cursor: usize = 0;
    assert(definition_views(functions@) =~= Seq::empty());
    while cursor < tokens.len()
        invariant
            functions_at(tokens@, cursor as int, definition_views(functions@)) == functions_at(
                tokens@,
                0,
                Seq::empty(),
            ),
        decreases tokens.len() - cursor,
    {
        let ghost before = definition_views(functions@);
        let function = parse_function(tokens, &mut cursor)?;
        functions.push(function);
        assert(definition_views(functions@) =~= before.push(function@));
    }
    Ok(Program { functions })
}

} // verus!
