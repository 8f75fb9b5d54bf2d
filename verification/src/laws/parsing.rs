//! That the parsers of statements and expressions move on: what they read
//! takes at least one token.

use vstd::prelude::*;
use crate::ast::{
    block_at, call_arguments_at, call_at, combined_expression_at, compound_at, enclosure_at,
    expect, expression_at, function_at, parameters_at, peek, signature_at, statement_at,
    statements_at,
};
use crate::class::expression::ExpressionView;
use crate::ast::parameter_at;
use crate::class::signature::Parameter;
use crate::compiler::CompilerError;
use crate::class::statement::StatementView;
use crate::class::token::{Delimiter, Keyword, Token, TokenType};

verus! {

/// Whether `next` lies behind `cursor`, among the tokens or at their end.
pub open spec fn moves_on(tokens: Seq<Token>, cursor: int, next: int) -> bool {
    cursor < next <= tokens.len()
}

/// The expression with its operator takes at least one token.
pub proof fn lemma_combined_expression_moves_on(tokens: Seq<Token>, cursor: int)
    ensures
        combined_expression_at(tokens, cursor) matches Ok(found) ==> moves_on(
            tokens,
            cursor,
            found.1,
        ),
    decreases tokens.len() - cursor, 3int,
{
    lemma_expression_moves_on(tokens, cursor);
    match expression_at(tokens, cursor) {
        Ok((first, next)) => {
            if peek(tokens, next) is Ok && next >= cursor {
                lemma_combined_expression_moves_on(tokens, next + 1);
            }
        },
        Err(_) => {},
    }
}

/// An operand takes at least one token.
pub proof fn lemma_expression_moves_on(tokens: Seq<Token>, cursor: int)
    ensures
        expression_at(tokens, cursor) matches Ok(found) ==> moves_on(tokens, cursor, found.1),
    decreases tokens.len() - cursor, 2int,
{
    if peek(tokens, cursor) is Ok {
        lemma_enclosure_moves_on(tokens, cursor);
        lemma_call_moves_on(tokens, cursor);
    }
}

/// An expression in parentheses takes at least one token.
pub proof fn lemma_enclosure_moves_on(tokens: Seq<Token>, cursor: int)
    ensures
        enclosure_at(tokens, cursor) matches Ok(found) ==> moves_on(tokens, cursor, found.1),
    decreases tokens.len() - cursor, 1int,
{
    if expect(tokens, cursor, TokenType::Delimiter(Delimiter::OpenParen)) is Ok {
        lemma_combined_expression_moves_on(tokens, cursor + 1);
    }
}

/// A call takes at least one token.
pub proof fn lemma_call_moves_on(tokens: Seq<Token>, cursor: int)
    ensures
        call_at(tokens, cursor) matches Ok(found) ==> moves_on(tokens, cursor, found.1),
    decreases tokens.len() - cursor, 1int,
{
    if expect(tokens, cursor, TokenType::Identifier) is Ok && expect(
        tokens,
        cursor + 1,
        TokenType::Delimiter(Delimiter::OpenParen),
    ) is Ok {
        lemma_call_arguments_stay(tokens, cursor + 2, Seq::empty());
    }
}

/// The arguments of a call end at a token at or behind their start.
pub proof fn lemma_call_arguments_stay(
    tokens: Seq<Token>,
    cursor: int,
    found: Seq<ExpressionView>,
)
    ensures
        call_arguments_at(tokens, cursor, found) matches Ok(end) ==> cursor <= end.1 < tokens.len(),
    decreases tokens.len() - cursor, 4int,
{
    if peek(tokens, cursor) is Ok {
        lemma_combined_expression_moves_on(tokens, cursor);
        match combined_expression_at(tokens, cursor) {
            Ok((argument, next)) => {
                if peek(tokens, next) is Ok && next > cursor {
                    lemma_call_arguments_stay(tokens, next + 1, found.push(argument));
                }
            },
            Err(_) => {},
        }
    }
}

/// A statement takes at least one token.
pub proof fn lemma_statement_moves_on(tokens: Seq<Token>, cursor: int)
    ensures
        statement_at(tokens, cursor) matches Ok(found) ==> moves_on(tokens, cursor, found.1),
    decreases tokens.len() - cursor, 2int,
{
    if peek(tokens, cursor) is Ok {
        lemma_compound_moves_on(tokens, cursor);
        lemma_block_moves_on(tokens, cursor);
        lemma_combined_expression_moves_on(tokens, cursor);
        lemma_combined_expression_moves_on(tokens, cursor + 1);
        lemma_combined_expression_moves_on(tokens, cursor + 5);
    }
}

/// The statements of a block end at a token at or behind their start.
pub proof fn lemma_statements_stay(tokens: Seq<Token>, cursor: int, found: Seq<StatementView>)
    ensures
        statements_at(tokens, cursor, found) matches Ok(end) ==> cursor <= end.1 < tokens.len(),
    decreases tokens.len() - cursor, 3int,
{
    if peek(tokens, cursor) is Ok {
        lemma_statement_moves_on(tokens, cursor);
        match statement_at(tokens, cursor) {
            Ok((statement, next)) => {
                if cursor < next <= tokens.len() {
                    lemma_statements_stay(tokens, next, found.push(statement));
                }
            },
            Err(_) => {},
        }
    }
}

/// Statements in braces take at least one token.
pub proof fn lemma_compound_moves_on(tokens: Seq<Token>, cursor: int)
    ensures
        compound_at(tokens, cursor) matches Ok(found) ==> moves_on(tokens, cursor, found.1),
    decreases tokens.len() - cursor, 1int,
{
    if expect(tokens, cursor, TokenType::Delimiter(Delimiter::OpenCurly)) is Ok {
        lemma_statements_stay(tokens, cursor + 1, Seq::empty());
    }
}

/// A block takes at least one token.
pub proof fn lemma_block_moves_on(tokens: Seq<Token>, cursor: int)
    ensures
        block_at(tokens, cursor) matches Ok(found) ==> moves_on(tokens, cursor, found.1),
    decreases tokens.len() - cursor, 1int,
{
    if peek(tokens, cursor) is Ok {
        lemma_enclosure_moves_on(tokens, cursor + 1);
        if tokens[cursor].typ.is_keyword(Keyword::Else) {
            lemma_compound_moves_on(tokens, cursor + 1);
        } else {
            match enclosure_at(tokens, cursor + 1) {
                Ok((expression, next)) => {
                    if cursor < next <= tokens.len() {
                        lemma_compound_moves_on(tokens, next);
                    }
                },
                Err(_) => {},
            }
        }
    }
}

/// The parameters of a function end at or behind their start, among the
/// tokens or at their end.
pub proof fn lemma_parameters_stay(tokens: Seq<Token>, cursor: int, found: Seq<Parameter>)
    ensures
        parameters_at(tokens, cursor, found) matches Ok(end) ==> cursor <= end.1 <= tokens.len(),
    decreases tokens.len() - cursor,
{
    if !(expect(tokens, cursor, TokenType::Delimiter(Delimiter::CloseParen)) is Ok) {
        match parameter_at(tokens, cursor) {
            Ok(parameter) => {
                if expect(tokens, cursor + 3, TokenType::Delimiter(Delimiter::Comma)) is Ok {
                    lemma_parameters_stay(tokens, cursor + 4, found.push(parameter));
                }
            },
            Err(_) => {},
        }
    }
}

/// A comma behind the last parameter adds nothing to the parameters: with
/// it and without it, the list ends with that parameter at the closing
/// parenthesis.
pub proof fn lemma_trailing_comma_is_inert(tokens: Seq<Token>, cursor: int, found: Seq<Parameter>)
    requires
        parameter_at(tokens, cursor) is Ok,
    ensures
        expect(tokens, cursor + 3, TokenType::Delimiter(Delimiter::CloseParen)) is Ok
            ==> parameters_at(tokens, cursor, found) == Ok::<(Seq<Parameter>, int), CompilerError>(
            (found.push(parameter_at(tokens, cursor)->Ok_0), cursor + 3),
        ),
        expect(tokens, cursor + 3, TokenType::Delimiter(Delimiter::Comma)) is Ok && expect(
            tokens,
            cursor + 4,
            TokenType::Delimiter(Delimiter::CloseParen),
        ) is Ok ==> parameters_at(tokens, cursor, found) == Ok::<
            (Seq<Parameter>, int),
            CompilerError,
        >((found.push(parameter_at(tokens, cursor)->Ok_0), cursor + 4)),
{
    let more = found.push(parameter_at(tokens, cursor)->Ok_0);
    if expect(tokens, cursor + 4, TokenType::Delimiter(Delimiter::CloseParen)) is Ok {
        assert(parameters_at(tokens, cursor + 4, more) == Ok::<
            (Seq<Parameter>, int),
            CompilerError,
        >((more, cursor + 4)));
    }
}

/// Two parameters without a comma between them are no list of parameters:
/// the list ends behind the first, where no closing parenthesis stands.
pub proof fn lemma_comma_is_needed(tokens: Seq<Token>, cursor: int, found: Seq<Parameter>)
    requires
        parameter_at(tokens, cursor) is Ok,
        !(expect(tokens, cursor + 3, TokenType::Delimiter(Delimiter::Comma)) is Ok),
    ensures
        parameters_at(tokens, cursor, found) == Ok::<(Seq<Parameter>, int), CompilerError>(
            (found.push(parameter_at(tokens, cursor)->Ok_0), cursor + 3),
        ),
{
}

/// A signature takes at least one token.
pub proof fn lemma_signature_moves_on(tokens: Seq<Token>, cursor: int)
    ensures
        signature_at(tokens, cursor) matches Ok(found) ==> moves_on(tokens, cursor, found.1),
{
    lemma_parameters_stay(tokens, cursor + 1, Seq::empty());
}

/// A function takes at least one token.
pub proof fn lemma_function_moves_on(tokens: Seq<Token>, cursor: int)
    ensures
        function_at(tokens, cursor) matches Ok(found) ==> moves_on(tokens, cursor, found.1),
{
    lemma_signature_moves_on(tokens, cursor + 2);
    match signature_at(tokens, cursor + 2) {
        Ok((signature, next)) => {
            lemma_compound_moves_on(tokens, next);
        },
        Err(_) => {},
    }
}

} // verus!
