use vstd::prelude::*;
use crate::assembly::{
    generate_assembly, generate_program_start_assembly, program_assembly, program_start_code,
};
use crate::class::instruction::rendered;
use crate::ast::{advance_cursor, expect, parameters_at, parse_return_type, signature_at};
use crate::class::signature::Parameter;
use crate::class::function::{
    Function, function_views, FunctionSource, FunctionSourceView, FunctionView,
};
use crate::class::op::markers_of;
use crate::control_flow::{resolution, resolve_control_flow, with_jumps};
use crate::ir::{lowered, parse_ops};
use crate::type_check::{check_function, checked, place_of};
use crate::class::location::Location;
use crate::class::signature::Signature;
use crate::class::token::{Delimiter, Keyword, Token, TokenType};
use crate::text::str_eq;

verus! {

/// Why a token stream could not be read as statements and expressions.
#[derive(Debug, PartialEq)]
pub enum ParserError {
    /// The tokens ended where another one was needed.
    UnexpectedEof,
    /// A token of another kind than the expected one was found.
    UnexpectedToken { expected: TokenType, found: Token },
    /// A value was needed, and the token is neither a literal nor a name.
    UnknownLiteral { found: Token },
}

/// Why a token stream could not be split into functions.
#[derive(Debug, Clone, Copy, PartialEq, Eq, Structural)]
pub enum SegmentationError {
    UnterminatedFunction,
    MissingEntryPoint,
    MalformedSignature,
}

/// Why a function body could not be lowered to operations.
#[derive(Debug, Clone, Copy, PartialEq, Eq, Structural)]
pub enum LoweringError {
    UnknownToken,
    UnbalancedCall,
}

/// Why the block keywords of a function could not be resolved.
#[derive(Debug, Clone, Copy, PartialEq, Eq, Structural)]
pub enum ControlFlowError {
    UnmatchedElif,
    UnmatchedElse,
    UnmatchedEndif,
    UnexpectedDo,
    UnmatchedDone,
    DanglingBlock,
}

/// Why the stack effect of a function is wrong.
#[derive(Debug, Clone, Copy, PartialEq, Eq, Structural)]
pub enum TypeError {
    StackUnderflow,
    TypeMismatch,
    StackImbalance,
}

/// Why no assembly could be written for an operation.
#[derive(Debug, Clone, Copy, PartialEq, Eq, Structural)]
pub enum CodeGenError {
    UnsupportedOp,
}

/// Failure of a compilation, with the place in the source that it is about.
#[derive(Debug, PartialEq)]
pub enum CompilerError {
    /// Text that is no token.
    LexerError(Location),
    ParserError(ParserError),
    /// A token that cannot stand where it was found.
    SyntaxError(Token),
    SegmentationError(SegmentationError, Location),
    LoweringError(LoweringError, Location),
    ControlFlowError(ControlFlowError, Location),
    TypeError(TypeError, Location),
    CodeGenError(CodeGenError, Location),
}

/// Name of the function at which a program starts.
pub const MAIN_FUNCTION_NAME: &'static str = "main";

/// The sources as values of their model, in order.
pub open spec fn source_views(sources: Seq<FunctionSource>) -> Seq<FunctionSourceView> {
    Seq::new(sources.len(), |i: int| sources[i]@)
}

/// The place behind the last token, or the start of the text if there is no token.
pub open spec fn end_location(tokens: Seq<Token>) -> Location {
    if tokens.len() > 0 {
        tokens.last().end_loc
    } else {
        Location { row: 1, column: 1, file: None }
    }
}

/// The place that an error of the parser is about: the start of the token
/// it names, or the end of the tokens.
pub open spec fn fault_location(tokens: Seq<Token>, error: CompilerError) -> Location {
    match error {
        CompilerError::ParserError(ParserError::UnexpectedToken { expected, found }) => found.start_loc,
        CompilerError::ParserError(ParserError::UnknownLiteral { found }) => found.start_loc,
        CompilerError::SyntaxError(found) => found.start_loc,
        _ => end_location(tokens),
    }
}

/// The error for a function whose name or signature cannot be read.
pub open spec fn malformed(tokens: Seq<Token>, error: CompilerError) -> CompilerError {
    CompilerError::SegmentationError(
        SegmentationError::MalformedSignature,
        fault_location(tokens, error),
    )
}

/// The index of the brace that closes a body, for a scan that stands at
/// `cursor` with `depth` braces open; none if the tokens end before.
pub open spec fn body_end(tokens: Seq<Token>, cursor: int, depth: int) -> Option<int>
    decreases tokens.len() - cursor,
{
    if cursor < 0 || cursor >= tokens.len() {
        None
    } else if tokens[cursor].typ.is_delimiter(Delimiter::OpenCurly) {
        body_end(tokens, cursor + 1, depth + 1)
    } else if tokens[cursor].typ.is_delimiter(Delimiter::CloseCurly) {
        if depth <= 1 {
            Some(cursor)
        } else {
            body_end(tokens, cursor + 1, depth - 1)
        }
    } else {
        body_end(tokens, cursor + 1, depth)
    }
}

/// The function whose keyword stands at `cursor`, and the index behind its
/// closing brace: a name, a signature, and the tokens between the opening
/// brace and the brace that closes it.
pub open spec fn segment_at(tokens: Seq<Token>, cursor: int) -> Result<
    (FunctionSourceView, int),
    CompilerError,
> {
    match expect(tokens, cursor + 1, TokenType::Identifier) {
        Err(error) => Err(malformed(tokens, error)),
        Ok(name) => match signature_at(tokens, cursor + 2) {
            Err(error) => Err(malformed(tokens, error)),
            Ok((signature, next)) => match expect(
                tokens,
                next,
                TokenType::Delimiter(Delimiter::OpenCurly),
            ) {
                Err(error) => Err(malformed(tokens, error)),
                Ok(_) => match body_end(tokens, next + 1, 1) {
                    None => Err(
                        CompilerError::SegmentationError(
                            SegmentationError::UnterminatedFunction,
                            name.start_loc,
                        ),
                    ),
                    Some(close) => Ok(
                        (
                            FunctionSourceView {
                                name: name.value,
                                signature,
                                tokens: tokens.subrange(next + 1, close),
                                location: name.start_loc,
                            },
                            close + 1,
                        ),
                    ),
                },
            },
        },
    }
}

/// The functions from `cursor` on, behind those in `found`. Tokens between
/// two functions are passed over.
pub open spec fn segments_at(tokens: Seq<Token>, cursor: int, found: Seq<FunctionSourceView>) -> Result<
    Seq<FunctionSourceView>,
    CompilerError,
>
    decreases tokens.len() - cursor,
{
    if cursor < 0 || cursor >= tokens.len() {
        Ok(found)
    } else if tokens[cursor].typ.is_keyword(Keyword::Fun) {
        match segment_at(tokens, cursor) {
            Err(error) => Err(error),
            Ok((function, next)) => if !(cursor < next <= tokens.len()) {
                // Not taken: a function ends behind its keyword.
                Ok(found)
            } else {
                segments_at(tokens, next, found.push(function))
            },
        }
    } else {
        segments_at(tokens, cursor + 1, found)
    }
}

/// Whether one of the functions has the name at which a program starts.
pub open spec fn has_entry(functions: Seq<FunctionSourceView>) -> bool {
    exists|i: int| 0 <= i < functions.len() && (#[trigger] functions[i]).name@ == MAIN_FUNCTION_NAME@
}

/// The functions of a token stream, in the order in which they are
/// declared, or the first error. A stream without a function of the entry
/// name is an error at its end.
pub open spec fn segmented(tokens: Seq<Token>) -> Result<Seq<FunctionSourceView>, CompilerError> {
    match segments_at(tokens, 0, Seq::empty()) {
        Err(error) => Err(error),
        Ok(functions) => if has_entry(functions) {
            Ok(functions)
        } else {
            Err(
                CompilerError::SegmentationError(
                    SegmentationError::MissingEntryPoint,
                    end_location(tokens),
                ),
            )
        },
    }
}

fn end_of(tokens: &Vec<Token>) -> (location: Location)
    ensures
        location == end_location(tokens@),
{
    if tokens.len() > 0 {
        tokens[tokens.len() - 1].end_loc.clone()
    } else {
        Location::new(1, 1, None)
    }
}

fn malformed_signature(tokens: &Vec<Token>, error: CompilerError) -> (mapped: CompilerError)
    ensures
        mapped == malformed(tokens@, error),
{
    let location = match error {
        CompilerError::ParserError(ParserError::UnexpectedToken { expected, found }) => found.start_loc,
        CompilerError::ParserError(ParserError::UnknownLiteral { found }) => found.start_loc,
        CompilerError::SyntaxError(found) => found.start_loc,
        _ => end_of(tokens),
    };
    CompilerError::SegmentationError(SegmentationError::MalformedSignature, location)
}

/// Parses the parameters of a function up to the closing parenthesis or
/// to what else stands behind the last parameter: a comma stands between
/// two parameters, and one may follow the last.
pub fn parse_function_parameters(cursor: &mut usize, tokens: &Vec<Token>) -> (outcome: Result<
    Vec<Parameter>,
    CompilerError,
>)
    ensures
        match parameters_at(tokens@, *old(cursor) as int, Seq::empty()) {
            Ok((parameters, next)) => outcome matches Ok(found) && found@ == parameters
                && *final(cursor) == next,
            Err(error) => outcome == Err::<Vec<Parameter>, CompilerError>(error),
        },
        outcome is Ok ==> *final(cursor) <= tokens.len(),
        *old(cursor) <= *final(cursor),
{
    crate::ast::parse_function_parameters(tokens, cursor)
}

/// Parses the signature of a function, from its opening parenthesis on.
pub fn parse_function_signature(cursor: &mut usize, tokens: &Vec<Token>) -> (outcome: Result<
    Signature,
    CompilerError,
>)
    ensures
        match signature_at(tokens@, *old(cursor) as int) {
            Ok((signature, next)) => outcome matches Ok(found) && found@ == signature
                && *final(cursor) == next,
            Err(error) => outcome == Err::<Signature, CompilerError>(malformed(tokens@, error)),
        },
        outcome is Ok ==> *old(cursor) < *final(cursor) <= tokens.len(),
        *old(cursor) <= *final(cursor),
{
    match advance_cursor(cursor, tokens, &TokenType::Delimiter(Delimiter::OpenParen)) {
        Ok(_) => {},
        Err(error) => {
            return Err(malformed_signature(tokens, error));
        },
    }
    let parameters: Vec<Parameter> = match parse_function_parameters(cursor, tokens) {
        Ok(parameters) => parameters,
        Err(error) => {
            return Err(malformed_signature(tokens, error));
        },
    };
    match advance_cursor(cursor, tokens, &TokenType::Delimiter(Delimiter::CloseParen)) {
        Ok(_) => {},
        Err(error) => {
            return Err(malformed_signature(tokens, error));
        },
    }
    match parse_return_type(tokens, cursor) {
        Ok(return_type) => Ok(Signature { parameters, return_type }),
        Err(error) => Err(malformed_signature(tokens, error)),
    }
}

/// Finds the brace that closes the body whose first token stands at `start`.
fn find_body_end(tokens: &Vec<Token>, start: usize) -> (close: Option<usize>)
    requires
        1 <= start <= tokens.len(),
    ensures
        match body_end(tokens@, start as int, 1) {
            Some(index) => close == Some(index as usize) && start <= index < tokens.len(),
            None => close is None,
        },
{
    let mut cursor: usize = start;
    let mut depth: usize = 1;
    while cursor < tokens.len()
        invariant
            1 <= start <= cursor <= tokens.len(),
            1 <= depth <= cursor - start + 1,
            body_end(tokens@, cursor as int, depth as int) == body_end(tokens@, start as int, 1),
        decreases tokens.len() - cursor,
    {
        if tokens[cursor].typ.delimiter(Delimiter::OpenCurly) {
            depth += 1;
        } else if tokens[cursor].typ.delimiter(Delimiter::CloseCurly) {
            if depth <= 1 {
                return Some(cursor);
            }
            depth -= 1;
        }
        cursor += 1;
    }
    None
}

/// Copies the tokens from `from` up to, not including, `to`.
fn copy_tokens(tokens: &Vec<Token>, from: usize, to: usize) -> (copy: Vec<Token>)
    requires
        from <= to <= tokens.len(),
    ensures
        copy@ == tokens@.subrange(from as int, to as int),
{
    let mut copy: Vec<Token> = Vec::new();
    let mut at: usize = from;
    while at < to
        invariant
            from <= at <= to <= tokens.len(),
            copy@ == tokens@.subrange(from as int, at as int),
        decreases to - at,
    {
        copy.push(tokens[at].clone());
        assert(tokens@.subrange(from as int, at as int).push(tokens@[at as int])
            =~= tokens@.subrange(from as int, at + 1));
        at += 1;
    }
    copy
}

/// Reads the function whose keyword stands at the cursor and moves the
/// cursor behind its closing brace.
///
/// In Rot, a function is defined with the following syntax:
/// fun <name>(param1: int, param2: str) -> bool { <code> }
pub fn parse_function(tokens: &Vec<Token>, cursor: &mut usize) -> (outcome: Result<
    FunctionSource,
    CompilerError,
>)
    ensures
        match segment_at(tokens@, *old(cursor) as int) {
            Ok((function, next)) => outcome matches Ok(found) && found@ == function
                && *final(cursor) == next,
            Err(error) => outcome == Err::<FunctionSource, CompilerError>(error),
        },
        outcome is Ok ==> *old(cursor) < *final(cursor) <= tokens.len(),
        *old(cursor) <= *final(cursor),
{
    if *cursor >= tokens.len() {
        return Err(
            malformed_signature(tokens, CompilerError::ParserError(ParserError::UnexpectedEof)),
        );
    }
    *cursor += 1;
    let name: Token = match advance_cursor(cursor, tokens, &TokenType::Identifier) {
        Ok(token) => token,
        Err(error) => {
            return Err(malformed_signature(tokens, error));
        },
    };
    let signature: Signature = parse_function_signature(cursor, tokens)?;
    match advance_cursor(cursor, tokens, &TokenType::Delimiter(Delimiter::OpenCurly)) {
        Ok(_) => {},
        Err(error) => {
            return Err(malformed_signature(tokens, error));
        },
    }
    let start: usize = *cursor;
    match find_body_end(tokens, start) {
        None => Err(
            CompilerError::SegmentationError(
                SegmentationError::UnterminatedFunction,
                name.start_loc,
            ),
        ),
        Some(close) => {
            let function_tokens: Vec<Token> = copy_tokens(tokens, start, close);
            *cursor = close + 1;
            Ok(
                FunctionSource {
                    name: name.value,
                    signature,
                    tokens: function_tokens,
                    location: name.start_loc,
                },
            )
        },
    }
}

/// Whether one of the functions has the name at which a program starts.
pub fn function_defined(name: &str, functions: &Vec<FunctionSource>) -> (defined: bool)
    ensures
        defined == exists|i: int|
            0 <= i < functions.len() && (#[trigger] functions[i]).name@ == name@,
{
    let mut at: usize = 0;
    while at < functions.len()
        invariant
            at <= functions.len(),
            forall|i: int| 0 <= i < at ==> (#[trigger] functions[i]).name@ != name@,
        decreases functions.len() - at,
    {
        if str_eq(functions[at].name.as_str(), name) {
            return true;
        }
        at += 1;
    }
    false
}

/// Splits a token stream into its functions.
///
/// Every function keyword starts a function; the tokens between two
/// functions are passed over. The result holds the functions in the order
/// in which they are declared, one of them with the entry name.
pub fn parse_functions(tokens: &Vec<Token>) -> (outcome: Result<Vec<FunctionSource>, CompilerError>)
    ensures
        match segmented(tokens@) {
            Ok(functions) => outcome matches Ok(found) && source_views(found@) == functions,
            Err(error) => outcome == Err::<Vec<FunctionSource>, CompilerError>(error),
        },
{
    let mut functions: Vec<FunctionSource> = Vec::new();
    let mut cursor: usize = 0;
    assert(source_views(functions@) =~= Seq::empty());
    while cursor < tokens.len()
        invariant
            segments_at(tokens@, cursor as int, source_views(functions@)) == segments_at(
                tokens@,
                0,
                Seq::empty(),
            ),
        decreases tokens.len() - cursor,
    {
        if tokens[cursor].typ.keyword(Keyword::Fun) {
            let ghost before = source_views(functions@);
            let function = parse_function(tokens, &mut cursor)?;
            functions.push(function);
            assert(source_views(functions@) =~= before.push(function@));
        } else {
            cursor += 1;
        }
    }
    if !function_defined(MAIN_FUNCTION_NAME, &functions) {
        assert(!has_entry(source_views(functions@))) by {
            if has_entry(source_views(functions@)) {
                let i = choose|i: int|
                    0 <= i < functions.len() && (#[trigger] source_views(functions@)[i]).name@
                        == MAIN_FUNCTION_NAME@;
                assert(functions[i].name@ == MAIN_FUNCTION_NAME@);
            }
        }
        return Err(
            CompilerError::SegmentationError(SegmentationError::MissingEntryPoint, end_of(tokens)),
        );
    }
    assert(has_entry(source_views(functions@))) by {
        let i = choose|i: int|
            0 <= i < functions.len() && (#[trigger] functions[i]).name@ == MAIN_FUNCTION_NAME@;
        assert(source_views(functions@)[i].name@ == MAIN_FUNCTION_NAME@);
    }
    Ok(functions)
}

/// The function with its body lowered to operations and its block
/// keywords resolved, or the first error of the two passes.
pub open spec fn lowered_function(source: FunctionSourceView) -> Result<FunctionView, CompilerError> {
    match lowered(source.tokens) {
        Err(error) => Err(error),
        Ok(ops) => match resolution(markers_of(ops)) {
            Err(fault) => Err(
                CompilerError::ControlFlowError(fault.kind, ops[fault.position as int].start_loc),
            ),
            Ok(jumps) => Ok(
                FunctionView {
                    name: source.name,
                    signature: source.signature,
                    ops: with_jumps(ops, jumps),
                    location: source.location,
                },
            ),
        },
    }
}

/// The first `count` functions lowered, in order, or the error of the first
/// that cannot be.
pub open spec fn lowered_functions(sources: Seq<FunctionSourceView>, count: nat) -> Result<
    Seq<FunctionView>,
    CompilerError,
>
    decreases count,
{
    if count == 0 {
        Ok(Seq::empty())
    } else {
        match lowered_functions(sources, (count - 1) as nat) {
            Err(error) => Err(error),
            Ok(functions) => match lowered_function(sources[count - 1]) {
                Err(error) => Err(error),
                Ok(function) => Ok(functions.push(function)),
            },
        }
    }
}

/// The error of each of the first `count` functions whose stack effect is
/// wrong, in the order of the functions.
pub open spec fn type_errors(functions: Seq<FunctionView>, count: nat) -> Seq<CompilerError>
    decreases count,
{
    if count == 0 {
        Seq::empty()
    } else {
        let before = type_errors(functions, (count - 1) as nat);
        let function = functions[count - 1];
        match checked(function.ops, function.signature, functions) {
            Ok(_) => before,
            Err(violation) => before.push(
                CompilerError::TypeError(violation.kind, place_of(function, violation.position)),
            ),
        }
    }
}

/// The assembly of the program that the tokens are: the start of a
/// program, and behind it the routines of the functions in the order of
/// their declaration. Or the first error: of the split into functions; else
/// of the lowering and resolution of the first function that has one; else
/// of the check of the first function that fails it. The writing has no
/// error of its own for functions that have come so far.
pub open spec fn compiled(tokens: Seq<Token>) -> Result<Seq<char>, CompilerError> {
    match segmented(tokens) {
        Err(error) => Err(error),
        Ok(sources) => match lowered_functions(sources, sources.len()) {
            Err(error) => Err(error),
            Ok(functions) => {
                let errors = type_errors(functions, functions.len());
                if errors.len() > 0 {
                    Err(errors[0])
                } else {
                    match program_assembly(functions) {
                        Err(error) => Err(error),
                        Ok(text) => Ok(rendered(program_start_code()) + text),
                    }
                }
            },
        },
    }
}

/// Lowers the body of a function to operations and resolves its block keywords.
pub fn lower_function(source: &FunctionSource) -> (outcome: Result<Function, CompilerError>)
    ensures
        match lowered_function(source@) {
            Ok(function) => outcome matches Ok(found) && found@ == function,
            Err(error) => outcome == Err::<Function, CompilerError>(error),
        },
        outcome matches Ok(found) ==> found@.well_formed(),
{
    let mut ops = parse_ops(&source.tokens)?;
    resolve_control_flow(&mut ops)?;
    Ok(
        Function {
            name: source.name.clone(),
            signature: source.signature.clone(),
            ops,
            location: source.location.clone(),
        },
    )
}

/// Lowers every function, in order, and stops at the first error.
pub fn lower_functions(sources: &Vec<FunctionSource>) -> (outcome: Result<
    Vec<Function>,
    CompilerError,
>)
    ensures
        match lowered_functions(source_views(sources@), sources.len() as nat) {
            Ok(functions) => outcome matches Ok(found) && function_views(found@) == functions,
            Err(error) => outcome == Err::<Vec<Function>, CompilerError>(error),
        },
        outcome matches Ok(found) ==> forall|i: int|
            0 <= i < found.len() ==> (#[trigger] found[i])@.well_formed(),
{
    let mut functions: Vec<Function> = Vec::new();
    let mut at: usize = 0;
    assert(function_views(functions@) =~= Seq::empty());
    while at < sources.len()
        invariant
            at <= sources.len(),
            lowered_functions(source_views(sources@), at as nat) == Ok::<
                Seq<FunctionView>,
                CompilerError,
            >(function_views(functions@)),
            forall|i: int| 0 <= i < functions.len() ==> (#[trigger] functions[i])@.well_formed(),
        decreases sources.len() - at,
    {
        let ghost before = function_views(functions@);
        match lower_function(&sources[at]) {
            Ok(function) => {
                functions.push(function);
                assert(function_views(functions@) =~= before.push(function@));
            },
            Err(error) => {
                proof {
                    lemma_lowering_error_stays(
                        source_views(sources@),
                        (at + 1) as nat,
                        sources.len() as nat,
                    );
                }
                return Err(error);
            },
        }
        at += 1;
    }
    Ok(functions)
}

/// Once a function cannot be lowered, the lowering of more functions gives
/// the same error.
pub proof fn lemma_lowering_error_stays(sources: Seq<FunctionSourceView>, count: nat, more: nat)
    requires
        count <= more,
        lowered_functions(sources, count) is Err,
    ensures
        lowered_functions(sources, more) == lowered_functions(sources, count),
    decreases more,
{
    if count < more {
        lemma_lowering_error_stays(sources, count, (more - 1) as nat);
    }
}

/// Checks the stack effect of every function. A function that fails does
/// not keep the others from being checked: the result holds the error of
/// each function that fails, in the order of the functions.
pub fn check_functions(functions: &Vec<Function>) -> (errors: Vec<CompilerError>)
    ensures
        errors@ == type_errors(function_views(functions@), functions.len() as nat),
{
    let mut errors: Vec<CompilerError> = Vec::new();
    let mut at: usize = 0;
    while at < functions.len()
        invariant
            at <= functions.len(),
            errors@ == type_errors(function_views(functions@), at as nat),
        decreases functions.len() - at,
    {
        match check_function(&functions[at], functions) {
            Ok(_) => {},
            Err(error) => {
                errors.push(error);
            },
        }
        at += 1;
    }
    errors
}

/// Compiles the tokens of a program to assembly: the start of a program,
/// which calls the entry function, and the routines of the functions. No
/// assembly is written unless every function has passed its check.
pub fn compile_tokens(tokens: &Vec<Token>) -> (outcome: Result<String, CompilerError>)
    ensures
        match compiled(tokens@) {
            Ok(text) => outcome matches Ok(assembly) && assembly@ == text,
            Err(error) => outcome == Err::<String, CompilerError>(error),
        },
        outcome matches Err(error) ==> !(error is CodeGenError),
{
    proof {
        assert(tokens@.len() == tokens.len());
        crate::laws::writing::lemma_writing_never_fails(tokens@);
    }
    let sources = parse_functions(tokens)?;
    let functions = lower_functions(&sources)?;
    let mut errors = check_functions(&functions);
    if errors.len() > 0 {
        return Err(errors.remove(0));
    }
    let routines = generate_assembly(&functions)?;
    let mut assembly = generate_program_start_assembly();
    assembly.append(routines.as_str());
    Ok(assembly)
}

/// Equal tokens compile to the same assembly or to the same error.
pub proof fn lemma_compilation_is_determined(first: Seq<Token>, second: Seq<Token>)
    requires
        first == second,
    ensures
        compiled(first) == compiled(second),
{
}

/// The brace that closes a body stands at or behind the start of the scan
/// for it, among the tokens.
pub proof fn lemma_body_end_in_range(tokens: Seq<Token>, cursor: int, depth: int)
    ensures
        body_end(tokens, cursor, depth) matches Some(close) ==> 0 <= cursor <= close < tokens.len(),
    decreases tokens.len() - cursor,
{
    if 0 <= cursor < tokens.len() {
        lemma_body_end_in_range(tokens, cursor + 1, depth + 1);
        lemma_body_end_in_range(tokens, cursor + 1, depth - 1);
        lemma_body_end_in_range(tokens, cursor + 1, depth);
    }
}

/// A function ends behind its keyword, among the tokens or at their end.
pub proof fn lemma_segment_moves_on(tokens: Seq<Token>, cursor: int)
    ensures
        segment_at(tokens, cursor) matches Ok(found) ==> cursor < found.1 <= tokens.len(),
{
    crate::laws::parsing::lemma_signature_moves_on(tokens, cursor + 2);
    match signature_at(tokens, cursor + 2) {
        Ok((signature, next)) => {
            lemma_body_end_in_range(tokens, next + 1, 1);
        },
        Err(_) => {},
    }
}

/// No function has more tokens in its body than there are tokens.
pub proof fn lemma_segments_are_short(
    tokens: Seq<Token>,
    cursor: int,
    found: Seq<FunctionSourceView>,
)
    requires
        forall|j: int| 0 <= j < found.len() ==> (#[trigger] found[j]).tokens.len() <= tokens.len(),
    ensures
        segments_at(tokens, cursor, found) matches Ok(functions) ==> forall|j: int|
            0 <= j < functions.len() ==> (#[trigger] functions[j]).tokens.len() <= tokens.len(),
    decreases tokens.len() - cursor,
{
    if 0 <= cursor < tokens.len() {
        if tokens[cursor].typ.is_keyword(Keyword::Fun) {
            match segment_at(tokens, cursor) {
                Ok((function, next)) => {
                    if cursor < next <= tokens.len() {
                        let signature = signature_at(tokens, cursor + 2)->Ok_0;
                        lemma_body_end_in_range(tokens, signature.1 + 1, 1);
                        let more = found.push(function);
                        assert forall|j: int| 0 <= j < more.len() implies (
                        #[trigger] more[j]).tokens.len() <= tokens.len() by {
                            if j < found.len() {
                                assert(more[j] == found[j]);
                            }
                        }
                        lemma_segments_are_short(tokens, next, more);
                    }
                },
                Err(_) => {},
            }
        } else {
            lemma_segments_are_short(tokens, cursor + 1, found);
        }
    }
}

/// Number of braces that are open before the token at `upto`, for a body
/// whose first token stands at `start`: the brace of the body and one for
/// each opening brace since, less one for each closing brace.
pub open spec fn brace_depth(tokens: Seq<Token>, start: int, upto: int) -> int
    decreases upto - start,
{
    if upto <= start {
        1
    } else {
        brace_depth(tokens, start, upto - 1) + if tokens[upto - 1].typ.is_delimiter(
            Delimiter::OpenCurly,
        ) {
            1int
        } else if tokens[upto - 1].typ.is_delimiter(Delimiter::CloseCurly) {
            -1int
        } else {
            0int
        }
    }
}

/// Whether `close` is the brace that closes the body whose first token
/// stands at `start`: the first place at which no brace is open any more.
pub open spec fn closes_body(tokens: Seq<Token>, start: int, close: int) -> bool {
    &&& start <= close < tokens.len()
    &&& tokens[close].typ.is_delimiter(Delimiter::CloseCurly)
    &&& brace_depth(tokens, start, close + 1) == 0
    &&& forall|upto: int| start <= upto <= close ==> #[trigger] brace_depth(tokens, start, upto) >= 1
}

/// Whether the body whose first token stands at `start` is never closed.
pub open spec fn never_closed(tokens: Seq<Token>, start: int) -> bool {
    forall|upto: int|
        start <= upto <= tokens.len() ==> #[trigger] brace_depth(tokens, start, upto) >= 1
}

/// The scan for the end of a body follows the number of open braces.
pub proof fn lemma_body_end_follows_depth(tokens: Seq<Token>, start: int, cursor: int, depth: int)
    requires
        0 <= start <= cursor <= tokens.len(),
        depth == brace_depth(tokens, start, cursor),
        forall|upto: int| start <= upto <= cursor ==> #[trigger] brace_depth(tokens, start, upto) >= 1,
    ensures
        match body_end(tokens, cursor, depth) {
            Some(close) => closes_body(tokens, start, close),
            None => never_closed(tokens, start),
        },
    decreases tokens.len() - cursor,
{
    if cursor < tokens.len() {
        let next = brace_depth(tokens, start, cursor + 1);
        if next >= 1 {
            assert forall|upto: int| start <= upto <= cursor + 1 implies #[trigger] brace_depth(
                tokens,
                start,
                upto,
            ) >= 1 by {}
            lemma_body_end_follows_depth(tokens, start, cursor + 1, next);
        }
    }
}

/// The body of a function ends at the brace that closes it: the first
/// place at which no brace is open any more. If there is no such place,
/// the scan finds no end.
pub proof fn lemma_body_ends_where_it_is_closed(tokens: Seq<Token>, start: int)
    requires
        0 <= start <= tokens.len(),
    ensures
        match body_end(tokens, start, 1) {
            Some(close) => closes_body(tokens, start, close),
            None => never_closed(tokens, start),
        },
{
    lemma_body_end_follows_depth(tokens, start, start, 1);
}

} // verus!
