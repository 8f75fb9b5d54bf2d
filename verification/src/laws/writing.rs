//! That a function which has been lowered has what the writing needs, and
//! that a program which has passed its checks can be written.

use vstd::prelude::*;
use crate::assembly::{
    before_code, blocks, function_assembly, op_block, op_code, parameter_index, program_assembly,
    routines,
};
use crate::class::function::FunctionView;
use crate::class::op::{markers_of, Op, OpType};
use crate::class::signature::{Parameter, SignatureView};
use crate::class::function::FunctionSourceView;
use crate::class::token::Token;
use crate::compiler::{
    compiled, lowered_function, lowered_functions, segment_at, segmented, segments_at,
    type_errors,
};
use crate::class::token::Keyword;
use crate::ir::{lower_from, lower_token, Lowering, width_at};
use crate::control_flow::{balanced, jumps_of, lemma_with_jumps_carries, resolution};
use crate::ir::lowered;
use crate::compiler::CompilerError;
use crate::laws::ranges::{carries_jump, lemma_well_resolved_is_resolved};
use crate::type_check::{
    apply, checked, lemma_literals_accepted_iff_declared, literal_types, parameter_from,
    pushes_then_returns, trace,
};

verus! {

/// A parameter that has a type has an index.
pub proof fn lemma_parameter_has_index(parameters: Seq<Parameter>, name: Seq<char>, from: nat)
    ensures
        parameter_from(parameters, name, from) is Some <==> parameter_index(parameters, name, from)
            is Some,
        parameter_index(parameters, name, from) matches Some(index) ==> from <= index
            < parameters.len(),
    decreases parameters.len() - from,
{
    if from < parameters.len() && parameters[from as int].name@ != name {
        lemma_parameter_has_index(parameters, name, from + 1);
    }
}

/// Where the trace of a body succeeds, it succeeds for every part of the
/// body from its start, and each operation applies to the stack before it.
pub proof fn lemma_trace_steps(
    ops: Seq<Op>,
    signature: SignatureView,
    functions: Seq<FunctionView>,
    count: nat,
    position: nat,
)
    requires
        position < count,
        trace(ops, signature, functions, count) is Ok,
    ensures
        trace(ops, signature, functions, position) matches Ok(before) && apply(
            before.stack,
            ops[position as int].typ,
            signature,
            functions,
        ) is Ok,
    decreases count,
{
    if position + 1 < count {
        lemma_trace_steps(ops, signature, functions, (count - 1) as nat, position);
    }
}

/// An operation of a well-formed function that has passed its check can
/// be written.
pub proof fn lemma_checked_op_is_written(
    function: FunctionView,
    functions: Seq<FunctionView>,
    position: nat,
)
    requires
        position < function.ops.len(),
        function.well_formed(),
        checked(function.ops, function.signature, functions) is Ok,
    ensures
        op_block(function, position) is Some,
{
    let typ = function.ops[position as int].typ;
    assert(carries_jump(markers_of(function.ops)[position as int]) ==> jumps_of(
        function.ops,
    )[position as int].target is Some);
    lemma_trace_steps(
        function.ops,
        function.signature,
        functions,
        function.ops.len(),
        position,
    );
    match typ {
        OpType::Push(token) => {
            lemma_parameter_has_index(function.signature.parameters, token.value@, 0);
        },
        _ => {},
    }
    assert(before_code(function.name@, typ) is Some);
    assert(op_code(function, position, typ) is Some);
}

/// The blocks of a function that has passed its check can be written.
pub proof fn lemma_checked_blocks_are_written(
    function: FunctionView,
    functions: Seq<FunctionView>,
    count: nat,
)
    requires
        count <= function.ops.len(),
        function.well_formed(),
        checked(function.ops, function.signature, functions) is Ok,
    ensures
        blocks(function, count) is Ok,
    decreases count,
{
    if count > 0 {
        lemma_checked_blocks_are_written(function, functions, (count - 1) as nat);
        lemma_checked_op_is_written(function, functions, (count - 1) as nat);
    }
}

/// A well-formed function can be written once it has passed its check: no
/// operation of it is unsupported.
pub proof fn lemma_checked_function_is_written(function: FunctionView, functions: Seq<FunctionView>)
    requires
        function.well_formed(),
        checked(function.ops, function.signature, functions) is Ok,
    ensures
        function_assembly(function) is Ok,
{
    lemma_checked_blocks_are_written(function, functions, function.ops.len());
}

/// A well-formed function whose body pushes literals and then returns is
/// written if and only if the literals are as many as the declared return
/// types and have those types, whatever the texts of the literals are.
pub proof fn lemma_literals_written_iff_declared(function: FunctionView, functions: Seq<FunctionView>)
    requires
        function.well_formed(),
        pushes_then_returns(function.ops),
    ensures
        checked(function.ops, function.signature, functions) is Ok <==> literal_types(
            function.ops,
            (function.ops.len() - 1) as nat,
        ) == function.signature.return_types(),
        checked(function.ops, function.signature, functions) is Ok ==> function_assembly(function)
            is Ok,
{
    lemma_literals_accepted_iff_declared(function.ops, function.signature, functions);
    if checked(function.ops, function.signature, functions) is Ok {
        lemma_checked_function_is_written(function, functions);
    }
}

/// Functions without an error of their check have all passed it.
pub proof fn lemma_no_error_means_checked(functions: Seq<FunctionView>, count: nat, position: nat)
    requires
        position < count <= functions.len(),
        type_errors(functions, count).len() == 0,
    ensures
        checked(functions[position as int].ops, functions[position as int].signature, functions)
            is Ok,
    decreases count,
{
    if position + 1 < count {
        lemma_no_error_means_checked(functions, (count - 1) as nat, position);
    }
}

/// The routines of functions that have passed their check can be written.
pub proof fn lemma_checked_routines_are_written(functions: Seq<FunctionView>, count: nat)
    requires
        count <= functions.len(),
        type_errors(functions, functions.len()).len() == 0,
        forall|j: int| 0 <= j < functions.len() ==> (#[trigger] functions[j]).well_formed(),
    ensures
        routines(functions, count) is Ok,
    decreases count,
{
    if count > 0 {
        lemma_checked_routines_are_written(functions, (count - 1) as nat);
        lemma_no_error_means_checked(functions, functions.len(), (count - 1) as nat);
        lemma_checked_function_is_written(functions[count - 1], functions);
    }
}

/// Well-formed functions can be written once each of them has passed its
/// check.
pub proof fn lemma_checked_program_is_written(functions: Seq<FunctionView>)
    requires
        type_errors(functions, functions.len()).len() == 0,
        forall|j: int| 0 <= j < functions.len() ==> (#[trigger] functions[j]).well_formed(),
    ensures
        program_assembly(functions) is Ok,
{
    lemma_checked_routines_are_written(functions, functions.len());
}

/// A function that has been lowered is well formed.
pub proof fn lemma_lowered_function_is_well_resolved(source: FunctionSourceView)
    requires
        source.tokens.len() <= usize::MAX,
    ensures
        lowered_function(source) matches Ok(function) ==> function.well_formed(),
{
    match lowered(source.tokens) {
        Ok(ops) => {
            crate::ir::lemma_lowered_is_sound(source.tokens);
            crate::laws::exits::lemma_resolution_follows_blocks(markers_of(ops));
            match resolution(markers_of(ops)) {
                Ok(jumps) => {
                    lemma_with_jumps_carries(ops, jumps);
                    crate::laws::ranges::lemma_resolution_is_well_resolved(markers_of(ops));
                    lemma_well_resolved_is_resolved(markers_of(ops), jumps);
                },
                Err(_) => {},
            }
        },
        Err(_) => {},
    }
}

/// Whether the operation is a keyword that jumps: `if`, `elif`, `else`,
/// `do`, `done`, `break` or `continue`.
pub open spec fn jumps_somewhere(typ: OpType) -> bool {
    typ is If || typ is Elif || typ is Else || typ is Do || typ is Done || typ is Break
        || typ is Continue
}

/// A body whose block keywords are balanced is resolved without an error
/// of control flow, and each `if`, `elif`, `else`, `do`, `done`, `break`
/// and `continue` of the function then carries the position that it jumps
/// to.
pub proof fn lemma_balanced_body_is_resolved(source: FunctionSourceView)
    requires
        source.tokens.len() <= usize::MAX,
        lowered(source.tokens) matches Ok(ops) && balanced(markers_of(ops)),
    ensures
        lowered_function(source) matches Ok(function) && forall|position: int|
            0 <= position < function.ops.len() && jumps_somewhere(
                #[trigger] function.ops[position].typ,
            ) ==> function.ops[position].typ.jump().target is Some,
{
    let ops = lowered(source.tokens)->Ok_0;
    let markers = markers_of(ops);
    crate::ir::lemma_lowered_is_sound(source.tokens);
    crate::laws::ranges::lemma_balanced_keywords_get_targets(markers);
    crate::laws::ranges::lemma_resolution_is_well_resolved(markers);
    let jumps = resolution(markers)->Ok_0;
    lemma_with_jumps_carries(ops, jumps);
    let function = lowered_function(source)->Ok_0;
    assert forall|position: int|
        0 <= position < function.ops.len() && jumps_somewhere(
            #[trigger] function.ops[position].typ,
        ) implies function.ops[position].typ.jump().target is Some by {
        assert(carries_jump(markers_of(function.ops)[position]));
        assert(jumps_of(function.ops)[position] == function.ops[position].typ.jump());
    }
}

/// Functions that have been lowered are well formed.
pub proof fn lemma_lowered_functions_are_well_resolved(
    sources: Seq<FunctionSourceView>,
    count: nat,
    position: nat,
)
    requires
        position < count <= sources.len(),
        forall|j: int| 0 <= j < sources.len() ==> (#[trigger] sources[j]).tokens.len() <= usize::MAX,
        lowered_functions(sources, count) is Ok,
    ensures
        lowered_functions(sources, count)->Ok_0.len() == count,
        lowered_functions(sources, count)->Ok_0[position as int].well_formed(),
    decreases count,
{
    lemma_lowered_functions_length(sources, count);
    if position + 1 < count {
        lemma_lowered_functions_are_well_resolved(sources, (count - 1) as nat, position);
    } else {
        lemma_lowered_functions_length(sources, (count - 1) as nat);
        assert(sources[count - 1].tokens.len() <= usize::MAX);
        lemma_lowered_function_is_well_resolved(sources[count - 1]);
    }
}

/// As many functions are lowered as there are sources.
pub proof fn lemma_lowered_functions_length(sources: Seq<FunctionSourceView>, count: nat)
    requires
        lowered_functions(sources, count) is Ok,
    ensures
        lowered_functions(sources, count)->Ok_0.len() == count,
    decreases count,
{
    if count > 0 {
        lemma_lowered_functions_length(sources, (count - 1) as nat);
    }
}

/// Whether the compilation of the tokens comes as far as the writing of
/// assembly: the tokens are split into functions, each function is
/// lowered, and each passes its check.
pub open spec fn passes_checks(tokens: Seq<Token>) -> bool {
    match segmented(tokens) {
        Err(_) => false,
        Ok(sources) => match lowered_functions(sources, sources.len()) {
            Err(_) => false,
            Ok(functions) => type_errors(functions, functions.len()).len() == 0,
        },
    }
}

/// A compilation whose functions have been lowered and have passed their
/// checks ends with assembly: the writing refuses nothing after the checks.
pub proof fn lemma_checked_compilation_succeeds(tokens: Seq<Token>)
    requires
        tokens.len() <= usize::MAX,
        passes_checks(tokens),
    ensures
        compiled(tokens) is Ok,
{
    let sources = segmented(tokens)->Ok_0;
    let functions = lowered_functions(sources, sources.len())->Ok_0;
    lemma_lowered_functions_length(sources, sources.len());
    crate::compiler::lemma_segments_are_short(tokens, 0, Seq::empty());
    assert forall|j: int| 0 <= j < functions.len() implies (#[trigger] functions[j]).well_formed() by {
        lemma_lowered_functions_are_well_resolved(sources, sources.len(), j as nat);
    }
    lemma_checked_program_is_written(functions);
}

/// Whether the error is one of the writing.
pub open spec fn is_writing_error(error: CompilerError) -> bool {
    error is CodeGenError
}

/// The split into functions gives no error of the writing.
pub proof fn lemma_split_gives_no_writing_error(
    tokens: Seq<Token>,
    cursor: int,
    found: Seq<FunctionSourceView>,
)
    ensures
        segments_at(tokens, cursor, found) matches Err(error) ==> !is_writing_error(error),
    decreases tokens.len() - cursor,
{
    if 0 <= cursor < tokens.len() {
        if tokens[cursor].typ.is_keyword(Keyword::Fun) {
            match segment_at(tokens, cursor) {
                Ok((function, next)) => {
                    if cursor < next <= tokens.len() {
                        lemma_split_gives_no_writing_error(tokens, next, found.push(function));
                    }
                },
                Err(_) => {},
            }
        } else {
            lemma_split_gives_no_writing_error(tokens, cursor + 1, found);
        }
    }
}

/// The lowering of a body gives no error of the writing.
pub proof fn lemma_lowering_gives_no_writing_error(tokens: Seq<Token>, cursor: int, state: Lowering)
    ensures
        lower_from(tokens, cursor, state) matches Err(error) ==> !is_writing_error(error),
    decreases tokens.len() - cursor,
{
    if 0 <= cursor < tokens.len() {
        match lower_token(tokens, cursor, state) {
            Ok(next) => {
                lemma_lowering_gives_no_writing_error(tokens, cursor + width_at(tokens, cursor), next);
            },
            Err(_) => {},
        }
    }
}

/// The lowering of functions gives no error of the writing.
pub proof fn lemma_functions_give_no_writing_error(sources: Seq<FunctionSourceView>, count: nat)
    ensures
        lowered_functions(sources, count) matches Err(error) ==> !is_writing_error(error),
    decreases count,
{
    if count > 0 {
        lemma_functions_give_no_writing_error(sources, (count - 1) as nat);
        lemma_lowering_gives_no_writing_error(
            sources[count - 1].tokens,
            0,
            Lowering { ops: Seq::empty(), frames: Seq::empty() },
        );
    }
}

/// The checks give no error of the writing.
pub proof fn lemma_checks_give_no_writing_error(functions: Seq<FunctionView>, count: nat)
    ensures
        forall|i: int|
            0 <= i < type_errors(functions, count).len() ==> !is_writing_error(
                #[trigger] type_errors(functions, count)[i],
            ),
    decreases count,
{
    if count > 0 {
        lemma_checks_give_no_writing_error(functions, (count - 1) as nat);
        let before = type_errors(functions, (count - 1) as nat);
        let errors = type_errors(functions, count);
        assert forall|i: int| 0 <= i < errors.len() implies !is_writing_error(
            #[trigger] errors[i],
        ) by {
            if i < before.len() {
                assert(errors[i] == before[i]);
            }
        }
    }
}

/// No compilation ends with an error of the writing: each error comes from
/// the split into functions, the lowering, the resolution or the check.
pub proof fn lemma_writing_never_fails(tokens: Seq<Token>)
    requires
        tokens.len() <= usize::MAX,
    ensures
        compiled(tokens) matches Err(error) ==> !is_writing_error(error),
{
    if passes_checks(tokens) {
        lemma_checked_compilation_succeeds(tokens);
    } else {
        lemma_split_gives_no_writing_error(tokens, 0, Seq::empty());
        match segmented(tokens) {
            Ok(sources) => {
                lemma_functions_give_no_writing_error(sources, sources.len());
                match lowered_functions(sources, sources.len()) {
                    Ok(functions) => {
                        lemma_checks_give_no_writing_error(functions, functions.len());
                    },
                    Err(_) => {},
                }
            },
            Err(_) => {},
        }
    }
}

} // verus!
