//! What the assembly of functions is made of: one routine for each function,
//! in the order of the functions, and nothing else.

use vstd::prelude::*;
use crate::assembly::{
    blocks, body_end_code, end_code, function_assembly, program_assembly, program_code,
    routine_code, routines, start_code,
};
use crate::class::function::FunctionView;
use crate::class::instruction::{
    lemma_rendered_of_both, lemma_rendered_of_push, rendered, InstructionView,
};
use crate::compiler::CompilerError;

verus! {

/// The first text and then the second, or the error of the first that is
/// one.
pub open spec fn joined(
    first: Result<Seq<char>, CompilerError>,
    second: Result<Seq<char>, CompilerError>,
) -> Result<Seq<char>, CompilerError> {
    match first {
        Err(error) => Err(error),
        Ok(start) => match second {
            Err(error) => Err(error),
            Ok(end) => Ok(start + end),
        },
    }
}

/// The first instructions and then the second, or the error of the first
/// that is one.
pub open spec fn joined_code(
    first: Result<Seq<InstructionView>, CompilerError>,
    second: Result<Seq<InstructionView>, CompilerError>,
) -> Result<Seq<InstructionView>, CompilerError> {
    match first {
        Err(error) => Err(error),
        Ok(start) => match second {
            Err(error) => Err(error),
            Ok(end) => Ok(start + end),
        },
    }
}

/// No function gives no assembly: the empty text.
pub proof fn lemma_no_function_gives_no_text()
    ensures
        program_assembly(Seq::empty()) == Ok::<Seq<char>, CompilerError>(Seq::empty()),
{
    assert(rendered(Seq::<InstructionView>::empty()) =~= Seq::<char>::empty());
}

/// The routines of the first functions depend on nothing but them.
pub proof fn lemma_routines_of_start(
    functions: Seq<FunctionView>,
    start: Seq<FunctionView>,
    count: nat,
)
    requires
        count <= start.len() <= functions.len(),
        forall|i: int| 0 <= i < start.len() ==> functions[i] == start[i],
    ensures
        routines(functions, count) == routines(start, count),
    decreases count,
{
    if count > 0 {
        lemma_routines_of_start(functions, start, (count - 1) as nat);
    }
}

/// The routines of two runs of functions are the routines of the first and
/// then the first `count` routines of the second.
pub proof fn lemma_routines_of_both(first: Seq<FunctionView>, second: Seq<FunctionView>, count: nat)
    requires
        count <= second.len(),
    ensures
        routines(first + second, first.len() + count) == joined_code(
            routines(first, first.len()),
            routines(second, count),
        ),
    decreases count,
{
    if count == 0 {
        lemma_routines_of_start(first + second, first, first.len());
        match routines(first, first.len()) {
            Ok(code) => {
                assert(code + Seq::<InstructionView>::empty() =~= code);
            },
            Err(_) => {},
        }
    } else {
        lemma_routines_of_both(first, second, (count - 1) as nat);
        assert((first + second)[first.len() + count - 1] == second[count - 1]);
        match (routines(first, first.len()), routines(second, (count - 1) as nat)) {
            (Ok(start), Ok(code)) => {
                match routine_code(second[count - 1]) {
                    Ok(routine) => {
                        assert(start + code + routine =~= start + (code + routine));
                    },
                    Err(_) => {},
                }
            },
            _ => {},
        }
    }
}

/// The assembly of two runs of functions is the assembly of the first and
/// then the assembly of the second; where one of them cannot be written,
/// it is the error of the first that cannot.
pub proof fn lemma_assembly_of_both(first: Seq<FunctionView>, second: Seq<FunctionView>)
    ensures
        program_assembly(first + second) == joined(
            program_assembly(first),
            program_assembly(second),
        ),
{
    lemma_routines_of_both(first, second, second.len());
    match (program_code(first), program_code(second)) {
        (Ok(start), Ok(end)) => {
            lemma_rendered_of_both(start, end);
        },
        _ => {},
    }
}

/// The assembly of one function is its routine.
pub proof fn lemma_assembly_of_one(function: FunctionView)
    ensures
        program_assembly(Seq::empty().push(function)) == function_assembly(function),
{
    let functions = Seq::empty().push(function);
    assert(routines(functions, 0) == Ok::<Seq<InstructionView>, CompilerError>(Seq::empty()));
    assert(functions[0] == function);
    match routine_code(function) {
        Ok(code) => {
            assert(Seq::<InstructionView>::empty() + code =~= code);
        },
        Err(_) => {},
    }
}

/// The routine of a function without operations is its label, the set-up
/// of its frame, the frame given back, and the return.
pub proof fn lemma_empty_routine_text(function: FunctionView)
    requires
        function.ops.len() == 0,
    ensures
        function_assembly(function) == Ok::<Seq<char>, CompilerError>(
            function.name@ + ":\n  push rbp\n  mov rbp, rsp\n  pop rbp\n  ret\n\n"@,
        ),
{
    broadcast use lemma_rendered_of_push;

    reveal_strlit(":\n  push rbp\n  mov rbp, rsp\n  pop rbp\n  ret\n\n");
    reveal_strlit(":\n");
    reveal_strlit("  push ");
    reveal_strlit("  pop ");
    reveal_strlit("rbp");
    reveal_strlit("\n");
    reveal_strlit("  ");
    reveal_strlit("mov rbp, rsp");
    reveal_strlit("ret");
    reveal_strlit("");
    let start = start_code(function.name@);
    let none = Seq::<InstructionView>::empty();
    assert(blocks(function, 0) == Ok::<Seq<InstructionView>, CompilerError>(none));
    assert(body_end_code(function) == none);
    assert(start + none + none =~= start);
    lemma_rendered_of_both(start, end_code());
    assert(rendered(none) =~= Seq::<char>::empty());
    assert(rendered(start) =~= function.name@ + ":\n  push rbp\n  mov rbp, rsp\n"@) by {
        reveal_strlit(":\n  push rbp\n  mov rbp, rsp\n");
    }
    assert(rendered(end_code()) =~= "  pop rbp\n  ret\n\n"@) by {
        reveal_strlit("  pop rbp\n  ret\n\n");
    }
    assert(function.name@ + ":\n  push rbp\n  mov rbp, rsp\n"@ + "  pop rbp\n  ret\n\n"@
        =~= function.name@ + ":\n  push rbp\n  mov rbp, rsp\n  pop rbp\n  ret\n\n"@) by {
        reveal_strlit(":\n  push rbp\n  mov rbp, rsp\n");
        reveal_strlit("  pop rbp\n  ret\n\n");
    }
}

} // verus!
