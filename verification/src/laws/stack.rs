//! That the instructions written for a body move the top of the stack as
//! the check of the body moves its stack of types.

use vstd::prelude::*;
use crate::assembly::{
    before_code, blocks, calculation_code, calculation_instruction, call_code, intrinsic_code,
    label_line, op_block, op_code, plain, pop, push, syscall_pops,
};
use crate::class::op::FunctionCallInfo;
use crate::intrinsics::Calculation;
use crate::class::function::FunctionView;
use crate::class::instruction::InstructionView;
use crate::class::op::OpType;
use crate::data_types::DataTypeView;
use crate::intrinsics::Intrinsic;
use crate::type_check::{apply, apply_call, apply_intrinsic, callee, checked, trace};

verus! {

/// By how many values the instruction makes the stack higher. A call
/// changes the height as the routine of the callee does: it leaves the
/// arguments where they are, and what is returned with them.
pub open spec fn stack_change(instruction: InstructionView, functions: Seq<FunctionView>) -> int {
    match instruction {
        InstructionView::Push(_) => 1,
        InstructionView::Pop(_) => -1,
        InstructionView::Call(name) => match callee(functions, name) {
            Some(signature) => signature.return_types().len() as int,
            None => 0,
        },
        InstructionView::Release(count) => -(count as int),
        _ => 0,
    }
}

/// How many values the instruction needs on the stack, as a change of the
/// height: those that it takes, and for a call those that the callee reads.
pub open spec fn stack_reach(instruction: InstructionView, functions: Seq<FunctionView>) -> int {
    match instruction {
        InstructionView::Pop(_) => -1,
        InstructionView::Call(name) => match callee(functions, name) {
            Some(signature) => -signature.parameters.len(),
            None => 0,
        },
        InstructionView::Release(count) => -(count as int),
        _ => 0,
    }
}

/// By how many values the instructions make the stack higher.
pub open spec fn net_change(code: Seq<InstructionView>, functions: Seq<FunctionView>) -> int
    decreases code.len(),
{
    if code.len() == 0 {
        0
    } else {
        net_change(code.drop_last(), functions) + stack_change(code.last(), functions)
    }
}

/// The least height of the stack before, between and within the
/// instructions, counted from its height before them.
pub open spec fn lowest(code: Seq<InstructionView>, functions: Seq<FunctionView>) -> int
    decreases code.len(),
{
    if code.len() == 0 {
        0
    } else if lowest(code.drop_last(), functions) <= net_change(code.drop_last(), functions)
        + stack_reach(code.last(), functions) {
        lowest(code.drop_last(), functions)
    } else {
        net_change(code.drop_last(), functions) + stack_reach(code.last(), functions)
    }
}

/// One more instruction changes the height by its own change.
pub broadcast proof fn lemma_change_of_push(
    code: Seq<InstructionView>,
    last: InstructionView,
    functions: Seq<FunctionView>,
)
    ensures
        #[trigger] net_change(code.push(last), functions) == net_change(code, functions)
            + stack_change(last, functions),
{
    assert(code.push(last).drop_last() =~= code);
}

/// With one more instruction the stack is lowest where it was lowest
/// before, or within that instruction.
pub broadcast proof fn lemma_lowest_of_push(
    code: Seq<InstructionView>,
    last: InstructionView,
    functions: Seq<FunctionView>,
)
    ensures
        #[trigger] lowest(code.push(last), functions) == if lowest(code, functions) <= net_change(
            code,
            functions,
        ) + stack_reach(last, functions) {
            lowest(code, functions)
        } else {
            net_change(code, functions) + stack_reach(last, functions)
        },
{
    assert(code.push(last).drop_last() =~= code);
}

/// The changes of two runs of instructions add up, and the stack is
/// lowest where it is lowest in one of the two.
pub proof fn lemma_change_of_both(
    first: Seq<InstructionView>,
    second: Seq<InstructionView>,
    functions: Seq<FunctionView>,
)
    ensures
        net_change(first + second, functions) == net_change(first, functions) + net_change(
            second,
            functions,
        ),
        lowest(first + second, functions) == if lowest(first, functions) <= net_change(
            first,
            functions,
        ) + lowest(second, functions) {
            lowest(first, functions)
        } else {
            net_change(first, functions) + lowest(second, functions)
        },
    decreases second.len(),
{
    if second.len() == 0 {
        assert(first + second =~= first);
    } else {
        lemma_change_of_both(first, second.drop_last(), functions);
        assert((first + second).drop_last() =~= first + second.drop_last());
        assert((first + second).last() == second.last());
    }
}

/// The instructions that take the arguments of a system call take one value each.
pub proof fn lemma_change_of_syscall_pops(count: nat, functions: Seq<FunctionView>)
    ensures
        net_change(syscall_pops(count), functions) == -count,
        lowest(syscall_pops(count), functions) == -count,
    decreases count,
{
    broadcast use {lemma_change_of_push, lemma_lowest_of_push};

    if count > 0 {
        lemma_change_of_syscall_pops((count - 1) as nat, functions);
    }
}

/// The instructions of a calculation take two values and leave one.
pub proof fn lemma_change_of_calculation(calculation: Calculation, functions: Seq<FunctionView>)
    ensures
        net_change(calculation_code(calculation), functions) == -1,
        lowest(calculation_code(calculation), functions) == -2,
{
    broadcast use {lemma_change_of_push, lemma_lowest_of_push};

    let start = Seq::empty().push(pop("rbx"@)).push(pop("rax"@));
    lemma_change_of_both(start, calculation_instruction(calculation), functions);
    lemma_change_of_both(
        start + calculation_instruction(calculation),
        Seq::empty().push(push("rax"@)),
        functions,
    );
}

/// The instructions of a built-in word change the height of the stack as
/// the check of the word changes the number of types.
pub proof fn lemma_change_of_intrinsic(
    intrinsic: Intrinsic,
    stack: Seq<DataTypeView>,
    functions: Seq<FunctionView>,
)
    requires
        apply_intrinsic(stack, intrinsic) is Ok,
        intrinsic_code(intrinsic) is Some,
    ensures
        net_change(intrinsic_code(intrinsic)->Some_0, functions) == apply_intrinsic(
            stack,
            intrinsic,
        )->Ok_0.len() - stack.len(),
        stack.len() + lowest(intrinsic_code(intrinsic)->Some_0, functions) >= 0,
{
    broadcast use {lemma_change_of_push, lemma_lowest_of_push};

    match intrinsic {
        Intrinsic::Syscall(arguments) => {
            lemma_change_of_syscall_pops(arguments as nat, functions);
            let start = Seq::empty().push(pop("rax"@));
            let end = Seq::empty().push(plain("syscall"@)).push(push("rax"@));
            lemma_change_of_both(start, syscall_pops(arguments as nat), functions);
            lemma_change_of_both(start + syscall_pops(arguments as nat), end, functions);
        },
        _ => {},
    }
}

/// The instructions of a call take the arguments and leave what the
/// callee returns.
pub proof fn lemma_change_of_call(
    info: FunctionCallInfo,
    functions: Seq<FunctionView>,
    stack: Seq<DataTypeView>,
)
    requires
        apply_call(stack, info, functions) is Ok,
    ensures
        net_change(call_code(info), functions) == apply_call(stack, info, functions)->Ok_0.len()
            - stack.len(),
        stack.len() + lowest(call_code(info), functions) >= 0,
{
    broadcast use {lemma_change_of_push, lemma_lowest_of_push};

}

/// The instructions of an operation move the top of the stack as the check
/// of the operation moves the types: they leave the stack higher by as
/// many values as the operation leaves more types than it finds, and take
/// no value that the stack did not hold before them.
pub proof fn lemma_op_mirrors_check(
    function: FunctionView,
    functions: Seq<FunctionView>,
    position: nat,
    typ: OpType,
    stack: Seq<DataTypeView>,
)
    requires
        apply(stack, typ, function.signature, functions) is Ok,
        op_code(function, position, typ) is Some,
    ensures
        net_change(op_code(function, position, typ)->Some_0, functions) == apply(
            stack,
            typ,
            function.signature,
            functions,
        )->Ok_0.len() - stack.len(),
        stack.len() + lowest(op_code(function, position, typ)->Some_0, functions) >= 0,
{
    broadcast use {lemma_change_of_push, lemma_lowest_of_push};

    match typ {
        OpType::Calculation(calculation) => {
            lemma_change_of_calculation(calculation, functions);
        },
        OpType::Intrinsic(intrinsic) => {
            if intrinsic == Intrinsic::Shl || intrinsic == Intrinsic::Shr {
                assert(apply_intrinsic(stack, intrinsic) == crate::type_check::calculate(stack));
            }
            lemma_change_of_intrinsic(intrinsic, stack, functions);
        },
        OpType::FunctionCall(info) => {
            lemma_change_of_call(info, functions, stack);
        },
        _ => {},
    }
}

/// The block of an operation moves the top of the stack as its
/// instructions do: what ends the arm before it and its label leave the
/// stack as it is.
pub proof fn lemma_block_mirrors_check(
    function: FunctionView,
    functions: Seq<FunctionView>,
    position: nat,
    stack: Seq<DataTypeView>,
)
    requires
        position < function.ops.len(),
        apply(stack, function.ops[position as int].typ, function.signature, functions) is Ok,
        op_block(function, position) is Some,
    ensures
        net_change(op_block(function, position)->Some_0, functions) == apply(
            stack,
            function.ops[position as int].typ,
            function.signature,
            functions,
        )->Ok_0.len() - stack.len(),
        stack.len() + lowest(op_block(function, position)->Some_0, functions) >= 0,
{
    broadcast use {lemma_change_of_push, lemma_lowest_of_push};

    let typ = function.ops[position as int].typ;
    let before = before_code(function.name@, typ)->Some_0;
    let code = op_code(function, position, typ)->Some_0;
    let line = Seq::empty().push(label_line(function.name@, position));
    lemma_op_mirrors_check(function, functions, position, typ, stack);
    lemma_change_of_both(before, line, functions);
    lemma_change_of_both(before + line, code, functions);
}

/// The instructions of a body that passes its check mirror the stack of
/// types: behind the blocks of the first operations, the stack holds as
/// many values more than before them as the check has types on its stack,
/// and it is at no place lower than before the first block.
pub proof fn lemma_blocks_mirror_trace(
    function: FunctionView,
    functions: Seq<FunctionView>,
    count: nat,
)
    requires
        count <= function.ops.len(),
        trace(function.ops, function.signature, functions, count) is Ok,
        blocks(function, count) is Ok,
    ensures
        net_change(blocks(function, count)->Ok_0, functions) == trace(
            function.ops,
            function.signature,
            functions,
            count,
        )->Ok_0.stack.len(),
        lowest(blocks(function, count)->Ok_0, functions) >= 0,
    decreases count,
{
    if count > 0 {
        lemma_blocks_mirror_trace(function, functions, (count - 1) as nat);
        let before = trace(function.ops, function.signature, functions, (count - 1) as nat)->Ok_0;
        let code = blocks(function, (count - 1) as nat)->Ok_0;
        let block = op_block(function, (count - 1) as nat)->Some_0;
        lemma_block_mirrors_check(function, functions, (count - 1) as nat, before.stack);
        lemma_change_of_both(code, block, functions);
    }
}

/// Behind the instructions of a body that passes its check, the stack
/// holds what the function returns and nothing else: one value where a
/// return type is declared, which the end of the routine takes, and none
/// where none is declared.
pub proof fn lemma_body_leaves_what_is_returned(function: FunctionView, functions: Seq<FunctionView>)
    requires
        checked(function.ops, function.signature, functions) is Ok,
        blocks(function, function.ops.len()) is Ok,
    ensures
        net_change(blocks(function, function.ops.len())->Ok_0, functions)
            == function.signature.return_types().len(),
        lowest(blocks(function, function.ops.len())->Ok_0, functions) >= 0,
{
    lemma_blocks_mirror_trace(function, functions, function.ops.len());
}

/// Where a body that passes its check returns, the stack holds what the
/// function returns and nothing else, as it does at the end of the body.
pub proof fn lemma_return_leaves_what_is_returned(
    function: FunctionView,
    functions: Seq<FunctionView>,
    position: nat,
)
    requires
        position < function.ops.len(),
        function.ops[position as int].typ is Return,
        checked(function.ops, function.signature, functions) is Ok,
        blocks(function, function.ops.len()) is Ok,
    ensures
        blocks(function, position) is Ok,
        net_change(blocks(function, position)->Ok_0, functions)
            == function.signature.return_types().len(),
{
    crate::laws::writing::lemma_trace_steps(
        function.ops,
        function.signature,
        functions,
        function.ops.len(),
        position,
    );
    lemma_blocks_start_well(function, function.ops.len(), position);
    lemma_blocks_mirror_trace(function, functions, position);
}

/// Where the blocks of a body can be written, the blocks of every part of
/// the body from its start can.
pub proof fn lemma_blocks_start_well(function: FunctionView, count: nat, position: nat)
    requires
        position <= count,
        blocks(function, count) is Ok,
    ensures
        blocks(function, position) is Ok,
    decreases count,
{
    if position < count {
        lemma_blocks_start_well(function, (count - 1) as nat, position);
    }
}

} // verus!
