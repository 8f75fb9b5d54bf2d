//! The writing of assembly for checked functions.
//!
//! Each function gets one routine: its name as a label, the set-up of a
//! frame, one block for each operation in order, and the return. The values
//! of the language live on the stack of the machine, which the blocks move
//! as the check moves its stack of types. Arguments are passed on that
//! stack: a call finds them where the operations before it have pushed
//! them, and the callee reads its parameters at fixed places above its
//! frame. On its return the callee has left what it returns below the
//! arguments, and the caller gives the arguments up. System calls take
//! their arguments from the stack into the registers of the platform.
//!
//! The text for a list of functions is their routines, one behind the other.
//! The start of a program, which calls the entry function and holds the
//! routine for printing, is written apart from them.

use vstd::prelude::*;
use vstd::string::StringExecFns;
use vstd::string::StrSliceExecFns;
use crate::class::function::{function_views, Function, FunctionView};
use crate::class::instruction::{
    instruction_views, lemma_rendered_of_both, lemma_rendered_of_push, rendered,
    write_instructions, Instruction, InstructionView,
};
use crate::class::location::Location;
use crate::class::op::{FunctionCallInfo, Jump, OpType};
use crate::class::signature::Parameter;
use crate::class::token::{Token, TokenType};
use crate::compiler::{CodeGenError, CompilerError};
use crate::data_types::{ChunkSize, DataType};
use crate::intrinsics::{Calculation, Comparison, Intrinsic, SYSCALL_ARGUMENTS};
use crate::text::{
    decimal, is_name, is_name_char, lemma_decimal_injective, number_text,
    push_decimal, push_number, str_eq, unquoted, unquoted_bytes,
};
use vstd::utf8::encode_utf8;

verus! {

/// The label of the position `position` of the function called `name`. It
/// holds `@`, which stands in no name.
pub open spec fn label(name: Seq<char>, position: nat) -> Seq<char> {
    name + "@op_"@ + decimal(position)
}

/// The label at which the process starts. It begins with `?`, which stands
/// in no name.
pub open spec fn entry_label() -> Seq<char> {
    "?start"@
}

/// The label of the routine that the built-in word for printing calls.
pub open spec fn print_label() -> Seq<char> {
    "?print"@
}

/// The label of the loop of that routine, which belongs to its label.
pub open spec fn digit_label() -> Seq<char> {
    ".digit"@
}

/// The register that holds the argument at `index` of a system call.
pub open spec fn syscall_register(index: nat) -> Seq<char> {
    if index == 0 {
        "rdi"@
    } else if index == 1 {
        "rsi"@
    } else if index == 2 {
        "rdx"@
    } else if index == 3 {
        "r10"@
    } else if index == 4 {
        "r8"@
    } else {
        "r9"@
    }
}

/// The instructions at the start of a routine: its label and the set-up
/// of its frame.
pub open spec fn start_code(name: Seq<char>) -> Seq<InstructionView> {
    Seq::empty().push(InstructionView::Label(name)).push(push("rbp"@)).push(plain("mov rbp, rsp"@))
}

/// The start of a routine: its label and the set-up of its frame.
pub open spec fn function_start(name: Seq<char>) -> Seq<char> {
    rendered(start_code(name))
}

/// The instructions at the end of a routine: the caller's frame is
/// restored, and an empty line follows.
pub open spec fn end_code() -> Seq<InstructionView> {
    Seq::empty().push(pop("rbp"@)).push(plain("ret"@)).push(InstructionView::Line(""@))
}

/// The end of a routine: the caller's frame is restored.
pub open spec fn function_end() -> Seq<char> {
    rendered(end_code())
}

/// The instruction that takes the top of the stack into `register`.
pub open spec fn pop(register: Seq<char>) -> InstructionView {
    InstructionView::Pop(register)
}

/// The instruction that puts `operand` on the top of the stack.
pub open spec fn push(operand: Seq<char>) -> InstructionView {
    InstructionView::Push(operand)
}

/// An instruction that leaves the top of the stack where it is.
pub open spec fn plain(text: Seq<char>) -> InstructionView {
    InstructionView::Plain(text)
}

/// The instructions that take the first `count` arguments of a system call
/// from the stack into their registers, the first argument first.
pub open spec fn syscall_pops(count: nat) -> Seq<InstructionView>
    decreases count,
{
    if count == 0 {
        Seq::empty()
    } else {
        syscall_pops((count - 1) as nat).push(pop(syscall_register((count - 1) as nat)))
    }
}

/// A jump to a position of the function.
pub open spec fn jump_code(name: Seq<char>, target: nat) -> Seq<InstructionView> {
    Seq::empty().push(plain("jmp "@ + label(name, target)))
}

/// A jump to a position of the function that is taken when the value on
/// the top of the stack, which is removed, is false.
pub open spec fn branch_code(name: Seq<char>, target: nat) -> Seq<InstructionView> {
    Seq::empty()
        .push(pop("rax"@))
        .push(plain("test rax, rax"@))
        .push(plain("jz "@ + label(name, target)))
}

/// The instruction that calculates on `rax` and `rbx`.
pub open spec fn calculation_instruction(calculation: Calculation) -> Seq<InstructionView> {
    match calculation {
        Calculation::Addition => Seq::empty().push(plain("add rax, rbx"@)),
        Calculation::Subtraction => Seq::empty().push(plain("sub rax, rbx"@)),
        Calculation::Division => Seq::empty().push(plain("cqo"@)).push(plain("idiv rbx"@)),
        Calculation::Multiplication => Seq::empty().push(plain("imul rax, rbx"@)),
    }
}

/// The instructions of a calculation on the two topmost values.
pub open spec fn calculation_code(calculation: Calculation) -> Seq<InstructionView> {
    let operands = Seq::empty().push(pop("rbx"@)).push(pop("rax"@));
    let result = Seq::empty().push(push("rax"@));
    operands + calculation_instruction(calculation) + result
}

/// The instruction that sets a byte by the flags of a comparison.
pub open spec fn set_instruction(comparison: Comparison) -> Seq<char> {
    match comparison {
        Comparison::Equals => "sete al"@,
        Comparison::GreaterOrEqual => "setge al"@,
        Comparison::GreaterThan => "setg al"@,
        Comparison::LessOrEqual => "setle al"@,
        Comparison::LessThan => "setl al"@,
        Comparison::NotEquals => "setne al"@,
    }
}

/// The instructions of a comparison of the two topmost values.
pub open spec fn comparison_code(comparison: Comparison) -> Seq<InstructionView> {
    Seq::empty()
        .push(pop("rbx"@))
        .push(pop("rax"@))
        .push(plain("cmp rax, rbx"@))
        .push(plain(set_instruction(comparison)))
        .push(plain("movzx rax, al"@))
        .push(push("rax"@))
}

/// The part of the register `rbx` of the given size.
pub open spec fn value_register(size: ChunkSize) -> Seq<char> {
    match size {
        ChunkSize::Byte => "bl"@,
        ChunkSize::Word => "bx"@,
        ChunkSize::Dword => "ebx"@,
        ChunkSize::Qword => "rbx"@,
    }
}

/// The instructions of a built-in word; none for a system call with more
/// arguments than there are registers for them.
pub open spec fn intrinsic_code(intrinsic: Intrinsic) -> Option<Seq<InstructionView>> {
    match intrinsic {
        Intrinsic::Dup => Some(Seq::empty()
            .push(pop("rax"@))
            .push(push("rax"@))
            .push(push("rax"@))),
        Intrinsic::Drop => Some(Seq::empty().push(pop("rax"@))),
        Intrinsic::Swap => Some(Seq::empty()
            .push(pop("rax"@))
            .push(pop("rbx"@))
            .push(push("rax"@))
            .push(push("rbx"@))),
        Intrinsic::Rot => Some(
            Seq::empty()
                .push(pop("rcx"@))
                .push(pop("rbx"@))
                .push(pop("rax"@))
                .push(push("rbx"@))
                .push(push("rcx"@))
                .push(push("rax"@)),
        ),
        Intrinsic::Over => Some(
            Seq::empty()
                .push(pop("rbx"@))
                .push(pop("rax"@))
                .push(push("rax"@))
                .push(push("rbx"@))
                .push(push("rax"@)),
        ),
        Intrinsic::Load(size) => Some(
            Seq::empty()
                .push(pop("rax"@))
                .push(plain("xor rbx, rbx"@))
                .push(plain("mov "@ + value_register(size) + ", [rax]"@))
                .push(push("rbx"@)),
        ),
        Intrinsic::Store(size) => Some(
            Seq::empty()
                .push(pop("rax"@))
                .push(pop("rbx"@))
                .push(plain("mov [rax], "@ + value_register(size))),
        ),
        Intrinsic::Shl => Some(
            Seq::empty()
                .push(pop("rcx"@))
                .push(pop("rax"@))
                .push(plain("shl rax, cl"@))
                .push(push("rax"@)),
        ),
        Intrinsic::Shr => Some(
            Seq::empty()
                .push(pop("rcx"@))
                .push(pop("rax"@))
                .push(plain("shr rax, cl"@))
                .push(push("rax"@)),
        ),
        Intrinsic::Syscall(arguments) => if arguments <= SYSCALL_ARGUMENTS {
            let number = Seq::empty().push(pop("rax"@));
            let call = Seq::empty().push(plain("syscall"@)).push(push("rax"@));
            Some(number + syscall_pops(arguments as nat) + call)
        } else {
            None
        },
        Intrinsic::Print => Some(
            Seq::empty().push(pop("rdi"@)).push(plain("call "@ + print_label())),
        ),
    }
}

/// The index of the first parameter called `name` among those from `from` on.
pub open spec fn parameter_index(parameters: Seq<Parameter>, name: Seq<char>, from: nat) -> Option<
    nat,
>
    decreases parameters.len() - from,
{
    if from >= parameters.len() {
        None
    } else if parameters[from as int].name@ == name {
        Some(from)
    } else {
        parameter_index(parameters, name, from + 1)
    }
}

/// Whether the text of a truth value stands for true.
pub open spec fn is_true(value: Seq<char>) -> bool {
    value.len() > 0 && (value[0] == 't' || value[0] == 'T')
}

/// The label of the text of the string literal at `position`.
pub open spec fn string_label(name: Seq<char>, position: nat) -> Seq<char> {
    name + "@str_"@ + decimal(position)
}

/// The number that a character literal stands for: the number of the
/// character behind its opening quote, zero if there is none.
pub open spec fn character_number(value: Seq<char>) -> u32 {
    if value.len() >= 2 {
        value[1] as u32
    } else {
        0
    }
}

/// Where the parameter at `index` of `count` parameters stands, counted
/// in values from the one that was pushed last.
pub open spec fn parameter_place(count: nat, index: nat) -> nat {
    (count - 1 - index) as nat
}

/// The instructions that push the value of a literal or of a parameter;
/// none for a name that is no parameter and for a token that has no value.
/// A truth value is pushed as one or zero, a character as its number, the
/// text of a string as bytes in the data of the program, and any other
/// literal as the number that its text starts with. A parameter is taken
/// from where the caller has pushed it.
pub open spec fn push_code(function: FunctionView, position: nat, token: Token) -> Option<
    Seq<InstructionView>,
> {
    match token.typ {
        TokenType::Literal(DataType::Boolean) => Some(
            Seq::empty().push(
                push(
                    if is_true(token.value@) {
                        "1"@
                    } else {
                        "0"@
                    },
                ),
            ),
        ),
        TokenType::Literal(DataType::Character) => Some(
            Seq::empty().push(push(decimal(character_number(token.value@) as nat))),
        ),
        TokenType::Literal(DataType::String) => Some(
            Seq::empty()
                .push(InstructionView::Line("section .data"@))
                .push(
                    InstructionView::Data(
                        string_label(function.name@, position),
                        unquoted(encode_utf8(token.value@), 34),
                    ),
                )
                .push(InstructionView::Line("section .text"@))
                .push(plain("mov rax, "@ + string_label(function.name@, position)))
                .push(push("rax"@)),
        ),
        TokenType::Literal(_) => Some(
            Seq::empty().push(plain("mov rax, "@ + number_text(token.value@))).push(push("rax"@)),
        ),
        TokenType::Identifier => match parameter_index(
            function.signature.parameters,
            token.value@,
            0,
        ) {
            Some(index) => Some(
                Seq::empty().push(
                    push(
                        "qword [rbp+16+8*"@ + decimal(
                            parameter_place(function.signature.parameters.len(), index),
                        ) + "]"@,
                    ),
                ),
            ),
            None => None,
        },
        _ => None,
    }
}

/// The instructions of a call. The arguments stand on the stack, where
/// the callee finds them and leaves what it returns below them; behind the
/// call they are given up.
pub open spec fn call_code(info: FunctionCallInfo) -> Seq<InstructionView> {
    let call = Seq::empty().push(InstructionView::Call(info.function_name@));
    if info.argument_count > 0 {
        call.push(InstructionView::Release(info.argument_count))
    } else {
        call
    }
}

/// Where the arm before an `elif` or `else` leaves its conditional: behind
/// the `endif`, which is the exit of the keyword or, for the last arm, its target.
pub open spec fn chain_exit(jump: Jump) -> Option<usize> {
    match jump.exit {
        Some(exit) => Some(exit),
        None => jump.target,
    }
}

/// The instructions that end the arm before an operation: a jump out of the
/// conditional before `elif` and `else`, nothing before any other
/// operation. None where the jump is not resolved.
pub open spec fn before_code(name: Seq<char>, typ: OpType) -> Option<Seq<InstructionView>> {
    match typ {
        OpType::Elif(jump) | OpType::Else(jump) => match chain_exit(jump) {
            Some(exit) => Some(jump_code(name, exit as nat)),
            None => None,
        },
        _ => Some(Seq::empty()),
    }
}

/// The instructions of the operation at `position` of a function; none for
/// an operation that cannot be written: a block keyword whose jump is not
/// resolved, and what `push_code` and `intrinsic_code` refuse.
pub open spec fn op_code(function: FunctionView, position: nat, typ: OpType) -> Option<
    Seq<InstructionView>,
> {
    let name = function.name@;
    match typ {
        OpType::Push(token) => push_code(function, position, token),
        OpType::Calculation(calculation) => Some(calculation_code(calculation)),
        OpType::Comparison(comparison) => Some(comparison_code(comparison)),
        OpType::Intrinsic(intrinsic) => intrinsic_code(intrinsic),
        OpType::Cast(_) => Some(Seq::empty()),
        OpType::FunctionCall(info) => Some(call_code(info)),
        OpType::Return => Some(jump_code(name, function.ops.len() as nat)),
        OpType::If(jump) | OpType::Elif(jump) | OpType::Do(jump) => match jump.target {
            Some(target) => Some(branch_code(name, target as nat)),
            None => None,
        },
        OpType::Done(jump) | OpType::Break(jump) | OpType::Continue(jump) => match jump.target {
            Some(target) => Some(jump_code(name, target as nat)),
            None => None,
        },
        OpType::Else(_) | OpType::Endif | OpType::While => Some(Seq::empty()),
    }
}

/// The definition of the label of a position of the function.
pub open spec fn label_line(name: Seq<char>, position: nat) -> InstructionView {
    InstructionView::Label(label(name, position))
}

/// The block of the operation at `position`: the end of the arm before it,
/// its label and its instructions.
pub open spec fn op_block(function: FunctionView, position: nat) -> Option<Seq<InstructionView>> {
    let typ = function.ops[position as int].typ;
    match (before_code(function.name@, typ), op_code(function, position, typ)) {
        (Some(before), Some(code)) => Some(
            before + Seq::empty().push(label_line(function.name@, position)) + code,
        ),
        _ => None,
    }
}

/// The error for an operation that cannot be written.
pub open spec fn unsupported(location: Location) -> CompilerError {
    CompilerError::CodeGenError(CodeGenError::UnsupportedOp, location)
}

/// The blocks of the first `count` operations, or the error for the first
/// of them that cannot be written.
pub open spec fn blocks(function: FunctionView, count: nat) -> Result<
    Seq<InstructionView>,
    CompilerError,
>
    decreases count,
{
    if count == 0 {
        Ok(Seq::empty())
    } else {
        match blocks(function, (count - 1) as nat) {
            Err(error) => Err(error),
            Ok(code) => match op_block(function, (count - 1) as nat) {
                Some(block) => Ok(code + block),
                None => Err(unsupported(function.ops[count - 1].start_loc)),
            },
        }
    }
}

/// The instructions at the end of a body that has operations: the label
/// behind the last operation, and the stack of the body given up. Where
/// the function returns a value, that value is taken from the stack first
/// and left for the caller below the arguments: the saved frame and the
/// address of the return move up by one value to make its place. A body
/// without operations needs none of them.
pub open spec fn body_end_code(function: FunctionView) -> Seq<InstructionView> {
    if function.ops.len() == 0 {
        Seq::empty()
    } else {
        let place = Seq::empty().push(label_line(function.name@, function.ops.len() as nat));
        if function.signature.return_type is Some {
            place
                .push(pop("rax"@))
                .push(plain("mov rsp, rbp"@))
                .push(push("qword [rsp]"@))
                .push(plain("mov rcx, [rsp+16]"@))
                .push(plain("mov [rsp+8], rcx"@))
                .push(
                    plain(
                        "mov [rsp+16+8*"@ + decimal(function.signature.parameters.len()) + "], rax"@,
                    ),
                )
        } else {
            place.push(plain("mov rsp, rbp"@))
        }
    }
}

/// The instructions of the routine of a function: its start, one block for
/// each operation in order, the end of its body, and its end.
pub open spec fn routine_code(function: FunctionView) -> Result<Seq<InstructionView>, CompilerError> {
    match blocks(function, function.ops.len() as nat) {
        Err(error) => Err(error),
        Ok(code) => Ok(start_code(function.name@) + code + body_end_code(function) + end_code()),
    }
}

/// The routine of a function: the text of its instructions, one line for each.
pub open spec fn function_assembly(function: FunctionView) -> Result<Seq<char>, CompilerError> {
    match routine_code(function) {
        Err(error) => Err(error),
        Ok(code) => Ok(rendered(code)),
    }
}

/// The instructions at the start of a program: the entry of the process,
/// which calls the entry function and leaves with what that returns, and
/// the routine that the built-in word for printing calls, which writes the
/// number in `rdi` to the standard output, in decimal, with a line feed.
pub open spec fn program_start_code() -> Seq<InstructionView> {
    Seq::empty()
        .push(InstructionView::Line("section .text"@))
        .push(InstructionView::Line("global "@ + entry_label()))
        .push(InstructionView::Label(entry_label()))
        .push(plain("call main"@))
        .push(plain("mov rdi, rax"@))
        .push(plain("mov rax, 60"@))
        .push(plain("syscall"@))
        .push(InstructionView::Line(""@))
        .push(InstructionView::Label(print_label()))
        .push(plain("mov rax, rdi"@))
        .push(plain("mov rcx, 10"@))
        .push(plain("sub rsp, 40"@))
        .push(plain("lea rsi, [rsp+39]"@))
        .push(plain("mov byte [rsi], 10"@))
        .push(plain("mov r8, 1"@))
        .push(InstructionView::Label(digit_label()))
        .push(plain("xor rdx, rdx"@))
        .push(plain("div rcx"@))
        .push(plain("add dl, 48"@))
        .push(plain("dec rsi"@))
        .push(plain("mov [rsi], dl"@))
        .push(plain("inc r8"@))
        .push(plain("test rax, rax"@))
        .push(plain("jnz "@ + digit_label()))
        .push(plain("mov rax, 1"@))
        .push(plain("mov rdi, 1"@))
        .push(plain("mov rdx, r8"@))
        .push(plain("syscall"@))
        .push(plain("add rsp, 40"@))
        .push(plain("ret"@))
        .push(InstructionView::Line(""@))
}

/// The instructions of the routines of the first `count` functions, in order.
pub open spec fn routines(functions: Seq<FunctionView>, count: nat) -> Result<
    Seq<InstructionView>,
    CompilerError,
>
    decreases count,
{
    if count == 0 {
        Ok(Seq::empty())
    } else {
        match routines(functions, (count - 1) as nat) {
            Err(error) => Err(error),
            Ok(code) => match routine_code(functions[count - 1]) {
                Err(error) => Err(error),
                Ok(routine) => Ok(code + routine),
            },
        }
    }
}

/// The instructions of the functions: the routine of each, in the order of
/// the functions, and nothing else.
pub open spec fn program_code(functions: Seq<FunctionView>) -> Result<
    Seq<InstructionView>,
    CompilerError,
> {
    routines(functions, functions.len())
}

/// The assembly of the functions: the text of their instructions, one line
/// for each. It is the routines of the functions one behind the other.
pub open spec fn program_assembly(functions: Seq<FunctionView>) -> Result<Seq<char>, CompilerError> {
    match program_code(functions) {
        Err(error) => Err(error),
        Ok(code) => Ok(rendered(code)),
    }
}

fn push_label(text: &mut String, name: &str, position: usize)
    ensures
        final(text)@ == old(text)@ + label(name@, position as nat),
{
    text.append(name);
    text.append("@op_");
    push_decimal(text, position);
    assert(text@ =~= old(text)@ + label(name@, position as nat));
}

fn syscall_register_name(index: usize) -> (name: &'static str)
    ensures
        name@ == syscall_register(index as nat),
{
    if index == 0 {
        "rdi"
    } else if index == 1 {
        "rsi"
    } else if index == 2 {
        "rdx"
    } else if index == 3 {
        "r10"
    } else if index == 4 {
        "r8"
    } else {
        "r9"
    }
}

/// Writes the start of a routine: its label and the set-up of its frame.
pub fn function_start_assembly(function_name: &str) -> (assembly: String)
    ensures
        assembly@ == function_start(function_name@),
        assembly@ == function_name@ + ":\n  push rbp\n  mov rbp, rsp\n"@,
{
    broadcast use lemma_rendered_of_push;

    proof {
        reveal_strlit(":\n  push rbp\n  mov rbp, rsp\n");
        reveal_strlit(":\n");
        reveal_strlit("  push ");
        reveal_strlit("rbp");
        reveal_strlit("\n");
        reveal_strlit("  ");
        reveal_strlit("mov rbp, rsp");
        assert(rendered(Seq::<InstructionView>::empty()) =~= Seq::<char>::empty());
        assert(function_start(function_name@) =~= function_name@
            + ":\n  push rbp\n  mov rbp, rsp\n"@);
    }

    let mut assembly = String::new();
    Instruction::Label(function_name.to_string()).write(&mut assembly);
    Instruction::Push("rbp".to_string()).write(&mut assembly);
    Instruction::Plain("mov rbp, rsp".to_string()).write(&mut assembly);
    assert(rendered(Seq::<InstructionView>::empty()) =~= Seq::<char>::empty());
    assert(assembly@ =~= function_start(function_name@));
    assembly
}

/// The end of a routine: the frame of the caller is restored, and an
/// empty line follows.
pub fn function_end_assembly<'a>() -> (assembly: &'a str)
    ensures
        assembly@ == function_end(),
        assembly@ == "  pop rbp\n  ret\n\n"@,
{
    broadcast use lemma_rendered_of_push;

    proof {
        reveal_strlit("  pop rbp\n  ret\n\n");
        reveal_strlit("  pop ");
        reveal_strlit("rbp");
        reveal_strlit("\n");
        reveal_strlit("  ");
        reveal_strlit("ret");
        reveal_strlit("");
        assert(rendered(Seq::<InstructionView>::empty()) =~= Seq::<char>::empty());
        assert(function_end() =~= "  pop rbp\n  ret\n\n"@);
    }
    "  pop rbp\n  ret\n\n"
}

fn pop_into(code: &mut Vec<Instruction>, register: &str)
    ensures
        instruction_views(final(code)@) == instruction_views(old(code)@).push(pop(register@)),
{
    code.push(Instruction::Pop(register.to_string()));
    assert(instruction_views(code@) =~= instruction_views(old(code)@).push(pop(register@)));
}

fn push_from(code: &mut Vec<Instruction>, operand: &str)
    ensures
        instruction_views(final(code)@) == instruction_views(old(code)@).push(push(operand@)),
{
    code.push(Instruction::Push(operand.to_string()));
    assert(instruction_views(code@) =~= instruction_views(old(code)@).push(push(operand@)));
}

fn add_plain(code: &mut Vec<Instruction>, text: String)
    ensures
        instruction_views(final(code)@) == instruction_views(old(code)@).push(plain(text@)),
{
    code.push(Instruction::Plain(text));
    assert(instruction_views(code@) =~= instruction_views(old(code)@).push(plain(text@)));
}

fn add_label(code: &mut Vec<Instruction>, label: String)
    ensures
        instruction_views(final(code)@) == instruction_views(old(code)@).push(
            InstructionView::Label(label@),
        ),
{
    code.push(Instruction::Label(label));
    assert(instruction_views(code@) =~= instruction_views(old(code)@).push(
        InstructionView::Label(label@),
    ));
}

fn add_line(code: &mut Vec<Instruction>, text: String)
    ensures
        instruction_views(final(code)@) == instruction_views(old(code)@).push(
            InstructionView::Line(text@),
        ),
{
    code.push(Instruction::Line(text));
    assert(instruction_views(code@) =~= instruction_views(old(code)@).push(
        InstructionView::Line(text@),
    ));
}

fn add_syscall_pops(code: &mut Vec<Instruction>, count: usize)
    ensures
        instruction_views(final(code)@) == instruction_views(old(code)@) + syscall_pops(
            count as nat,
        ),
{
    let mut at: usize = 0;
    assert(instruction_views(code@) =~= instruction_views(old(code)@) + syscall_pops(0));
    while at < count
        invariant
            at <= count,
            instruction_views(code@) == instruction_views(old(code)@) + syscall_pops(at as nat),
        decreases count - at,
    {
        pop_into(code, syscall_register_name(at));
        at += 1;
        assert(instruction_views(code@) =~= instruction_views(old(code)@) + syscall_pops(
            at as nat,
        ));
    }
}

fn add_jump(code: &mut Vec<Instruction>, name: &str, target: usize)
    ensures
        instruction_views(final(code)@) == instruction_views(old(code)@) + jump_code(
            name@,
            target as nat,
        ),
{
    let mut text = String::new();
    text.append("jmp ");
    push_label(&mut text, name, target);
    assert(text@ =~= "jmp "@ + label(name@, target as nat));
    add_plain(code, text);
    assert(instruction_views(code@) =~= instruction_views(old(code)@) + jump_code(
        name@,
        target as nat,
    ));
}

fn add_branch(code: &mut Vec<Instruction>, name: &str, target: usize)
    ensures
        instruction_views(final(code)@) == instruction_views(old(code)@) + branch_code(
            name@,
            target as nat,
        ),
{
    pop_into(code, "rax");
    add_plain(code, "test rax, rax".to_string());
    let mut text = String::new();
    text.append("jz ");
    push_label(&mut text, name, target);
    assert(text@ =~= "jz "@ + label(name@, target as nat));
    add_plain(code, text);
    assert(instruction_views(code@) =~= instruction_views(old(code)@) + branch_code(
        name@,
        target as nat,
    ));
}

fn add_calculation(code: &mut Vec<Instruction>, calculation: Calculation)
    ensures
        instruction_views(final(code)@) == instruction_views(old(code)@) + calculation_code(
            calculation,
        ),
{
    pop_into(code, "rbx");
    pop_into(code, "rax");
    match calculation {
        Calculation::Addition => {
            add_plain(code, "add rax, rbx".to_string());
        },
        Calculation::Subtraction => {
            add_plain(code, "sub rax, rbx".to_string());
        },
        Calculation::Division => {
            add_plain(code, "cqo".to_string());
            add_plain(code, "idiv rbx".to_string());
        },
        Calculation::Multiplication => {
            add_plain(code, "imul rax, rbx".to_string());
        },
    }
    push_from(code, "rax");
    assert(instruction_views(code@) =~= instruction_views(old(code)@) + calculation_code(
        calculation,
    ));
}

fn set_assembly(comparison: Comparison) -> (assembly: &'static str)
    ensures
        assembly@ == set_instruction(comparison),
{
    match comparison {
        Comparison::Equals => "sete al",
        Comparison::GreaterOrEqual => "setge al",
        Comparison::GreaterThan => "setg al",
        Comparison::LessOrEqual => "setle al",
        Comparison::LessThan => "setl al",
        Comparison::NotEquals => "setne al",
    }
}

fn add_comparison(code: &mut Vec<Instruction>, comparison: Comparison)
    ensures
        instruction_views(final(code)@) == instruction_views(old(code)@) + comparison_code(
            comparison,
        ),
{
    pop_into(code, "rbx");
    pop_into(code, "rax");
    add_plain(code, "cmp rax, rbx".to_string());
    add_plain(code, set_assembly(comparison).to_string());
    add_plain(code, "movzx rax, al".to_string());
    push_from(code, "rax");
    assert(instruction_views(code@) =~= instruction_views(old(code)@) + comparison_code(
        comparison,
    ));
}

fn value_register_name(size: ChunkSize) -> (name: &'static str)
    ensures
        name@ == value_register(size),
{
    match size {
        ChunkSize::Byte => "bl",
        ChunkSize::Word => "bx",
        ChunkSize::Dword => "ebx",
        ChunkSize::Qword => "rbx",
    }
}

fn add_intrinsic(code: &mut Vec<Instruction>, intrinsic: Intrinsic) -> (written: bool)
    ensures
        match intrinsic_code(intrinsic) {
            Some(added) => written && instruction_views(final(code)@) == instruction_views(
                old(code)@,
            ) + added,
            None => !written,
        },
{
    match intrinsic {
        Intrinsic::Dup => {
            pop_into(code, "rax");
            push_from(code, "rax");
            push_from(code, "rax");
        },
        Intrinsic::Drop => {
            pop_into(code, "rax");
        },
        Intrinsic::Swap => {
            pop_into(code, "rax");
            pop_into(code, "rbx");
            push_from(code, "rax");
            push_from(code, "rbx");
        },
        Intrinsic::Rot => {
            pop_into(code, "rcx");
            pop_into(code, "rbx");
            pop_into(code, "rax");
            push_from(code, "rbx");
            push_from(code, "rcx");
            push_from(code, "rax");
        },
        Intrinsic::Over => {
            pop_into(code, "rbx");
            pop_into(code, "rax");
            push_from(code, "rax");
            push_from(code, "rbx");
            push_from(code, "rax");
        },
        Intrinsic::Load(size) => {
            pop_into(code, "rax");
            add_plain(code, "xor rbx, rbx".to_string());
            let mut text = String::new();
            text.append("mov ");
            text.append(value_register_name(size));
            text.append(", [rax]");
            assert(text@ =~= "mov "@ + value_register(size) + ", [rax]"@);
            add_plain(code, text);
            push_from(code, "rbx");
        },
        Intrinsic::Store(size) => {
            pop_into(code, "rax");
            pop_into(code, "rbx");
            let mut text = String::new();
            text.append("mov [rax], ");
            text.append(value_register_name(size));
            assert(text@ =~= "mov [rax], "@ + value_register(size));
            add_plain(code, text);
        },
        Intrinsic::Shl => {
            pop_into(code, "rcx");
            pop_into(code, "rax");
            add_plain(code, "shl rax, cl".to_string());
            push_from(code, "rax");
        },
        Intrinsic::Shr => {
            pop_into(code, "rcx");
            pop_into(code, "rax");
            add_plain(code, "shr rax, cl".to_string());
            push_from(code, "rax");
        },
        Intrinsic::Syscall(arguments) => {
            if arguments > SYSCALL_ARGUMENTS {
                return false;
            }
            pop_into(code, "rax");
            add_syscall_pops(code, arguments as usize);
            add_plain(code, "syscall".to_string());
            push_from(code, "rax");
        },
        Intrinsic::Print => {
            pop_into(code, "rdi");
            let mut text = String::new();
            text.append("call ");
            text.append("?print");
            assert(text@ =~= "call "@ + print_label());
            add_plain(code, text);
        },
    }
    assert(instruction_views(code@) =~= instruction_views(old(code)@) + intrinsic_code(
        intrinsic,
    )->Some_0);
    true
}

/// The index of the first parameter called `name`.
pub fn find_parameter_index(parameters: &Vec<Parameter>, name: &str) -> (found: Option<usize>)
    ensures
        match found {
            Some(index) => parameter_index(parameters@, name@, 0) == Some(index as nat) && index
                < parameters.len(),
            None => parameter_index(parameters@, name@, 0) is None,
        },
{
    let mut at: usize = 0;
    while at < parameters.len()
        invariant
            at <= parameters.len(),
            parameter_index(parameters@, name@, 0) == parameter_index(parameters@, name@, at as nat),
        decreases parameters.len() - at,
    {
        if str_eq(parameters[at].name.as_str(), name) {
            return Some(at);
        }
        at += 1;
    }
    None
}

fn starts_true(value: &str) -> (truth: bool)
    ensures
        truth == is_true(value@),
{
    if value.unicode_len() == 0 {
        return false;
    }
    let first = value.get_char(0);
    first == 't' || first == 'T'
}

fn push_string_label(text: &mut String, name: &str, position: usize)
    ensures
        final(text)@ == old(text)@ + string_label(name@, position as nat),
{
    text.append(name);
    text.append("@str_");
    push_decimal(text, position);
    assert(text@ =~= old(text)@ + string_label(name@, position as nat));
}

fn character_of(value: &str) -> (number: u32)
    ensures
        number == character_number(value@),
{
    if value.unicode_len() >= 2 {
        value.get_char(1) as u32
    } else {
        0
    }
}

fn add_value(code: &mut Vec<Instruction>, function: &Function, position: usize, token: &Token) -> (written:
    bool)
    ensures
        match push_code(function@, position as nat, *token) {
            Some(added) => written && instruction_views(final(code)@) == instruction_views(
                old(code)@,
            ) + added,
            None => !written,
        },
{
    let name = function.name.as_str();
    let value = token.value.as_str();
    match &token.typ {
        TokenType::Literal(DataType::Boolean) => {
            if starts_true(value) {
                push_from(code, "1");
            } else {
                push_from(code, "0");
            }
        },
        TokenType::Literal(DataType::Character) => {
            let mut text = String::new();
            push_decimal(&mut text, character_of(value) as usize);
            assert(text@ =~= decimal(character_number(token.value@) as nat));
            push_from(code, text.as_str());
        },
        TokenType::Literal(DataType::String) => {
            add_line(code, "section .data".to_string());
            let mut defined = String::new();
            push_string_label(&mut defined, name, position);
            assert(defined@ =~= string_label(function.name@, position as nat));
            let ghost before = instruction_views(code@);
            let bytes = unquoted_bytes(value, 34);
            code.push(Instruction::Data(defined, bytes));
            assert(instruction_views(code@) =~= before.push(
                InstructionView::Data(
                    string_label(function.name@, position as nat),
                    unquoted(encode_utf8(token.value@), 34),
                ),
            ));
            add_line(code, "section .text".to_string());
            let mut text = String::new();
            text.append("mov rax, ");
            push_string_label(&mut text, name, position);
            assert(text@ =~= "mov rax, "@ + string_label(function.name@, position as nat));
            add_plain(code, text);
            push_from(code, "rax");
        },
        TokenType::Literal(_) => {
            let mut text = String::new();
            text.append("mov rax, ");
            push_number(&mut text, value);
            assert(text@ =~= "mov rax, "@ + number_text(token.value@));
            add_plain(code, text);
            push_from(code, "rax");
        },
        TokenType::Identifier => match find_parameter_index(&function.signature.parameters, value) {
            Some(index) => {
                let mut text = String::new();
                text.append("qword [rbp+16+8*");
                push_decimal(&mut text, function.signature.parameters.len() - 1 - index);
                text.append("]");
                assert(text@ =~= "qword [rbp+16+8*"@ + decimal(
                    parameter_place(function.signature.parameters.len() as nat, index as nat),
                ) + "]"@);
                push_from(code, text.as_str());
            },
            None => {
                return false;
            },
        },
        _ => {
            return false;
        },
    }
    assert(instruction_views(code@) =~= instruction_views(old(code)@) + push_code(
        function@,
        position as nat,
        *token,
    )->Some_0);
    true
}

fn add_call(code: &mut Vec<Instruction>, info: &FunctionCallInfo)
    ensures
        instruction_views(final(code)@) == instruction_views(old(code)@) + call_code(*info),
{
    let ghost before = instruction_views(code@);
    code.push(Instruction::Call(info.function_name.clone()));
    if info.argument_count > 0 {
        code.push(Instruction::Release(info.argument_count));
    }
    assert(instruction_views(code@) =~= before + call_code(*info));
}

fn add_before(code: &mut Vec<Instruction>, name: &str, typ: &OpType) -> (written: bool)
    ensures
        match before_code(name@, *typ) {
            Some(added) => written && instruction_views(final(code)@) == instruction_views(
                old(code)@,
            ) + added,
            None => !written,
        },
{
    let jump = match typ {
        OpType::Elif(jump) => *jump,
        OpType::Else(jump) => *jump,
        _ => {
            assert(instruction_views(code@) =~= instruction_views(old(code)@) + Seq::<
                InstructionView,
            >::empty());
            return true;
        },
    };
    let exit = match jump.exit {
        Some(exit) => Some(exit),
        None => jump.target,
    };
    match exit {
        Some(exit) => {
            add_jump(code, name, exit);
            true
        },
        None => false,
    }
}

fn add_op(code: &mut Vec<Instruction>, function: &Function, position: usize) -> (written: bool)
    requires
        position < function.ops.len(),
    ensures
        match op_code(function@, position as nat, function.ops[position as int].typ) {
            Some(added) => written && instruction_views(final(code)@) == instruction_views(
                old(code)@,
            ) + added,
            None => !written,
        },
{
    let name = function.name.as_str();
    assert(instruction_views(code@) =~= instruction_views(old(code)@) + Seq::<
        InstructionView,
    >::empty());
    match &function.ops[position].typ {
        OpType::Push(token) => add_value(code, function, position, token),
        OpType::Calculation(calculation) => {
            add_calculation(code, *calculation);
            true
        },
        OpType::Comparison(comparison) => {
            add_comparison(code, *comparison);
            true
        },
        OpType::Intrinsic(intrinsic) => add_intrinsic(code, *intrinsic),
        OpType::Cast(_) => true,
        OpType::FunctionCall(info) => {
            add_call(code, info);
            true
        },
        OpType::Return => {
            add_jump(code, name, function.ops.len());
            true
        },
        OpType::If(jump) | OpType::Elif(jump) | OpType::Do(jump) => match jump.target {
            Some(target) => {
                add_branch(code, name, target);
                true
            },
            None => false,
        },
        OpType::Done(jump) | OpType::Break(jump) | OpType::Continue(jump) => match jump.target {
            Some(target) => {
                add_jump(code, name, target);
                true
            },
            None => false,
        },
        OpType::Else(_) | OpType::Endif | OpType::While => true,
    }
}

/// Appends the block of the operation at `position` to the instructions.
/// The result says whether the operation could be written; if not, the
/// instructions are of no use.
fn add_block(code: &mut Vec<Instruction>, function: &Function, position: usize) -> (written: bool)
    requires
        position < function.ops.len(),
    ensures
        match op_block(function@, position as nat) {
            Some(block) => written && instruction_views(final(code)@) == instruction_views(
                old(code)@,
            ) + block,
            None => !written,
        },
{
    let name = function.name.as_str();
    if !add_before(code, name, &function.ops[position].typ) {
        return false;
    }
    let mut place = String::new();
    push_label(&mut place, name, position);
    assert(place@ =~= label(function.name@, position as nat));
    add_label(code, place);
    if !add_op(code, function, position) {
        return false;
    }
    assert(instruction_views(code@) =~= instruction_views(old(code)@) + op_block(
        function@,
        position as nat,
    )->Some_0);
    true
}

/// Writes the instructions of the body of a function: one block for each
/// operation, in order.
pub fn generate_instructions(function: &Function) -> (outcome: Result<
    Vec<Instruction>,
    CompilerError,
>)
    ensures
        match blocks(function@, function.ops.len() as nat) {
            Ok(code) => outcome matches Ok(found) && instruction_views(found@) == code,
            Err(error) => outcome == Err::<Vec<Instruction>, CompilerError>(error),
        },
{
    let mut code: Vec<Instruction> = Vec::new();
    let mut at: usize = 0;
    assert(instruction_views(code@) =~= Seq::empty());
    while at < function.ops.len()
        invariant
            at <= function.ops.len(),
            blocks(function@, at as nat) == Ok::<Seq<InstructionView>, CompilerError>(
                instruction_views(code@),
            ),
        decreases function.ops.len() - at,
    {
        if !add_block(&mut code, function, at) {
            proof {
                lemma_block_error_stays(function@, (at + 1) as nat, function.ops.len() as nat);
            }
            return Err(
                CompilerError::CodeGenError(
                    CodeGenError::UnsupportedOp,
                    function.ops[at].start_loc.clone(),
                ),
            );
        }
        at += 1;
    }
    Ok(code)
}

/// Writes the instructions of the end of a body.
fn generate_body_end(function: &Function) -> (code: Vec<Instruction>)
    ensures
        instruction_views(code@) == body_end_code(function@),
{
    let mut code: Vec<Instruction> = Vec::new();
    assert(instruction_views(code@) =~= Seq::empty());
    if function.ops.len() == 0 {
        return code;
    }
    let mut place = String::new();
    push_label(&mut place, function.name.as_str(), function.ops.len());
    assert(place@ =~= label(function.name@, function.ops.len() as nat));
    add_label(&mut code, place);
    match &function.signature.return_type {
        Some(_) => {
            pop_into(&mut code, "rax");
            add_plain(&mut code, "mov rsp, rbp".to_string());
            push_from(&mut code, "qword [rsp]");
            add_plain(&mut code, "mov rcx, [rsp+16]".to_string());
            add_plain(&mut code, "mov [rsp+8], rcx".to_string());
            let mut text = String::new();
            text.append("mov [rsp+16+8*");
            push_decimal(&mut text, function.signature.parameters.len());
            text.append("], rax");
            assert(text@ =~= "mov [rsp+16+8*"@ + decimal(
                function.signature.parameters.len() as nat,
            ) + "], rax"@);
            add_plain(&mut code, text);
        },
        None => {
            add_plain(&mut code, "mov rsp, rbp".to_string());
        },
    }
    assert(instruction_views(code@) =~= body_end_code(function@));
    code
}

/// Writes the routine of a function.
pub fn generate_function_assembly(function: &Function) -> (outcome: Result<String, CompilerError>)
    ensures
        match function_assembly(function@) {
            Ok(text) => outcome matches Ok(assembly) && assembly@ == text,
            Err(error) => outcome == Err::<String, CompilerError>(error),
        },
        function.ops.len() == 0 ==> (outcome matches Ok(assembly) && assembly@ == function.name@
            + ":\n  push rbp\n  mov rbp, rsp\n  pop rbp\n  ret\n\n"@),
{
    proof {
        if function.ops.len() == 0 {
            crate::laws::routines::lemma_empty_routine_text(function@);
        }
    }
    let code = generate_instructions(function)?;
    let end = generate_body_end(function);
    let mut assembly: String = function_start_assembly(function.name.as_str());
    write_instructions(&mut assembly, &code);
    write_instructions(&mut assembly, &end);
    assembly.append(function_end_assembly());
    proof {
        let start = start_code(function.name@);
        let body = instruction_views(code@);
        lemma_rendered_of_both(start, body);
        lemma_rendered_of_both(start + body, body_end_code(function@));
        lemma_rendered_of_both(start + body + body_end_code(function@), end_code());
        assert(assembly@ =~= function_assembly(function@)->Ok_0);
    }
    Ok(assembly)
}

/// Once an operation cannot be written, the blocks of more operations give
/// the same error.
pub proof fn lemma_block_error_stays(function: FunctionView, count: nat, more: nat)
    requires
        count <= more,
        blocks(function, count) is Err,
    ensures
        blocks(function, more) == blocks(function, count),
    decreases more,
{
    if count < more {
        lemma_block_error_stays(function, count, (more - 1) as nat);
    }
}

/// Once a function cannot be written, the routines of more functions give
/// the same error.
pub proof fn lemma_routine_error_stays(functions: Seq<FunctionView>, count: nat, more: nat)
    requires
        count <= more,
        routines(functions, count) is Err,
    ensures
        routines(functions, more) == routines(functions, count),
    decreases more,
{
    if count < more {
        lemma_routine_error_stays(functions, count, (more - 1) as nat);
    }
}

fn add_plain_text(code: &mut Vec<Instruction>, text: &str)
    ensures
        instruction_views(final(code)@) == instruction_views(old(code)@).push(plain(text@)),
{
    add_plain(code, text.to_string());
}

/// Writes the instructions of the start of a program.
pub fn generate_program_start() -> (code: Vec<Instruction>)
    ensures
        instruction_views(code@) == program_start_code(),
{
    let mut code: Vec<Instruction> = Vec::new();
    assert(instruction_views(code@) =~= Seq::empty());
    add_line(&mut code, "section .text".to_string());
    let mut global = String::new();
    global.append("global ");
    global.append("?start");
    assert(global@ =~= "global "@ + entry_label());
    add_line(&mut code, global);
    add_label(&mut code, "?start".to_string());
    add_plain_text(&mut code, "call main");
    add_plain_text(&mut code, "mov rdi, rax");
    add_plain_text(&mut code, "mov rax, 60");
    add_plain_text(&mut code, "syscall");
    add_line(&mut code, "".to_string());
    add_label(&mut code, "?print".to_string());
    add_plain_text(&mut code, "mov rax, rdi");
    add_plain_text(&mut code, "mov rcx, 10");
    add_plain_text(&mut code, "sub rsp, 40");
    add_plain_text(&mut code, "lea rsi, [rsp+39]");
    add_plain_text(&mut code, "mov byte [rsi], 10");
    add_plain_text(&mut code, "mov r8, 1");
    add_label(&mut code, ".digit".to_string());
    add_plain_text(&mut code, "xor rdx, rdx");
    add_plain_text(&mut code, "div rcx");
    add_plain_text(&mut code, "add dl, 48");
    add_plain_text(&mut code, "dec rsi");
    add_plain_text(&mut code, "mov [rsi], dl");
    add_plain_text(&mut code, "inc r8");
    add_plain_text(&mut code, "test rax, rax");
    let mut again = String::new();
    again.append("jnz ");
    again.append(".digit");
    assert(again@ =~= "jnz "@ + digit_label());
    add_plain(&mut code, again);
    add_plain_text(&mut code, "mov rax, 1");
    add_plain_text(&mut code, "mov rdi, 1");
    add_plain_text(&mut code, "mov rdx, r8");
    add_plain_text(&mut code, "syscall");
    add_plain_text(&mut code, "add rsp, 40");
    add_plain_text(&mut code, "ret");
    add_line(&mut code, "".to_string());
    code
}

/// Writes the start of a program as text.
pub fn generate_program_start_assembly() -> (assembly: String)
    ensures
        assembly@ == rendered(program_start_code()),
{
    let mut assembly = String::new();
    let start = generate_program_start();
    write_instructions(&mut assembly, &start);
    assert(assembly@ =~= rendered(program_start_code()));
    assembly
}

/// Writes the assembly of functions: one routine for each function, in the
/// order of the functions, and nothing else.
pub fn generate_assembly(functions: &Vec<Function>) -> (outcome: Result<String, CompilerError>)
    ensures
        match program_assembly(function_views(functions@)) {
            Ok(text) => outcome matches Ok(assembly) && assembly@ == text,
            Err(error) => outcome == Err::<String, CompilerError>(error),
        },
        functions.len() == 0 ==> (outcome matches Ok(assembly) && assembly@ == Seq::<char>::empty()),
{
    let mut assembly = String::new();
    let mut at: usize = 0;
    assert(rendered(Seq::<InstructionView>::empty()) =~= Seq::<char>::empty());
    while at < functions.len()
        invariant
            at <= functions.len(),
            routines(function_views(functions@), at as nat) is Ok,
            assembly@ == rendered(routines(function_views(functions@), at as nat)->Ok_0),
        decreases functions.len() - at,
    {
        match generate_function_assembly(&functions[at]) {
            Ok(routine) => {
                proof {
                    lemma_rendered_of_both(
                        routines(function_views(functions@), at as nat)->Ok_0,
                        routine_code(functions[at as int]@)->Ok_0,
                    );
                }
                assembly.append(routine.as_str());
            },
            Err(error) => {
                proof {
                    lemma_routine_error_stays(
                        function_views(functions@),
                        (at + 1) as nat,
                        functions.len() as nat,
                    );
                }
                return Err(error);
            },
        }
        at += 1;
    }
    Ok(assembly)
}

/// Two positions of a function have different labels.
pub proof fn lemma_labels_differ(name: Seq<char>, left: nat, right: nat)
    requires
        left != right,
    ensures
        label(name, left) != label(name, right),
{
    if label(name, left) == label(name, right) {
        let prefix = name + "@op_"@;
        assert(label(name, left).skip(prefix.len() as int) =~= decimal(left));
        assert(label(name, right).skip(prefix.len() as int) =~= decimal(right));
        lemma_decimal_injective(left, right);
    }
}

/// No label of a position is the name of a function: the label holds `@`.
pub proof fn lemma_label_is_no_name(name: Seq<char>, position: nat, other: Seq<char>)
    requires
        is_name(other),
    ensures
        label(name, position) != other,
{
    reveal_strlit("@op_");
    if label(name, position) == other {
        assert(label(name, position)[name.len() as int] == '@');
        assert(is_name_char(other[name.len() as int]));
    }
}

/// Two labels of positions are the same label only for the same name and
/// the same position.
pub proof fn lemma_labels_are_apart(name: Seq<char>, position: nat, other: Seq<char>, place: nat)
    requires
        is_name(name),
        is_name(other),
        label(name, position) == label(other, place),
    ensures
        name == other,
        position == place,
{
    reveal_strlit("@op_");
    let left = label(name, position);
    let right = label(other, place);
    assert(left[name.len() as int] == '@');
    assert(right[other.len() as int] == '@');
    if name.len() < other.len() {
        assert(right[name.len() as int] == other[name.len() as int]);
        assert(is_name_char(other[name.len() as int]));
    } else if other.len() < name.len() {
        assert(left[other.len() as int] == name[other.len() as int]);
        assert(is_name_char(name[other.len() as int]));
    }
    assert forall|i: int| 0 <= i < name.len() implies name[i] == other[i] by {
        assert(left[i] == name[i]);
        assert(right[i] == other[i]);
    }
    assert(name =~= other);
    if position != place {
        lemma_labels_differ(name, position, place);
    }
}

/// No label of a string literal is the name of a function.
pub proof fn lemma_string_label_is_no_name(name: Seq<char>, position: nat, other: Seq<char>)
    requires
        is_name(other),
    ensures
        string_label(name, position) != other,
{
    reveal_strlit("@str_");
    if string_label(name, position) == other {
        assert(string_label(name, position)[name.len() as int] == '@');
        assert(is_name_char(other[name.len() as int]));
    }
}

/// Two labels of string literals are the same label only for the same name
/// and the same position.
pub proof fn lemma_string_labels_are_apart(
    name: Seq<char>,
    position: nat,
    other: Seq<char>,
    place: nat,
)
    requires
        is_name(name),
        is_name(other),
        string_label(name, position) == string_label(other, place),
    ensures
        name == other,
        position == place,
{
    reveal_strlit("@str_");
    let left = string_label(name, position);
    let right = string_label(other, place);
    assert(left[name.len() as int] == '@');
    assert(right[other.len() as int] == '@');
    if name.len() < other.len() {
        assert(right[name.len() as int] == other[name.len() as int]);
        assert(is_name_char(other[name.len() as int]));
    } else if other.len() < name.len() {
        assert(left[other.len() as int] == name[other.len() as int]);
        assert(is_name_char(name[other.len() as int]));
    }
    assert forall|i: int| 0 <= i < name.len() implies name[i] == other[i] by {
        assert(left[i] == name[i]);
        assert(right[i] == other[i]);
    }
    assert(name =~= other);
    let prefix = name + "@str_"@;
    assert(left.skip(prefix.len() as int) =~= decimal(position));
    assert(right.skip(prefix.len() as int) =~= decimal(place));
    lemma_decimal_injective(position, place);
}

/// No label of a string literal is the label of a position.
pub proof fn lemma_string_label_is_no_position(
    name: Seq<char>,
    position: nat,
    other: Seq<char>,
    place: nat,
)
    requires
        is_name(name),
        is_name(other),
    ensures
        string_label(name, position) != label(other, place),
{
    reveal_strlit("@str_");
    reveal_strlit("@op_");
    let left = string_label(name, position);
    let right = label(other, place);
    if left == right {
        assert(left[name.len() as int] == '@');
        assert(right[other.len() as int] == '@');
        if name.len() < other.len() {
            assert(right[name.len() as int] == other[name.len() as int]);
            assert(is_name_char(other[name.len() as int]));
        } else if other.len() < name.len() {
            assert(left[other.len() as int] == name[other.len() as int]);
            assert(is_name_char(name[other.len() as int]));
        }
        assert(left[name.len() as int + 1] == 's');
        assert(right[other.len() as int + 1] == 'o');
    }
}

/// Whether the text is one of the labels that every program has: that of
/// the entry of the process, and those of the routine for printing.
pub open spec fn is_program_label(text: Seq<char>) -> bool {
    text == entry_label() || text == print_label() || text == digit_label()
}

/// The labels that every program has differ from each other.
pub proof fn lemma_program_labels_differ()
    ensures
        entry_label() != print_label(),
        entry_label() != digit_label(),
        print_label() != digit_label(),
{
    reveal_strlit("?start");
    reveal_strlit("?print");
    reveal_strlit(".digit");
    assert(entry_label()[1] == 's');
    assert(print_label()[1] == 'p');
    assert(entry_label()[0] == '?');
    assert(print_label()[0] == '?');
    assert(digit_label()[0] == '.');
}

/// The labels that every program has differ from every name and from every
/// label of a function that has a name.
pub proof fn lemma_program_labels_are_apart(text: Seq<char>, name: Seq<char>, position: nat)
    requires
        is_program_label(text),
        is_name(name),
    ensures
        text != name,
        text != label(name, position),
        text != string_label(name, position),
{
    reveal_strlit("?start");
    reveal_strlit("?print");
    reveal_strlit(".digit");
    assert(entry_label()[0] == '?');
    assert(print_label()[0] == '?');
    assert(digit_label()[0] == '.');
    assert(!is_name_char(text[0]));
    assert(is_name_char(name[0]));
    assert(label(name, position)[0] == name[0]);
    assert(string_label(name, position)[0] == name[0]);
}

} // verus!
