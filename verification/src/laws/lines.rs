//! That the text of a program has one line for each of its instructions:
//! no instruction holds a line feed but at its end, where no name holds one.

use vstd::prelude::*;
use crate::assembly::{
    before_code, blocks, body_end_code, calculation_instruction, label, label_line,
    end_code, op_block, op_code, plain, pop, program_code, program_start_code, push,
    routine_code, routines, set_instruction, start_code, string_label, syscall_pops,
    syscall_register, value_register,
};
use crate::class::function::FunctionView;
use crate::class::instruction::{bytes_text, InstructionView};
use crate::class::op::OpType;
use crate::class::token::{Token, TokenType};
use crate::intrinsics::Intrinsic;
use crate::text::{decimal, digit, digits_end, is_digit, is_one_line, number_text};

verus! {

/// Whether the text is a line: it ends with a line feed and holds no other.
pub open spec fn is_line(text: Seq<char>) -> bool {
    text.len() > 0 && text.last() == '\n' && is_one_line(text.drop_last())
}

/// Whether the text is one of the fixed texts of the instructions.
pub open spec fn is_fixed(text: Seq<char>) -> bool {
    text == "  "@
        || text == "  add rsp, 8*"@
        || text == "  call "@
        || text == "  pop "@
        || text == "  push "@
        || text == ""@
        || text == ", "@
        || text == ", [rax]"@
        || text == ".digit"@
        || text == "0"@
        || text == "1"@
        || text == ": db "@
        || text == ":"@
        || text == "?print"@
        || text == "?start"@
        || text == "@op_"@
        || text == "@str_"@
        || text == "]"@
        || text == "], rax"@
        || text == "add dl, 48"@
        || text == "add rax, rbx"@
        || text == "add rsp, 40"@
        || text == "bl"@
        || text == "bx"@
        || text == "call "@
        || text == "call ?print"@
        || text == "call main"@
        || text == "cmp rax, rbx"@
        || text == "cqo"@
        || text == "dec rsi"@
        || text == "div rcx"@
        || text == "ebx"@
        || text == "global "@
        || text == "idiv rbx"@
        || text == "imul rax, rbx"@
        || text == "inc r8"@
        || text == "jmp "@
        || text == "jnz "@
        || text == "jz "@
        || text == "lea rsi, [rsp+39]"@
        || text == "mov "@
        || text == "mov [rax], "@
        || text == "mov [rsi], dl"@
        || text == "mov [rsp+16+8*"@
        || text == "mov [rsp+8], rcx"@
        || text == "mov byte [rsi], 10"@
        || text == "mov r8, 1"@
        || text == "mov rax, "@
        || text == "mov rax, 1"@
        || text == "mov rax, 60"@
        || text == "mov rax, rdi"@
        || text == "mov rbp, rsp"@
        || text == "mov rcx, 10"@
        || text == "mov rcx, [rsp+16]"@
        || text == "mov rdi, 1"@
        || text == "mov rdi, rax"@
        || text == "mov rdx, r8"@
        || text == "mov rsp, rbp"@
        || text == "movzx rax, al"@
        || text == "qword [rbp+16+8*"@
        || text == "qword [rsp]"@
        || text == "r10"@
        || text == "r8"@
        || text == "r9"@
        || text == "rax"@
        || text == "rbp"@
        || text == "rbx"@
        || text == "rcx"@
        || text == "rdi"@
        || text == "rdx"@
        || text == "ret"@
        || text == "rsi"@
        || text == "section .data"@
        || text == "section .text"@
        || text == "sete al"@
        || text == "setg al"@
        || text == "setge al"@
        || text == "setl al"@
        || text == "setle al"@
        || text == "setne al"@
        || text == "shl rax, cl"@
        || text == "shr rax, cl"@
        || text == "sub rax, rbx"@
        || text == "sub rsp, 40"@
        || text == "syscall"@
        || text == "test rax, rax"@
        || text == "xor rbx, rbx"@
        || text == "xor rdx, rdx"@
}

/// Whether what the instruction is made of holds no line feed. The bytes
/// of data are written as numbers, whatever they are.
pub open spec fn plainly_written(instruction: InstructionView) -> bool {
    match instruction {
        InstructionView::Label(label) => is_one_line(label),
        InstructionView::Data(label, _) => is_one_line(label),
        InstructionView::Line(text) => is_one_line(text),
        InstructionView::Push(operand) => is_one_line(operand),
        InstructionView::Pop(register) => is_one_line(register),
        InstructionView::Call(name) => is_one_line(name),
        InstructionView::Release(_) => true,
        InstructionView::Plain(text) => is_one_line(text),
    }
}

/// Whether none of the instructions is made of a text with a line feed.
pub open spec fn all_plain(code: Seq<InstructionView>) -> bool {
    forall|k: int| 0 <= k < code.len() ==> plainly_written(#[trigger] code[k])
}

/// The fixed texts of the instructions hold no line feed.
pub broadcast proof fn lemma_fixed_is_one_line(text: Seq<char>)
    requires
        is_fixed(text),
    ensures
        #[trigger] is_one_line(text),
{
    reveal_strlit("  ");
    reveal_strlit("  add rsp, 8*");
    reveal_strlit("  call ");
    reveal_strlit("  pop ");
    reveal_strlit("  push ");
    reveal_strlit("");
    reveal_strlit(", ");
    reveal_strlit(", [rax]");
    reveal_strlit(".digit");
    reveal_strlit("0");
    reveal_strlit("1");
    reveal_strlit(": db ");
    reveal_strlit(":");
    reveal_strlit("?print");
    reveal_strlit("?start");
    reveal_strlit("@op_");
    reveal_strlit("@str_");
    reveal_strlit("]");
    reveal_strlit("], rax");
    reveal_strlit("add dl, 48");
    reveal_strlit("add rax, rbx");
    reveal_strlit("add rsp, 40");
    reveal_strlit("bl");
    reveal_strlit("bx");
    reveal_strlit("call ");
    reveal_strlit("call ?print");
    reveal_strlit("call main");
    reveal_strlit("cmp rax, rbx");
    reveal_strlit("cqo");
    reveal_strlit("dec rsi");
    reveal_strlit("div rcx");
    reveal_strlit("ebx");
    reveal_strlit("global ");
    reveal_strlit("idiv rbx");
    reveal_strlit("imul rax, rbx");
    reveal_strlit("inc r8");
    reveal_strlit("jmp ");
    reveal_strlit("jnz ");
    reveal_strlit("jz ");
    reveal_strlit("lea rsi, [rsp+39]");
    reveal_strlit("mov ");
    reveal_strlit("mov [rax], ");
    reveal_strlit("mov [rsi], dl");
    reveal_strlit("mov [rsp+16+8*");
    reveal_strlit("mov [rsp+8], rcx");
    reveal_strlit("mov byte [rsi], 10");
    reveal_strlit("mov r8, 1");
    reveal_strlit("mov rax, ");
    reveal_strlit("mov rax, 1");
    reveal_strlit("mov rax, 60");
    reveal_strlit("mov rax, rdi");
    reveal_strlit("mov rbp, rsp");
    reveal_strlit("mov rcx, 10");
    reveal_strlit("mov rcx, [rsp+16]");
    reveal_strlit("mov rdi, 1");
    reveal_strlit("mov rdi, rax");
    reveal_strlit("mov rdx, r8");
    reveal_strlit("mov rsp, rbp");
    reveal_strlit("movzx rax, al");
    reveal_strlit("qword [rbp+16+8*");
    reveal_strlit("qword [rsp]");
    reveal_strlit("r10");
    reveal_strlit("r8");
    reveal_strlit("r9");
    reveal_strlit("rax");
    reveal_strlit("rbp");
    reveal_strlit("rbx");
    reveal_strlit("rcx");
    reveal_strlit("rdi");
    reveal_strlit("rdx");
    reveal_strlit("ret");
    reveal_strlit("rsi");
    reveal_strlit("section .data");
    reveal_strlit("section .text");
    reveal_strlit("sete al");
    reveal_strlit("setg al");
    reveal_strlit("setge al");
    reveal_strlit("setl al");
    reveal_strlit("setle al");
    reveal_strlit("setne al");
    reveal_strlit("shl rax, cl");
    reveal_strlit("shr rax, cl");
    reveal_strlit("sub rax, rbx");
    reveal_strlit("sub rsp, 40");
    reveal_strlit("syscall");
    reveal_strlit("test rax, rax");
    reveal_strlit("xor rbx, rbx");
    reveal_strlit("xor rdx, rdx");
}

/// Two texts without a line feed have none together.
pub broadcast proof fn lemma_one_line_of_both(first: Seq<char>, second: Seq<char>)
    requires
        is_one_line(first),
        is_one_line(second),
    ensures
        #[trigger] is_one_line(first + second),
{
    let both = first + second;
    assert forall|i: int| 0 <= i < both.len() implies #[trigger] both[i] != '\n' by {
        if i < first.len() {
            assert(both[i] == first[i]);
        } else {
            assert(both[i] == second[i - first.len()]);
        }
    }
}

/// A decimal numeral holds no line feed.
pub proof fn lemma_decimal_is_one_line(value: nat)
    ensures
        is_one_line(decimal(value)),
    decreases value,
{
    if value >= 10 {
        lemma_decimal_is_one_line(value / 10);
        let most = decimal(value / 10);
        let all = most.push(digit(value % 10));
        assert forall|i: int| 0 <= i < all.len() implies #[trigger] all[i] != '\n' by {
            if i < most.len() {
                assert(all[i] == most[i]);
            }
        }
    }
}

/// The bytes of data are written without a line feed.
pub proof fn lemma_bytes_are_one_line(bytes: Seq<u8>, count: nat)
    requires
        count <= bytes.len(),
    ensures
        is_one_line(bytes_text(bytes, count)),
    decreases count,
{
    broadcast use {lemma_fixed_is_one_line, lemma_one_line_of_both};

    if count > 0 {
        lemma_bytes_are_one_line(bytes, (count - 1) as nat);
        lemma_decimal_is_one_line(bytes[count - 1] as nat);
        assert(is_one_line(", "@));
        assert(is_one_line(bytes_text(bytes, (count - 1) as nat) + decimal(bytes[count - 1] as nat)));
    }
}

/// The digits at the start of a text are digits.
pub proof fn lemma_digits_are_digits(text: Seq<char>, from: nat)
    requires
        from <= text.len(),
    ensures
        from <= digits_end(text, from) <= text.len(),
        forall|i: int| from <= i < digits_end(text, from) ==> is_digit(#[trigger] text[i]),
    decreases text.len() - from,
{
    if from < text.len() && is_digit(text[from as int]) {
        lemma_digits_are_digits(text, from + 1);
    }
}

/// The number that a text starts with holds no line feed.
pub proof fn lemma_number_is_one_line(text: Seq<char>)
    ensures
        is_one_line(number_text(text)),
{
    broadcast use lemma_fixed_is_one_line;

    lemma_digits_are_digits(text, 0);
    assert(is_one_line("0"@));
    let number = text.take(digits_end(text, 0) as int);
    assert forall|i: int| 0 <= i < number.len() implies #[trigger] number[i] != '\n' by {
        assert(is_digit(text[i]));
    }
}

/// The labels of a function whose name holds no line feed hold none.
pub proof fn lemma_labels_are_one_line(name: Seq<char>, position: nat)
    requires
        is_one_line(name),
    ensures
        is_one_line(label(name, position)),
        is_one_line(string_label(name, position)),
{
    broadcast use {lemma_fixed_is_one_line, lemma_one_line_of_both};

    lemma_decimal_is_one_line(position);
    assert(is_one_line("@op_"@));
    assert(is_one_line("@str_"@));
    assert(is_one_line(name + "@op_"@));
    assert(is_one_line(name + "@str_"@));
}

/// The line of an instruction that is plainly written is a line.
pub proof fn lemma_text_is_line(instruction: InstructionView)
    requires
        plainly_written(instruction),
    ensures
        is_line(instruction.text()),
{
    broadcast use {lemma_fixed_is_one_line, lemma_one_line_of_both};

    reveal_strlit("\n");
    reveal_strlit(":\n");
    reveal_strlit("0\n");
    let text = instruction.text();
    let most = text.drop_last();
    match instruction {
        InstructionView::Label(label) => {
            assert(is_one_line(":"@));
            assert(most =~= label + ":"@) by {
                reveal_strlit(":");
            }
        },
        InstructionView::Data(label, bytes) => {
            lemma_bytes_are_one_line(bytes, bytes.len());
            assert(is_one_line(": db "@));
            assert(is_one_line("0"@));
            assert(is_one_line(label + ": db "@));
            assert(is_one_line(label + ": db "@ + bytes_text(bytes, bytes.len())));
            assert(most =~= label + ": db "@ + bytes_text(bytes, bytes.len()) + "0"@) by {
                reveal_strlit("0");
            }
        },
        InstructionView::Line(line) => {
            assert(most =~= line);
        },
        InstructionView::Push(operand) => {
            assert(is_one_line("  push "@));
            assert(most =~= "  push "@ + operand);
        },
        InstructionView::Pop(register) => {
            assert(is_one_line("  pop "@));
            assert(most =~= "  pop "@ + register);
        },
        InstructionView::Call(name) => {
            assert(is_one_line("  call "@));
            assert(most =~= "  call "@ + name);
        },
        InstructionView::Release(count) => {
            lemma_decimal_is_one_line(count as nat);
            assert(is_one_line("  add rsp, 8*"@));
            assert(most =~= "  add rsp, 8*"@ + decimal(count as nat));
        },
        InstructionView::Plain(line) => {
            assert(is_one_line("  "@));
            assert(most =~= "  "@ + line);
        },
    }
}

/// Instructions with one more are plainly written if they were and that one is.
pub broadcast proof fn lemma_plain_of_push(code: Seq<InstructionView>, last: InstructionView)
    ensures
        #[trigger] all_plain(code.push(last)) == (all_plain(code) && plainly_written(last)),
{
    let more = code.push(last);
    if all_plain(more) {
        assert(more[code.len() as int] == last);
        assert forall|k: int| 0 <= k < code.len() implies plainly_written(#[trigger] code[k]) by {
            assert(more[k] == code[k]);
        }
    }
}

/// Two runs of instructions that are plainly written are so together.
pub proof fn lemma_plain_of_both(first: Seq<InstructionView>, second: Seq<InstructionView>)
    requires
        all_plain(first),
        all_plain(second),
    ensures
        all_plain(first + second),
{
}

/// The instructions that take the arguments of a system call are plainly written.
pub proof fn lemma_syscall_pops_are_plain(count: nat)
    ensures
        all_plain(syscall_pops(count)),
    decreases count,
{
    broadcast use {lemma_fixed_is_one_line, lemma_plain_of_push};

    if count > 0 {
        lemma_syscall_pops_are_plain((count - 1) as nat);
        assert(is_one_line(syscall_register((count - 1) as nat)));
    }
}

/// A jump to a position of a function whose name holds no line feed is
/// plainly written.
pub proof fn lemma_jump_is_plain(name: Seq<char>, target: nat)
    requires
        is_one_line(name),
    ensures
        is_one_line("jmp "@ + label(name, target)),
        is_one_line("jz "@ + label(name, target)),
{
    broadcast use {lemma_fixed_is_one_line, lemma_one_line_of_both};

    lemma_labels_are_one_line(name, target);
    assert(is_one_line("jmp "@));
    assert(is_one_line("jz "@));
}

/// Whether the name of the function and the names that it calls hold no
/// line feed.
pub open spec fn plainly_named(function: FunctionView) -> bool {
    &&& is_one_line(function.name@)
    &&& forall|position: int|
        0 <= position < function.ops.len() ==> (
        #[trigger] function.ops[position].typ matches OpType::FunctionCall(info) ==> is_one_line(
            info.function_name@,
        ))
}

/// The instructions that push a value are plainly written.
pub proof fn lemma_value_is_plain(function: FunctionView, position: nat, token: Token)
    requires
        is_one_line(function.name@),
        crate::assembly::push_code(function, position, token) is Some,
    ensures
        all_plain(crate::assembly::push_code(function, position, token)->Some_0),
{
    broadcast use {lemma_fixed_is_one_line, lemma_one_line_of_both, lemma_plain_of_push};

    let name = function.name@;
    lemma_labels_are_one_line(name, position);
    lemma_number_is_one_line(token.value@);
    lemma_decimal_is_one_line(crate::assembly::character_number(token.value@) as nat);
    assert(is_one_line("mov rax, "@));
    assert(is_one_line("qword [rbp+16+8*"@));
    assert(is_one_line("]"@));
    assert(is_one_line("0"@));
    assert(is_one_line("1"@));
    match token.typ {
        TokenType::Identifier => {
            match crate::assembly::parameter_index(
                function.signature.parameters,
                token.value@,
                0,
            ) {
                Some(index) => {
                    let place = crate::assembly::parameter_place(
                        function.signature.parameters.len(),
                        index,
                    );
                    lemma_decimal_is_one_line(place);
                    assert(is_one_line("qword [rbp+16+8*"@ + decimal(place)));
                },
                None => {},
            }
        },
        _ => {},
    }
}

/// The instructions of an operation of a function that is plainly named
/// are plainly written.
pub proof fn lemma_op_is_plain(function: FunctionView, position: nat)
    requires
        plainly_named(function),
        position < function.ops.len(),
        op_code(function, position, function.ops[position as int].typ) is Some,
    ensures
        all_plain(op_code(function, position, function.ops[position as int].typ)->Some_0),
{
    broadcast use {lemma_fixed_is_one_line, lemma_one_line_of_both, lemma_plain_of_push};

    let name = function.name@;
    let typ = function.ops[position as int].typ;
    match typ {
        OpType::Push(token) => {
            lemma_value_is_plain(function, position, token);
        },
        OpType::Calculation(calculation) => {
            let operands = Seq::empty().push(pop("rbx"@)).push(pop("rax"@));
            let result = Seq::empty().push(push("rax"@));
            lemma_plain_of_both(operands, calculation_instruction(calculation));
            lemma_plain_of_both(operands + calculation_instruction(calculation), result);
        },
        OpType::Comparison(comparison) => {
            assert(is_one_line(set_instruction(comparison)));
        },
        OpType::Intrinsic(intrinsic) => {
            match intrinsic {
                Intrinsic::Syscall(arguments) => {
                    lemma_syscall_pops_are_plain(arguments as nat);
                    let number = Seq::empty().push(pop("rax"@));
                    let call = Seq::empty().push(plain("syscall"@)).push(push("rax"@));
                    lemma_plain_of_both(number, syscall_pops(arguments as nat));
                    lemma_plain_of_both(number + syscall_pops(arguments as nat), call);
                },
                Intrinsic::Load(size) => {
                    assert(is_one_line("mov "@));
                    assert(is_one_line(value_register(size)));
                    assert(is_one_line("mov "@ + value_register(size)));
                    assert(is_one_line(", [rax]"@));
                },
                Intrinsic::Store(size) => {
                    assert(is_one_line("mov [rax], "@));
                    assert(is_one_line(value_register(size)));
                },
                Intrinsic::Print => {
                    assert(is_one_line("call "@));
                    assert(is_one_line(crate::assembly::print_label()));
                },
                _ => {},
            }
        },
        OpType::FunctionCall(info) => {
            assert(is_one_line(info.function_name@));
        },
        OpType::Return => {
            lemma_jump_is_plain(name, function.ops.len());
        },
        OpType::If(jump) | OpType::Elif(jump) | OpType::Do(jump) => {
            lemma_jump_is_plain(name, jump.target->Some_0 as nat);
        },
        OpType::Done(jump) | OpType::Break(jump) | OpType::Continue(jump) => {
            lemma_jump_is_plain(name, jump.target->Some_0 as nat);
        },
        _ => {},
    }
}

/// The block of an operation of a function that is plainly named is
/// plainly written.
pub proof fn lemma_block_is_plain(function: FunctionView, position: nat)
    requires
        plainly_named(function),
        position < function.ops.len(),
        op_block(function, position) is Some,
    ensures
        all_plain(op_block(function, position)->Some_0),
{
    broadcast use {lemma_fixed_is_one_line, lemma_one_line_of_both, lemma_plain_of_push};

    let name = function.name@;
    let typ = function.ops[position as int].typ;
    let before = before_code(name, typ)->Some_0;
    let middle = Seq::empty().push(label_line(name, position));
    let code = op_code(function, position, typ)->Some_0;
    match typ {
        OpType::Elif(jump) | OpType::Else(jump) => {
            lemma_jump_is_plain(name, crate::assembly::chain_exit(jump)->Some_0 as nat);
        },
        _ => {},
    }
    lemma_labels_are_one_line(name, position);
    lemma_op_is_plain(function, position);
    lemma_plain_of_both(before, middle);
    lemma_plain_of_both(before + middle, code);
}

/// The blocks of a function that is plainly named are plainly written.
pub proof fn lemma_blocks_are_plain(function: FunctionView, count: nat)
    requires
        plainly_named(function),
        count <= function.ops.len(),
        blocks(function, count) is Ok,
    ensures
        all_plain(blocks(function, count)->Ok_0),
    decreases count,
{
    if count > 0 {
        lemma_blocks_are_plain(function, (count - 1) as nat);
        lemma_block_is_plain(function, (count - 1) as nat);
        lemma_plain_of_both(
            blocks(function, (count - 1) as nat)->Ok_0,
            op_block(function, (count - 1) as nat)->Some_0,
        );
    }
}

/// The routine of a function that is plainly named is plainly written.
pub proof fn lemma_routine_is_plain(function: FunctionView)
    requires
        plainly_named(function),
        routine_code(function) is Ok,
    ensures
        all_plain(routine_code(function)->Ok_0),
{
    broadcast use {lemma_fixed_is_one_line, lemma_one_line_of_both, lemma_plain_of_push};

    let name = function.name@;
    let count = function.ops.len();
    let start = start_code(name);
    let body = blocks(function, count)->Ok_0;
    let end = body_end_code(function);
    let last = end_code();
    lemma_labels_are_one_line(name, count);
    lemma_blocks_are_plain(function, count);
    lemma_decimal_is_one_line(function.signature.parameters.len());
    assert(is_one_line("mov [rsp+16+8*"@));
    assert(is_one_line("], rax"@));
    assert(is_one_line("mov [rsp+16+8*"@ + decimal(function.signature.parameters.len())));
    assert(all_plain(end));
    lemma_plain_of_both(start, body);
    lemma_plain_of_both(start + body, end);
    lemma_plain_of_both(start + body + end, last);
}

/// The start of a program is plainly written.
pub proof fn lemma_program_start_is_plain()
    ensures
        all_plain(program_start_code()),
{
    broadcast use {lemma_fixed_is_one_line, lemma_one_line_of_both, lemma_plain_of_push};

    assert(is_one_line("global "@));
    assert(is_one_line("jnz "@));
    assert(is_one_line(crate::assembly::entry_label()));
    assert(is_one_line(crate::assembly::print_label()));
    assert(is_one_line(crate::assembly::digit_label()));
}

/// The routines of functions that are plainly named are plainly written.
pub proof fn lemma_routines_are_plain(functions: Seq<FunctionView>, count: nat)
    requires
        count <= functions.len(),
        forall|i: int| 0 <= i < functions.len() ==> plainly_named(#[trigger] functions[i]),
        routines(functions, count) is Ok,
    ensures
        all_plain(routines(functions, count)->Ok_0),
    decreases count,
{
    if count > 0 {
        lemma_routines_are_plain(functions, (count - 1) as nat);
        lemma_routine_is_plain(functions[count - 1]);
        lemma_plain_of_both(
            routines(functions, (count - 1) as nat)->Ok_0,
            routine_code(functions[count - 1])->Ok_0,
        );
    }
}

/// Every instruction of the start of a program and of the routines of
/// functions that are plainly named is written as a line of its own: its
/// text ends with a line feed and holds no other. So the text has one line
/// for each instruction, and defines the labels that its instructions
/// define.
pub proof fn lemma_program_is_lines(functions: Seq<FunctionView>)
    requires
        forall|i: int| 0 <= i < functions.len() ==> plainly_named(#[trigger] functions[i]),
    ensures
        forall|k: int|
            0 <= k < program_start_code().len() ==> is_line(
                (#[trigger] program_start_code()[k]).text(),
            ),
        program_code(functions) matches Ok(code) ==> forall|k: int|
            0 <= k < code.len() ==> is_line((#[trigger] code[k]).text()),
{
    lemma_program_start_is_plain();
    let start = program_start_code();
    assert forall|k: int| 0 <= k < start.len() implies is_line((#[trigger] start[k]).text()) by {
        lemma_text_is_line(start[k]);
    }
    if program_code(functions) is Ok {
        let code = program_code(functions)->Ok_0;
        lemma_routines_are_plain(functions, functions.len());
        assert forall|k: int| 0 <= k < code.len() implies is_line((#[trigger] code[k]).text()) by {
            lemma_text_is_line(code[k]);
        }
    }
}

} // verus!
