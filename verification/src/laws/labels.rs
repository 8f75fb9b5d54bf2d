//! That every label of a program belongs to one place of it, and that none
//! is defined twice, where every function has a name of its own.

use vstd::prelude::*;
use crate::assembly::{
    before_code, blocks, body_end_code, calculation_instruction, digit_label, entry_label, label,
    label_line, end_code, lemma_label_is_no_name, lemma_labels_are_apart,
    lemma_program_labels_are_apart, lemma_program_labels_differ, lemma_string_label_is_no_name,
    lemma_string_label_is_no_position, lemma_string_labels_are_apart, op_block, op_code, plain,
    pop, print_label, program_code, program_start_code, push, routine_code, routines,
    start_code, string_label, syscall_pops,
};
use crate::intrinsics::Intrinsic;
use crate::class::function::FunctionView;
use crate::class::instruction::InstructionView;
use crate::class::op::{markers_of, OpType};
use crate::control_flow::jumps_of;
use crate::laws::ranges::fits;
use crate::class::token::TokenType;
use crate::data_types::DataType;
use crate::text::is_name;

verus! {

/// A place of a program at which a label is defined.
pub ghost enum Site {
    /// The entry of the process.
    Entry,
    /// The routine for printing.
    Print,
    /// The loop of the routine for printing.
    Digit,
    /// The start of the routine of the function at the given index.
    Routine(int),
    /// A position of the function at the given index, if it has
    /// operations: before one of them, or behind the last.
    Position(int, nat),
    /// The text of the string literal that the operation at a position of
    /// the function at the given index pushes.
    Text(int, nat),
}

/// Whether the operation pushes a string literal.
pub open spec fn pushes_text(typ: OpType) -> bool {
    typ matches OpType::Push(token) && token.typ matches TokenType::Literal(DataType::String)
}

/// Whether the program of the functions has the place.
pub open spec fn has_site(functions: Seq<FunctionView>, site: Site) -> bool {
    match site {
        Site::Entry | Site::Print | Site::Digit => true,
        Site::Routine(index) => 0 <= index < functions.len(),
        Site::Position(index, position) => 0 <= index < functions.len() && position
            <= functions[index].ops.len() && 0 < functions[index].ops.len(),
        Site::Text(index, position) => 0 <= index < functions.len() && position
            < functions[index].ops.len() && pushes_text(functions[index].ops[position as int].typ),
    }
}

/// The label that is defined at the place.
pub open spec fn label_at(functions: Seq<FunctionView>, site: Site) -> Seq<char> {
    match site {
        Site::Entry => entry_label(),
        Site::Print => print_label(),
        Site::Digit => digit_label(),
        Site::Routine(index) => functions[index].name@,
        Site::Position(index, position) => label(functions[index].name@, position),
        Site::Text(index, position) => string_label(functions[index].name@, position),
    }
}

/// Whether every function has a name as the scanner reads one, and no two
/// functions have the same name.
pub open spec fn names_of_their_own(functions: Seq<FunctionView>) -> bool {
    &&& forall|i: int| 0 <= i < functions.len() ==> is_name((#[trigger] functions[i]).name@)
    &&& forall|i: int, j: int|
        0 <= i < j < functions.len() ==> (#[trigger] functions[i]).name@ != (
        #[trigger] functions[j]).name@
}

/// In a program whose functions have names of their own, no label is
/// defined twice: two places with the same label are the same place.
pub proof fn lemma_no_label_is_defined_twice(functions: Seq<FunctionView>, first: Site, second: Site)
    requires
        names_of_their_own(functions),
        has_site(functions, first),
        has_site(functions, second),
        label_at(functions, first) == label_at(functions, second),
    ensures
        first == second,
{
    match first {
        Site::Entry | Site::Print | Site::Digit => {
            lemma_apart_from_program_label(functions, first, second);
        },
        Site::Routine(index) => {
            let name = functions[index].name@;
            match second {
                Site::Entry | Site::Print | Site::Digit => {
                    lemma_apart_from_program_label(functions, second, first);
                },
                Site::Routine(other) => {
                    if index < other {
                        assert(functions[index].name@ != functions[other].name@);
                    } else if other < index {
                        assert(functions[other].name@ != functions[index].name@);
                    }
                },
                Site::Position(other, place) => {
                    lemma_label_is_no_name(functions[other].name@, place, name);
                },
                Site::Text(other, place) => {
                    lemma_string_label_is_no_name(functions[other].name@, place, name);
                },
            }
        },
        Site::Position(index, position) => {
            let name = functions[index].name@;
            match second {
                Site::Entry | Site::Print | Site::Digit => {
                    lemma_apart_from_program_label(functions, second, first);
                },
                Site::Routine(other) => {
                    lemma_label_is_no_name(name, position, functions[other].name@);
                },
                Site::Position(other, place) => {
                    lemma_labels_are_apart(name, position, functions[other].name@, place);
                    lemma_same_name_same_function(functions, index, other);
                },
                Site::Text(other, place) => {
                    lemma_string_label_is_no_position(
                        functions[other].name@,
                        place,
                        name,
                        position,
                    );
                },
            }
        },
        Site::Text(index, position) => {
            let name = functions[index].name@;
            match second {
                Site::Entry | Site::Print | Site::Digit => {
                    lemma_apart_from_program_label(functions, second, first);
                },
                Site::Routine(other) => {
                    lemma_string_label_is_no_name(name, position, functions[other].name@);
                },
                Site::Position(other, place) => {
                    lemma_string_label_is_no_position(
                        name,
                        position,
                        functions[other].name@,
                        place,
                    );
                },
                Site::Text(other, place) => {
                    lemma_string_labels_are_apart(name, position, functions[other].name@, place);
                    lemma_same_name_same_function(functions, index, other);
                },
            }
        },
    }
}

/// Two functions of the same name are the same function.
proof fn lemma_same_name_same_function(functions: Seq<FunctionView>, index: int, other: int)
    requires
        names_of_their_own(functions),
        0 <= index < functions.len(),
        0 <= other < functions.len(),
        functions[index].name@ == functions[other].name@,
    ensures
        index == other,
{
    if index < other {
        assert(functions[index].name@ != functions[other].name@);
    } else if other < index {
        assert(functions[other].name@ != functions[index].name@);
    }
}

/// A place of the start of the program has a label of its own.
proof fn lemma_apart_from_program_label(functions: Seq<FunctionView>, first: Site, second: Site)
    requires
        names_of_their_own(functions),
        first is Entry || first is Print || first is Digit,
        has_site(functions, second),
        label_at(functions, first) == label_at(functions, second),
    ensures
        first == second,
{
    let text = label_at(functions, first);
    match second {
        Site::Entry | Site::Print | Site::Digit => {
            lemma_program_labels_differ();
        },
        Site::Routine(other) => {
            lemma_program_labels_are_apart(text, functions[other].name@, 0);
        },
        Site::Position(other, place) => {
            lemma_program_labels_are_apart(text, functions[other].name@, place);
        },
        Site::Text(other, place) => {
            lemma_program_labels_are_apart(text, functions[other].name@, place);
        },
    }
}

/// Every jump of a well formed function goes to a position of that
/// function, which has its label in the routine of the function.
pub proof fn lemma_jumps_go_to_labels(functions: Seq<FunctionView>, index: int, position: int)
    requires
        0 <= index < functions.len(),
        functions[index].well_formed(),
        0 <= position < functions[index].ops.len(),
    ensures
        functions[index].ops[position].typ.jump().target matches Some(target) ==> has_site(
            functions,
            Site::Position(index, target as nat),
        ),
        functions[index].ops[position].typ.jump().exit matches Some(exit) ==> has_site(
            functions,
            Site::Position(index, exit as nat),
        ),
{
    let ops = functions[index].ops;
    assert(fits(jumps_of(ops), markers_of(ops), position));
}

/// The function that a place belongs to; none, written as -1, for the
/// places of the start of the program.
pub open spec fn owner(site: Site) -> int {
    match site {
        Site::Entry | Site::Print | Site::Digit => -1,
        Site::Routine(index) => index,
        Site::Position(index, _) => index,
        Site::Text(index, _) => index,
    }
}

/// Where a place stands among the places of its owner: the start of a
/// routine before every position of it.
pub open spec fn place(site: Site) -> int {
    match site {
        Site::Entry => 0,
        Site::Print => 1,
        Site::Digit => 2,
        Site::Routine(_) => -1,
        Site::Position(_, position) => position as int,
        Site::Text(_, position) => position as int,
    }
}

/// Whether the text is the label of a place of the program that belongs
/// to `index` and stands from `low` up to, not including, `high`.
pub open spec fn is_label_of(
    functions: Seq<FunctionView>,
    text: Seq<char>,
    index: int,
    low: int,
    high: int,
) -> bool {
    exists|site: Site|
        has_site(functions, site) && owner(site) == index && low <= place(site) < high
            && #[trigger] label_at(functions, site) == text
}

/// Whether every label that the instructions define is the label of a
/// place that belongs to `index` and stands from `low` up to `high`.
pub open spec fn sited(
    functions: Seq<FunctionView>,
    code: Seq<InstructionView>,
    index: int,
    low: int,
    high: int,
) -> bool {
    forall|k: int|
        0 <= k < code.len() ==> ((#[trigger] code[k]).defined_label() matches Some(text)
            ==> is_label_of(functions, text, index, low, high))
}

/// Whether every label that the instructions define is the label of a
/// place whose owner stands from `first` up to, not including, `count`.
pub open spec fn sited_among(
    functions: Seq<FunctionView>,
    code: Seq<InstructionView>,
    first: int,
    count: int,
) -> bool {
    forall|k: int|
        0 <= k < code.len() ==> ((#[trigger] code[k]).defined_label() matches Some(text)
            ==> exists|site: Site|
            has_site(functions, site) && first <= owner(site) < count && #[trigger] label_at(
                functions,
                site,
            ) == text)
}

/// Whether the instructions define no label.
pub open spec fn defines_none(code: Seq<InstructionView>) -> bool {
    forall|k: int| 0 <= k < code.len() ==> (#[trigger] code[k]).defined_label() is None
}

/// Whether no label is defined twice among the instructions.
pub open spec fn apart(code: Seq<InstructionView>) -> bool {
    forall|i: int, j: int|
        0 <= i < j < code.len() ==> !((#[trigger] code[i]).defined_label() is Some
            && code[i].defined_label() == (#[trigger] code[j]).defined_label())
}

/// Whether no label that the first instructions define is defined among the second.
pub open spec fn share_none(first: Seq<InstructionView>, second: Seq<InstructionView>) -> bool {
    forall|i: int, j: int|
        0 <= i < first.len() && 0 <= j < second.len() ==> !((#[trigger] first[i]).defined_label()
            is Some && first[i].defined_label() == (#[trigger] second[j]).defined_label())
}

/// Two runs of instructions that define no label twice and share none
/// define no label twice together.
pub proof fn lemma_apart_of_both(first: Seq<InstructionView>, second: Seq<InstructionView>)
    requires
        apart(first),
        apart(second),
        share_none(first, second),
    ensures
        apart(first + second),
{
    let both = first + second;
    assert forall|i: int, j: int| 0 <= i < j < both.len() implies !((#[trigger] both[i]).defined_label()
        is Some && both[i].defined_label() == (#[trigger] both[j]).defined_label()) by {
        if j < first.len() {
            assert(both[i] == first[i] && both[j] == first[j]);
        } else if i >= first.len() {
            assert(both[i] == second[i - first.len()] && both[j] == second[j - first.len()]);
        } else {
            assert(both[i] == first[i] && both[j] == second[j - first.len()]);
        }
    }
}

/// Instructions whose labels stand before those of other instructions of
/// the same owner share no label with them.
pub proof fn lemma_share_none_by_place(
    functions: Seq<FunctionView>,
    first: Seq<InstructionView>,
    second: Seq<InstructionView>,
    index: int,
    low: int,
    middle: int,
    high: int,
)
    requires
        names_of_their_own(functions),
        sited(functions, first, index, low, middle),
        sited(functions, second, index, middle, high),
    ensures
        share_none(first, second),
{
    assert forall|i: int, j: int| 0 <= i < first.len() && 0 <= j < second.len() implies !((
    #[trigger] first[i]).defined_label() is Some && first[i].defined_label() == (
    #[trigger] second[j]).defined_label()) by {
        if first[i].defined_label() is Some && first[i].defined_label()
            == second[j].defined_label() {
            let text = first[i].defined_label()->Some_0;
            let one = choose|site: Site|
                has_site(functions, site) && owner(site) == index && low <= place(site) < middle
                    && #[trigger] label_at(functions, site) == text;
            let other = choose|site: Site|
                has_site(functions, site) && owner(site) == index && middle <= place(site) < high
                    && #[trigger] label_at(functions, site) == text;
            lemma_no_label_is_defined_twice(functions, one, other);
        }
    }
}

/// Instructions whose labels belong to earlier owners share no label with
/// the instructions of a later owner.
pub proof fn lemma_share_none_by_owner(
    functions: Seq<FunctionView>,
    first: Seq<InstructionView>,
    second: Seq<InstructionView>,
    start: int,
    index: int,
    low: int,
    high: int,
)
    requires
        names_of_their_own(functions),
        sited_among(functions, first, start, index),
        sited(functions, second, index, low, high),
    ensures
        share_none(first, second),
{
    assert forall|i: int, j: int| 0 <= i < first.len() && 0 <= j < second.len() implies !((
    #[trigger] first[i]).defined_label() is Some && first[i].defined_label() == (
    #[trigger] second[j]).defined_label()) by {
        if first[i].defined_label() is Some && first[i].defined_label()
            == second[j].defined_label() {
            let text = first[i].defined_label()->Some_0;
            let one = choose|site: Site|
                has_site(functions, site) && start <= owner(site) < index && #[trigger] label_at(
                    functions,
                    site,
                ) == text;
            let other = choose|site: Site|
                has_site(functions, site) && owner(site) == index && low <= place(site) < high
                    && #[trigger] label_at(functions, site) == text;
            lemma_no_label_is_defined_twice(functions, one, other);
        }
    }
}

/// Instructions whose labels belong to earlier owners share no label with
/// instructions whose labels belong to later owners.
pub proof fn lemma_share_none_by_owners(
    functions: Seq<FunctionView>,
    first: Seq<InstructionView>,
    second: Seq<InstructionView>,
    start: int,
    middle: int,
    end: int,
)
    requires
        names_of_their_own(functions),
        sited_among(functions, first, start, middle),
        sited_among(functions, second, middle, end),
    ensures
        share_none(first, second),
{
    assert forall|i: int, j: int| 0 <= i < first.len() && 0 <= j < second.len() implies !((
    #[trigger] first[i]).defined_label() is Some && first[i].defined_label() == (
    #[trigger] second[j]).defined_label()) by {
        if first[i].defined_label() is Some && first[i].defined_label()
            == second[j].defined_label() {
            let text = first[i].defined_label()->Some_0;
            let one = choose|site: Site|
                has_site(functions, site) && start <= owner(site) < middle && #[trigger] label_at(
                    functions,
                    site,
                ) == text;
            let other = choose|site: Site|
                has_site(functions, site) && middle <= owner(site) < end && #[trigger] label_at(
                    functions,
                    site,
                ) == text;
            lemma_no_label_is_defined_twice(functions, one, other);
        }
    }
}

/// The labels of two runs of instructions are the labels of both together.
pub proof fn lemma_sited_of_both(
    functions: Seq<FunctionView>,
    first: Seq<InstructionView>,
    second: Seq<InstructionView>,
    index: int,
    low: int,
    middle: int,
    split: int,
    high: int,
)
    requires
        low <= middle,
        split <= high,
        sited(functions, first, index, low, middle),
        sited(functions, second, index, split, high),
        low <= split,
        middle <= high,
    ensures
        sited(functions, first + second, index, low, high),
{
    let both = first + second;
    assert forall|k: int| 0 <= k < both.len() implies ((#[trigger] both[k]).defined_label() matches Some(
        text,
    ) ==> is_label_of(functions, text, index, low, high)) by {
        if both[k].defined_label() is Some {
            let text = both[k].defined_label()->Some_0;
            if k < first.len() {
                assert(both[k] == first[k]);
                let site = choose|site: Site|
                    has_site(functions, site) && owner(site) == index && low <= place(site)
                        < middle && #[trigger] label_at(functions, site) == text;
                assert(label_at(functions, site) == text);
            } else {
                assert(both[k] == second[k - first.len()]);
                let site = choose|site: Site|
                    has_site(functions, site) && owner(site) == index && split <= place(site)
                        < high && #[trigger] label_at(functions, site) == text;
                assert(label_at(functions, site) == text);
            }
        }
    }
}

/// Instructions that define no label define none twice, and every label
/// of theirs is of any place.
pub proof fn lemma_defines_none(
    functions: Seq<FunctionView>,
    code: Seq<InstructionView>,
    index: int,
    low: int,
    high: int,
)
    requires
        defines_none(code),
    ensures
        apart(code),
        sited(functions, code, index, low, high),
        forall|other: Seq<InstructionView>| share_none(code, other),
        forall|other: Seq<InstructionView>| share_none(other, code),
{
    assert forall|other: Seq<InstructionView>| share_none(other, code) by {
        assert forall|i: int, j: int| 0 <= i < other.len() && 0 <= j < code.len() implies !((
        #[trigger] other[i]).defined_label() is Some && other[i].defined_label() == (
        #[trigger] code[j]).defined_label()) by {
            assert(code[j].defined_label() is None);
        }
    }
}

/// Instructions with one more define no label if they defined none and
/// that one defines none.
pub broadcast proof fn lemma_none_of_push(code: Seq<InstructionView>, last: InstructionView)
    ensures
        #[trigger] defines_none(code.push(last)) == (defines_none(code) && last.defined_label()
            is None),
{
    let more = code.push(last);
    if defines_none(more) {
        assert(more[code.len() as int] == last);
        assert forall|k: int| 0 <= k < code.len() implies (#[trigger] code[k]).defined_label()
            is None by {
            assert(more[k] == code[k]);
        }
    }
}

/// Two runs of instructions that define no label define none together.
pub proof fn lemma_none_of_both(first: Seq<InstructionView>, second: Seq<InstructionView>)
    requires
        defines_none(first),
        defines_none(second),
    ensures
        defines_none(first + second),
{
}

/// The instructions that take the arguments of a system call define no label.
pub proof fn lemma_syscall_pops_define_none(count: nat)
    ensures
        defines_none(syscall_pops(count)),
    decreases count,
{
    broadcast use lemma_none_of_push;

    if count > 0 {
        lemma_syscall_pops_define_none((count - 1) as nat);
    }
}

/// The instructions of an operation define no label, but for the one that
/// pushes a string literal, which defines the label of its text.
pub proof fn lemma_op_defines_its_text(function: FunctionView, position: nat, typ: OpType)
    requires
        op_code(function, position, typ) is Some,
    ensures
        !pushes_text(typ) ==> defines_none(op_code(function, position, typ)->Some_0),
        pushes_text(typ) ==> {
            let code = op_code(function, position, typ)->Some_0;
            &&& code.len() == 5
            &&& code[1].defined_label() == Some(string_label(function.name@, position))
            &&& forall|k: int| 0 <= k < 5 && k != 1 ==> (#[trigger] code[k]).defined_label() is None
        },
{
    broadcast use lemma_none_of_push;

    match typ {
        OpType::Calculation(calculation) => {
            let operands = Seq::empty().push(pop("rbx"@)).push(pop("rax"@));
            let result = Seq::empty().push(push("rax"@));
            lemma_none_of_both(operands, calculation_instruction(calculation));
            lemma_none_of_both(operands + calculation_instruction(calculation), result);
        },
        OpType::Intrinsic(Intrinsic::Syscall(arguments)) => {
            lemma_syscall_pops_define_none(arguments as nat);
            let number = Seq::empty().push(pop("rax"@));
            let call = Seq::empty().push(plain("syscall"@)).push(push("rax"@));
            lemma_none_of_both(number, syscall_pops(arguments as nat));
            lemma_none_of_both(number + syscall_pops(arguments as nat), call);
        },
        OpType::Intrinsic(Intrinsic::Shl) | OpType::Intrinsic(Intrinsic::Shr) => {},
        _ => {},
    }
}

/// The block of an operation defines the label of its position and, where
/// the operation pushes a string literal, the label of its text, and no
/// label twice.
pub proof fn lemma_block_is_sited(functions: Seq<FunctionView>, index: int, position: nat)
    requires
        names_of_their_own(functions),
        0 <= index < functions.len(),
        position < functions[index].ops.len(),
        op_block(functions[index], position) is Some,
    ensures
        apart(op_block(functions[index], position)->Some_0),
        sited(
            functions,
            op_block(functions[index], position)->Some_0,
            index,
            position as int,
            position as int + 1,
        ),
{
    broadcast use lemma_none_of_push;

    let function = functions[index];
    let name = function.name@;
    let typ = function.ops[position as int].typ;
    let before = before_code(name, typ)->Some_0;
    let middle = Seq::empty().push(label_line(name, position));
    let code = op_code(function, position, typ)->Some_0;
    let low = position as int;
    let high = position as int + 1;
    assert(defines_none(before));
    lemma_defines_none(functions, before, index, low, high);
    lemma_op_defines_its_text(function, position, typ);
    assert(label_at(functions, Site::Position(index, position)) == label(name, position));
    assert(is_label_of(functions, label(name, position), index, low, high));
    assert(sited(functions, middle, index, low, high));
    assert(apart(middle));
    if pushes_text(typ) {
        assert(label_at(functions, Site::Text(index, position)) == string_label(name, position));
        assert(is_label_of(functions, string_label(name, position), index, low, high));
        assert(sited(functions, code, index, low, high));
        assert(apart(code));
        lemma_string_label_is_no_position(name, position, name, position);
        assert(share_none(middle, code));
    } else {
        lemma_defines_none(functions, code, index, low, high);
    }
    lemma_apart_of_both(before, middle);
    lemma_sited_of_both(functions, before, middle, index, low, high, low, high);
    assert(share_none(before + middle, code)) by {
        assert forall|i: int, j: int|
            0 <= i < (before + middle).len() && 0 <= j < code.len() implies !((
        #[trigger] (before + middle)[i]).defined_label() is Some && (before
            + middle)[i].defined_label() == (#[trigger] code[j]).defined_label()) by {
            if i < before.len() {
                assert((before + middle)[i] == before[i]);
            } else {
                assert((before + middle)[i] == middle[i - before.len()]);
            }
        }
    }
    lemma_apart_of_both(before + middle, code);
    lemma_sited_of_both(functions, before + middle, code, index, low, high, low, high);
}

/// The blocks of the first operations of a function define the labels of
/// their positions and texts, and no label twice.
pub proof fn lemma_blocks_are_sited(functions: Seq<FunctionView>, index: int, count: nat)
    requires
        names_of_their_own(functions),
        0 <= index < functions.len(),
        count <= functions[index].ops.len(),
        blocks(functions[index], count) is Ok,
    ensures
        apart(blocks(functions[index], count)->Ok_0),
        sited(functions, blocks(functions[index], count)->Ok_0, index, 0, count as int),
    decreases count,
{
    if count > 0 {
        let function = functions[index];
        let before = blocks(function, (count - 1) as nat)->Ok_0;
        let block = op_block(function, (count - 1) as nat)->Some_0;
        lemma_blocks_are_sited(functions, index, (count - 1) as nat);
        lemma_block_is_sited(functions, index, (count - 1) as nat);
        lemma_share_none_by_place(functions, before, block, index, 0, count as int - 1, count as int);
        lemma_apart_of_both(before, block);
        lemma_sited_of_both(
            functions,
            before,
            block,
            index,
            0,
            count as int - 1,
            count as int - 1,
            count as int,
        );
    }
}

/// The routine of a function defines its name, the labels of its
/// positions and the labels of its texts, and no label twice.
pub proof fn lemma_routine_is_sited(functions: Seq<FunctionView>, index: int)
    requires
        names_of_their_own(functions),
        0 <= index < functions.len(),
        routine_code(functions[index]) is Ok,
    ensures
        apart(routine_code(functions[index])->Ok_0),
        sited(
            functions,
            routine_code(functions[index])->Ok_0,
            index,
            -1,
            functions[index].ops.len() as int + 1,
        ),
{
    broadcast use lemma_none_of_push;

    let function = functions[index];
    let name = function.name@;
    let count = function.ops.len();
    let next = count as int + 1;
    let start = start_code(name);
    let body = blocks(function, count)->Ok_0;
    let end = body_end_code(function);
    let last = end_code();
    // The start of the routine
    assert(label_at(functions, Site::Routine(index)) == name);
    assert(is_label_of(functions, name, index, -1, 0));
    assert(sited(functions, start, index, -1, 0));
    assert(apart(start));
    // The blocks
    lemma_blocks_are_sited(functions, index, count);
    lemma_share_none_by_place(functions, start, body, index, -1, 0, count as int);
    lemma_apart_of_both(start, body);
    lemma_sited_of_both(functions, start, body, index, -1, 0, 0, count as int);
    // The end of the body
    if count == 0 {
        lemma_defines_none(functions, end, index, count as int, next);
    } else {
        let mark = Seq::empty().push(label_line(name, count));
        let rest = end.skip(1);
        assert(end =~= mark + rest);
        assert(defines_none(rest));
        assert(label_at(functions, Site::Position(index, count)) == label(name, count));
        assert(is_label_of(functions, label(name, count), index, count as int, next));
        assert(sited(functions, mark, index, count as int, next));
        assert(apart(mark));
        lemma_defines_none(functions, rest, index, count as int, next);
        lemma_apart_of_both(mark, rest);
        lemma_sited_of_both(functions, mark, rest, index, count as int, next, count as int, next);
    }
    lemma_share_none_by_place(functions, start + body, end, index, -1, count as int, next);
    lemma_apart_of_both(start + body, end);
    lemma_sited_of_both(functions, start + body, end, index, -1, count as int, count as int, next);
    // The end of the routine
    lemma_defines_none(functions, last, index, -1, next);
    lemma_apart_of_both(start + body + end, last);
    lemma_sited_of_both(functions, start + body + end, last, index, -1, next, -1, next);
}

/// The start of a program defines its three labels, and none twice.
pub proof fn lemma_program_start_is_sited(functions: Seq<FunctionView>)
    ensures
        apart(program_start_code()),
        sited_among(functions, program_start_code(), -1, 0),
{
    let code = program_start_code();
    lemma_program_labels_differ();
    assert(code.len() == 31);
    assert(label_at(functions, Site::Entry) == entry_label());
    assert(label_at(functions, Site::Print) == print_label());
    assert(label_at(functions, Site::Digit) == digit_label());
    assert forall|k: int| 0 <= k < code.len() implies ((#[trigger] code[k]).defined_label()
        is Some ==> (k == 2 || k == 8 || k == 15)) by {}
    assert(code[2].defined_label() == Some(entry_label()));
    assert(code[8].defined_label() == Some(print_label()));
    assert(code[15].defined_label() == Some(digit_label()));
}

/// The labels of earlier owners and the labels of the next owner are
/// labels of owners up to that one.
pub proof fn lemma_sited_among_of_both(
    functions: Seq<FunctionView>,
    first: Seq<InstructionView>,
    second: Seq<InstructionView>,
    start: int,
    index: int,
    low: int,
    high: int,
)
    requires
        start <= index,
        sited_among(functions, first, start, index),
        sited(functions, second, index, low, high),
    ensures
        sited_among(functions, first + second, start, index + 1),
{
    let both = first + second;
    assert forall|k: int| 0 <= k < both.len() implies ((#[trigger] both[k]).defined_label() matches Some(
        text,
    ) ==> exists|site: Site|
        has_site(functions, site) && start <= owner(site) < index + 1 && #[trigger] label_at(
            functions,
            site,
        ) == text) by {
        if both[k].defined_label() is Some {
            let text = both[k].defined_label()->Some_0;
            if k < first.len() {
                assert(both[k] == first[k]);
                let site = choose|site: Site|
                    has_site(functions, site) && start <= owner(site) < index
                        && #[trigger] label_at(functions, site) == text;
                assert(label_at(functions, site) == text);
            } else {
                assert(both[k] == second[k - first.len()]);
                let site = choose|site: Site|
                    has_site(functions, site) && owner(site) == index && low <= place(site)
                        < high && #[trigger] label_at(functions, site) == text;
                assert(label_at(functions, site) == text);
            }
        }
    }
}

/// The routines of the first functions define labels of these functions
/// only, and no label twice.
pub proof fn lemma_routines_are_sited(functions: Seq<FunctionView>, count: nat)
    requires
        names_of_their_own(functions),
        count <= functions.len(),
        routines(functions, count) is Ok,
    ensures
        apart(routines(functions, count)->Ok_0),
        sited_among(functions, routines(functions, count)->Ok_0, 0, count as int),
    decreases count,
{
    if count > 0 {
        let index = count as int - 1;
        let before = routines(functions, (count - 1) as nat)->Ok_0;
        let routine = routine_code(functions[index])->Ok_0;
        let high = functions[index].ops.len() as int + 1;
        lemma_routines_are_sited(functions, (count - 1) as nat);
        lemma_routine_is_sited(functions, index);
        lemma_share_none_by_owner(functions, before, routine, 0, index, -1, high);
        lemma_apart_of_both(before, routine);
        lemma_sited_among_of_both(functions, before, routine, 0, index, -1, high);
    }
}

/// Whether the text is the name of one of the functions, or the label of
/// a position of one of them or of the text that an operation of it pushes.
pub open spec fn belongs_to_a_function(functions: Seq<FunctionView>, text: Seq<char>) -> bool {
    exists|index: int, position: nat| #[trigger] belongs_to(functions, text, index, position)
}

/// Whether the text is the name of the function at `index`, or the label
/// of the given position of it or of the text that is pushed there.
pub open spec fn belongs_to(
    functions: Seq<FunctionView>,
    text: Seq<char>,
    index: int,
    position: nat,
) -> bool {
    0 <= index < functions.len() && position <= functions[index].ops.len() && (text
        == functions[index].name@ || text == label(functions[index].name@, position) || text
        == string_label(functions[index].name@, position))
}

/// Every label that the assembly of functions defines is the name of one
/// of the functions, or is made of the name of one of them and a position
/// of it. Where every function has a name of its own, no label is defined
/// twice: the text, which has one line for each of these instructions,
/// defines every label once.
pub proof fn lemma_labels_belong_to_functions(functions: Seq<FunctionView>)
    requires
        names_of_their_own(functions),
    ensures
        program_code(functions) matches Ok(code) ==> apart(code) && forall|k: int|
            0 <= k < code.len() ==> ((#[trigger] code[k]).defined_label() matches Some(text)
                ==> belongs_to_a_function(functions, text)),
{
    if program_code(functions) is Ok {
        let code = program_code(functions)->Ok_0;
        lemma_routines_are_sited(functions, functions.len());
        assert forall|k: int| 0 <= k < code.len() implies ((#[trigger] code[k]).defined_label() matches Some(
            text,
        ) ==> belongs_to_a_function(functions, text)) by {
            if code[k].defined_label() is Some {
                let text = code[k].defined_label()->Some_0;
                let site = choose|site: Site|
                    has_site(functions, site) && 0 <= owner(site) < functions.len()
                        && #[trigger] label_at(functions, site) == text;
                match site {
                    Site::Routine(index) => {
                        assert(belongs_to(functions, text, index, 0));
                    },
                    Site::Position(index, position) => {
                        assert(belongs_to(functions, text, index, position));
                    },
                    Site::Text(index, position) => {
                        assert(belongs_to(functions, text, index, position));
                    },
                    _ => {},
                }
            }
        }
    }
}

/// The start of a program and the routines of its functions define no
/// label twice, where every function has a name of its own.
pub proof fn lemma_program_defines_no_label_twice(functions: Seq<FunctionView>)
    requires
        names_of_their_own(functions),
    ensures
        program_code(functions) matches Ok(code) ==> apart(program_start_code() + code),
{
    if program_code(functions) is Ok {
        let code = program_code(functions)->Ok_0;
        lemma_routines_are_sited(functions, functions.len());
        lemma_program_start_is_sited(functions);
        lemma_share_none_by_owners(
            functions,
            program_start_code(),
            code,
            -1,
            0,
            functions.len() as int,
        );
        lemma_apart_of_both(program_start_code(), code);
    }
}

} // verus!
