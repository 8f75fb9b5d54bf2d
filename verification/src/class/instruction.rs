use vstd::prelude::*;
use vstd::string::StringExecFns;
use crate::text::{decimal, push_decimal};

verus! {

/// One line of assembly.
#[derive(Debug, PartialEq)]
pub enum Instruction {
    /// The definition of a label.
    Label(String),
    /// The definition of a label for bytes in the data of the program: the
    /// label, then the bytes, behind which a zero byte is written.
    Data(String, Vec<u8>),
    /// A directive, at the left margin; an empty line if it has no text.
    Line(String),
    /// Puts an operand on the top of the stack.
    Push(String),
    /// Takes the top of the stack into a register.
    Pop(String),
    /// Calls the routine of a function, which finds its arguments on the
    /// stack and leaves what it returns below them.
    Call(String),
    /// Gives up the given number of values at the top of the stack.
    Release(usize),
    /// Any other instruction. It pushes no value and takes none.
    Plain(String),
}

/// An instruction with its text as a sequence of characters.
pub ghost enum InstructionView {
    Label(Seq<char>),
    Data(Seq<char>, Seq<u8>),
    Line(Seq<char>),
    Push(Seq<char>),
    Pop(Seq<char>),
    Call(Seq<char>),
    Release(usize),
    Plain(Seq<char>),
}

impl View for Instruction {
    type V = InstructionView;

    open spec fn view(&self) -> InstructionView {
        match self {
            Instruction::Label(label) => InstructionView::Label(label@),
            Instruction::Data(label, bytes) => InstructionView::Data(label@, bytes@),
            Instruction::Line(text) => InstructionView::Line(text@),
            Instruction::Push(operand) => InstructionView::Push(operand@),
            Instruction::Pop(register) => InstructionView::Pop(register@),
            Instruction::Call(name) => InstructionView::Call(name@),
            Instruction::Release(count) => InstructionView::Release(*count),
            Instruction::Plain(text) => InstructionView::Plain(text@),
        }
    }
}

/// The first `count` bytes as numbers, a comma behind each.
pub open spec fn bytes_text(bytes: Seq<u8>, count: nat) -> Seq<char>
    decreases count,
{
    if count == 0 {
        Seq::empty()
    } else {
        bytes_text(bytes, (count - 1) as nat) + decimal(bytes[count - 1] as nat) + ", "@
    }
}

impl InstructionView {
    /// The line that the instruction is written as.
    pub open spec fn text(self) -> Seq<char> {
        match self {
            InstructionView::Label(label) => label + ":\n"@,
            InstructionView::Data(label, bytes) => label + ": db "@ + bytes_text(bytes, bytes.len())
                + "0\n"@,
            InstructionView::Line(text) => text + "\n"@,
            InstructionView::Push(operand) => "  push "@ + operand + "\n"@,
            InstructionView::Pop(register) => "  pop "@ + register + "\n"@,
            InstructionView::Call(name) => "  call "@ + name + "\n"@,
            InstructionView::Release(count) => "  add rsp, 8*"@ + decimal(count as nat) + "\n"@,
            InstructionView::Plain(text) => "  "@ + text + "\n"@,
        }
    }

    /// The label that the instruction defines, if it defines one.
    pub open spec fn defined_label(self) -> Option<Seq<char>> {
        match self {
            InstructionView::Label(label) => Some(label),
            InstructionView::Data(label, _) => Some(label),
            _ => None,
        }
    }
}

/// The instructions as values of their model, in order.
pub open spec fn instruction_views(code: Seq<Instruction>) -> Seq<InstructionView> {
    Seq::new(code.len(), |i: int| code[i]@)
}

/// The text of the first `count` instructions, one line for each, in order.
pub open spec fn rendered_upto(code: Seq<InstructionView>, count: nat) -> Seq<char>
    decreases count,
{
    if count == 0 {
        Seq::empty()
    } else {
        rendered_upto(code, (count - 1) as nat) + code[count - 1].text()
    }
}

/// The text of the instructions, one line for each, in order.
pub open spec fn rendered(code: Seq<InstructionView>) -> Seq<char> {
    rendered_upto(code, code.len())
}

fn write_bytes(text: &mut String, bytes: &Vec<u8>)
    ensures
        final(text)@ == old(text)@ + bytes_text(bytes@, bytes.len() as nat),
{
    let mut at: usize = 0;
    assert(text@ =~= old(text)@ + bytes_text(bytes@, 0));
    while at < bytes.len()
        invariant
            at <= bytes.len(),
            text@ == old(text)@ + bytes_text(bytes@, at as nat),
        decreases bytes.len() - at,
    {
        push_decimal(text, bytes[at] as usize);
        text.append(", ");
        at += 1;
        assert(text@ =~= old(text)@ + bytes_text(bytes@, at as nat));
    }
}

impl Instruction {
    /// Appends the line of the instruction to a text.
    pub fn write(&self, text: &mut String)
        ensures
            final(text)@ == old(text)@ + self@.text(),
    {
        match self {
            Instruction::Label(label) => {
                text.append(label.as_str());
                text.append(":\n");
            },
            Instruction::Data(label, bytes) => {
                text.append(label.as_str());
                text.append(": db ");
                write_bytes(text, bytes);
                text.append("0\n");
            },
            Instruction::Line(line) => {
                text.append(line.as_str());
                text.append("\n");
            },
            Instruction::Push(operand) => {
                text.append("  push ");
                text.append(operand.as_str());
                text.append("\n");
            },
            Instruction::Pop(register) => {
                text.append("  pop ");
                text.append(register.as_str());
                text.append("\n");
            },
            Instruction::Call(name) => {
                text.append("  call ");
                text.append(name.as_str());
                text.append("\n");
            },
            Instruction::Release(count) => {
                text.append("  add rsp, 8*");
                push_decimal(text, *count);
                text.append("\n");
            },
            Instruction::Plain(line) => {
                text.append("  ");
                text.append(line.as_str());
                text.append("\n");
            },
        }
        assert(text@ =~= old(text)@ + self@.text());
    }
}

/// Appends the lines of the instructions to a text.
pub fn write_instructions(text: &mut String, code: &Vec<Instruction>)
    ensures
        final(text)@ == old(text)@ + rendered(instruction_views(code@)),
{
    let mut at: usize = 0;
    assert(text@ =~= old(text)@ + rendered_upto(instruction_views(code@), 0));
    while at < code.len()
        invariant
            at <= code.len(),
            text@ == old(text)@ + rendered_upto(instruction_views(code@), at as nat),
        decreases code.len() - at,
    {
        code[at].write(text);
        at += 1;
        assert(text@ =~= old(text)@ + rendered_upto(instruction_views(code@), at as nat));
    }
}

/// The text of instructions with one more is their text and the line of that one.
pub broadcast proof fn lemma_rendered_of_push(code: Seq<InstructionView>, last: InstructionView)
    ensures
        #[trigger] rendered(code.push(last)) == rendered(code) + last.text(),
{
    lemma_rendered_upto_of_start(code.push(last), code, code.len());
}

/// The text of the first instructions depends on nothing but them.
pub proof fn lemma_rendered_upto_of_start(
    code: Seq<InstructionView>,
    start: Seq<InstructionView>,
    count: nat,
)
    requires
        count <= start.len() <= code.len(),
        forall|i: int| 0 <= i < count ==> code[i] == start[i],
    ensures
        rendered_upto(code, count) == rendered_upto(start, count),
    decreases count,
{
    if count > 0 {
        lemma_rendered_upto_of_start(code, start, (count - 1) as nat);
    }
}

/// The text of two runs of instructions is the text of the first and then
/// the text of the second.
pub proof fn lemma_rendered_of_both(first: Seq<InstructionView>, second: Seq<InstructionView>)
    ensures
        rendered(first + second) == rendered(first) + rendered(second),
    decreases second.len(),
{
    if second.len() == 0 {
        assert(first + second =~= first);
        assert(rendered(first) + rendered(second) =~= rendered(first));
    } else {
        let fewer = second.drop_last();
        lemma_rendered_of_both(first, fewer);
        assert(first + second =~= (first + fewer).push(second.last()));
        assert(second =~= fewer.push(second.last()));
        lemma_rendered_of_push(first + fewer, second.last());
        lemma_rendered_of_push(fewer, second.last());
        assert(rendered(first) + (rendered(fewer) + second.last().text()) =~= rendered(first)
            + rendered(fewer) + second.last().text());
    }
}

} // verus!
