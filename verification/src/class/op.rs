use vstd::prelude::*;
use crate::class::location::Location;
use crate::class::token::Token;
use crate::data_types::DataType;
use crate::intrinsics::{Calculation, Comparison, Intrinsic};

verus! {

/// Where a block keyword continues once its block is resolved. A position is
/// the id of an operation; the position behind the last operation is the
/// number of operations.
#[derive(Debug, Clone, Copy, PartialEq, Eq)]
pub struct Jump {
    /// Position taken when the keyword's branch is not entered, or, for
    /// `done`, `break` and `continue`, the position always taken.
    pub target: Option<usize>,
    /// Position taken at the end of the keyword's arm, where another arm of
    /// the same conditional follows it.
    pub exit: Option<usize>,
}

impl Jump {
    /// The jump of a keyword that is not resolved.
    pub open spec fn unresolved() -> Jump {
        Jump { target: None, exit: None }
    }

    /// The jump of a keyword that is not resolved.
    pub fn none() -> (jump: Jump)
        ensures
            jump == Jump::unresolved(),
    {
        Jump { target: None, exit: None }
    }
}

/// What a block keyword is to the resolution of control flow.
#[derive(Debug, Clone, Copy, PartialEq, Eq, Structural)]
pub enum Marker {
    If,
    Elif,
    Else,
    Endif,
    While,
    Do,
    Done,
    Break,
    Continue,
    /// Any operation that is no block keyword.
    Plain,
}

#[derive(Debug, PartialEq)]
pub struct FunctionCallInfo {
    pub function_name: String,
    pub argument_count: usize,
}

impl Clone for FunctionCallInfo {
    fn clone(&self) -> (copy: Self)
        ensures
            copy == *self,
    {
        FunctionCallInfo {
            function_name: self.function_name.clone(),
            argument_count: self.argument_count,
        }
    }
}

#[derive(Debug, PartialEq)]
pub enum OpType {
    Break(Jump),
    Cast(DataType),
    Calculation(Calculation),
    Comparison(Comparison),
    Continue(Jump),
    Do(Jump),
    Done(Jump),
    Elif(Jump),
    Else(Jump),
    Endif,
    FunctionCall(FunctionCallInfo),
    If(Jump),
    Intrinsic(Intrinsic),
    Push(Token),
    Return,
    While,
}

impl Clone for OpType {
    fn clone(&self) -> (copy: Self)
        ensures
            copy == *self,
    {
        match self {
            OpType::Break(jump) => OpType::Break(*jump),
            OpType::Cast(data_type) => OpType::Cast(data_type.clone()),
            OpType::Calculation(calculation) => OpType::Calculation(*calculation),
            OpType::Comparison(comparison) => OpType::Comparison(*comparison),
            OpType::Continue(jump) => OpType::Continue(*jump),
            OpType::Do(jump) => OpType::Do(*jump),
            OpType::Done(jump) => OpType::Done(*jump),
            OpType::Elif(jump) => OpType::Elif(*jump),
            OpType::Else(jump) => OpType::Else(*jump),
            OpType::Endif => OpType::Endif,
            OpType::FunctionCall(info) => OpType::FunctionCall(info.clone()),
            OpType::If(jump) => OpType::If(*jump),
            OpType::Intrinsic(intrinsic) => OpType::Intrinsic(*intrinsic),
            OpType::Push(token) => OpType::Push(token.clone()),
            OpType::Return => OpType::Return,
            OpType::While => OpType::While,
        }
    }
}

impl OpType {
    /// The keyword that the operation is to the resolution of control flow.
    pub open spec fn marker(self) -> Marker {
        match self {
            OpType::Break(_) => Marker::Break,
            OpType::Continue(_) => Marker::Continue,
            OpType::Do(_) => Marker::Do,
            OpType::Done(_) => Marker::Done,
            OpType::Elif(_) => Marker::Elif,
            OpType::Else(_) => Marker::Else,
            OpType::Endif => Marker::Endif,
            OpType::If(_) => Marker::If,
            OpType::While => Marker::While,
            _ => Marker::Plain,
        }
    }

    /// The keyword that this operation is to the resolution of control flow.
    pub fn get_marker(&self) -> (marker: Marker)
        ensures
            marker == self.marker(),
    {
        match self {
            OpType::Break(_) => Marker::Break,
            OpType::Continue(_) => Marker::Continue,
            OpType::Do(_) => Marker::Do,
            OpType::Done(_) => Marker::Done,
            OpType::Elif(_) => Marker::Elif,
            OpType::Else(_) => Marker::Else,
            OpType::Endif => Marker::Endif,
            OpType::If(_) => Marker::If,
            OpType::While => Marker::While,
            _ => Marker::Plain,
        }
    }

    /// The jump that a block keyword carries; none for `endif`, `while` and
    /// every other operation.
    pub open spec fn jump(self) -> Jump {
        match self {
            OpType::Break(jump) => jump,
            OpType::Continue(jump) => jump,
            OpType::Do(jump) => jump,
            OpType::Done(jump) => jump,
            OpType::Elif(jump) => jump,
            OpType::Else(jump) => jump,
            OpType::If(jump) => jump,
            _ => Jump::unresolved(),
        }
    }

    /// The jump that the operation carries.
    pub fn get_jump(&self) -> (jump: Jump)
        ensures
            jump == self.jump(),
    {
        match self {
            OpType::Break(jump) => *jump,
            OpType::Continue(jump) => *jump,
            OpType::Do(jump) => *jump,
            OpType::Done(jump) => *jump,
            OpType::Elif(jump) => *jump,
            OpType::Else(jump) => *jump,
            OpType::If(jump) => *jump,
            _ => Jump::none(),
        }
    }

    /// The same operation with `jump` in place of the jump it carries.
    pub open spec fn with_jump(self, jump: Jump) -> OpType {
        match self {
            OpType::Break(_) => OpType::Break(jump),
            OpType::Continue(_) => OpType::Continue(jump),
            OpType::Do(_) => OpType::Do(jump),
            OpType::Done(_) => OpType::Done(jump),
            OpType::Elif(_) => OpType::Elif(jump),
            OpType::Else(_) => OpType::Else(jump),
            OpType::If(_) => OpType::If(jump),
            other => other,
        }
    }

    /// Puts `jump` in place of the jump that a block keyword carries; any
    /// other operation stays as it is.
    pub fn set_jump(&mut self, jump: Jump)
        ensures
            *final(self) == old(self).with_jump(jump),
    {
        match self {
            OpType::Break(held) => *held = jump,
            OpType::Continue(held) => *held = jump,
            OpType::Do(held) => *held = jump,
            OpType::Done(held) => *held = jump,
            OpType::Elif(held) => *held = jump,
            OpType::Else(held) => *held = jump,
            OpType::If(held) => *held = jump,
            _ => {},
        }
    }
}

/// One stack operation of a function.
#[derive(Debug, PartialEq)]
pub struct Op {
    pub id: usize,
    pub typ: OpType,
    pub start_loc: Location,
    pub end_loc: Location,
}

impl Clone for Op {
    fn clone(&self) -> (copy: Self)
        ensures
            copy == *self,
    {
        Op {
            id: self.id,
            typ: self.typ.clone(),
            start_loc: self.start_loc.clone(),
            end_loc: self.end_loc.clone(),
        }
    }
}

/// The keyword of each operation, in order.
pub open spec fn markers_of(ops: Seq<Op>) -> Seq<Marker> {
    Seq::new(ops.len(), |i: int| ops[i].typ.marker())
}

/// Whether the ids of the operations count up from zero.
pub open spec fn ids_in_order(ops: Seq<Op>) -> bool {
    forall|i: int| 0 <= i < ops.len() ==> (#[trigger] ops[i]).id == i
}

} // verus!
