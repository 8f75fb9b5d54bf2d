use vstd::prelude::*;
use crate::class::function::{function_views, Function, FunctionView};
use crate::class::location::Location;
use crate::class::op::{FunctionCallInfo, Op, OpType};
use crate::class::signature::{Parameter, Signature, SignatureView};
use crate::class::token::TokenType;
use crate::compiler::{CompilerError, TypeError};
use crate::data_types::{ChunkSize, DataType, DataTypeView};
use crate::intrinsics::{Intrinsic, SYSCALL_ARGUMENTS};
use crate::text::str_eq;

verus! {

/// The types on a stack, the top last.
pub open spec fn types_of(stack: Seq<DataType>) -> Seq<DataTypeView> {
    Seq::new(stack.len(), |i: int| stack[i]@)
}

/// Size of the representation of a value of the type.
pub open spec fn width_of(data_type: DataTypeView) -> ChunkSize {
    match data_type {
        DataTypeView::Boolean => ChunkSize::Byte,
        DataTypeView::Character => ChunkSize::Byte,
        DataTypeView::Integer(size) => size,
        _ => ChunkSize::Qword,
    }
}

/// The signature of the first function called `name` among those from `from` on.
pub open spec fn callee_from(functions: Seq<FunctionView>, name: Seq<char>, from: nat) -> Option<
    SignatureView,
>
    decreases functions.len() - from,
{
    if from >= functions.len() {
        None
    } else if functions[from as int].name@ == name {
        Some(functions[from as int].signature)
    } else {
        callee_from(functions, name, from + 1)
    }
}

/// The signature of the first function called `name`.
pub open spec fn callee(functions: Seq<FunctionView>, name: Seq<char>) -> Option<SignatureView> {
    callee_from(functions, name, 0)
}

/// The type of the first parameter called `name` among those from `from` on.
pub open spec fn parameter_from(parameters: Seq<Parameter>, name: Seq<char>, from: nat) -> Option<
    DataTypeView,
>
    decreases parameters.len() - from,
{
    if from >= parameters.len() {
        None
    } else if parameters[from as int].name@ == name {
        Some(parameters[from as int].typ@)
    } else {
        parameter_from(parameters, name, from + 1)
    }
}

/// The stack without the truth value on its top.
pub open spec fn pop_condition(stack: Seq<DataTypeView>) -> Result<Seq<DataTypeView>, TypeError> {
    if stack.len() < 1 {
        Err(TypeError::StackUnderflow)
    } else if stack.last() != DataTypeView::Boolean {
        Err(TypeError::TypeMismatch)
    } else {
        Ok(stack.drop_last())
    }
}

/// The stack with its two topmost values, both integers, replaced by an
/// integer of the wider of their sizes.
pub open spec fn calculate(stack: Seq<DataTypeView>) -> Result<Seq<DataTypeView>, TypeError> {
    if stack.len() < 2 {
        Err(TypeError::StackUnderflow)
    } else {
        match (stack[stack.len() - 2], stack[stack.len() - 1]) {
            (DataTypeView::Integer(left), DataTypeView::Integer(right)) => Ok(
                stack.take(stack.len() - 2).push(DataTypeView::Integer(left.wider(right))),
            ),
            _ => Err(TypeError::TypeMismatch),
        }
    }
}

/// Whether values of the two types can be compared: two integers, or two
/// values of one type.
pub open spec fn comparable(left: DataTypeView, right: DataTypeView) -> bool {
    (left is Integer && right is Integer) || left == right
}

/// The stack with its two topmost values replaced by a truth value.
pub open spec fn compare(stack: Seq<DataTypeView>) -> Result<Seq<DataTypeView>, TypeError> {
    if stack.len() < 2 {
        Err(TypeError::StackUnderflow)
    } else if !comparable(stack[stack.len() - 2], stack[stack.len() - 1]) {
        Err(TypeError::TypeMismatch)
    } else {
        Ok(stack.take(stack.len() - 2).push(DataTypeView::Boolean))
    }
}

/// The stack after a built-in word.
pub open spec fn apply_intrinsic(stack: Seq<DataTypeView>, intrinsic: Intrinsic) -> Result<
    Seq<DataTypeView>,
    TypeError,
> {
    let len = stack.len() as int;
    match intrinsic {
        Intrinsic::Dup => if len < 1 {
            Err(TypeError::StackUnderflow)
        } else {
            Ok(stack.push(stack[len - 1]))
        },
        Intrinsic::Drop => if len < 1 {
            Err(TypeError::StackUnderflow)
        } else {
            Ok(stack.drop_last())
        },
        Intrinsic::Swap => if len < 2 {
            Err(TypeError::StackUnderflow)
        } else {
            Ok(stack.take(len - 2).push(stack[len - 1]).push(stack[len - 2]))
        },
        Intrinsic::Rot => if len < 3 {
            Err(TypeError::StackUnderflow)
        } else {
            Ok(stack.take(len - 3).push(stack[len - 2]).push(stack[len - 1]).push(stack[len - 3]))
        },
        Intrinsic::Over => if len < 2 {
            Err(TypeError::StackUnderflow)
        } else {
            Ok(stack.push(stack[len - 2]))
        },
        Intrinsic::Load(size) => if len < 1 {
            Err(TypeError::StackUnderflow)
        } else if stack[len - 1] != DataTypeView::Pointer {
            Err(TypeError::TypeMismatch)
        } else {
            Ok(stack.drop_last().push(DataTypeView::Integer(size)))
        },
        Intrinsic::Store(size) => if len < 2 {
            Err(TypeError::StackUnderflow)
        } else if stack[len - 1] != DataTypeView::Pointer || stack[len - 2]
            != DataTypeView::Integer(size) {
            Err(TypeError::TypeMismatch)
        } else {
            Ok(stack.take(len - 2))
        },
        Intrinsic::Shl | Intrinsic::Shr => calculate(stack),
        Intrinsic::Syscall(arguments) => if arguments > SYSCALL_ARGUMENTS {
            Err(TypeError::TypeMismatch)
        } else if len < arguments + 1 {
            Err(TypeError::StackUnderflow)
        } else {
            Ok(stack.take(len - (arguments + 1)).push(DataTypeView::Integer(ChunkSize::Qword)))
        },
        Intrinsic::Print => if len < 1 {
            Err(TypeError::StackUnderflow)
        } else if !(stack[len - 1] is Integer) {
            Err(TypeError::TypeMismatch)
        } else {
            Ok(stack.drop_last())
        },
    }
}

/// The stack after a call: the arguments, which are as many as the call
/// names and as the callee declares and have the declared types, are replaced
/// by what the callee returns.
pub open spec fn apply_call(
    stack: Seq<DataTypeView>,
    info: FunctionCallInfo,
    functions: Seq<FunctionView>,
) -> Result<Seq<DataTypeView>, TypeError> {
    match callee(functions, info.function_name@) {
        None => Err(TypeError::TypeMismatch),
        Some(signature) => {
            let count = signature.parameters.len() as int;
            if info.argument_count != count {
                Err(TypeError::TypeMismatch)
            } else if stack.len() < count {
                Err(TypeError::StackUnderflow)
            } else if stack.skip(stack.len() - count) != signature.parameter_types() {
                Err(TypeError::TypeMismatch)
            } else {
                Ok(stack.take(stack.len() - count) + signature.return_types())
            }
        },
    }
}

/// The stack after one operation of a function with the given signature, or
/// the error that the operation raises.
pub open spec fn apply(
    stack: Seq<DataTypeView>,
    typ: OpType,
    signature: SignatureView,
    functions: Seq<FunctionView>,
) -> Result<Seq<DataTypeView>, TypeError> {
    match typ {
        OpType::Calculation(_) => calculate(stack),
        OpType::Comparison(_) => compare(stack),
        OpType::Intrinsic(intrinsic) => apply_intrinsic(stack, intrinsic),
        OpType::If(_) | OpType::Elif(_) | OpType::Do(_) => pop_condition(stack),
        OpType::Else(_) | OpType::Endif | OpType::While | OpType::Done(_) | OpType::Break(_)
        | OpType::Continue(_) => Ok(stack),
        OpType::Cast(data_type) => if stack.len() < 1 {
            Err(TypeError::StackUnderflow)
        } else {
            Ok(stack.drop_last().push(data_type@))
        },
        OpType::Push(token) => match token.typ {
            TokenType::Literal(data_type) => Ok(stack.push(data_type@)),
            TokenType::Identifier => match parameter_from(signature.parameters, token.value@, 0) {
                Some(data_type) => Ok(stack.push(data_type)),
                None => Err(TypeError::TypeMismatch),
            },
            _ => Err(TypeError::TypeMismatch),
        },
        OpType::FunctionCall(info) => apply_call(stack, info, functions),
        OpType::Return => if stack == signature.return_types() {
            Ok(stack)
        } else {
            Err(TypeError::StackImbalance)
        },
    }
}

/// Whether the operation is a cast that changes the size of the value on
/// the top of the stack.
pub open spec fn cast_changes_width(stack: Seq<DataTypeView>, typ: OpType) -> bool {
    typ matches OpType::Cast(data_type) && stack.len() > 0 && width_of(stack.last()) != width_of(
        data_type@,
    )
}

/// An error of the check and the position of the operation it is about; an
/// error at the end of the function has the number of operations as position.
#[derive(Debug, Clone, Copy, PartialEq, Eq)]
pub struct Violation {
    pub kind: TypeError,
    pub position: usize,
}

/// The stack between two operations and the casts before that change a size.
pub ghost struct Trace {
    pub stack: Seq<DataTypeView>,
    pub warnings: Seq<usize>,
}

/// The stack after the first `count` operations, or the first error among them.
pub open spec fn trace(
    ops: Seq<Op>,
    signature: SignatureView,
    functions: Seq<FunctionView>,
    count: nat,
) -> Result<Trace, Violation>
    decreases count,
{
    if count == 0 {
        Ok(Trace { stack: Seq::empty(), warnings: Seq::empty() })
    } else {
        match trace(ops, signature, functions, (count - 1) as nat) {
            Err(violation) => Err(violation),
            Ok(before) => {
                let typ = ops[count - 1].typ;
                match apply(before.stack, typ, signature, functions) {
                    Err(kind) => Err(Violation { kind, position: (count - 1) as usize }),
                    Ok(stack) => Ok(
                        Trace {
                            stack,
                            warnings: if cast_changes_width(before.stack, typ) {
                                before.warnings.push((count - 1) as usize)
                            } else {
                                before.warnings
                            },
                        },
                    ),
                }
            },
        }
    }
}

/// The outcome of the check of a function body: the positions of the casts
/// that change a size, or the first error. The body starts on an empty stack
/// and must end with exactly the declared return types on it.
pub open spec fn checked(ops: Seq<Op>, signature: SignatureView, functions: Seq<FunctionView>) -> Result<
    Seq<usize>,
    Violation,
> {
    match trace(ops, signature, functions, ops.len()) {
        Err(violation) => Err(violation),
        Ok(end) => if end.stack == signature.return_types() {
            Ok(end.warnings)
        } else {
            Err(Violation { kind: TypeError::StackImbalance, position: ops.len() as usize })
        },
    }
}

/// Where an error of the check is reported: at the start of the operation,
/// or, for an error at the end of the function, at the end of its last
/// operation, or at its name if it has no operation.
pub open spec fn place_of(function: FunctionView, position: usize) -> Location {
    if position < function.ops.len() {
        function.ops[position as int].start_loc
    } else if function.ops.len() > 0 {
        function.ops[function.ops.len() - 1].end_loc
    } else {
        function.location
    }
}

/// Size of the representation of a value of the type.
pub fn width(data_type: &DataType) -> (size: ChunkSize)
    ensures
        size == width_of(data_type@),
{
    match data_type {
        DataType::Boolean => ChunkSize::Byte,
        DataType::Character => ChunkSize::Byte,
        DataType::Integer(size) => *size,
        _ => ChunkSize::Qword,
    }
}

/// The signature of the first function called `name`.
pub fn find_callee<'a>(functions: &'a Vec<Function>, name: &str) -> (found: Option<&'a Signature>)
    ensures
        match found {
            Some(signature) => callee(function_views(functions@), name@) == Some(signature@),
            None => callee(function_views(functions@), name@) is None,
        },
{
    let mut at: usize = 0;
    while at < functions.len()
        invariant
            at <= functions.len(),
            callee(function_views(functions@), name@) == callee_from(function_views(functions@), name@, at as nat),
        decreases functions.len() - at,
    {
        if str_eq(functions[at].name.as_str(), name) {
            return Some(&functions[at].signature);
        }
        at += 1;
    }
    None
}

/// The type of the first parameter called `name`.
pub fn find_parameter<'a>(parameters: &'a Vec<Parameter>, name: &str) -> (found: Option<
    &'a DataType,
>)
    ensures
        match found {
            Some(data_type) => parameter_from(parameters@, name@, 0) == Some(data_type@),
            None => parameter_from(parameters@, name@, 0) is None,
        },
{
    let mut at: usize = 0;
    while at < parameters.len()
        invariant
            at <= parameters.len(),
            parameter_from(parameters@, name@, 0) == parameter_from(parameters@, name@, at as nat),
        decreases parameters.len() - at,
    {
        if str_eq(parameters[at].name.as_str(), name) {
            return Some(&parameters[at].typ);
        }
        at += 1;
    }
    None
}

fn check_condition(stack: &mut Vec<DataType>) -> (done: Result<(), TypeError>)
    ensures
        match pop_condition(types_of(old(stack)@)) {
            Ok(after) => done is Ok && types_of(final(stack)@) == after,
            Err(kind) => done == Err::<(), TypeError>(kind),
        },
{
    match stack.pop() {
        None => Err(TypeError::StackUnderflow),
        Some(DataType::Boolean) => {
            assert(types_of(stack@) =~= types_of(old(stack)@).drop_last());
            Ok(())
        },
        Some(_) => Err(TypeError::TypeMismatch),
    }
}

fn check_calculation(stack: &mut Vec<DataType>) -> (done: Result<(), TypeError>)
    ensures
        match calculate(types_of(old(stack)@)) {
            Ok(after) => done is Ok && types_of(final(stack)@) == after,
            Err(kind) => done == Err::<(), TypeError>(kind),
        },
{
    if stack.len() < 2 {
        return Err(TypeError::StackUnderflow);
    }
    let right = stack.pop().unwrap();
    let left = stack.pop().unwrap();
    match (left, right) {
        (DataType::Integer(left), DataType::Integer(right)) => {
            stack.push(DataType::Integer(left.max(right)));
            assert(types_of(stack@) =~= calculate(types_of(old(stack)@))->Ok_0);
            Ok(())
        },
        _ => Err(TypeError::TypeMismatch),
    }
}

fn check_comparison(stack: &mut Vec<DataType>) -> (done: Result<(), TypeError>)
    ensures
        match compare(types_of(old(stack)@)) {
            Ok(after) => done is Ok && types_of(final(stack)@) == after,
            Err(kind) => done == Err::<(), TypeError>(kind),
        },
{
    if stack.len() < 2 {
        return Err(TypeError::StackUnderflow);
    }
    let right = stack.pop().unwrap();
    let left = stack.pop().unwrap();
    let both_integers = match (&left, &right) {
        (DataType::Integer(_), DataType::Integer(_)) => true,
        _ => false,
    };
    if both_integers || left.same_as(&right) {
        stack.push(DataType::Boolean);
        assert(types_of(stack@) =~= compare(types_of(old(stack)@))->Ok_0);
        Ok(())
    } else {
        Err(TypeError::TypeMismatch)
    }
}

fn check_intrinsic(stack: &mut Vec<DataType>, intrinsic: Intrinsic) -> (done: Result<
    (),
    TypeError,
>)
    ensures
        match apply_intrinsic(types_of(old(stack)@), intrinsic) {
            Ok(after) => done is Ok && types_of(final(stack)@) == after,
            Err(kind) => done == Err::<(), TypeError>(kind),
        },
{
    let len = stack.len();
    let ghost before = types_of(stack@);
    match intrinsic {
        Intrinsic::Dup => {
            if len < 1 {
                return Err(TypeError::StackUnderflow);
            }
            let top = stack[len - 1].clone();
            stack.push(top);
            assert(types_of(stack@) =~= before.push(before[len - 1]));
            Ok(())
        },
        Intrinsic::Drop => {
            if len < 1 {
                return Err(TypeError::StackUnderflow);
            }
            stack.pop();
            assert(types_of(stack@) =~= before.drop_last());
            Ok(())
        },
        Intrinsic::Swap => {
            if len < 2 {
                return Err(TypeError::StackUnderflow);
            }
            let top = stack.pop().unwrap();
            let second = stack.pop().unwrap();
            stack.push(top);
            stack.push(second);
            assert(types_of(stack@) =~= before.take(len - 2).push(before[len - 1]).push(
                before[len - 2],
            ));
            Ok(())
        },
        Intrinsic::Rot => {
            if len < 3 {
                return Err(TypeError::StackUnderflow);
            }
            let top = stack.pop().unwrap();
            let second = stack.pop().unwrap();
            let third = stack.pop().unwrap();
            stack.push(second);
            stack.push(top);
            stack.push(third);
            assert(types_of(stack@) =~= before.take(len - 3).push(before[len - 2]).push(
                before[len - 1],
            ).push(before[len - 3]));
            Ok(())
        },
        Intrinsic::Over => {
            if len < 2 {
                return Err(TypeError::StackUnderflow);
            }
            let second = stack[len - 2].clone();
            stack.push(second);
            assert(types_of(stack@) =~= before.push(before[len - 2]));
            Ok(())
        },
        Intrinsic::Load(size) => {
            match stack.pop() {
                None => Err(TypeError::StackUnderflow),
                Some(DataType::Pointer) => {
                    stack.push(DataType::Integer(size));
                    assert(types_of(stack@) =~= before.drop_last().push(
                        DataTypeView::Integer(size),
                    ));
                    Ok(())
                },
                Some(_) => Err(TypeError::TypeMismatch),
            }
        },
        Intrinsic::Store(size) => {
            if len < 2 {
                return Err(TypeError::StackUnderflow);
            }
            let address = stack.pop().unwrap();
            let value = stack.pop().unwrap();
            match (address, value) {
                (DataType::Pointer, DataType::Integer(held)) => {
                    if held.byte_count() == size.byte_count() {
                        assert(types_of(stack@) =~= before.take(len - 2));
                        Ok(())
                    } else {
                        Err(TypeError::TypeMismatch)
                    }
                },
                _ => Err(TypeError::TypeMismatch),
            }
        },
        Intrinsic::Shl => check_calculation(stack),
        Intrinsic::Shr => check_calculation(stack),
        Intrinsic::Syscall(arguments) => {
            if arguments > SYSCALL_ARGUMENTS {
                return Err(TypeError::TypeMismatch);
            }
            let taken: usize = arguments as usize + 1;
            if len < taken {
                return Err(TypeError::StackUnderflow);
            }
            stack.truncate(len - taken);
            stack.push(DataType::Integer(ChunkSize::Qword));
            assert(types_of(stack@) =~= before.take(len - (arguments + 1)).push(
                DataTypeView::Integer(ChunkSize::Qword),
            ));
            Ok(())
        },
        Intrinsic::Print => {
            match stack.pop() {
                None => Err(TypeError::StackUnderflow),
                Some(DataType::Integer(_)) => {
                    assert(types_of(stack@) =~= before.drop_last());
                    Ok(())
                },
                Some(_) => Err(TypeError::TypeMismatch),
            }
        },
    }
}

fn check_call(stack: &mut Vec<DataType>, info: &FunctionCallInfo, functions: &Vec<Function>) -> (done:
    Result<(), TypeError>)
    ensures
        match apply_call(types_of(old(stack)@), *info, function_views(functions@)) {
            Ok(after) => done is Ok && types_of(final(stack)@) == after,
            Err(kind) => done == Err::<(), TypeError>(kind),
        },
{
    let ghost before = types_of(stack@);
    match find_callee(functions, info.function_name.as_str()) {
        None => Err(TypeError::TypeMismatch),
        Some(signature) => {
            let count = signature.parameters.len();
            let len = stack.len();
            if info.argument_count != count {
                return Err(TypeError::TypeMismatch);
            }
            if len < count {
                return Err(TypeError::StackUnderflow);
            }
            let base = len - count;
            let mut at: usize = 0;
            while at < count
                invariant
                    at <= count,
                    count == signature.parameters.len(),
                    len == stack.len(),
                    base + count == len,
                    before == types_of(stack@),
                    before == types_of(old(stack)@),
                    callee(function_views(functions@), info.function_name@) == Some(signature@),
                    info.argument_count == count,
                    forall|k: int|
                        0 <= k < at ==> before[base + k] == (
                        #[trigger] signature.parameters[k]).typ@,
                decreases count - at,
            {
                if !stack[base + at].same_as(&signature.parameters[at].typ) {
                    assert(before.skip(len - count)[at as int]
                        != signature@.parameter_types()[at as int]);
                    return Err(TypeError::TypeMismatch);
                }
                at += 1;
            }
            assert(before.skip(len - count) =~= signature@.parameter_types());
            stack.truncate(base);
            match &signature.return_type {
                Some(data_type) => {
                    stack.push(data_type.clone());
                },
                None => {},
            }
            assert(types_of(stack@) =~= before.take(len - count) + signature@.return_types());
            Ok(())
        },
    }
}

fn check_return(stack: &Vec<DataType>, signature: &Signature) -> (same: bool)
    ensures
        same == (types_of(stack@) == signature@.return_types()),
{
    match &signature.return_type {
        Some(data_type) => {
            if stack.len() == 1 && stack[0].same_as(data_type) {
                assert(types_of(stack@) =~= signature@.return_types());
                true
            } else {
                assert(types_of(stack@).len() == stack.len());
                assert(signature@.return_types().len() == 1);
                if stack.len() == 1 {
                    assert(types_of(stack@)[0] != signature@.return_types()[0]);
                }
                false
            }
        },
        None => {
            if stack.len() == 0 {
                assert(types_of(stack@) =~= signature@.return_types());
                true
            } else {
                assert(types_of(stack@).len() == stack.len());
                false
            }
        },
    }
}

/// Applies one operation to the stack of types. The result says whether the
/// operation is a cast that changes the size of the value.
pub fn check_op(
    stack: &mut Vec<DataType>,
    typ: &OpType,
    signature: &Signature,
    functions: &Vec<Function>,
) -> (done: Result<bool, TypeError>)
    ensures
        match apply(types_of(old(stack)@), *typ, signature@, function_views(functions@)) {
            Ok(after) => types_of(final(stack)@) == after && done == Ok::<bool, TypeError>(
                cast_changes_width(types_of(old(stack)@), *typ),
            ),
            Err(kind) => done == Err::<bool, TypeError>(kind),
        },
{
    let ghost before = types_of(stack@);
    match typ {
        OpType::Calculation(_) => match check_calculation(stack) {
            Ok(()) => Ok(false),
            Err(kind) => Err(kind),
        },
        OpType::Comparison(_) => match check_comparison(stack) {
            Ok(()) => Ok(false),
            Err(kind) => Err(kind),
        },
        OpType::Intrinsic(intrinsic) => match check_intrinsic(stack, *intrinsic) {
            Ok(()) => Ok(false),
            Err(kind) => Err(kind),
        },
        OpType::If(_) | OpType::Elif(_) | OpType::Do(_) => match check_condition(stack) {
            Ok(()) => Ok(false),
            Err(kind) => Err(kind),
        },
        OpType::Else(_) | OpType::Endif | OpType::While | OpType::Done(_) | OpType::Break(_)
        | OpType::Continue(_) => Ok(false),
        OpType::Cast(data_type) => {
            match stack.pop() {
                None => Err(TypeError::StackUnderflow),
                Some(top) => {
                    let changes = width(&top).byte_count() != width(data_type).byte_count();
                    stack.push(data_type.clone());
                    assert(types_of(stack@) =~= before.drop_last().push(data_type@));
                    Ok(changes)
                },
            }
        },
        OpType::Push(token) => match &token.typ {
            TokenType::Literal(data_type) => {
                stack.push(data_type.clone());
                assert(types_of(stack@) =~= before.push(data_type@));
                Ok(false)
            },
            TokenType::Identifier => match find_parameter(
                &signature.parameters,
                token.value.as_str(),
            ) {
                Some(data_type) => {
                    stack.push(data_type.clone());
                    assert(types_of(stack@) =~= before.push(data_type@));
                    Ok(false)
                },
                None => Err(TypeError::TypeMismatch),
            },
            _ => Err(TypeError::TypeMismatch),
        },
        OpType::FunctionCall(info) => match check_call(stack, info, functions) {
            Ok(()) => Ok(false),
            Err(kind) => Err(kind),
        },
        OpType::Return => if check_return(stack, signature) {
            Ok(false)
        } else {
            Err(TypeError::StackImbalance)
        },
    }
}

/// Checks the stack effect of a function among the functions it may call.
///
/// The result is the positions of the casts that change the size of a
/// value, or the first error, at the place of the operation it is about.
pub fn check_function(function: &Function, functions: &Vec<Function>) -> (outcome: Result<
    Vec<usize>,
    CompilerError,
>)
    ensures
        match checked(function.ops@, function.signature@, function_views(functions@)) {
            Ok(warnings) => outcome matches Ok(found) && found@ == warnings,
            Err(violation) => outcome == Err::<Vec<usize>, CompilerError>(
                CompilerError::TypeError(violation.kind, place_of(function@, violation.position)),
            ),
        },
{
    let mut stack: Vec<DataType> = Vec::new();
    let mut warnings: Vec<usize> = Vec::new();
    let mut at: usize = 0;
    assert(types_of(stack@) =~= Seq::empty());
    while at < function.ops.len()
        invariant
            at <= function.ops.len(),
            trace(function.ops@, function.signature@, function_views(functions@), at as nat) == Ok::<
                Trace,
                Violation,
            >(Trace { stack: types_of(stack@), warnings: warnings@ }),
        decreases function.ops.len() - at,
    {
        assert(trace(function.ops@, function.signature@, function_views(functions@), (at + 1) as nat) is Err
            ==> trace(function.ops@, function.signature@, function_views(functions@), (at + 1) as nat)
            == Err::<Trace, Violation>(
            Violation {
                kind: apply(
                    types_of(stack@),
                    function.ops[at as int].typ,
                    function.signature@,
                    function_views(functions@),
                )->Err_0,
                position: at,
            },
        ));
        match check_op(&mut stack, &function.ops[at].typ, &function.signature, functions) {
            Err(kind) => {
                proof {
                    lemma_violation_stays(
                        function.ops@,
                        function.signature@,
                        function_views(functions@),
                        (at + 1) as nat,
                        function.ops.len() as nat,
                    );
                }
                return Err(CompilerError::TypeError(kind, function.ops[at].start_loc.clone()));
            },
            Ok(changes) => {
                if changes {
                    warnings.push(at);
                }
            },
        }
        at += 1;
    }
    if check_return(&stack, &function.signature) {
        Ok(warnings)
    } else if function.ops.len() > 0 {
        Err(
            CompilerError::TypeError(
                TypeError::StackImbalance,
                function.ops[function.ops.len() - 1].end_loc.clone(),
            ),
        )
    } else {
        Err(CompilerError::TypeError(TypeError::StackImbalance, function.location.clone()))
    }
}

/// Once an operation has raised an error, the trace of more operations gives
/// the same error.
pub proof fn lemma_violation_stays(
    ops: Seq<Op>,
    signature: SignatureView,
    functions: Seq<FunctionView>,
    count: nat,
    more: nat,
)
    requires
        count <= more,
        trace(ops, signature, functions, count) is Err,
    ensures
        trace(ops, signature, functions, more) == trace(ops, signature, functions, count),
    decreases more,
{
    if count < more {
        lemma_violation_stays(ops, signature, functions, count, (more - 1) as nat);
    }
}

/// The type of the literal that the operation pushes.
pub open spec fn literal_type(op: Op) -> DataTypeView {
    match op.typ {
        OpType::Push(token) => match token.typ {
            TokenType::Literal(data_type) => data_type@,
            _ => arbitrary(),
        },
        _ => arbitrary(),
    }
}

/// Whether the operation pushes a literal.
pub open spec fn pushes_literal(op: Op) -> bool {
    op.typ matches OpType::Push(token) && token.typ is Literal
}

/// Whether the operations are pushes of literals followed by one `return`.
pub open spec fn pushes_then_returns(ops: Seq<Op>) -> bool {
    &&& ops.len() >= 1
    &&& ops.last().typ is Return
    &&& forall|i: int| 0 <= i < ops.len() - 1 ==> pushes_literal(#[trigger] ops[i])
}

/// The types of the literals that the first `count` operations push.
pub open spec fn literal_types(ops: Seq<Op>, count: nat) -> Seq<DataTypeView> {
    Seq::new(count, |i: int| literal_type(ops[i]))
}

/// Pushes of literals leave the types of the literals on the stack.
pub proof fn lemma_trace_of_literals(
    ops: Seq<Op>,
    signature: SignatureView,
    functions: Seq<FunctionView>,
    count: nat,
)
    requires
        count <= ops.len(),
        forall|i: int| 0 <= i < count ==> pushes_literal(#[trigger] ops[i]),
    ensures
        trace(ops, signature, functions, count) == Ok::<Trace, Violation>(
            Trace { stack: literal_types(ops, count), warnings: Seq::empty() },
        ),
    decreases count,
{
    if count > 0 {
        lemma_trace_of_literals(ops, signature, functions, (count - 1) as nat);
        assert(pushes_literal(ops[count - 1]));
        assert(literal_types(ops, (count - 1) as nat).push(literal_type(ops[count - 1]))
            =~= literal_types(ops, count));
    } else {
        assert(literal_types(ops, 0) =~= Seq::empty());
    }
}

/// A body that pushes literals and then returns is accepted if and only if
/// the literals are as many as the declared return types and have those
/// types. Otherwise it is refused at its `return`, for what it leaves.
pub proof fn lemma_literals_accepted_iff_declared(
    ops: Seq<Op>,
    signature: SignatureView,
    functions: Seq<FunctionView>,
)
    requires
        pushes_then_returns(ops),
    ensures
        checked(ops, signature, functions) is Ok <==> literal_types(ops, (ops.len() - 1) as nat)
            == signature.return_types(),
        checked(ops, signature, functions) is Ok ==> checked(ops, signature, functions)
            == Ok::<Seq<usize>, Violation>(Seq::empty()),
        checked(ops, signature, functions) matches Err(violation) ==> violation == (Violation {
            kind: TypeError::StackImbalance,
            position: (ops.len() - 1) as usize,
        }),
{
    lemma_trace_of_literals(ops, signature, functions, (ops.len() - 1) as nat);
}

/// A body without operations is accepted if and only if the function
/// declares no return type.
pub proof fn lemma_empty_accepted_iff_nothing_declared(
    signature: SignatureView,
    functions: Seq<FunctionView>,
)
    ensures
        checked(Seq::empty(), signature, functions) is Ok <==> signature.return_type is None,
{
    if signature.return_type is Some {
        assert(signature.return_types().len() == 1);
    }
}

} // verus!
