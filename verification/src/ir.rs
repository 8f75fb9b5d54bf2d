use vstd::prelude::*;
use crate::class::location::Location;
use crate::class::op::{ids_in_order, FunctionCallInfo, Jump, Op, OpType};
use crate::class::token::{BinaryOperator, Delimiter, Keyword, Token, TokenType};
use crate::compiler::{CompilerError, LoweringError};
use crate::data_types::DataType;
use crate::intrinsics::{Calculation, Comparison};

verus! {

/// A call whose closing parenthesis has not been reached.
#[derive(Debug, Clone, Copy, PartialEq, Eq)]
pub struct Frame {
    /// Index of the token that names the callee.
    pub name: usize,
    /// Number of arguments that a comma has ended.
    pub arguments: usize,
    /// Whether an operation was lowered since the last comma.
    pub filled: bool,
}

/// What is lowered so far: the operations, and the open calls, innermost last.
pub ghost struct Lowering {
    pub ops: Seq<Op>,
    pub frames: Seq<Frame>,
}

/// The block keyword operation that a keyword stands for.
pub open spec fn keyword_op(keyword: Keyword) -> Option<OpType> {
    match keyword {
        Keyword::Break => Some(OpType::Break(Jump::unresolved())),
        Keyword::Continue => Some(OpType::Continue(Jump::unresolved())),
        Keyword::Do => Some(OpType::Do(Jump::unresolved())),
        Keyword::Done => Some(OpType::Done(Jump::unresolved())),
        Keyword::Elif => Some(OpType::Elif(Jump::unresolved())),
        Keyword::Else => Some(OpType::Else(Jump::unresolved())),
        Keyword::Endif => Some(OpType::Endif),
        Keyword::If => Some(OpType::If(Jump::unresolved())),
        Keyword::Return => Some(OpType::Return),
        Keyword::While => Some(OpType::While),
        _ => None,
    }
}

/// The operation that an operator stands for: a calculation for an
/// arithmetic operator, a comparison for a relational one.
pub open spec fn operator_op(operator: BinaryOperator) -> Option<OpType> {
    match operator {
        BinaryOperator::Addition => Some(OpType::Calculation(Calculation::Addition)),
        BinaryOperator::Subtraction => Some(OpType::Calculation(Calculation::Subtraction)),
        BinaryOperator::Division => Some(OpType::Calculation(Calculation::Division)),
        BinaryOperator::Multiplication => Some(OpType::Calculation(Calculation::Multiplication)),
        BinaryOperator::Assignment => None,
        BinaryOperator::Equals => Some(OpType::Comparison(Comparison::Equals)),
        BinaryOperator::GreaterOrEqual => Some(OpType::Comparison(Comparison::GreaterOrEqual)),
        BinaryOperator::GreaterThan => Some(OpType::Comparison(Comparison::GreaterThan)),
        BinaryOperator::LessOrEqual => Some(OpType::Comparison(Comparison::LessOrEqual)),
        BinaryOperator::LessThan => Some(OpType::Comparison(Comparison::LessThan)),
        BinaryOperator::NotEquals => Some(OpType::Comparison(Comparison::NotEquals)),
    }
}

/// The operation of a token that stands for one operation by itself: a
/// literal, an operator, a built-in word or a block keyword.
pub open spec fn mapped_op(token: Token) -> Option<OpType> {
    match token.typ {
        TokenType::BinaryOperator(operator) => operator_op(operator),
        TokenType::Intrinsic(intrinsic) => Some(OpType::Intrinsic(intrinsic)),
        TokenType::Literal(_) => Some(OpType::Push(token)),
        TokenType::Keyword(keyword) => keyword_op(keyword),
        _ => None,
    }
}

/// The cast that starts at `cursor`: the keyword, an opening parenthesis,
/// the name of a type and a closing parenthesis.
pub open spec fn cast_op(tokens: Seq<Token>, cursor: int) -> Option<OpType> {
    if 0 <= cursor && cursor + 3 < tokens.len() && tokens[cursor].typ.is_keyword(Keyword::Cast)
        && tokens[cursor + 1].typ.is_delimiter(Delimiter::OpenParen) && tokens[cursor + 2].typ
        is Identifier && tokens[cursor + 3].typ.is_delimiter(Delimiter::CloseParen) {
        Some(OpType::Cast(DataType::of_name(tokens[cursor + 2].value)))
    } else {
        None
    }
}

/// Whether a call starts at `cursor`: a name with an opening parenthesis
/// right behind it.
pub open spec fn opens_call(tokens: Seq<Token>, cursor: int) -> bool {
    &&& 0 <= cursor && cursor + 1 < tokens.len()
    &&& tokens[cursor].typ is Identifier
    &&& tokens[cursor + 1].typ.is_delimiter(Delimiter::OpenParen)
}

/// The innermost open call, if there is one, with its current argument marked as begun.
pub open spec fn fill(frames: Seq<Frame>) -> Seq<Frame> {
    if frames.len() > 0 {
        frames.update(
            frames.len() - 1,
            Frame { name: frames.last().name, arguments: frames.last().arguments, filled: true },
        )
    } else {
        frames
    }
}

/// The state with one more operation, numbered by its place.
pub open spec fn emit(state: Lowering, typ: OpType, start_loc: Location, end_loc: Location) -> Lowering {
    Lowering {
        ops: state.ops.push(Op { id: state.ops.len() as usize, typ, start_loc, end_loc }),
        frames: fill(state.frames),
    }
}

/// The error for a token that no rule accepts.
pub open spec fn unknown(token: Token) -> CompilerError {
    CompilerError::LoweringError(LoweringError::UnknownToken, token.start_loc)
}

/// The number of arguments of a call that closes in the state of `frame`.
pub open spec fn argument_count(frame: Frame) -> usize {
    if frame.filled {
        (frame.arguments + 1) as usize
    } else {
        frame.arguments
    }
}

/// The state behind the rule for the token at `cursor`, or the error that
/// the token raises.
pub open spec fn lower_token(tokens: Seq<Token>, cursor: int, state: Lowering) -> Result<
    Lowering,
    CompilerError,
> {
    let token = tokens[cursor];
    match mapped_op(token) {
        Some(typ) => Ok(emit(state, typ, token.start_loc, token.end_loc)),
        None => match token.typ {
            TokenType::Keyword(Keyword::Cast) => match cast_op(tokens, cursor) {
                Some(typ) => Ok(emit(state, typ, token.start_loc, tokens[cursor + 3].end_loc)),
                None => Err(unknown(token)),
            },
            TokenType::Identifier => if opens_call(tokens, cursor) {
                Ok(
                    Lowering {
                        ops: state.ops,
                        frames: state.frames.push(
                            Frame { name: cursor as usize, arguments: 0, filled: false },
                        ),
                    },
                )
            } else {
                Ok(emit(state, OpType::Push(token), token.start_loc, token.end_loc))
            },
            TokenType::Delimiter(Delimiter::Comma) => if state.frames.len() > 0
                && state.frames.last().filled {
                Ok(
                    Lowering {
                        ops: state.ops,
                        frames: state.frames.update(
                            state.frames.len() - 1,
                            Frame {
                                name: state.frames.last().name,
                                arguments: (state.frames.last().arguments + 1) as usize,
                                filled: false,
                            },
                        ),
                    },
                )
            } else {
                Err(unknown(token))
            },
            TokenType::Delimiter(Delimiter::CloseParen) => if state.frames.len() > 0 {
                let frame = state.frames.last();
                Ok(
                    emit(
                        Lowering { ops: state.ops, frames: state.frames.drop_last() },
                        OpType::FunctionCall(
                            FunctionCallInfo {
                                function_name: tokens[frame.name as int].value,
                                argument_count: argument_count(frame),
                            },
                        ),
                        tokens[frame.name as int].start_loc,
                        token.end_loc,
                    ),
                )
            } else {
                Err(unknown(token))
            },
            _ => Err(unknown(token)),
        },
    }
}

/// The number of tokens that the rule for the token at `cursor` takes.
pub open spec fn width_at(tokens: Seq<Token>, cursor: int) -> int {
    if mapped_op(tokens[cursor]) is Some {
        1
    } else if cast_op(tokens, cursor) is Some {
        4
    } else if opens_call(tokens, cursor) {
        2
    } else {
        1
    }
}

/// The operations of the tokens from `cursor` on, lowered in the given
/// state, or the first error. A call that is still open behind the last
/// token is an error at the name of the innermost such call.
pub open spec fn lower_from(tokens: Seq<Token>, cursor: int, state: Lowering) -> Result<
    Seq<Op>,
    CompilerError,
>
    decreases tokens.len() - cursor,
{
    if cursor < 0 || cursor >= tokens.len() {
        if state.frames.len() > 0 {
            Err(
                CompilerError::LoweringError(
                    LoweringError::UnbalancedCall,
                    tokens[state.frames.last().name as int].start_loc,
                ),
            )
        } else {
            Ok(state.ops)
        }
    } else {
        match lower_token(tokens, cursor, state) {
            Err(error) => Err(error),
            Ok(next) => lower_from(tokens, cursor + width_at(tokens, cursor), next),
        }
    }
}

/// The operations that the tokens of a function body are lowered to, or the
/// first error.
pub open spec fn lowered(tokens: Seq<Token>) -> Result<Seq<Op>, CompilerError> {
    lower_from(tokens, 0, Lowering { ops: Seq::empty(), frames: Seq::empty() })
}

/// Whether the state can stand before the token at `cursor`: the operations
/// are numbered by their place, and each open call was opened before the cursor.
pub open spec fn sound(state: Lowering, cursor: int) -> bool {
    &&& state.ops.len() <= cursor
    &&& ids_in_order(state.ops)
    &&& forall|k: int|
        0 <= k < state.frames.len() ==> (#[trigger] state.frames[k]).name < cursor
            && state.frames[k].arguments < cursor
}

/// Returns the block keyword operation that a keyword stands for.
pub fn get_keyword_op_type(keyword: &Keyword) -> (typ: Option<OpType>)
    ensures
        typ == keyword_op(*keyword),
{
    match keyword {
        Keyword::Break => Some(OpType::Break(Jump::none())),
        Keyword::Continue => Some(OpType::Continue(Jump::none())),
        Keyword::Do => Some(OpType::Do(Jump::none())),
        Keyword::Done => Some(OpType::Done(Jump::none())),
        Keyword::Elif => Some(OpType::Elif(Jump::none())),
        Keyword::Else => Some(OpType::Else(Jump::none())),
        Keyword::Endif => Some(OpType::Endif),
        Keyword::If => Some(OpType::If(Jump::none())),
        Keyword::Return => Some(OpType::Return),
        Keyword::While => Some(OpType::While),
        _ => None,
    }
}

/// Returns the operation that an operator stands for.
pub fn get_operator_op_type(operator: &BinaryOperator) -> (typ: Option<OpType>)
    ensures
        typ == operator_op(*operator),
{
    match operator {
        BinaryOperator::Addition => Some(OpType::Calculation(Calculation::Addition)),
        BinaryOperator::Subtraction => Some(OpType::Calculation(Calculation::Subtraction)),
        BinaryOperator::Division => Some(OpType::Calculation(Calculation::Division)),
        BinaryOperator::Multiplication => Some(OpType::Calculation(Calculation::Multiplication)),
        BinaryOperator::Assignment => None,
        BinaryOperator::Equals => Some(OpType::Comparison(Comparison::Equals)),
        BinaryOperator::GreaterOrEqual => Some(OpType::Comparison(Comparison::GreaterOrEqual)),
        BinaryOperator::GreaterThan => Some(OpType::Comparison(Comparison::GreaterThan)),
        BinaryOperator::LessOrEqual => Some(OpType::Comparison(Comparison::LessOrEqual)),
        BinaryOperator::LessThan => Some(OpType::Comparison(Comparison::LessThan)),
        BinaryOperator::NotEquals => Some(OpType::Comparison(Comparison::NotEquals)),
    }
}

/// Returns the operation of a token that stands for one operation by itself.
pub fn get_mapped_op_type(token: &Token) -> (typ: Option<OpType>)
    ensures
        typ == mapped_op(*token),
{
    match &token.typ {
        TokenType::BinaryOperator(operator) => get_operator_op_type(operator),
        TokenType::Intrinsic(intrinsic) => Some(OpType::Intrinsic(*intrinsic)),
        TokenType::Literal(_) => Some(OpType::Push(token.clone())),
        TokenType::Keyword(keyword) => get_keyword_op_type(keyword),
        _ => None,
    }
}

/// Returns the cast that starts at `cursor`, if one does.
pub fn parse_cast_op(cursor: usize, tokens: &Vec<Token>) -> (typ: Option<OpType>)
    ensures
        typ == cast_op(tokens@, cursor as int),
{
    if tokens.len() < 4 || cursor >= tokens.len() - 3 {
        return None;
    }
    if tokens[cursor].typ.keyword(Keyword::Cast) && tokens[cursor + 1].typ.delimiter(
        Delimiter::OpenParen,
    ) && tokens[cursor + 3].typ.delimiter(Delimiter::CloseParen) {
        match &tokens[cursor + 2].typ {
            TokenType::Identifier => Some(OpType::Cast(DataType::from_name(&tokens[cursor + 2].value))),
            _ => None,
        }
    } else {
        None
    }
}

fn has_open_call(cursor: usize, tokens: &Vec<Token>) -> (opens: bool)
    requires
        cursor < tokens.len(),
    ensures
        opens == opens_call(tokens@, cursor as int),
{
    match &tokens[cursor].typ {
        TokenType::Identifier => cursor + 1 < tokens.len() && tokens[cursor + 1].typ.delimiter(
            Delimiter::OpenParen,
        ),
        _ => false,
    }
}

fn push_op(
    ops: &mut Vec<Op>,
    frames: &mut Vec<Frame>,
    typ: OpType,
    start_loc: Location,
    end_loc: Location,
)
    ensures
        (Lowering { ops: final(ops)@, frames: final(frames)@ }) == emit(
            Lowering { ops: old(ops)@, frames: old(frames)@ },
            typ,
            start_loc,
            end_loc,
        ),
{
    let id = ops.len();
    ops.push(Op { id, typ, start_loc, end_loc });
    let open = frames.len();
    if open > 0 {
        let frame = frames[open - 1];
        frames.set(open - 1, Frame { name: frame.name, arguments: frame.arguments, filled: true });
    }
}

/// Lowers the token at `cursor`, or, for a cast or the start of a call, the
/// tokens of that form, and returns the index of the token to go on with.
fn parse_op(tokens: &Vec<Token>, cursor: usize, ops: &mut Vec<Op>, frames: &mut Vec<Frame>) -> (next:
    Result<usize, CompilerError>)
    requires
        cursor < tokens.len(),
        sound(Lowering { ops: old(ops)@, frames: old(frames)@ }, cursor as int),
    ensures
        match lower_token(
            tokens@,
            cursor as int,
            Lowering { ops: old(ops)@, frames: old(frames)@ },
        ) {
            Ok(state) => {
                &&& next == Ok::<usize, CompilerError>(
                    (cursor + width_at(tokens@, cursor as int)) as usize,
                )
                &&& cursor + width_at(tokens@, cursor as int) <= tokens.len()
                &&& state == (Lowering { ops: final(ops)@, frames: final(frames)@ })
                &&& sound(state, cursor + width_at(tokens@, cursor as int))
            },
            Err(error) => next == Err::<usize, CompilerError>(error),
        },
{
    let token = &tokens[cursor];
    match get_mapped_op_type(token) {
        Some(typ) => {
            push_op(ops, frames, typ, token.start_loc.clone(), token.end_loc.clone());
            Ok(cursor + 1)
        },
        None => get_non_mapped_op_type(tokens, cursor, ops, frames),
    }
}

/// Lowers a token that stands for no operation by itself: a cast, a name,
/// which may start a call, or a comma or a parenthesis of a call.
fn get_non_mapped_op_type(
    tokens: &Vec<Token>,
    cursor: usize,
    ops: &mut Vec<Op>,
    frames: &mut Vec<Frame>,
) -> (next: Result<usize, CompilerError>)
    requires
        cursor < tokens.len(),
        mapped_op(tokens[cursor as int]) is None,
        sound(Lowering { ops: old(ops)@, frames: old(frames)@ }, cursor as int),
    ensures
        match lower_token(
            tokens@,
            cursor as int,
            Lowering { ops: old(ops)@, frames: old(frames)@ },
        ) {
            Ok(state) => {
                &&& next == Ok::<usize, CompilerError>(
                    (cursor + width_at(tokens@, cursor as int)) as usize,
                )
                &&& cursor + width_at(tokens@, cursor as int) <= tokens.len()
                &&& state == (Lowering { ops: final(ops)@, frames: final(frames)@ })
                &&& sound(state, cursor + width_at(tokens@, cursor as int))
            },
            Err(error) => next == Err::<usize, CompilerError>(error),
        },
{
    let token = &tokens[cursor];
    match &token.typ {
        TokenType::Keyword(Keyword::Cast) => match parse_cast_op(cursor, tokens) {
            Some(typ) => {
                push_op(
                    ops,
                    frames,
                    typ,
                    token.start_loc.clone(),
                    tokens[cursor + 3].end_loc.clone(),
                );
                Ok(cursor + 4)
            },
            None => Err(
                CompilerError::LoweringError(
                    LoweringError::UnknownToken,
                    token.start_loc.clone(),
                ),
            ),
        },
        TokenType::Identifier => {
            if has_open_call(cursor, tokens) {
                frames.push(Frame { name: cursor, arguments: 0, filled: false });
                Ok(cursor + 2)
            } else {
                push_op(
                    ops,
                    frames,
                    OpType::Push(token.clone()),
                    token.start_loc.clone(),
                    token.end_loc.clone(),
                );
                Ok(cursor + 1)
            }
        },
        TokenType::Delimiter(Delimiter::Comma) => {
            let open = frames.len();
            if open > 0 && frames[open - 1].filled {
                let frame = frames[open - 1];
                frames.set(
                    open - 1,
                    Frame { name: frame.name, arguments: frame.arguments + 1, filled: false },
                );
                Ok(cursor + 1)
            } else {
                Err(
                    CompilerError::LoweringError(
                        LoweringError::UnknownToken,
                        token.start_loc.clone(),
                    ),
                )
            }
        },
        TokenType::Delimiter(Delimiter::CloseParen) => {
            match frames.pop() {
                Some(frame) => {
                    let argument_count = if frame.filled {
                        frame.arguments + 1
                    } else {
                        frame.arguments
                    };
                    push_op(
                        ops,
                        frames,
                        OpType::FunctionCall(
                            FunctionCallInfo {
                                function_name: tokens[frame.name].value.clone(),
                                argument_count,
                            },
                        ),
                        tokens[frame.name].start_loc.clone(),
                        token.end_loc.clone(),
                    );
                    Ok(cursor + 1)
                },
                None => Err(
                    CompilerError::LoweringError(
                        LoweringError::UnknownToken,
                        token.start_loc.clone(),
                    ),
                ),
            }
        },
        _ => Err(
            CompilerError::LoweringError(LoweringError::UnknownToken, token.start_loc.clone()),
        ),
    }
}

/// Lowers the tokens of a function body to stack operations.
///
/// Every operation has its place in the result as id. An empty body gives
/// no operation.
pub fn parse_ops(tokens: &Vec<Token>) -> (outcome: Result<Vec<Op>, CompilerError>)
    ensures
        match lowered(tokens@) {
            Ok(ops) => outcome matches Ok(found) && found@ == ops,
            Err(error) => outcome == Err::<Vec<Op>, CompilerError>(error),
        },
        outcome matches Ok(found) ==> ids_in_order(found@) && found.len() <= tokens.len(),
        tokens.len() == 0 ==> (outcome matches Ok(found) && found.len() == 0),
{
    let mut ops: Vec<Op> = Vec::new();
    let mut frames: Vec<Frame> = Vec::new();
    let mut cursor: usize = 0;
    while cursor < tokens.len()
        invariant
            cursor <= tokens.len(),
            sound(Lowering { ops: ops@, frames: frames@ }, cursor as int),
            lowered(tokens@) == lower_from(
                tokens@,
                cursor as int,
                Lowering { ops: ops@, frames: frames@ },
            ),
        decreases tokens.len() - cursor,
    {
        match parse_op(tokens, cursor, &mut ops, &mut frames) {
            Ok(next) => {
                cursor = next;
            },
            Err(error) => {
                return Err(error);
            },
        }
    }
    if frames.len() > 0 {
        Err(
            CompilerError::LoweringError(
                LoweringError::UnbalancedCall,
                tokens[frames[frames.len() - 1].name].start_loc.clone(),
            ),
        )
    } else {
        Ok(ops)
    }
}

/// The rule for a token leaves a sound state sound.
pub proof fn lemma_lower_token_keeps_sound(tokens: Seq<Token>, cursor: int, state: Lowering)
    requires
        0 <= cursor < tokens.len() <= usize::MAX,
        sound(state, cursor),
        lower_token(tokens, cursor, state) is Ok,
    ensures
        cursor + width_at(tokens, cursor) <= tokens.len(),
        sound(lower_token(tokens, cursor, state)->Ok_0, cursor + width_at(tokens, cursor)),
{
    let next = lower_token(tokens, cursor, state)->Ok_0;
    assert forall|k: int| 0 <= k < next.frames.len() implies (#[trigger] next.frames[k]).name
        < cursor + width_at(tokens, cursor) && next.frames[k].arguments < cursor + width_at(
        tokens,
        cursor,
    ) by {
        if k < state.frames.len() {
            assert(state.frames[k].name < cursor);
        }
    }
}

/// From a sound state, the operations are lowered with their places as
/// ids, and no more of them than there are tokens.
pub proof fn lemma_lower_from_is_sound(tokens: Seq<Token>, cursor: int, state: Lowering)
    requires
        0 <= cursor <= tokens.len() <= usize::MAX,
        sound(state, cursor),
    ensures
        lower_from(tokens, cursor, state) matches Ok(ops) ==> ops.len() <= tokens.len()
            && ids_in_order(ops),
    decreases tokens.len() - cursor,
{
    if cursor < tokens.len() {
        match lower_token(tokens, cursor, state) {
            Ok(next) => {
                lemma_lower_token_keeps_sound(tokens, cursor, state);
                lemma_lower_from_is_sound(tokens, cursor + width_at(tokens, cursor), next);
            },
            Err(_) => {},
        }
    }
}

/// The operations of a body have their places as ids, and there are no
/// more of them than there are tokens.
pub proof fn lemma_lowered_is_sound(tokens: Seq<Token>)
    requires
        tokens.len() <= usize::MAX,
    ensures
        lowered(tokens) matches Ok(ops) ==> ops.len() <= tokens.len() && ids_in_order(ops),
{
    lemma_lower_from_is_sound(tokens, 0, Lowering { ops: Seq::empty(), frames: Seq::empty() });
}

/// Whether every token stands for one operation by itself.
pub open spec fn all_mapped(tokens: Seq<Token>) -> bool {
    forall|i: int| 0 <= i < tokens.len() ==> mapped_op(#[trigger] tokens[i]) is Some
}

/// The operation that the token at `place` stands for by itself, with its
/// place as id and the span of the token.
pub open spec fn op_of_token(tokens: Seq<Token>, place: int) -> Op {
    Op {
        id: place as usize,
        typ: mapped_op(tokens[place])->Some_0,
        start_loc: tokens[place].start_loc,
        end_loc: tokens[place].end_loc,
    }
}

/// The operations that the first `count` tokens stand for by themselves.
pub open spec fn ops_of_tokens(tokens: Seq<Token>, count: nat) -> Seq<Op> {
    Seq::new(count, |place: int| op_of_token(tokens, place))
}

/// Outside any call, tokens that each stand for one operation are lowered
/// one to one from any cursor on.
pub proof fn lemma_mapped_tokens_from(tokens: Seq<Token>, cursor: int)
    requires
        0 <= cursor <= tokens.len(),
        all_mapped(tokens),
    ensures
        lower_from(
            tokens,
            cursor,
            Lowering { ops: ops_of_tokens(tokens, cursor as nat), frames: Seq::empty() },
        ) == Ok::<Seq<Op>, CompilerError>(ops_of_tokens(tokens, tokens.len())),
    decreases tokens.len() - cursor,
{
    if cursor < tokens.len() {
        assert(mapped_op(tokens[cursor]) is Some);
        let state = Lowering { ops: ops_of_tokens(tokens, cursor as nat), frames: Seq::empty() };
        let next = lower_token(tokens, cursor, state)->Ok_0;
        assert(next.ops =~= ops_of_tokens(tokens, (cursor + 1) as nat));
        assert(next.frames =~= Seq::empty());
        lemma_mapped_tokens_from(tokens, cursor + 1);
    }
}

/// Literals, operators, built-in words and block keywords are lowered one
/// to one: the operation at each place is the one that the token at that
/// place stands for.
pub proof fn lemma_mapped_tokens_lower_one_to_one(tokens: Seq<Token>)
    requires
        all_mapped(tokens),
    ensures
        lowered(tokens) == Ok::<Seq<Op>, CompilerError>(ops_of_tokens(tokens, tokens.len())),
{
    assert(ops_of_tokens(tokens, 0) =~= Seq::empty());
    lemma_mapped_tokens_from(tokens, 0);
}

} // verus!
