use vstd::prelude::*;
use crate::class::token::{BinaryOperator, Delimiter, Keyword, TokenType};
use crate::data_types::{ChunkSize, DataType};
use crate::intrinsics::Intrinsic;

verus! {

/// A regular expression and the kind of token that a match of it is.
pub struct TokenRule {
    pub pattern: &'static str,
    pub typ: TokenType,
}

/// Number of the rules for tokens.
pub const TOKEN_REGEX_COUNT: usize = 67;

/// The rule at `index` of the rules for tokens, which are tried in order:
/// white space and comments, literals, keywords, built-in words,
/// delimiters, operators, names.
pub open spec fn token_rule(index: usize) -> Option<TokenRule> {
    match index {
        0 => Some(TokenRule { pattern: r"^\s+", typ: TokenType::Skipped }),
        1 => Some(TokenRule { pattern: r"^//.*", typ: TokenType::Skipped }),
        2 => Some(TokenRule { pattern: r"^/\*[\s\S]*?\*/", typ: TokenType::Skipped }),
        3 => Some(TokenRule { pattern: r"(?i)^true", typ: TokenType::Literal(DataType::Boolean) }),
        4 => Some(TokenRule { pattern: r"(?i)^false", typ: TokenType::Literal(DataType::Boolean) }),
        5 => Some(TokenRule { pattern: r"^'[^']'", typ: TokenType::Literal(DataType::Character) }),
        6 => Some(TokenRule { pattern: r"^\d+", typ: TokenType::Literal(DataType::Integer(ChunkSize::Qword)) }),
        7 => Some(TokenRule { pattern: r#"^"[^"]*""#, typ: TokenType::Literal(DataType::String) }),
        8 => Some(TokenRule { pattern: r"^break", typ: TokenType::Keyword(Keyword::Break) }),
        9 => Some(TokenRule { pattern: r"^cast", typ: TokenType::Keyword(Keyword::Cast) }),
        10 => Some(TokenRule { pattern: r"^continue", typ: TokenType::Keyword(Keyword::Continue) }),
        11 => Some(TokenRule { pattern: r"^done", typ: TokenType::Keyword(Keyword::Done) }),
        12 => Some(TokenRule { pattern: r"^do", typ: TokenType::Keyword(Keyword::Do) }),
        13 => Some(TokenRule { pattern: r"^elif", typ: TokenType::Keyword(Keyword::Elif) }),
        14 => Some(TokenRule { pattern: r"^else", typ: TokenType::Keyword(Keyword::Else) }),
        15 => Some(TokenRule { pattern: r"^endif", typ: TokenType::Keyword(Keyword::Endif) }),
        16 => Some(TokenRule { pattern: r"^fun", typ: TokenType::Keyword(Keyword::Fun) }),
        17 => Some(TokenRule { pattern: r"^if", typ: TokenType::Keyword(Keyword::If) }),
        18 => Some(TokenRule { pattern: r"^let", typ: TokenType::Keyword(Keyword::Let) }),
        19 => Some(TokenRule { pattern: r"^return", typ: TokenType::Keyword(Keyword::Return) }),
        20 => Some(TokenRule { pattern: r"^while", typ: TokenType::Keyword(Keyword::While) }),
        21 => Some(TokenRule { pattern: r"^dup", typ: TokenType::Intrinsic(Intrinsic::Dup) }),
        22 => Some(TokenRule { pattern: r"^drop", typ: TokenType::Intrinsic(Intrinsic::Drop) }),
        23 => Some(TokenRule { pattern: r"^swap", typ: TokenType::Intrinsic(Intrinsic::Swap) }),
        24 => Some(TokenRule { pattern: r"^rot", typ: TokenType::Intrinsic(Intrinsic::Rot) }),
        25 => Some(TokenRule { pattern: r"^over", typ: TokenType::Intrinsic(Intrinsic::Over) }),
        26 => Some(TokenRule { pattern: r"^load_byte", typ: TokenType::Intrinsic(Intrinsic::Load(ChunkSize::Byte)) }),
        27 => Some(TokenRule { pattern: r"^load_word", typ: TokenType::Intrinsic(Intrinsic::Load(ChunkSize::Word)) }),
        28 => Some(TokenRule { pattern: r"^load_dword", typ: TokenType::Intrinsic(Intrinsic::Load(ChunkSize::Dword)) }),
        29 => Some(TokenRule { pattern: r"^load_qword", typ: TokenType::Intrinsic(Intrinsic::Load(ChunkSize::Qword)) }),
        30 => Some(TokenRule { pattern: r"^store_byte", typ: TokenType::Intrinsic(Intrinsic::Store(ChunkSize::Byte)) }),
        31 => Some(TokenRule { pattern: r"^store_word", typ: TokenType::Intrinsic(Intrinsic::Store(ChunkSize::Word)) }),
        32 => Some(TokenRule { pattern: r"^store_dword", typ: TokenType::Intrinsic(Intrinsic::Store(ChunkSize::Dword)) }),
        33 => Some(TokenRule { pattern: r"^store_qword", typ: TokenType::Intrinsic(Intrinsic::Store(ChunkSize::Qword)) }),
        34 => Some(TokenRule { pattern: r"^shl", typ: TokenType::Intrinsic(Intrinsic::Shl) }),
        35 => Some(TokenRule { pattern: r"^shr", typ: TokenType::Intrinsic(Intrinsic::Shr) }),
        36 => Some(TokenRule { pattern: r"^syscall0", typ: TokenType::Intrinsic(Intrinsic::Syscall(0)) }),
        37 => Some(TokenRule { pattern: r"^syscall1", typ: TokenType::Intrinsic(Intrinsic::Syscall(1)) }),
        38 => Some(TokenRule { pattern: r"^syscall2", typ: TokenType::Intrinsic(Intrinsic::Syscall(2)) }),
        39 => Some(TokenRule { pattern: r"^syscall3", typ: TokenType::Intrinsic(Intrinsic::Syscall(3)) }),
        40 => Some(TokenRule { pattern: r"^syscall4", typ: TokenType::Intrinsic(Intrinsic::Syscall(4)) }),
        41 => Some(TokenRule { pattern: r"^syscall5", typ: TokenType::Intrinsic(Intrinsic::Syscall(5)) }),
        42 => Some(TokenRule { pattern: r"^syscall6", typ: TokenType::Intrinsic(Intrinsic::Syscall(6)) }),
        43 => Some(TokenRule { pattern: r"^print", typ: TokenType::Intrinsic(Intrinsic::Print) }),
        44 => Some(TokenRule { pattern: r"^\(", typ: TokenType::Delimiter(Delimiter::OpenParen) }),
        45 => Some(TokenRule { pattern: r"^\)", typ: TokenType::Delimiter(Delimiter::CloseParen) }),
        46 => Some(TokenRule { pattern: r"^\[", typ: TokenType::Delimiter(Delimiter::OpenSquare) }),
        47 => Some(TokenRule { pattern: r"^\]", typ: TokenType::Delimiter(Delimiter::CloseSquare) }),
        48 => Some(TokenRule { pattern: r"^\{", typ: TokenType::Delimiter(Delimiter::OpenCurly) }),
        49 => Some(TokenRule { pattern: r"^\}", typ: TokenType::Delimiter(Delimiter::CloseCurly) }),
        50 => Some(TokenRule { pattern: r"^->", typ: TokenType::Delimiter(Delimiter::Arrow) }),
        51 => Some(TokenRule { pattern: r"^\.", typ: TokenType::Delimiter(Delimiter::Point) }),
        52 => Some(TokenRule { pattern: r"^,", typ: TokenType::Delimiter(Delimiter::Comma) }),
        53 => Some(TokenRule { pattern: r"^:", typ: TokenType::Delimiter(Delimiter::Colon) }),
        54 => Some(TokenRule { pattern: r"^;", typ: TokenType::Delimiter(Delimiter::SemiColon) }),
        55 => Some(TokenRule { pattern: r"^==", typ: TokenType::BinaryOperator(BinaryOperator::Equals) }),
        56 => Some(TokenRule { pattern: r"^>=", typ: TokenType::BinaryOperator(BinaryOperator::GreaterOrEqual) }),
        57 => Some(TokenRule { pattern: r"^>", typ: TokenType::BinaryOperator(BinaryOperator::GreaterThan) }),
        58 => Some(TokenRule { pattern: r"^<=", typ: TokenType::BinaryOperator(BinaryOperator::LessOrEqual) }),
        59 => Some(TokenRule { pattern: r"^<", typ: TokenType::BinaryOperator(BinaryOperator::LessThan) }),
        60 => Some(TokenRule { pattern: r"^!=", typ: TokenType::BinaryOperator(BinaryOperator::NotEquals) }),
        61 => Some(TokenRule { pattern: r"^=", typ: TokenType::BinaryOperator(BinaryOperator::Assignment) }),
        62 => Some(TokenRule { pattern: r"^\+", typ: TokenType::BinaryOperator(BinaryOperator::Addition) }),
        63 => Some(TokenRule { pattern: r"^/", typ: TokenType::BinaryOperator(BinaryOperator::Division) }),
        64 => Some(TokenRule { pattern: r"^\*", typ: TokenType::BinaryOperator(BinaryOperator::Multiplication) }),
        65 => Some(TokenRule { pattern: r"^-", typ: TokenType::BinaryOperator(BinaryOperator::Subtraction) }),
        66 => Some(TokenRule { pattern: r"^[a-zA-Z_$][a-zA-Z_$0-9]*", typ: TokenType::Identifier }),
        _ => None,
    }
}

/// The rules for tokens, in the order in which they are tried.
pub open spec fn token_rules() -> Seq<TokenRule> {
    Seq::new(TOKEN_REGEX_COUNT as nat, |index: int| token_rule(index as usize)->Some_0)
}

/// The rule at `index` of the rules for tokens.
pub fn token_regex(index: usize) -> (rule: Option<TokenRule>)
    ensures
        rule == token_rule(index),
        index < TOKEN_REGEX_COUNT ==> rule is Some,
{
    match index {
        0 => Some(TokenRule { pattern: r"^\s+", typ: TokenType::Skipped }),
        1 => Some(TokenRule { pattern: r"^//.*", typ: TokenType::Skipped }),
        2 => Some(TokenRule { pattern: r"^/\*[\s\S]*?\*/", typ: TokenType::Skipped }),
        3 => Some(TokenRule { pattern: r"(?i)^true", typ: TokenType::Literal(DataType::Boolean) }),
        4 => Some(TokenRule { pattern: r"(?i)^false", typ: TokenType::Literal(DataType::Boolean) }),
        5 => Some(TokenRule { pattern: r"^'[^']'", typ: TokenType::Literal(DataType::Character) }),
        6 => Some(TokenRule { pattern: r"^\d+", typ: TokenType::Literal(DataType::Integer(ChunkSize::Qword)) }),
        7 => Some(TokenRule { pattern: r#"^"[^"]*""#, typ: TokenType::Literal(DataType::String) }),
        8 => Some(TokenRule { pattern: r"^break", typ: TokenType::Keyword(Keyword::Break) }),
        9 => Some(TokenRule { pattern: r"^cast", typ: TokenType::Keyword(Keyword::Cast) }),
        10 => Some(TokenRule { pattern: r"^continue", typ: TokenType::Keyword(Keyword::Continue) }),
        11 => Some(TokenRule { pattern: r"^done", typ: TokenType::Keyword(Keyword::Done) }),
        12 => Some(TokenRule { pattern: r"^do", typ: TokenType::Keyword(Keyword::Do) }),
        13 => Some(TokenRule { pattern: r"^elif", typ: TokenType::Keyword(Keyword::Elif) }),
        14 => Some(TokenRule { pattern: r"^else", typ: TokenType::Keyword(Keyword::Else) }),
        15 => Some(TokenRule { pattern: r"^endif", typ: TokenType::Keyword(Keyword::Endif) }),
        16 => Some(TokenRule { pattern: r"^fun", typ: TokenType::Keyword(Keyword::Fun) }),
        17 => Some(TokenRule { pattern: r"^if", typ: TokenType::Keyword(Keyword::If) }),
        18 => Some(TokenRule { pattern: r"^let", typ: TokenType::Keyword(Keyword::Let) }),
        19 => Some(TokenRule { pattern: r"^return", typ: TokenType::Keyword(Keyword::Return) }),
        20 => Some(TokenRule { pattern: r"^while", typ: TokenType::Keyword(Keyword::While) }),
        21 => Some(TokenRule { pattern: r"^dup", typ: TokenType::Intrinsic(Intrinsic::Dup) }),
        22 => Some(TokenRule { pattern: r"^drop", typ: TokenType::Intrinsic(Intrinsic::Drop) }),
        23 => Some(TokenRule { pattern: r"^swap", typ: TokenType::Intrinsic(Intrinsic::Swap) }),
        24 => Some(TokenRule { pattern: r"^rot", typ: TokenType::Intrinsic(Intrinsic::Rot) }),
        25 => Some(TokenRule { pattern: r"^over", typ: TokenType::Intrinsic(Intrinsic::Over) }),
        26 => Some(TokenRule { pattern: r"^load_byte", typ: TokenType::Intrinsic(Intrinsic::Load(ChunkSize::Byte)) }),
        27 => Some(TokenRule { pattern: r"^load_word", typ: TokenType::Intrinsic(Intrinsic::Load(ChunkSize::Word)) }),
        28 => Some(TokenRule { pattern: r"^load_dword", typ: TokenType::Intrinsic(Intrinsic::Load(ChunkSize::Dword)) }),
        29 => Some(TokenRule { pattern: r"^load_qword", typ: TokenType::Intrinsic(Intrinsic::Load(ChunkSize::Qword)) }),
        30 => Some(TokenRule { pattern: r"^store_byte", typ: TokenType::Intrinsic(Intrinsic::Store(ChunkSize::Byte)) }),
        31 => Some(TokenRule { pattern: r"^store_word", typ: TokenType::Intrinsic(Intrinsic::Store(ChunkSize::Word)) }),
        32 => Some(TokenRule { pattern: r"^store_dword", typ: TokenType::Intrinsic(Intrinsic::Store(ChunkSize::Dword)) }),
        33 => Some(TokenRule { pattern: r"^store_qword", typ: TokenType::Intrinsic(Intrinsic::Store(ChunkSize::Qword)) }),
        34 => Some(TokenRule { pattern: r"^shl", typ: TokenType::Intrinsic(Intrinsic::Shl) }),
        35 => Some(TokenRule { pattern: r"^shr", typ: TokenType::Intrinsic(Intrinsic::Shr) }),
        36 => Some(TokenRule { pattern: r"^syscall0", typ: TokenType::Intrinsic(Intrinsic::Syscall(0)) }),
        37 => Some(TokenRule { pattern: r"^syscall1", typ: TokenType::Intrinsic(Intrinsic::Syscall(1)) }),
        38 => Some(TokenRule { pattern: r"^syscall2", typ: TokenType::Intrinsic(Intrinsic::Syscall(2)) }),
        39 => Some(TokenRule { pattern: r"^syscall3", typ: TokenType::Intrinsic(Intrinsic::Syscall(3)) }),
        40 => Some(TokenRule { pattern: r"^syscall4", typ: TokenType::Intrinsic(Intrinsic::Syscall(4)) }),
        41 => Some(TokenRule { pattern: r"^syscall5", typ: TokenType::Intrinsic(Intrinsic::Syscall(5)) }),
        42 => Some(TokenRule { pattern: r"^syscall6", typ: TokenType::Intrinsic(Intrinsic::Syscall(6)) }),
        43 => Some(TokenRule { pattern: r"^print", typ: TokenType::Intrinsic(Intrinsic::Print) }),
        44 => Some(TokenRule { pattern: r"^\(", typ: TokenType::Delimiter(Delimiter::OpenParen) }),
        45 => Some(TokenRule { pattern: r"^\)", typ: TokenType::Delimiter(Delimiter::CloseParen) }),
        46 => Some(TokenRule { pattern: r"^\[", typ: TokenType::Delimiter(Delimiter::OpenSquare) }),
        47 => Some(TokenRule { pattern: r"^\]", typ: TokenType::Delimiter(Delimiter::CloseSquare) }),
        48 => Some(TokenRule { pattern: r"^\{", typ: TokenType::Delimiter(Delimiter::OpenCurly) }),
        49 => Some(TokenRule { pattern: r"^\}", typ: TokenType::Delimiter(Delimiter::CloseCurly) }),
        50 => Some(TokenRule { pattern: r"^->", typ: TokenType::Delimiter(Delimiter::Arrow) }),
        51 => Some(TokenRule { pattern: r"^\.", typ: TokenType::Delimiter(Delimiter::Point) }),
        52 => Some(TokenRule { pattern: r"^,", typ: TokenType::Delimiter(Delimiter::Comma) }),
        53 => Some(TokenRule { pattern: r"^:", typ: TokenType::Delimiter(Delimiter::Colon) }),
        54 => Some(TokenRule { pattern: r"^;", typ: TokenType::Delimiter(Delimiter::SemiColon) }),
        55 => Some(TokenRule { pattern: r"^==", typ: TokenType::BinaryOperator(BinaryOperator::Equals) }),
        56 => Some(TokenRule { pattern: r"^>=", typ: TokenType::BinaryOperator(BinaryOperator::GreaterOrEqual) }),
        57 => Some(TokenRule { pattern: r"^>", typ: TokenType::BinaryOperator(BinaryOperator::GreaterThan) }),
        58 => Some(TokenRule { pattern: r"^<=", typ: TokenType::BinaryOperator(BinaryOperator::LessOrEqual) }),
        59 => Some(TokenRule { pattern: r"^<", typ: TokenType::BinaryOperator(BinaryOperator::LessThan) }),
        60 => Some(TokenRule { pattern: r"^!=", typ: TokenType::BinaryOperator(BinaryOperator::NotEquals) }),
        61 => Some(TokenRule { pattern: r"^=", typ: TokenType::BinaryOperator(BinaryOperator::Assignment) }),
        62 => Some(TokenRule { pattern: r"^\+", typ: TokenType::BinaryOperator(BinaryOperator::Addition) }),
        63 => Some(TokenRule { pattern: r"^/", typ: TokenType::BinaryOperator(BinaryOperator::Division) }),
        64 => Some(TokenRule { pattern: r"^\*", typ: TokenType::BinaryOperator(BinaryOperator::Multiplication) }),
        65 => Some(TokenRule { pattern: r"^-", typ: TokenType::BinaryOperator(BinaryOperator::Subtraction) }),
        66 => Some(TokenRule { pattern: r"^[a-zA-Z_$][a-zA-Z_$0-9]*", typ: TokenType::Identifier }),
        _ => None,
    }
}

/// The rules for tokens, in the order in which they are tried.
pub fn token_regexes() -> (rules: Vec<TokenRule>)
    ensures
        rules@ == token_rules(),
{
    let mut rules: Vec<TokenRule> = Vec::new();
    let mut index: usize = 0;
    while index < TOKEN_REGEX_COUNT
        invariant
            index <= TOKEN_REGEX_COUNT,
            rules.len() == index,
            forall|i: int| 0 <= i < index ==> #[trigger] rules[i] == token_rule(i as usize)->Some_0,
        decreases TOKEN_REGEX_COUNT - index,
    {
        match token_regex(index) {
            Some(rule) => {
                rules.push(rule);
            },
            None => {},
        }
        index += 1;
    }
    assert(rules@ =~= token_rules());
    rules
}

} // verus!
