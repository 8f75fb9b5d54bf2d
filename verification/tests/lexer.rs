use rot::class::location::Location;
use rot::class::token::{BinaryOperator, Delimiter, Keyword, Token, TokenType};
use rot::compiler::CompilerError;
use rot::data_types::{ChunkSize, DataType};
use rot::intrinsics::Intrinsic;
use rot::lexer::{
    find_token_type, find_unknown_text, get_token_type, has_token_type, scan_code,
    token_of_match, tokenize_code, try_tokenize_code,
};

fn types(tokens: &Vec<Token>) -> Vec<TokenType> {
    tokens.iter().map(|token| token.typ.clone()).collect()
}

#[test]
fn lex_empty_text() {
    let tokens: Vec<Token> = tokenize_code("", None);
    assert!(tokens.is_empty())
}

#[test]
fn lex_whitespace_text() {
    let tokens: Vec<Token> = tokenize_code(" \t\n\n   \r\n ", None);
    assert!(tokens.is_empty())
}

#[test]
fn lex_comments_text() {
    let tokens: Vec<Token> =
        tokenize_code("// a comment\n/* one\n more */ // last", None);
    assert!(tokens.is_empty())
}

#[test]
fn lex_delimiters_text() {
    let tokens: Vec<Token> = tokenize_code("-> . , : ; ( ) [ ] { }", None);
    assert_eq!(
        types(&tokens),
        vec![
            TokenType::Delimiter(Delimiter::Arrow),
            TokenType::Delimiter(Delimiter::Point),
            TokenType::Delimiter(Delimiter::Comma),
            TokenType::Delimiter(Delimiter::Colon),
            TokenType::Delimiter(Delimiter::SemiColon),
            TokenType::Delimiter(Delimiter::OpenParen),
            TokenType::Delimiter(Delimiter::CloseParen),
            TokenType::Delimiter(Delimiter::OpenSquare),
            TokenType::Delimiter(Delimiter::CloseSquare),
            TokenType::Delimiter(Delimiter::OpenCurly),
            TokenType::Delimiter(Delimiter::CloseCurly),
        ]
    );
}

#[test]
fn lex_literals_text() {
    let tokens: Vec<Token> = tokenize_code("true FALSE 'a' 1337 \"text here\"", None);
    assert_eq!(
        types(&tokens),
        vec![
            TokenType::Literal(DataType::Boolean),
            TokenType::Literal(DataType::Boolean),
            TokenType::Literal(DataType::Character),
            TokenType::Literal(DataType::Integer(ChunkSize::Qword)),
            TokenType::Literal(DataType::String),
        ]
    );
    let values: Vec<&str> = tokens.iter().map(|token| token.value.as_str()).collect();
    assert_eq!(values, vec!["true", "FALSE", "'a'", "1337", "\"text here\""]);
}

#[test]
fn lex_keywords_text() {
    let tokens: Vec<Token> = tokenize_code(
        "break cast continue do done elif else endif fun if let return while",
        None,
    );
    assert_eq!(
        types(&tokens),
        vec![
            TokenType::Keyword(Keyword::Break),
            TokenType::Keyword(Keyword::Cast),
            TokenType::Keyword(Keyword::Continue),
            TokenType::Keyword(Keyword::Do),
            TokenType::Keyword(Keyword::Done),
            TokenType::Keyword(Keyword::Elif),
            TokenType::Keyword(Keyword::Else),
            TokenType::Keyword(Keyword::Endif),
            TokenType::Keyword(Keyword::Fun),
            TokenType::Keyword(Keyword::If),
            TokenType::Keyword(Keyword::Let),
            TokenType::Keyword(Keyword::Return),
            TokenType::Keyword(Keyword::While),
        ]
    );
}

#[test]
fn lex_operators_text() {
    let tokens: Vec<Token> = tokenize_code("+ - / * = == >= > <= < !=", None);
    assert_eq!(
        types(&tokens),
        vec![
            TokenType::BinaryOperator(BinaryOperator::Addition),
            TokenType::BinaryOperator(BinaryOperator::Subtraction),
            TokenType::BinaryOperator(BinaryOperator::Division),
            TokenType::BinaryOperator(BinaryOperator::Multiplication),
            TokenType::BinaryOperator(BinaryOperator::Assignment),
            TokenType::BinaryOperator(BinaryOperator::Equals),
            TokenType::BinaryOperator(BinaryOperator::GreaterOrEqual),
            TokenType::BinaryOperator(BinaryOperator::GreaterThan),
            TokenType::BinaryOperator(BinaryOperator::LessOrEqual),
            TokenType::BinaryOperator(BinaryOperator::LessThan),
            TokenType::BinaryOperator(BinaryOperator::NotEquals),
        ]
    );
}

#[test]
fn lex_intrinsics_text() {
    let tokens: Vec<Token> = tokenize_code(
        "dup drop swap rot over load_byte load_word load_dword load_qword \
         store_byte store_word store_dword store_qword shl shr syscall0 syscall3 syscall6 print",
        None,
    );
    assert_eq!(
        types(&tokens),
        vec![
            TokenType::Intrinsic(Intrinsic::Dup),
            TokenType::Intrinsic(Intrinsic::Drop),
            TokenType::Intrinsic(Intrinsic::Swap),
            TokenType::Intrinsic(Intrinsic::Rot),
            TokenType::Intrinsic(Intrinsic::Over),
            TokenType::Intrinsic(Intrinsic::Load(ChunkSize::Byte)),
            TokenType::Intrinsic(Intrinsic::Load(ChunkSize::Word)),
            TokenType::Intrinsic(Intrinsic::Load(ChunkSize::Dword)),
            TokenType::Intrinsic(Intrinsic::Load(ChunkSize::Qword)),
            TokenType::Intrinsic(Intrinsic::Store(ChunkSize::Byte)),
            TokenType::Intrinsic(Intrinsic::Store(ChunkSize::Word)),
            TokenType::Intrinsic(Intrinsic::Store(ChunkSize::Dword)),
            TokenType::Intrinsic(Intrinsic::Store(ChunkSize::Qword)),
            TokenType::Intrinsic(Intrinsic::Shl),
            TokenType::Intrinsic(Intrinsic::Shr),
            TokenType::Intrinsic(Intrinsic::Syscall(0)),
            TokenType::Intrinsic(Intrinsic::Syscall(3)),
            TokenType::Intrinsic(Intrinsic::Syscall(6)),
            TokenType::Intrinsic(Intrinsic::Print),
        ]
    );
}

#[test]
fn lex_identifiers_text() {
    let tokens: Vec<Token> = tokenize_code("foo _bar $x a1 main", None);
    assert_eq!(tokens.len(), 5);
    for token in &tokens {
        assert_eq!(token.typ, TokenType::Identifier);
    }
    assert_eq!(tokens[3].value, "a1");
}

#[test]
fn lex_rows_and_columns() {
    let file = Some("code.rot".to_string());
    let tokens: Vec<Token> = tokenize_code("fun main\n  34 /* a\nb */ x", file.clone());
    assert_eq!(tokens.len(), 4);
    assert_eq!(tokens[0].start_loc, Location::new(1, 1, file.clone()));
    assert_eq!(tokens[0].end_loc, Location::new(1, 4, file.clone()));
    assert_eq!(tokens[1].start_loc, Location::new(1, 5, file.clone()));
    assert_eq!(tokens[1].end_loc, Location::new(1, 9, file.clone()));
    assert_eq!(tokens[2].start_loc, Location::new(2, 3, file.clone()));
    assert_eq!(tokens[2].end_loc, Location::new(2, 5, file.clone()));
    // The comment ends in row 3, three bytes behind its line feed
    assert_eq!(tokens[3].start_loc, Location::new(3, 6, file.clone()));
    assert_eq!(tokens[3].end_loc, Location::new(3, 7, file));
}

#[test]
fn lex_text_that_is_no_token() {
    let file = Some("code.rot".to_string());
    assert_eq!(
        scan_code("34 35 +\n  # 1", &file),
        Err(Location::new(2, 3, file.clone()))
    );
    assert_eq!(
        find_unknown_text("34 35 +\n  # 1", &file),
        Some(Location::new(2, 3, file.clone()))
    );
    assert_eq!(find_unknown_text("34 35 +", &file), None);
    assert_eq!(
        try_tokenize_code("@", None),
        Err(CompilerError::LexerError(Location::new(1, 1, None)))
    );
    assert_eq!(try_tokenize_code("1 2", None).unwrap().len(), 2);
}

#[test]
fn lex_text_beyond_ascii() {
    let tokens: Vec<Token> = tokenize_code("\"αβγ\" 'δ' x", None);
    assert_eq!(tokens.len(), 3);
    assert_eq!(tokens[0].value, "\"αβγ\"");
    assert_eq!(tokens[1].value, "'δ'");
    // Columns count bytes
    assert_eq!(tokens[1].start_loc, Location::new(1, 10, None));
    assert_eq!(tokens[2].start_loc, Location::new(1, 15, None));
}

#[test]
fn token_type_of_text() {
    assert_eq!(get_token_type("while"), TokenType::Keyword(Keyword::While));
    assert_eq!(get_token_type("42"), TokenType::Literal(DataType::Integer(ChunkSize::Qword)));
    assert_eq!(get_token_type("answer"), TokenType::Identifier);
    assert_eq!(get_token_type("  "), TokenType::Skipped);
    assert_eq!(find_token_type("->"), Some(TokenType::Delimiter(Delimiter::Arrow)));
    assert_eq!(find_token_type("#"), None);
    assert!(has_token_type("x"));
    assert!(!has_token_type("#"));
    // The first rule that matches decides
    assert_eq!(get_token_type("done"), TokenType::Keyword(Keyword::Done));
    assert_eq!(get_token_type("=="), TokenType::BinaryOperator(BinaryOperator::Equals));
}

#[test]
fn token_of_a_match() {
    let file = Some("a.rot".to_string());
    let place = |row: usize, column: usize| Location::new(row, column, file.clone());
    // A token on one line: the column moves on by its length
    assert_eq!(
        token_of_match("foo bar", 0, 3, Some(TokenType::Identifier), false, 4, 7, &file),
        (
            Some(Token {
                value: "foo".to_string(),
                typ: TokenType::Identifier,
                start_loc: place(4, 7),
                end_loc: place(4, 10),
            }),
            4,
            10
        )
    );
    // A token over two lines: the column is counted from its last line feed
    let string = TokenType::Literal(DataType::String);
    assert_eq!(
        token_of_match("\"a\nbc\" x", 0, 6, Some(string.clone()), false, 1, 9, &None),
        (
            Some(Token {
                value: "\"a\nbc\"".to_string(),
                typ: string.clone(),
                start_loc: Location::new(1, 9, None),
                end_loc: Location::new(2, 4, None),
            }),
            2,
            4
        )
    );
    // Text that is passed over gives no token, and is counted
    assert_eq!(token_of_match("\n\n  x", 0, 4, None, true, 1, 5, &None), (None, 3, 3));
    assert_eq!(token_of_match("  x", 0, 2, Some(string), true, 3, 1, &None), (None, 3, 3));
    // Text of no kind gives no token
    assert_eq!(token_of_match("#", 0, 1, None, false, 1, 1, &None), (None, 1, 2));
    // A match behind the start of the text: what stands before it is not counted
    assert_eq!(
        token_of_match("\nä+", 3, 4, Some(TokenType::Identifier), false, 2, 2, &None),
        (
            Some(Token {
                value: "+".to_string(),
                typ: TokenType::Identifier,
                start_loc: Location::new(2, 2, None),
                end_loc: Location::new(2, 3, None),
            }),
            2,
            3
        )
    );
}
