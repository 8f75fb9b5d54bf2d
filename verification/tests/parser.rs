use rot::ast::{
    advance_cursor, assignment_statement, binary_expression, block_statement,
    block_statement_type_from_str, check_cursor, compound_statement, enclosure_expression,
    expression_statement, find_block_type, function_call_expression, generate_ast,
    literal_expression, parse_combined_expression, parse_expression, parse_function_parameters,
    parse_next_parameter, parse_return_type, parse_signature, parse_statement, peek_cursor,
    return_statement,
};
use rot::class::expression::{Expression, ExpressionType};
use rot::class::signature::Parameter;
use rot::class::statement::{Conditional, Statement, StatementType};
use rot::class::token::{BinaryOperator, Delimiter, Keyword, Token, TokenType};
use rot::compiler::{CompilerError, ParserError};
use rot::data_types::{ChunkSize, DataType};
use rot::lexer::tokenize_code;

fn tokens_of(code: &str) -> Vec<Token> {
    tokenize_code(code, None)
}

fn end_of_tokens<T>() -> Result<T, CompilerError> {
    Err(CompilerError::ParserError(ParserError::UnexpectedEof))
}

fn unexpected<T>(expected: TokenType, found: &Token) -> Result<T, CompilerError> {
    Err(CompilerError::ParserError(ParserError::UnexpectedToken {
        expected,
        found: found.clone(),
    }))
}

fn value(text: &str, data_type: Option<DataType>) -> Expression {
    Expression {
        typ: ExpressionType::Literal(data_type),
        value: Some(text.to_string()),
        expressions: Vec::new(),
    }
}

fn number(text: &str) -> Expression {
    value(text, Some(DataType::Integer(ChunkSize::Qword)))
}

fn binary(operator: BinaryOperator, left: Expression, right: Expression) -> Expression {
    Expression {
        typ: ExpressionType::Binary(operator),
        value: None,
        expressions: vec![left, right],
    }
}

#[test]
fn cursor_reads_tokens() {
    let tokens = tokens_of("a ;");
    assert_eq!(peek_cursor(0, &tokens), Ok(tokens[0].clone()));
    assert_eq!(peek_cursor(2, &tokens), end_of_tokens());
    assert_eq!(check_cursor(0, &tokens, &TokenType::Identifier), Ok(tokens[0].clone()));
    let semicolon = TokenType::Delimiter(Delimiter::SemiColon);
    assert_eq!(check_cursor(0, &tokens, &semicolon), unexpected(semicolon.clone(), &tokens[0]));
    assert_eq!(check_cursor(5, &tokens, &semicolon), end_of_tokens());
    let mut cursor: usize = 0;
    assert_eq!(advance_cursor(&mut cursor, &tokens, &semicolon), unexpected(semicolon.clone(), &tokens[0]));
    assert_eq!(cursor, 0);
    assert_eq!(advance_cursor(&mut cursor, &tokens, &TokenType::Identifier), Ok(tokens[0].clone()));
    assert_eq!(cursor, 1);
    assert_eq!(advance_cursor(&mut cursor, &tokens, &semicolon), Ok(tokens[1].clone()));
    assert_eq!(cursor, 2);
    assert_eq!(advance_cursor(&mut cursor, &tokens, &semicolon), end_of_tokens());
    assert_eq!(cursor, 2);
}

#[test]
fn kinds_of_tokens_are_compared() {
    let integer = TokenType::Literal(DataType::Integer(ChunkSize::Qword));
    assert!(integer.same_as(&TokenType::Literal(DataType::Integer(ChunkSize::Qword))));
    assert!(!integer.same_as(&TokenType::Literal(DataType::Boolean)));
    assert!(!integer.same_as(&TokenType::Identifier));
    assert!(TokenType::Keyword(Keyword::If).same_as(&TokenType::Keyword(Keyword::If)));
    assert!(!TokenType::Keyword(Keyword::If).same_as(&TokenType::Keyword(Keyword::Elif)));
    assert!(TokenType::Keyword(Keyword::If).keyword(Keyword::If));
    assert!(!TokenType::Keyword(Keyword::If).delimiter(Delimiter::Comma));
    assert!(TokenType::Delimiter(Delimiter::Comma).delimiter(Delimiter::Comma));
    assert_eq!(
        TokenType::BinaryOperator(BinaryOperator::LessThan).into(),
        Some(BinaryOperator::LessThan)
    );
    assert_eq!(TokenType::Identifier.into(), None);
}

#[test]
fn literal_needs_a_value() {
    let tokens = tokens_of("x ;");
    let mut cursor: usize = 0;
    assert_eq!(literal_expression(&tokens, &mut cursor), Ok(value("x", None)));
    assert_eq!(cursor, 1);
    assert_eq!(
        literal_expression(&tokens, &mut cursor),
        Err(CompilerError::ParserError(ParserError::UnknownLiteral { found: tokens[1].clone() }))
    );
    cursor = 2;
    assert_eq!(literal_expression(&tokens, &mut cursor), end_of_tokens());
}

#[test]
fn operators_bind_to_the_right() {
    let tokens = tokens_of("1 + 2 * 3 < x ;");
    let mut cursor: usize = 0;
    assert_eq!(
        parse_combined_expression(&tokens, &mut cursor),
        Ok(binary(
            BinaryOperator::Addition,
            number("1"),
            binary(
                BinaryOperator::Multiplication,
                number("2"),
                binary(BinaryOperator::LessThan, number("3"), value("x", None)),
            ),
        ))
    );
    assert_eq!(cursor, 7);
    let mut cursor: usize = 0;
    assert_eq!(
        binary_expression(&tokens, &mut cursor).map(|expression| expression.typ),
        Ok(ExpressionType::Binary(BinaryOperator::Addition))
    );
    // No operator behind the operand
    let mut cursor: usize = 6;
    assert_eq!(
        binary_expression(&tokens, &mut cursor),
        Err(CompilerError::SyntaxError(tokens[7].clone()))
    );
}

#[test]
fn a_token_must_follow_an_operand() {
    let tokens = tokens_of("1337");
    let mut cursor: usize = 0;
    assert_eq!(parse_expression(&tokens, &mut cursor), end_of_tokens());
    let tokens = tokens_of("1337 ;");
    let mut cursor: usize = 0;
    assert_eq!(parse_expression(&tokens, &mut cursor), Ok(number("1337")));
    assert_eq!(cursor, 1);
    let tokens = tokens_of("1 +");
    let mut cursor: usize = 0;
    assert_eq!(parse_combined_expression(&tokens, &mut cursor), end_of_tokens());
    let tokens = tokens_of("(1");
    let mut cursor: usize = 0;
    assert_eq!(enclosure_expression(&tokens, &mut cursor), end_of_tokens());
    let tokens = tokens_of("(1 ;");
    let mut cursor: usize = 0;
    assert_eq!(
        enclosure_expression(&tokens, &mut cursor),
        unexpected(TokenType::Delimiter(Delimiter::CloseParen), &tokens[2])
    );
}

#[test]
fn calls_take_expressions() {
    let call = |name: &str, expressions: Vec<Expression>| Expression {
        typ: ExpressionType::FunctionCall,
        value: Some(name.to_string()),
        expressions,
    };
    let tokens = tokens_of("f(1 + 2, g(), (x),) ;");
    let mut cursor: usize = 0;
    assert_eq!(
        parse_expression(&tokens, &mut cursor),
        Ok(call(
            "f",
            vec![
                binary(BinaryOperator::Addition, number("1"), number("2")),
                call("g", vec![]),
                Expression {
                    typ: ExpressionType::Enclosure,
                    value: None,
                    expressions: vec![value("x", None)],
                },
            ],
        ))
    );
    assert_eq!(cursor, 15);
    let tokens = tokens_of("f(1 2)");
    let mut cursor: usize = 0;
    assert_eq!(
        function_call_expression(&tokens, &mut cursor),
        Err(CompilerError::SyntaxError(tokens[3].clone()))
    );
    let tokens = tokens_of("f(1,");
    let mut cursor: usize = 0;
    assert_eq!(function_call_expression(&tokens, &mut cursor), end_of_tokens());
    let tokens = tokens_of("1(");
    let mut cursor: usize = 0;
    assert_eq!(
        function_call_expression(&tokens, &mut cursor),
        unexpected(TokenType::Identifier, &tokens[0])
    );
}

#[test]
fn statements_are_chosen_by_their_first_token() {
    let tokens = tokens_of("; { } return 1; let a: int = 2; if (x) { } elif (y) { } else { } while (z) { ; } f(); 7");
    let mut cursor: usize = 0;
    let mut kinds: Vec<StatementType> = Vec::new();
    for _ in 0..9 {
        kinds.push(parse_statement(&tokens, &mut cursor).unwrap().typ);
    }
    assert_eq!(
        kinds,
        vec![
            StatementType::NoOperation,
            StatementType::Compound,
            StatementType::Return,
            StatementType::Assignment(DataType::Integer(ChunkSize::Qword)),
            StatementType::Conditional(Conditional::If),
            StatementType::Conditional(Conditional::Elif),
            StatementType::Conditional(Conditional::Else),
            StatementType::Loop,
            StatementType::Expression,
        ]
    );
    assert_eq!(cursor, tokens.len() - 1);
    // The last statement has no semicolon
    assert_eq!(parse_statement(&tokens, &mut cursor), end_of_tokens());
    cursor = tokens.len();
    assert_eq!(parse_statement(&tokens, &mut cursor), end_of_tokens());
}

#[test]
fn statements_hold_their_parts() {
    let tokens = tokens_of("while (a < 1) { return a; ; }");
    let mut cursor: usize = 0;
    let plain = |typ: StatementType, expression: Option<Expression>| Statement {
        typ,
        value: None,
        expression,
        statements: None,
    };
    assert_eq!(
        block_statement(&tokens, &mut cursor),
        Ok(Statement {
            typ: StatementType::Loop,
            value: None,
            expression: Some(Expression {
                typ: ExpressionType::Enclosure,
                value: None,
                expressions: vec![binary(BinaryOperator::LessThan, value("a", None), number("1"))],
            }),
            statements: Some(vec![Statement {
                typ: StatementType::Compound,
                value: None,
                expression: None,
                statements: Some(vec![
                    plain(StatementType::Return, Some(value("a", None))),
                    plain(StatementType::NoOperation, None),
                ]),
            }]),
        })
    );
    assert_eq!(cursor, tokens.len());
    let tokens = tokens_of("else { }");
    let mut cursor: usize = 0;
    let statement = block_statement(&tokens, &mut cursor).unwrap();
    assert_eq!(statement.typ, StatementType::Conditional(Conditional::Else));
    assert_eq!(statement.expression, None);
}

#[test]
fn statements_that_are_not_closed() {
    let semicolon = TokenType::Delimiter(Delimiter::SemiColon);
    let tokens = tokens_of("{ ; ");
    let mut cursor: usize = 0;
    assert_eq!(compound_statement(&tokens, &mut cursor), end_of_tokens());
    let tokens = tokens_of("return 1 }");
    let mut cursor: usize = 0;
    assert_eq!(return_statement(&tokens, &mut cursor), unexpected(semicolon.clone(), &tokens[2]));
    let mut cursor: usize = 1;
    assert_eq!(expression_statement(&tokens, &mut cursor), unexpected(semicolon, &tokens[2]));
    let mut cursor: usize = 1;
    assert_eq!(
        return_statement(&tokens, &mut cursor),
        unexpected(TokenType::Keyword(Keyword::Return), &tokens[1])
    );
    let tokens = tokens_of("let a = 1;");
    let mut cursor: usize = 0;
    assert_eq!(
        assignment_statement(&tokens, &mut cursor),
        unexpected(TokenType::Delimiter(Delimiter::Colon), &tokens[2])
    );
    let tokens = tokens_of("let a: int 1;");
    let mut cursor: usize = 0;
    assert_eq!(
        assignment_statement(&tokens, &mut cursor),
        unexpected(TokenType::BinaryOperator(BinaryOperator::Assignment), &tokens[4])
    );
    let tokens = tokens_of("if x { }");
    let mut cursor: usize = 0;
    assert_eq!(
        block_statement(&tokens, &mut cursor),
        unexpected(TokenType::Delimiter(Delimiter::OpenParen), &tokens[1])
    );
    // No keyword of a block
    let tokens = tokens_of("fun (x) { }");
    let mut cursor: usize = 0;
    assert_eq!(
        block_statement(&tokens, &mut cursor),
        Err(CompilerError::SyntaxError(tokens[0].clone()))
    );
    let mut cursor: usize = 9;
    assert_eq!(block_statement(&tokens, &mut cursor), end_of_tokens());
}

#[test]
fn kinds_of_blocks() {
    assert_eq!(find_block_type("if"), Some(StatementType::Conditional(Conditional::If)));
    assert_eq!(find_block_type("elif"), Some(StatementType::Conditional(Conditional::Elif)));
    assert_eq!(find_block_type("else"), Some(StatementType::Conditional(Conditional::Else)));
    assert_eq!(find_block_type("while"), Some(StatementType::Loop));
    assert_eq!(find_block_type("for"), None);
    assert_eq!(find_block_type(""), None);
    assert_eq!(block_statement_type_from_str("while"), StatementType::Loop);
    assert_eq!(
        block_statement_type_from_str("elif"),
        StatementType::Conditional(Conditional::Elif)
    );
}

#[test]
fn parameters_and_return_types() {
    let tokens = tokens_of("a: int b: Point, c: ptr,) -> char {");
    let mut cursor: usize = 0;
    assert_eq!(
        parse_next_parameter(&tokens, &mut cursor),
        Ok(Parameter::new("a".to_string(), DataType::Integer(ChunkSize::Qword)))
    );
    assert_eq!(cursor, 3);
    cursor = 0;
    // Without a comma behind it, a parameter is the last
    assert_eq!(
        parse_function_parameters(&tokens, &mut cursor),
        Ok(vec![Parameter::new("a".to_string(), DataType::Integer(ChunkSize::Qword))])
    );
    assert_eq!(cursor, 3);
    // A comma may follow the last parameter
    assert_eq!(
        parse_function_parameters(&tokens, &mut cursor),
        Ok(vec![
            Parameter::new("b".to_string(), DataType::Custom("Point".to_string())),
            Parameter::new("c".to_string(), DataType::Pointer),
        ])
    );
    assert_eq!(cursor, 11);
    cursor = 12;
    assert_eq!(parse_return_type(&tokens, &mut cursor), Ok(Some(DataType::Character)));
    assert_eq!(cursor, 14);
    assert_eq!(parse_return_type(&tokens, &mut cursor), Ok(None));
    assert_eq!(cursor, 14);
    cursor = 11;
    assert_eq!(
        parse_return_type(&tokens, &mut cursor),
        unexpected(TokenType::Delimiter(Delimiter::Arrow), &tokens[11])
    );
    let tokens = tokens_of("() {");
    let mut cursor: usize = 0;
    let signature = parse_signature(&tokens, &mut cursor).unwrap();
    assert!(signature.parameters.is_empty());
    assert_eq!(signature.return_type, None);
    assert_eq!(cursor, 2);
    let tokens = tokens_of("(a: int");
    let mut cursor: usize = 0;
    assert_eq!(parse_signature(&tokens, &mut cursor), end_of_tokens());
    // A comma stands between two parameters
    let tokens = tokens_of("(a: int b: int)");
    let mut cursor: usize = 0;
    assert_eq!(
        parse_signature(&tokens, &mut cursor),
        unexpected(TokenType::Delimiter(Delimiter::CloseParen), &tokens[4])
    );
    let tokens = tokens_of("fun f(a: int b: int) { }");
    assert_eq!(
        generate_ast(&tokens),
        unexpected(TokenType::Delimiter(Delimiter::CloseParen), &tokens[6])
    );
    let tokens = tokens_of("(a int)");
    let mut cursor: usize = 0;
    assert_eq!(
        parse_signature(&tokens, &mut cursor),
        unexpected(TokenType::Delimiter(Delimiter::Colon), &tokens[2])
    );
}

#[test]
fn programs_are_their_functions() {
    let program = generate_ast(&tokens_of(
        "fun one() -> int { return 1; }\nfun main() { let x: int = one(); }",
    ))
    .unwrap();
    assert_eq!(program.functions.len(), 2);
    assert_eq!(program.functions[0].name, "one");
    assert_eq!(program.functions[1].name, "main");
    assert_eq!(
        program.functions[0].signature.return_type,
        Some(DataType::Integer(ChunkSize::Qword))
    );
    let body = program.functions[1].statement.statements.as_ref().unwrap();
    assert_eq!(body.len(), 1);
    assert_eq!(body[0].value, Some("x".to_string()));
    assert_eq!(generate_ast(&Vec::new()).unwrap().functions.len(), 0);
    // What is no function is refused
    let tokens = tokens_of("fun main() { } 1");
    assert_eq!(
        generate_ast(&tokens),
        unexpected(TokenType::Keyword(Keyword::Fun), &tokens[6])
    );
    assert_eq!(generate_ast(&tokens_of("fun main() {")), end_of_tokens());
}
