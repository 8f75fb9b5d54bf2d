use rot::ast::{
    assignment_statement, binary_expression, block_statement, compound_statement,
    enclosure_expression, expression_statement, function_call_expression, literal_expression,
    no_operation_statement, parse_function, return_statement,
};
use rot::class::expression::{Expression, ExpressionType};
use rot::class::signature::{Parameter, Signature};
use rot::class::statement::{Statement, StatementType};
use rot::class::token::{BinaryOperator, Token};
use rot::data_types::{datatype_from_string, ChunkSize, DataType};
use rot::lexer::tokenize_code;

#[test]
fn parse_no_operation_statement() {
    let tokens: Vec<Token> = tokenize_code(";", None);
    let mut cursor: usize = 0;
    let statement = no_operation_statement(&tokens, &mut cursor).unwrap();
    assert_eq!(statement.typ, StatementType::NoOperation);
}

#[test]
fn parse_compound_statement() {
    // Compound statement with inner compound statement
    let tokens: Vec<Token> = tokenize_code("{{ }}", None);
    let mut cursor: usize = 0;
    let statement = compound_statement(&tokens, &mut cursor).unwrap();
    // Inner compound statement
    assert_inner_statement_type(&statement, StatementType::Compound);
}

#[test]
fn parse_functions() {
    // The comma after last parameter is optional
    let tokens: Vec<Token> = tokenize_code("fun foo(a:int, b:str) -> bool { }", None);
    let tokens2: Vec<Token> = tokenize_code("fun foo(a:int, b:str,) -> bool { }", None);
    let mut cursor: usize = 0;
    let function = parse_function(&tokens, &mut cursor).unwrap();
    let mut cursor2: usize = 0;
    let function2 = parse_function(&tokens2, &mut cursor2).unwrap();
    assert_eq!(function, function2);
    let parameters: Vec<Parameter> = vec![
        Parameter::new("a".to_string(), DataType::Integer(ChunkSize::Qword)),
        Parameter::new("b".to_string(), DataType::String),
    ];
    let return_type: Option<DataType> = Some(DataType::Boolean);
    let signature: Signature = Signature {
        parameters,
        return_type,
    };
    // Function signature is parsed correctly
    assert_eq!(function.signature, signature);
    // Function's Statement is always CompoundStatement
    assert_eq!(function.statement.typ, StatementType::Compound);
}

#[test]
fn parse_conditional_statement() {
    let tokens: Vec<Token> = tokenize_code("if(true) { }", None);
    let mut cursor: usize = 0;
    let statement = block_statement(&tokens, &mut cursor).unwrap();
    // ConditionalStatement's Statement is always CompoundStatement with enclosure expression
    assert_inner_statement_type(&statement, StatementType::Compound);
    assert_inner_expression_type(&statement, ExpressionType::Enclosure);
    // Test the conditional inside enclosure
    let inner_expressions: &Vec<Expression> = extract_inner_expressions(&statement);
    assert_eq!(
        inner_expressions[0].typ,
        ExpressionType::Literal(Some(DataType::Boolean))
    );
}

#[test]
fn parse_expression_statement() {
    let tokens: Vec<Token> = tokenize_code("1337;", None);
    let mut cursor: usize = 0;
    let statement = expression_statement(&tokens, &mut cursor).unwrap();
    assert_eq!(statement.typ, StatementType::Expression);
    assert_inner_expression_type(
        &statement,
        ExpressionType::Literal(Some(DataType::Integer(ChunkSize::Qword))),
    );
}

#[test]
fn parse_return_statement() {
    let tokens: Vec<Token> = tokenize_code("return 42;", None);
    let mut cursor: usize = 0;
    let statement = return_statement(&tokens, &mut cursor).unwrap();
    // Expression statement is one statement
    assert_eq!(statement.typ, StatementType::Return);
    assert_inner_expression_type(
        &statement,
        ExpressionType::Literal(Some(DataType::Integer(ChunkSize::Qword))),
    );
}

#[test]
fn parse_assignment_statement() {
    let tokens: Vec<Token> = tokenize_code("let nice: int = 69;", None);
    let mut cursor: usize = 0;
    let statement = assignment_statement(&tokens, &mut cursor).unwrap();
    assert_eq!(
        statement,
        Statement {
            typ: StatementType::Assignment(datatype_from_string(&tokens[3].value)),
            value: Some(tokens[1].value.clone()),
            expression: Some(mock_literal_expression(
                "69",
                Some(DataType::Integer(ChunkSize::Qword))
            )),
            statements: None,
        }
    );
}

#[test]
fn parse_literal_expression() {
    let literal: &str = "1337";
    let tokens: Vec<Token> = tokenize_code(literal, None);
    let mut cursor: usize = 0;
    let expression = literal_expression(&tokens, &mut cursor).unwrap();
    assert_eq!(
        expression,
        mock_literal_expression(literal, Some(DataType::Integer(ChunkSize::Qword)))
    )
}

#[test]
fn parse_enclosure_expression() {
    let tokens: Vec<Token> = tokenize_code("(false)", None);
    let mut cursor: usize = 0;
    let expression = enclosure_expression(&tokens, &mut cursor).unwrap();
    assert_eq!(
        expression,
        Expression {
            typ: ExpressionType::Enclosure,
            value: None,
            expressions: vec![mock_literal_expression("false", Some(DataType::Boolean))],
        }
    )
}

#[test]
fn parse_function_call_expression() {
    let function_name: &str = "foo";
    let tokens: Vec<Token> = tokenize_code(&format!("{function_name}(a,b)"), None);
    let mut cursor: usize = 0;
    let expression = function_call_expression(&tokens, &mut cursor).unwrap();
    assert_eq!(
        expression,
        Expression {
            typ: ExpressionType::FunctionCall,
            value: Some(function_name.to_string()),
            expressions: vec![
                mock_literal_expression("a", None),
                mock_literal_expression("b", None),
            ],
        }
    )
}

#[test]
fn parse_binary_expression() {
    let tokens: Vec<Token> = tokenize_code("34+35;", None);
    let mut cursor: usize = 0;
    let expression = binary_expression(&tokens, &mut cursor).unwrap();
    assert_eq!(
        expression,
        Expression {
            typ: ExpressionType::Binary(BinaryOperator::Addition),
            value: None,
            expressions: vec![
                mock_literal_expression("34", Some(DataType::Integer(ChunkSize::Qword))),
                mock_literal_expression("35", Some(DataType::Integer(ChunkSize::Qword))),
            ],
        }
    )
}

fn mock_literal_expression(value: &str, data_type: Option<DataType>) -> Expression {
    Expression {
        typ: ExpressionType::Literal(data_type),
        value: Some(value.to_string()),
        expressions: Vec::new(),
    }
}

fn assert_inner_expression_type(statement: &Statement, expected: ExpressionType) {
    assert_eq!(statement.expression.as_ref().unwrap().typ, expected)
}

fn assert_inner_statement_type(statement: &Statement, expected: StatementType) {
    assert_eq!(
        statement.statements.as_ref().unwrap().first().unwrap().typ,
        expected,
    )
}

fn extract_inner_expressions(statement: &Statement) -> &Vec<Expression> {
    statement
        .expression
        .as_ref()
        .unwrap()
        .expressions
        .as_ref()
}
