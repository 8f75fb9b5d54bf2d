use rot::assembly::{
    find_parameter_index, function_end_assembly, function_start_assembly, generate_assembly,
    generate_function_assembly, generate_instructions, generate_program_start,
    generate_program_start_assembly,
};
use rot::class::instruction::{write_instructions, Instruction};
use rot::class::function::{Function, FunctionSource};
use rot::class::location::Location;
use rot::class::op::{FunctionCallInfo, Jump, Marker, Op, OpType};
use rot::class::signature::{Parameter, Signature};
use rot::class::token::{Token, TokenType};
use rot::compiler::{
    check_functions, compile_tokens, function_defined, lower_function, lower_functions,
    parse_function, parse_function_parameters, parse_function_signature, parse_functions,
    CodeGenError, CompilerError, ControlFlowError, LoweringError, ParserError,
    SegmentationError, TypeError, MAIN_FUNCTION_NAME,
};
use rot::control_flow::{collect_markers, resolve_control_flow, resolve_jumps, Fault};
use rot::data_types::{datatype_from_string, ChunkSize, DataType};
use rot::intrinsics::{Calculation, Comparison, Intrinsic};
use rot::ir::{get_keyword_op_type, get_mapped_op_type, parse_cast_op, parse_ops};
use rot::lexer::{tokenize_code, try_tokenize_code};
use rot::type_check::{check_function, check_op};

fn tokens_of(code: &str) -> Vec<Token> {
    tokenize_code(code, None)
}

/// Scans a source text and compiles its tokens.
fn compile_code(code: &str, code_file: Option<String>) -> Result<String, CompilerError> {
    let tokens = try_tokenize_code(code, code_file)?;
    compile_tokens(&tokens)
}

fn kinds(ops: &Vec<Op>) -> Vec<OpType> {
    ops.iter().map(|op| op.typ.clone()).collect()
}

fn unresolved() -> Jump {
    Jump { target: None, exit: None }
}

fn to(target: usize) -> Jump {
    Jump { target: Some(target), exit: None }
}

fn function_of(code: &str) -> Function {
    let tokens = tokens_of(code);
    let mut cursor: usize = 0;
    let source = parse_function(&tokens, &mut cursor).unwrap();
    lower_function(&source).unwrap()
}

fn type_error(kind: TypeError, row: usize, column: usize) -> CompilerError {
    CompilerError::TypeError(kind, Location::new(row, column, None))
}

// ---- data types

#[test]
fn names_of_types() {
    assert_eq!(datatype_from_string("bool"), DataType::Boolean);
    assert_eq!(datatype_from_string("char"), DataType::Character);
    assert_eq!(datatype_from_string("int"), DataType::Integer(ChunkSize::Qword));
    assert_eq!(datatype_from_string("ptr"), DataType::Pointer);
    assert_eq!(datatype_from_string("str"), DataType::String);
    assert_eq!(datatype_from_string("Point"), DataType::Custom("Point".to_string()));
    assert_eq!(datatype_from_string(""), DataType::Custom(String::new()));
    assert_eq!(DataType::from_name(&"int".to_string()), DataType::Integer(ChunkSize::Qword));
}

#[test]
fn custom_types_are_compared_by_name() {
    let point = DataType::Custom("Point".to_string());
    assert!(point.same_as(&datatype_from_string("Point")));
    assert!(!point.same_as(&datatype_from_string("Line")));
    assert!(!point.same_as(&DataType::Pointer));
    assert!(DataType::Integer(ChunkSize::Byte).same_as(&DataType::Integer(ChunkSize::Byte)));
    assert!(!DataType::Integer(ChunkSize::Byte).same_as(&DataType::Integer(ChunkSize::Word)));
    assert_eq!(ChunkSize::Word.max(ChunkSize::Dword), ChunkSize::Dword);
    assert_eq!(ChunkSize::Qword.max(ChunkSize::Byte), ChunkSize::Qword);
    assert_eq!(ChunkSize::Dword.byte_count(), 4);
}

// ---- segmenting

#[test]
fn trailing_comma_gives_the_same_signature() {
    let tokens = tokens_of("fun foo(a: int, b: str) { }");
    let tokens2 = tokens_of("fun foo(a: int, b: str,) { }");
    let mut cursor: usize = 0;
    let function = parse_function(&tokens, &mut cursor).unwrap();
    let mut cursor2: usize = 0;
    let function2 = parse_function(&tokens2, &mut cursor2).unwrap();
    assert_eq!(function.signature, function2.signature);
    assert_eq!(
        function.signature,
        Signature {
            parameters: vec![
                Parameter::new("a".to_string(), DataType::Integer(ChunkSize::Qword)),
                Parameter::new("b".to_string(), DataType::String),
            ],
            return_type: None,
        }
    );
    assert_eq!(function.name, "foo");
    assert!(function.tokens.is_empty());
    assert_eq!(cursor, tokens.len());
    assert_eq!(cursor2, tokens2.len());
}

#[test]
fn parameters_are_separated_by_commas() {
    let tokens = tokens_of("a: int, b: Point, c: ptr,) x: int y");
    let mut cursor: usize = 0;
    assert_eq!(
        parse_function_parameters(&mut cursor, &tokens),
        Ok(vec![
            Parameter::new("a".to_string(), DataType::Integer(ChunkSize::Qword)),
            Parameter::new("b".to_string(), DataType::Custom("Point".to_string())),
            Parameter::new("c".to_string(), DataType::Pointer),
        ])
    );
    assert_eq!(cursor, 12);
    // Without a comma behind it, a parameter is the last
    cursor = 13;
    assert_eq!(
        parse_function_parameters(&mut cursor, &tokens),
        Ok(vec![Parameter::new("x".to_string(), DataType::Integer(ChunkSize::Qword))])
    );
    assert_eq!(cursor, 16);
    assert_eq!(
        parse_function_parameters(&mut cursor, &tokens),
        Err(CompilerError::ParserError(ParserError::UnexpectedEof))
    );
    let functions = parse_functions(&tokens_of("fun main() { } fun f() { }")).unwrap();
    assert!(function_defined(MAIN_FUNCTION_NAME, &functions));
    assert!(function_defined("f", &functions));
    assert!(!function_defined("g", &functions));
}

#[test]
fn body_is_the_span_between_matching_braces() {
    let tokens = tokens_of("fun f() -> int { 1 { 2 { } 3 } 4 } fun main() { }");
    let functions = parse_functions(&tokens).unwrap();
    assert_eq!(functions.len(), 2);
    assert_eq!(functions[0].name, "f");
    assert_eq!(functions[0].signature.return_type, Some(DataType::Integer(ChunkSize::Qword)));
    let body: Vec<&str> = functions[0].tokens.iter().map(|token| token.value.as_str()).collect();
    assert_eq!(body, vec!["1", "{", "2", "{", "}", "3", "}", "4"]);
    assert_eq!(functions[1].name, "main");
    assert!(functions[1].tokens.is_empty());
    assert_eq!(functions[0].location, Location::new(1, 5, None));
}

#[test]
fn tokens_between_functions_are_passed_over() {
    let tokens = tokens_of("1 2 fun main() { } ; fun g() { return }");
    let functions: Vec<FunctionSource> = parse_functions(&tokens).unwrap();
    assert_eq!(functions.len(), 2);
    assert_eq!(functions[1].tokens.len(), 1);
}

#[test]
fn unterminated_function() {
    let tokens = tokens_of("fun main() { { }");
    assert_eq!(
        parse_functions(&tokens),
        Err(CompilerError::SegmentationError(
            SegmentationError::UnterminatedFunction,
            Location::new(1, 5, None)
        ))
    );
}

#[test]
fn missing_entry_point() {
    let tokens = tokens_of("fun foo() { }");
    assert_eq!(
        parse_functions(&tokens),
        Err(CompilerError::SegmentationError(
            SegmentationError::MissingEntryPoint,
            Location::new(1, 14, None)
        ))
    );
    assert_eq!(
        parse_functions(&Vec::new()),
        Err(CompilerError::SegmentationError(
            SegmentationError::MissingEntryPoint,
            Location::new(1, 1, None)
        ))
    );
}

#[test]
fn malformed_signature() {
    let malformed = |row: usize, column: usize| {
        Err(CompilerError::SegmentationError(
            SegmentationError::MalformedSignature,
            Location::new(row, column, None),
        ))
    };
    // No name
    assert_eq!(parse_functions(&tokens_of("fun (a: int) { }")), malformed(1, 5));
    // The tokens end behind the keyword
    assert_eq!(parse_functions(&tokens_of("fun")), malformed(1, 4));
    // No type
    assert_eq!(parse_functions(&tokens_of("fun main(a) { }")), malformed(1, 11));
    // No body
    assert_eq!(parse_functions(&tokens_of("fun main() -> int 1")), malformed(1, 19));
    // No comma between two parameters
    assert_eq!(parse_functions(&tokens_of("fun main(a: int b: int) { }")), malformed(1, 17));
    // A comma without a parameter before it
    assert_eq!(parse_functions(&tokens_of("fun main(,) { }")), malformed(1, 10));
    assert_eq!(parse_functions(&tokens_of("fun main(a: int,,) { }")), malformed(1, 17));
    // No return type behind the arrow
    assert_eq!(parse_functions(&tokens_of("fun main() -> { }")), malformed(1, 15));
    let tokens = tokens_of("(a: int, b: bool) -> ptr {");
    let mut cursor: usize = 0;
    let signature = parse_function_signature(&mut cursor, &tokens).unwrap();
    assert_eq!(signature.parameters.len(), 2);
    assert_eq!(signature.return_type, Some(DataType::Pointer));
    assert_eq!(cursor, 11);
}

// ---- lowering

#[test]
fn empty_body_lowers_to_no_operation() {
    assert_eq!(parse_ops(&Vec::new()), Ok(Vec::new()));
}

#[test]
fn tokens_lower_to_operations() {
    let tokens = tokens_of("34 x + == dup cast(ptr) load_byte while true do break continue done return");
    let ops = parse_ops(&tokens).unwrap();
    assert_eq!(
        kinds(&ops),
        vec![
            OpType::Push(tokens[0].clone()),
            OpType::Push(tokens[1].clone()),
            OpType::Calculation(Calculation::Addition),
            OpType::Comparison(Comparison::Equals),
            OpType::Intrinsic(Intrinsic::Dup),
            OpType::Cast(DataType::Pointer),
            OpType::Intrinsic(Intrinsic::Load(ChunkSize::Byte)),
            OpType::While,
            OpType::Push(tokens[11].clone()),
            OpType::Do(unresolved()),
            OpType::Break(unresolved()),
            OpType::Continue(unresolved()),
            OpType::Done(unresolved()),
            OpType::Return,
        ]
    );
    for (place, op) in ops.iter().enumerate() {
        assert_eq!(op.id, place);
    }
    // A cast takes four tokens
    assert_eq!(ops[5].start_loc, tokens[5].start_loc);
    assert_eq!(ops[5].end_loc, tokens[8].end_loc);
    assert_eq!(ops[6].start_loc, tokens[9].start_loc);
}

#[test]
fn calls_lower_behind_their_arguments() {
    let call = |name: &str, count: usize| {
        OpType::FunctionCall(FunctionCallInfo {
            function_name: name.to_string(),
            argument_count: count,
        })
    };
    let tokens = tokens_of("foo(1 2 +, bar(), x,) baz()");
    let ops = parse_ops(&tokens).unwrap();
    assert_eq!(
        kinds(&ops),
        vec![
            OpType::Push(tokens[2].clone()),
            OpType::Push(tokens[3].clone()),
            OpType::Calculation(Calculation::Addition),
            call("bar", 0),
            OpType::Push(tokens[10].clone()),
            call("foo", 3),
            call("baz", 0),
        ]
    );
    assert_eq!(ops[5].start_loc, tokens[0].start_loc);
    assert_eq!(ops[5].end_loc, tokens[12].end_loc);
    assert_eq!(kinds(&parse_ops(&tokens_of("f(a)")).unwrap())[1], call("f", 1));
    assert_eq!(kinds(&parse_ops(&tokens_of("f(a,)")).unwrap())[1], call("f", 1));
    assert_eq!(kinds(&parse_ops(&tokens_of("f(a,b)")).unwrap())[2], call("f", 2));
}

#[test]
fn lowering_errors() {
    let unknown = |column: usize| {
        Err(CompilerError::LoweringError(
            LoweringError::UnknownToken,
            Location::new(1, column, None),
        ))
    };
    assert_eq!(parse_ops(&tokens_of("1 ; 2")), unknown(3));
    assert_eq!(parse_ops(&tokens_of("1 = 2")), unknown(3));
    assert_eq!(parse_ops(&tokens_of("1 fun")), unknown(3));
    assert_eq!(parse_ops(&tokens_of("1 )")), unknown(3));
    assert_eq!(parse_ops(&tokens_of("1 , 2")), unknown(3));
    assert_eq!(parse_ops(&tokens_of("f(,)")), unknown(3));
    assert_eq!(parse_ops(&tokens_of("f(a,,b)")), unknown(5));
    assert_eq!(parse_ops(&tokens_of("cast(int")), unknown(1));
    assert_eq!(parse_ops(&tokens_of("cast int")), unknown(1));
    assert_eq!(
        parse_ops(&tokens_of("1 f(2 g(3)")),
        Err(CompilerError::LoweringError(
            LoweringError::UnbalancedCall,
            Location::new(1, 3, None)
        ))
    );
    assert_eq!(
        parse_ops(&tokens_of("f(g(")),
        Err(CompilerError::LoweringError(
            LoweringError::UnbalancedCall,
            Location::new(1, 3, None)
        ))
    );
}

#[test]
fn single_tokens_lower() {
    let tokens = tokens_of("if cast ( int ) x");
    assert_eq!(get_mapped_op_type(&tokens[0]), Some(OpType::If(unresolved())));
    assert_eq!(get_mapped_op_type(&tokens[1]), None);
    assert_eq!(get_mapped_op_type(&tokens[5]), None);
    assert_eq!(
        parse_cast_op(1, &tokens),
        Some(OpType::Cast(DataType::Integer(ChunkSize::Qword)))
    );
    assert_eq!(parse_cast_op(0, &tokens), None);
    assert_eq!(parse_cast_op(3, &tokens), None);
    assert_eq!(
        get_keyword_op_type(&rot::class::token::Keyword::Endif),
        Some(OpType::Endif)
    );
    assert_eq!(get_keyword_op_type(&rot::class::token::Keyword::Fun), None);
    assert_eq!(tokens[2].typ, TokenType::Delimiter(rot::class::token::Delimiter::OpenParen));
}

// ---- control flow

#[test]
fn conditional_is_resolved() {
    let mut ops = parse_ops(&tokens_of("true if 1 false elif 2 else 3 endif 4")).unwrap();
    let before = kinds(&ops);
    assert_eq!(resolve_control_flow(&mut ops), Ok(()));
    let after = kinds(&ops);
    assert_eq!(after[1], OpType::If(Jump { target: Some(4), exit: Some(9) }));
    assert_eq!(after[4], OpType::Elif(Jump { target: Some(6), exit: Some(9) }));
    assert_eq!(after[6], OpType::Else(Jump { target: Some(9), exit: None }));
    assert_eq!(after[8], OpType::Endif);
    for place in [0, 2, 3, 5, 7, 8, 9] {
        assert_eq!(after[place], before[place]);
    }
}

#[test]
fn loop_is_resolved() {
    let mut ops = parse_ops(&tokens_of("while true do 1 break continue done 2")).unwrap();
    assert_eq!(resolve_control_flow(&mut ops), Ok(()));
    let after = kinds(&ops);
    assert_eq!(after[0], OpType::While);
    assert_eq!(after[2], OpType::Do(to(7)));
    assert_eq!(after[4], OpType::Break(to(7)));
    assert_eq!(after[5], OpType::Continue(to(0)));
    assert_eq!(after[6], OpType::Done(to(0)));
}

#[test]
fn nested_blocks_are_resolved() {
    let markers = vec![
        Marker::While,    // 0
        Marker::Do,       // 1
        Marker::If,       // 2
        Marker::While,    // 3
        Marker::Do,       // 4
        Marker::Break,    // 5
        Marker::Done,     // 6
        Marker::Continue, // 7
        Marker::Else,     // 8
        Marker::If,       // 9
        Marker::Endif,    // 10
        Marker::Break,    // 11
        Marker::Endif,    // 12
        Marker::Done,     // 13
        Marker::Break,    // 14
        Marker::Plain,    // 15
    ];
    let jumps = resolve_jumps(&markers).unwrap();
    let none = unresolved();
    assert_eq!(
        jumps,
        vec![
            none,
            to(14),
            Jump { target: Some(8), exit: Some(13) },
            none,
            to(7),
            to(7),
            to(3),
            to(0),
            to(13),
            to(11),
            none,
            to(14),
            none,
            to(0),
            to(16),
            none,
        ]
    );
    assert_eq!(resolve_jumps(&Vec::new()), Ok(Vec::new()));
}

#[test]
fn lone_done_is_unmatched() {
    let mut ops = parse_ops(&tokens_of("1 done")).unwrap();
    let before = ops.clone();
    assert_eq!(
        resolve_control_flow(&mut ops),
        Err(CompilerError::ControlFlowError(
            ControlFlowError::UnmatchedDone,
            Location::new(1, 3, None)
        ))
    );
    assert_eq!(ops, before);
    // The resolution fails, not a later pass
    assert_eq!(
        compile_code("fun main() { done }", None),
        Err(CompilerError::ControlFlowError(
            ControlFlowError::UnmatchedDone,
            Location::new(1, 14, None)
        ))
    );
}

#[test]
fn if_without_endif_dangles() {
    let mut ops = parse_ops(&tokens_of("true if 1")).unwrap();
    assert_eq!(
        resolve_control_flow(&mut ops),
        Err(CompilerError::ControlFlowError(
            ControlFlowError::DanglingBlock,
            Location::new(1, 6, None)
        ))
    );
    assert_eq!(
        compile_code("fun main() { true if }", None),
        Err(CompilerError::ControlFlowError(
            ControlFlowError::DanglingBlock,
            Location::new(1, 19, None)
        ))
    );
}

#[test]
fn control_flow_errors() {
    let fault = |kind: ControlFlowError, position: usize| Err(Fault { kind, position });
    assert_eq!(
        resolve_jumps(&vec![Marker::Plain, Marker::Elif]),
        fault(ControlFlowError::UnmatchedElif, 1)
    );
    assert_eq!(
        resolve_jumps(&vec![Marker::Else]),
        fault(ControlFlowError::UnmatchedElse, 0)
    );
    assert_eq!(
        resolve_jumps(&vec![Marker::If, Marker::Endif, Marker::Endif]),
        fault(ControlFlowError::UnmatchedEndif, 2)
    );
    assert_eq!(
        resolve_jumps(&vec![Marker::If, Marker::Do]),
        fault(ControlFlowError::UnexpectedDo, 1)
    );
    assert_eq!(
        resolve_jumps(&vec![Marker::While, Marker::Done, Marker::Done]),
        fault(ControlFlowError::UnmatchedDone, 2)
    );
    assert_eq!(
        resolve_jumps(&vec![Marker::While, Marker::If, Marker::Else]),
        fault(ControlFlowError::DanglingBlock, 2)
    );
    assert_eq!(
        resolve_jumps(&vec![Marker::While, Marker::While, Marker::Done]),
        fault(ControlFlowError::DanglingBlock, 0)
    );
    // The first error is the one reported
    assert_eq!(
        resolve_jumps(&vec![Marker::Done, Marker::Endif, Marker::If]),
        fault(ControlFlowError::UnmatchedDone, 0)
    );
    // Outside a loop, `break` goes behind the last operation and `continue` to the first
    assert_eq!(resolve_jumps(&vec![Marker::Break, Marker::Continue]), Ok(vec![to(2), to(0)]));
    assert_eq!(
        resolve_jumps(&vec![Marker::Continue, Marker::While, Marker::Do, Marker::Done, Marker::Break]),
        Ok(vec![to(0), unresolved(), to(4), to(1), to(5)])
    );
    let ops = parse_ops(&tokens_of("1 if while")).unwrap();
    assert_eq!(collect_markers(&ops), vec![Marker::Plain, Marker::If, Marker::While]);
}

// ---- checking

#[test]
fn sum_of_two_literals_is_accepted() {
    let function = function_of("fun main() -> int { 34 35 + return }");
    let functions = vec![function];
    assert_eq!(check_function(&functions[0], &functions), Ok(Vec::new()));
    assert!(check_functions(&functions).is_empty());
}

#[test]
fn literals_must_be_what_is_declared() {
    let check = |code: &str| {
        let functions = vec![function_of(code)];
        check_function(&functions[0], &functions)
    };
    assert_eq!(check("fun f() { return }"), Ok(Vec::new()));
    assert_eq!(check("fun f() -> int { 1 return }"), Ok(Vec::new()));
    assert_eq!(check("fun f() -> bool { true return }"), Ok(Vec::new()));
    assert_eq!(check("fun f() -> str { \"a\" return }"), Ok(Vec::new()));
    assert_eq!(check("fun f() -> char { 'a' return }"), Ok(Vec::new()));
    assert_eq!(
        check("fun f() -> int { return }"),
        Err(type_error(TypeError::StackImbalance, 1, 18))
    );
    assert_eq!(
        check("fun f() -> int { 1 2 return }"),
        Err(type_error(TypeError::StackImbalance, 1, 22))
    );
    assert_eq!(
        check("fun f() -> int { true return }"),
        Err(type_error(TypeError::StackImbalance, 1, 23))
    );
    assert_eq!(
        check("fun f() { 1 return }"),
        Err(type_error(TypeError::StackImbalance, 1, 13))
    );
}

#[test]
fn empty_body_is_accepted_if_nothing_is_declared() {
    let check = |code: &str| {
        let functions = vec![function_of(code)];
        check_function(&functions[0], &functions)
    };
    assert_eq!(check("fun f() { }"), Ok(Vec::new()));
    assert_eq!(check("fun f(a: int) { }"), Ok(Vec::new()));
    // At the name of the function, which has no operation
    assert_eq!(
        check("fun f() -> int { }"),
        Err(type_error(TypeError::StackImbalance, 1, 5))
    );
    // At the end of the last operation
    assert_eq!(
        check("fun f() -> int { true }"),
        Err(type_error(TypeError::StackImbalance, 1, 22))
    );
}

/// Operations of the given kinds, the one at `place` in columns `place * 10` to `place * 10 + 5`.
fn ops_of(kinds: Vec<OpType>) -> Vec<Op> {
    kinds
        .into_iter()
        .enumerate()
        .map(|(place, typ)| Op {
            id: place,
            typ,
            start_loc: Location::new(1, place * 10, None),
            end_loc: Location::new(1, place * 10 + 5, None),
        })
        .collect()
}

fn literal(value: &str, data_type: DataType) -> OpType {
    OpType::Push(Token {
        value: value.to_string(),
        typ: TokenType::Literal(data_type),
        start_loc: Location::new(1, 1, None),
        end_loc: Location::new(1, 1, None),
    })
}

fn number() -> OpType {
    literal("1", DataType::Integer(ChunkSize::Qword))
}

fn truth() -> OpType {
    literal("true", DataType::Boolean)
}

fn letter() -> OpType {
    literal("'a'", DataType::Character)
}

fn name(value: &str) -> OpType {
    OpType::Push(Token {
        value: value.to_string(),
        typ: TokenType::Identifier,
        start_loc: Location::new(1, 1, None),
        end_loc: Location::new(1, 1, None),
    })
}

fn word(intrinsic: Intrinsic) -> OpType {
    OpType::Intrinsic(intrinsic)
}

fn call(name: &str, count: usize) -> OpType {
    OpType::FunctionCall(FunctionCallInfo {
        function_name: name.to_string(),
        argument_count: count,
    })
}

fn function(name: &str, parameters: Vec<(&str, DataType)>, return_type: Option<DataType>, kinds: Vec<OpType>) -> Function {
    Function {
        name: name.to_string(),
        signature: Signature {
            parameters: parameters
                .into_iter()
                .map(|(name, typ)| Parameter::new(name.to_string(), typ))
                .collect(),
            return_type,
        },
        ops: ops_of(kinds),
        location: Location::new(7, 7, None),
    }
}

/// Checks a function `f(n: int, p: ptr, t: Point) -> int` with the given
/// body beside `g(a: int, b: bool) -> ptr` and `h(a: Point)`.
fn check_body(kinds: Vec<OpType>) -> Result<Vec<usize>, CompilerError> {
    let point = || DataType::Custom("Point".to_string());
    let qword = || DataType::Integer(ChunkSize::Qword);
    let functions = vec![
        function(
            "f",
            vec![("n", qword()), ("p", DataType::Pointer), ("t", point())],
            Some(qword()),
            kinds,
        ),
        function("g", vec![("a", qword()), ("b", DataType::Boolean)], Some(DataType::Pointer), vec![]),
        function("h", vec![("a", point())], None, vec![]),
    ];
    check_function(&functions[0], &functions)
}

/// The error of the kind `kind` at the start of the operation at `place`.
fn at(kind: TypeError, place: usize) -> Result<Vec<usize>, CompilerError> {
    Err(type_error(kind, 1, place * 10))
}

/// The error of the kind `kind` at the end of the operation at `place`.
fn behind(kind: TypeError, place: usize) -> Result<Vec<usize>, CompilerError> {
    Err(type_error(kind, 1, place * 10 + 5))
}

#[test]
fn calculations_and_comparisons_have_their_stack_effect() {
    let plus = || OpType::Calculation(Calculation::Addition);
    let less = || OpType::Comparison(Comparison::LessThan);
    let same = || OpType::Comparison(Comparison::Equals);
    let drop = || word(Intrinsic::Drop);
    assert_eq!(check_body(vec![number(), number(), plus()]), Ok(vec![]));
    assert_eq!(check_body(vec![number(), plus()]), at(TypeError::StackUnderflow, 1));
    assert_eq!(check_body(vec![plus()]), at(TypeError::StackUnderflow, 0));
    assert_eq!(check_body(vec![number(), truth(), plus()]), at(TypeError::TypeMismatch, 2));
    assert_eq!(check_body(vec![truth(), number(), plus()]), at(TypeError::TypeMismatch, 2));
    assert_eq!(check_body(vec![number(), number(), less(), drop(), number()]), Ok(vec![]));
    assert_eq!(check_body(vec![number(), number(), less()]), behind(TypeError::StackImbalance, 2));
    assert_eq!(check_body(vec![truth(), truth(), same(), drop(), number()]), Ok(vec![]));
    assert_eq!(check_body(vec![number(), truth(), same()]), at(TypeError::TypeMismatch, 2));
    assert_eq!(check_body(vec![same()]), at(TypeError::StackUnderflow, 0));
    assert_eq!(check_body(vec![number(), number(), word(Intrinsic::Shl), number(), word(Intrinsic::Shr)]), Ok(vec![]));
    assert_eq!(check_body(vec![number(), word(Intrinsic::Shl)]), at(TypeError::StackUnderflow, 1));
    // The result is as wide as the wider operand
    let load = |size: ChunkSize| word(Intrinsic::Load(size));
    let store = |size: ChunkSize| word(Intrinsic::Store(size));
    assert_eq!(
        check_body(vec![
            name("p"),
            load(ChunkSize::Byte),
            name("p"),
            load(ChunkSize::Dword),
            plus(),
            name("p"),
            store(ChunkSize::Dword),
            number(),
        ]),
        Ok(vec![])
    );
    assert_eq!(
        check_body(vec![
            name("p"),
            load(ChunkSize::Byte),
            name("p"),
            load(ChunkSize::Dword),
            plus(),
            name("p"),
            store(ChunkSize::Byte),
        ]),
        at(TypeError::TypeMismatch, 6)
    );
}

#[test]
fn words_have_their_stack_effect() {
    let drop = || word(Intrinsic::Drop);
    let load = || word(Intrinsic::Load(ChunkSize::Qword));
    let store = || word(Intrinsic::Store(ChunkSize::Qword));
    assert_eq!(check_body(vec![number(), word(Intrinsic::Dup), drop()]), Ok(vec![]));
    assert_eq!(check_body(vec![word(Intrinsic::Dup)]), at(TypeError::StackUnderflow, 0));
    assert_eq!(check_body(vec![drop()]), at(TypeError::StackUnderflow, 0));
    assert_eq!(check_body(vec![truth(), number(), word(Intrinsic::Swap), drop()]), Ok(vec![]));
    assert_eq!(check_body(vec![number(), word(Intrinsic::Swap)]), at(TypeError::StackUnderflow, 1));
    // The third value comes to the top
    assert_eq!(
        check_body(vec![number(), truth(), letter(), word(Intrinsic::Rot), drop(), drop(), drop(), number()]),
        Ok(vec![])
    );
    assert_eq!(
        check_body(vec![number(), truth(), letter(), word(Intrinsic::Rot), drop(), drop()]),
        behind(TypeError::StackImbalance, 5)
    );
    assert_eq!(
        check_body(vec![letter(), number(), truth(), word(Intrinsic::Rot), drop(), drop()]),
        Ok(vec![])
    );
    assert_eq!(check_body(vec![number(), number(), word(Intrinsic::Rot)]), at(TypeError::StackUnderflow, 2));
    // A copy of the second value comes to the top
    assert_eq!(check_body(vec![number(), truth(), word(Intrinsic::Over), drop(), drop()]), Ok(vec![]));
    assert_eq!(check_body(vec![number(), word(Intrinsic::Over)]), at(TypeError::StackUnderflow, 1));
    assert_eq!(check_body(vec![name("p"), load()]), Ok(vec![]));
    assert_eq!(check_body(vec![number(), load()]), at(TypeError::TypeMismatch, 1));
    assert_eq!(check_body(vec![load()]), at(TypeError::StackUnderflow, 0));
    assert_eq!(check_body(vec![number(), name("p"), store(), number()]), Ok(vec![]));
    assert_eq!(check_body(vec![name("p"), number(), store()]), at(TypeError::TypeMismatch, 2));
    assert_eq!(check_body(vec![truth(), name("p"), store()]), at(TypeError::TypeMismatch, 2));
    assert_eq!(check_body(vec![name("p"), store()]), at(TypeError::StackUnderflow, 1));
    assert_eq!(check_body(vec![number(), word(Intrinsic::Print), number()]), Ok(vec![]));
    assert_eq!(check_body(vec![truth(), word(Intrinsic::Print)]), at(TypeError::TypeMismatch, 1));
    assert_eq!(check_body(vec![word(Intrinsic::Print)]), at(TypeError::StackUnderflow, 0));
    // A system call takes its number and its arguments
    assert_eq!(check_body(vec![number(), word(Intrinsic::Syscall(0))]), Ok(vec![]));
    assert_eq!(
        check_body(vec![number(), truth(), name("p"), number(), word(Intrinsic::Syscall(3))]),
        Ok(vec![])
    );
    assert_eq!(
        check_body(vec![number(), number(), number(), word(Intrinsic::Syscall(3))]),
        at(TypeError::StackUnderflow, 3)
    );
    assert_eq!(check_body(vec![word(Intrinsic::Syscall(0))]), at(TypeError::StackUnderflow, 0));
    // There are registers for six arguments
    let seven = || vec![number(), number(), number(), number(), number(), number(), number()];
    let mut body = seven();
    body.push(word(Intrinsic::Syscall(6)));
    assert_eq!(check_body(body), Ok(vec![]));
    let mut body = seven();
    body.push(number());
    body.push(word(Intrinsic::Syscall(7)));
    assert_eq!(check_body(body), at(TypeError::TypeMismatch, 8));
    assert_eq!(check_body(vec![word(Intrinsic::Syscall(7))]), at(TypeError::TypeMismatch, 0));
}

#[test]
fn names_blocks_and_calls_have_their_stack_effect() {
    let none = unresolved;
    let drop = || word(Intrinsic::Drop);
    assert_eq!(check_body(vec![name("n")]), Ok(vec![]));
    assert_eq!(check_body(vec![name("m")]), at(TypeError::TypeMismatch, 0));
    assert_eq!(
        check_body(vec![
            truth(),
            OpType::If(none()),
            number(),
            truth(),
            OpType::Elif(none()),
            OpType::Else(none()),
            OpType::Endif,
        ]),
        Ok(vec![])
    );
    assert_eq!(check_body(vec![number(), OpType::If(none())]), at(TypeError::TypeMismatch, 1));
    assert_eq!(check_body(vec![OpType::If(none())]), at(TypeError::StackUnderflow, 0));
    assert_eq!(check_body(vec![number(), OpType::Elif(none())]), at(TypeError::TypeMismatch, 1));
    assert_eq!(check_body(vec![OpType::Elif(none())]), at(TypeError::StackUnderflow, 0));
    assert_eq!(
        check_body(vec![
            OpType::While,
            truth(),
            OpType::Do(none()),
            OpType::Break(none()),
            OpType::Continue(none()),
            OpType::Done(none()),
            number(),
        ]),
        Ok(vec![])
    );
    assert_eq!(check_body(vec![number(), OpType::Do(none())]), at(TypeError::TypeMismatch, 1));
    assert_eq!(check_body(vec![OpType::Do(none())]), at(TypeError::StackUnderflow, 0));
    // A call takes what the callee declares and leaves what it returns
    assert_eq!(check_body(vec![number(), truth(), call("g", 2), drop(), number()]), Ok(vec![]));
    assert_eq!(
        check_body(vec![number(), truth(), call("g", 2), word(Intrinsic::Load(ChunkSize::Qword))]),
        Ok(vec![])
    );
    assert_eq!(check_body(vec![number(), number(), truth(), call("g", 2), drop()]), Ok(vec![]));
    assert_eq!(check_body(vec![truth(), number(), call("g", 2)]), at(TypeError::TypeMismatch, 2));
    assert_eq!(check_body(vec![number(), number(), call("g", 2)]), at(TypeError::TypeMismatch, 2));
    assert_eq!(check_body(vec![truth(), call("g", 2)]), at(TypeError::StackUnderflow, 1));
    assert_eq!(check_body(vec![number(), truth(), call("g", 1)]), at(TypeError::TypeMismatch, 2));
    assert_eq!(check_body(vec![number(), truth(), call("g", 3)]), at(TypeError::TypeMismatch, 2));
    assert_eq!(check_body(vec![name("t"), call("h", 1), number()]), Ok(vec![]));
    assert_eq!(check_body(vec![name("n"), call("h", 1)]), at(TypeError::TypeMismatch, 1));
    assert_eq!(check_body(vec![call("unknown", 0)]), at(TypeError::TypeMismatch, 0));
    assert_eq!(check_body(vec![number(), OpType::Return]), Ok(vec![]));
    assert_eq!(check_body(vec![number(), OpType::Return, drop(), number()]), Ok(vec![]));
    assert_eq!(check_body(vec![OpType::Return, number()]), at(TypeError::StackImbalance, 0));
    assert_eq!(check_body(vec![truth(), OpType::Return]), at(TypeError::StackImbalance, 1));
    // A token without a value cannot be pushed
    let mut semicolon = tokens_of(";");
    assert_eq!(
        check_body(vec![OpType::Push(semicolon.remove(0))]),
        at(TypeError::TypeMismatch, 0)
    );
}

#[test]
fn casts_that_change_the_size_are_warnings() {
    let cast = |name: &str| OpType::Cast(datatype_from_string(name));
    assert_eq!(check_body(vec![name("p"), cast("int")]), Ok(vec![]));
    assert_eq!(check_body(vec![truth(), cast("int")]), Ok(vec![1]));
    assert_eq!(
        check_body(vec![letter(), cast("bool"), cast("ptr"), cast("Point"), cast("str"), cast("int")]),
        Ok(vec![2])
    );
    assert_eq!(
        check_body(vec![name("p"), word(Intrinsic::Load(ChunkSize::Word)), cast("int"), cast("char")]),
        behind(TypeError::StackImbalance, 3)
    );
    assert_eq!(
        check_body(vec![name("p"), word(Intrinsic::Load(ChunkSize::Word)), cast("char"), cast("int")]),
        Ok(vec![2, 3])
    );
    assert_eq!(check_body(vec![cast("int")]), at(TypeError::StackUnderflow, 0));
    let mut stack = vec![DataType::Boolean];
    let signature = Signature { parameters: Vec::new(), return_type: None };
    assert_eq!(
        check_op(&mut stack, &OpType::Cast(DataType::Pointer), &signature, &Vec::new()),
        Ok(true)
    );
    assert_eq!(stack, vec![DataType::Pointer]);
}

#[test]
fn every_function_is_checked() {
    let tokens = tokens_of(
        "fun a() -> int { }\nfun main() { }\nfun b() { 1 + }\nfun c() { true }",
    );
    let sources = parse_functions(&tokens).unwrap();
    let functions = lower_functions(&sources).unwrap();
    assert_eq!(
        check_functions(&functions),
        vec![
            type_error(TypeError::StackImbalance, 1, 5),
            type_error(TypeError::StackUnderflow, 3, 13),
            type_error(TypeError::StackImbalance, 4, 15),
        ]
    );
    // The first of them ends the compilation
    assert_eq!(compile_tokens(&tokens), Err(type_error(TypeError::StackImbalance, 1, 5)));
}

// ---- writing assembly

const START: &str = "section .text\nglobal ?start\n?start:\n  call main\n  mov rdi, rax\n  mov rax, 60\n  syscall\n\n?print:\n  mov rax, rdi\n  mov rcx, 10\n  sub rsp, 40\n  lea rsi, [rsp+39]\n  mov byte [rsi], 10\n  mov r8, 1\n.digit:\n  xor rdx, rdx\n  div rcx\n  add dl, 48\n  dec rsi\n  mov [rsi], dl\n  inc r8\n  test rax, rax\n  jnz .digit\n  mov rax, 1\n  mov rdi, 1\n  mov rdx, r8\n  syscall\n  add rsp, 40\n  ret\n\n";

const SUM: &str = "main:\n  push rbp\n  mov rbp, rsp\nmain@op_0:\n  mov rax, 34\n  push rax\nmain@op_1:\n  mov rax, 35\n  push rax\nmain@op_2:\n  pop rbx\n  pop rax\n  add rax, rbx\n  push rax\nmain@op_3:\n  jmp main@op_4\nmain@op_4:\n  pop rax\n  mov rsp, rbp\n  push qword [rsp]\n  mov rcx, [rsp+16]\n  mov [rsp+8], rcx\n  mov [rsp+16+8*0], rax\n  pop rbp\n  ret\n\n";

const EMPTY_MAIN: &str = "main:\n  push rbp\n  mov rbp, rsp\n  pop rbp\n  ret\n\n";

#[test]
fn sum_of_two_literals_is_written() {
    let code = "fun main() -> int { 34 35 + return }";
    assert_eq!(compile_code(code, None), Ok(format!("{}{}", START, SUM)));
    let functions = vec![function_of(code)];
    assert_eq!(generate_function_assembly(&functions[0]), Ok(SUM.to_string()));
    assert_eq!(generate_assembly(&functions), Ok(SUM.to_string()));
    assert_eq!(generate_program_start_assembly(), START);
}

#[test]
fn no_function_gives_no_text() {
    assert_eq!(generate_assembly(&Vec::new()), Ok(String::new()));
}

#[test]
fn empty_function_is_label_frame_and_return() {
    let functions = vec![function("main", vec![], None, vec![])];
    assert_eq!(generate_function_assembly(&functions[0]), Ok(EMPTY_MAIN.to_string()));
    assert_eq!(generate_assembly(&functions), Ok(EMPTY_MAIN.to_string()));
    assert_eq!(
        format!("{}{}", function_start_assembly("main"), function_end_assembly()),
        EMPTY_MAIN
    );
    // Whatever the function declares
    let qword = || DataType::Integer(ChunkSize::Qword);
    for declared in [
        function("main", vec![("a", qword()), ("b", DataType::Boolean)], None, vec![]),
        function("main", vec![], Some(qword()), vec![]),
        function("main", vec![("a", qword())], Some(DataType::Pointer), vec![]),
    ] {
        assert_eq!(generate_function_assembly(&declared), Ok(EMPTY_MAIN.to_string()));
    }
    assert_eq!(generate_assembly(&vec![function_of("fun main() { }")]), Ok(EMPTY_MAIN.to_string()));
    assert_eq!(compile_code("fun main() { }", None), Ok(format!("{}{}", START, EMPTY_MAIN)));
}

#[test]
fn assembly_of_two_lists_is_one_behind_the_other() {
    let first = || {
        vec![function_of("fun f(a: int) -> int { a 1 + }"), function_of("fun g() { \"x\" drop }")]
    };
    let second =
        || vec![function_of("fun main() -> int { 34 35 + return }"), function_of("fun h() { }")];
    let mut both = first();
    both.extend(second());
    let start = generate_assembly(&first()).unwrap();
    let end = generate_assembly(&second()).unwrap();
    assert_eq!(generate_assembly(&both), Ok(format!("{}{}", start, end)));
    assert_eq!(end, format!("{}h:\n  push rbp\n  mov rbp, rsp\n  pop rbp\n  ret\n\n", SUM));
    // Each routine stands where its function stands
    let mut one_by_one = String::new();
    for function in &both {
        one_by_one.push_str(&generate_function_assembly(function).unwrap());
    }
    assert_eq!(generate_assembly(&both), Ok(one_by_one));
    // The first function that cannot be written gives the error
    let mut broken = function_of("fun f() { true if endif }");
    broken.ops[1].typ = OpType::If(unresolved());
    let error = generate_function_assembly(&broken);
    assert!(error.is_err());
    let mut with_broken = first();
    with_broken.push(broken);
    with_broken.extend(second());
    assert_eq!(generate_assembly(&with_broken), error);
}

#[test]
fn instructions_are_written_line_by_line() {
    let functions = vec![function_of("fun main() -> int { 34 35 + return }")];
    let code = generate_instructions(&functions[0]).unwrap();
    let label = |text: &str| Instruction::Label(text.to_string());
    let plain = |text: &str| Instruction::Plain(text.to_string());
    let push = |text: &str| Instruction::Push(text.to_string());
    let pop = |text: &str| Instruction::Pop(text.to_string());
    assert_eq!(
        code,
        vec![
            label("main@op_0"),
            plain("mov rax, 34"),
            push("rax"),
            label("main@op_1"),
            plain("mov rax, 35"),
            push("rax"),
            label("main@op_2"),
            pop("rbx"),
            pop("rax"),
            plain("add rax, rbx"),
            push("rax"),
            label("main@op_3"),
            plain("jmp main@op_4"),
        ]
    );
    let mut text = "; body\n".to_string();
    write_instructions(&mut text, &code);
    assert_eq!(
        text,
        "; body\nmain@op_0:\n  mov rax, 34\n  push rax\nmain@op_1:\n  mov rax, 35\n  push rax\n\
         main@op_2:\n  pop rbx\n  pop rax\n  add rax, rbx\n  push rax\nmain@op_3:\n  jmp main@op_4\n"
    );
    let mut text = String::new();
    pop("rdi").write(&mut text);
    label("start").write(&mut text);
    Instruction::Data("f@str_0".to_string(), vec![97, 10, 255]).write(&mut text);
    Instruction::Data("f@str_1".to_string(), vec![]).write(&mut text);
    Instruction::Call("g".to_string()).write(&mut text);
    Instruction::Release(12).write(&mut text);
    Instruction::Line("section .text".to_string()).write(&mut text);
    Instruction::Line(String::new()).write(&mut text);
    assert_eq!(
        text,
        "  pop rdi\nstart:\nf@str_0: db 97, 10, 255, 0\nf@str_1: db 0\n  call g\n  add rsp, 8*12\n\
         section .text\n\n"
    );
    assert_eq!(function_start_assembly("f"), "f:\n  push rbp\n  mov rbp, rsp\n");
    assert_eq!(function_end_assembly(), "  pop rbp\n  ret\n\n");
    assert_eq!(generate_instructions(&function_of("fun f() { }")), Ok(Vec::new()));
    let start = generate_program_start();
    assert_eq!(start.len(), 31);
    assert_eq!(start[2], label("?start"));
    assert_eq!(start[8], label("?print"));
    assert_eq!(start[15], label(".digit"));
    let mut text = String::new();
    write_instructions(&mut text, &start);
    assert_eq!(text, START);
}

#[test]
fn instructions_mirror_the_stack_of_types() {
    // More values are pushed than taken by as many as the body leaves types;
    // a call leaves what is returned, and the arguments are given up behind it
    let height = |code: &Vec<Instruction>, functions: &Vec<Function>| {
        let mut height: i64 = 0;
        let mut lowest: i64 = 0;
        for instruction in code {
            match instruction {
                Instruction::Push(_) => height += 1,
                Instruction::Pop(_) => height -= 1,
                Instruction::Call(name) => {
                    let callee = functions.iter().find(|function| &function.name == name).unwrap();
                    lowest = lowest.min(height - callee.signature.parameters.len() as i64);
                    if callee.signature.return_type.is_some() {
                        height += 1;
                    }
                }
                Instruction::Release(count) => height -= *count as i64,
                _ => {}
            }
            lowest = lowest.min(height);
        }
        (height, lowest)
    };
    let functions = vec![
        function_of(
            "fun f(p: ptr, n: int) -> int { n 2 * dup 3 swap over rot g(1, true) load_byte \
             p store_byte drop 1 2 0 syscall2 + drop drop }",
        ),
        function_of("fun g(a: int, b: bool) -> ptr { }"),
    ];
    assert_eq!(check_function(&functions[0], &functions), Ok(Vec::new()));
    let code = generate_instructions(&functions[0]).unwrap();
    assert_eq!(height(&code, &functions), (1, 0));
    let functions = vec![function_of("fun f() { true if 1 drop endif while false do done }")];
    assert_eq!(check_function(&functions[0], &functions), Ok(Vec::new()));
    let code = generate_instructions(&functions[0]).unwrap();
    assert_eq!(height(&code, &functions), (0, 0));
    assert_eq!(find_parameter_index(&functions[0].signature.parameters, "a"), None);
}

fn labels_of(assembly: &str) -> Vec<&str> {
    assembly
        .lines()
        .filter(|line| !line.starts_with(' ') && line.contains(':'))
        .map(|line| &line[..line.find(':').unwrap()])
        .collect()
}

#[test]
fn no_label_is_defined_twice() {
    // A name of the form of the labels of another function
    let assembly = compile_code(
        "fun f() { \"a\" drop } fun f_op_0() { } fun f_str_0() { } fun _start() { } \
         fun f_op_2() { 1 drop } fun main() { }",
        None,
    )
    .unwrap();
    let mut labels = labels_of(&assembly);
    assert_eq!(
        labels,
        vec![
            "?start", "?print", ".digit", "f", "f@op_0", "f@str_0", "f@op_1", "f@op_2", "f_op_0",
            "f_str_0", "_start", "f_op_2", "f_op_2@op_0", "f_op_2@op_1", "f_op_2@op_2", "main",
        ]
    );
    let defined = labels.len();
    labels.sort();
    labels.dedup();
    assert_eq!(labels.len(), defined);
}

#[test]
fn labels_are_names_of_functions_and_their_positions() {
    let functions = vec![
        function_of("fun f(a: int) -> int { \"a\" drop a while true do break done }"),
        function_of("fun main() { }"),
        function_of("fun g() { true if endif }"),
    ];
    let assembly = generate_assembly(&functions).unwrap();
    let labels = labels_of(&assembly);
    assert_eq!(
        labels,
        vec![
            "f", "f@op_0", "f@str_0", "f@op_1", "f@op_2", "f@op_3", "f@op_4", "f@op_5", "f@op_6",
            "f@op_7", "f@op_8", "main", "g", "g@op_0", "g@op_1", "g@op_2", "g@op_3",
        ]
    );
    // Every jump goes to a label of the routine that it stands in
    for function in &functions {
        let routine = generate_function_assembly(function).unwrap();
        let defined = labels_of(&routine);
        for line in routine.lines() {
            for jump in ["  jmp ", "  jz "] {
                if line.starts_with(jump) {
                    assert!(defined.contains(&&line[jump.len()..]), "{}", line);
                }
            }
        }
    }
}

#[test]
fn names_are_written_as_they_stand() {
    let assembly = compile_code("fun $f() { } fun main() { $f() f$() } fun f$() { }", None).unwrap();
    assert!(assembly.contains("\n$f:\n  push rbp\n  mov rbp, rsp\n  pop rbp\n  ret\n\n"));
    assert!(assembly.contains("main@op_0:\n  call $f\nmain@op_1:\n  call f$\nmain@op_2:\n"));
    for name in ["f", "_", "f$", "f_op_0", "F1$_", "_start", "print", "$f"] {
        let functions = vec![function(name, vec![], None, vec![])];
        assert_eq!(
            generate_function_assembly(&functions[0]),
            Ok(format!("{}:\n  push rbp\n  mov rbp, rsp\n  pop rbp\n  ret\n\n", name))
        );
    }
}

#[test]
fn literals_are_written_by_their_bytes() {
    // The text of a string is written as bytes, whatever it holds
    let main = |body: &str| format!("main:\n  push rbp\n  mov rbp, rsp\n{}", body);
    let end = "  mov rsp, rbp\n  pop rbp\n  ret\n\n";
    assert_eq!(
        compile_code("fun main() { \"a\nmain: \" drop }", None),
        Ok(format!(
            "{}{}{}",
            START,
            main(
                "main@op_0:\nsection .data\nmain@str_0: db 97, 10, 109, 97, 105, 110, 58, 32, 0\n\
                 section .text\n  mov rax, main@str_0\n  push rax\nmain@op_1:\n  pop rax\nmain@op_2:\n"
            ),
            end
        ))
    );
    assert_eq!(
        compile_code("fun main() { '\n' 'a' \"\" \"ä\" drop drop drop drop }", None),
        Ok(format!(
            "{}{}{}",
            START,
            main(
                "main@op_0:\n  push 10\nmain@op_1:\n  push 97\n\
                 main@op_2:\nsection .data\nmain@str_2: db 0\nsection .text\n  mov rax, main@str_2\n  push rax\n\
                 main@op_3:\nsection .data\nmain@str_3: db 195, 164, 0\nsection .text\n  mov rax, main@str_3\n  push rax\n\
                 main@op_4:\n  pop rax\nmain@op_5:\n  pop rax\nmain@op_6:\n  pop rax\nmain@op_7:\n  pop rax\n\
                 main@op_8:\n"
            ),
            end
        ))
    );
    let write = |value: &str, data_type: DataType| {
        let functions = vec![function("f", vec![], None, vec![literal(value, data_type)])];
        generate_instructions(&functions[0]).unwrap().into_iter().skip(1).collect::<Vec<_>>()
    };
    let plain = |text: &str| Instruction::Plain(text.to_string());
    let push = |text: &str| Instruction::Push(text.to_string());
    // A number is written by the digits that its text starts with
    let integer = DataType::Integer(ChunkSize::Qword);
    assert_eq!(write("12", integer.clone()), vec![plain("mov rax, 12"), push("rax")]);
    assert_eq!(write("1\n2", integer.clone()), vec![plain("mov rax, 1"), push("rax")]);
    assert_eq!(write("007x", DataType::Pointer), vec![plain("mov rax, 007"), push("rax")]);
    assert_eq!(write("x1", integer.clone()), vec![plain("mov rax, 0"), push("rax")]);
    assert_eq!(write("", DataType::Custom("t".to_string())), vec![plain("mov rax, 0"), push("rax")]);
    // A truth value is written as a number, whatever its text
    assert_eq!(write("t\n", DataType::Boolean), vec![push("1")]);
    assert_eq!(write("TRUE", DataType::Boolean), vec![push("1")]);
    assert_eq!(write("false", DataType::Boolean), vec![push("0")]);
    // A character is written as its number
    assert_eq!(write("'a'", DataType::Character), vec![push("97")]);
    assert_eq!(write("'ä'", DataType::Character), vec![push("228")]);
    assert_eq!(write("'€'", DataType::Character), vec![push("8364")]);
    assert_eq!(write("'\n'", DataType::Character), vec![push("10")]);
    assert_eq!(write("''", DataType::Character), vec![push("39")]);
    assert_eq!(write("b", DataType::Character), vec![push("0")]);
    assert_eq!(write("", DataType::Character), vec![push("0")]);
    // The text of a string without its quotes
    assert_eq!(
        write("\"hi\"", DataType::String)[1],
        Instruction::Data("f@str_0".to_string(), vec![104, 105])
    );
    assert_eq!(write("hi", DataType::String)[1], Instruction::Data("f@str_0".to_string(), vec![104, 105]));
    assert_eq!(write("\"", DataType::String)[1], Instruction::Data("f@str_0".to_string(), vec![34]));
}

#[test]
fn compilation_is_repeatable() {
    let code = "fun twice(n: int) -> int { n 2 * return }\n\
                fun main() -> int { 0 while dup 10 < do 1 + done twice(dup) drop return }";
    let first = compile_code(code, Some("a.rot".to_string()));
    let second = compile_code(code, Some("a.rot".to_string()));
    assert!(first.is_ok());
    assert_eq!(first, second);
    let tokens = tokens_of(code);
    assert_eq!(compile_tokens(&tokens), compile_tokens(&tokens.clone()));
    assert_eq!(compile_tokens(&tokens), first);
}

#[test]
fn parameters_and_calls_are_written() {
    let functions = vec![
        function_of("fun f(a: int, b: int) -> int { b a g(1, a) f(a, b) }"),
        function_of("fun g(x: int, y: int) { }"),
        function_of("fun h() -> int { 1 }"),
    ];
    assert_eq!(
        generate_function_assembly(&functions[0]),
        Ok("f:\n  push rbp\n  mov rbp, rsp\n\
            f@op_0:\n  push qword [rbp+16+8*0]\n\
            f@op_1:\n  push qword [rbp+16+8*1]\n\
            f@op_2:\n  mov rax, 1\n  push rax\n\
            f@op_3:\n  push qword [rbp+16+8*1]\n\
            f@op_4:\n  call g\n  add rsp, 8*2\n\
            f@op_5:\n  push qword [rbp+16+8*1]\n\
            f@op_6:\n  push qword [rbp+16+8*0]\n\
            f@op_7:\n  call f\n  add rsp, 8*2\n\
            f@op_8:\n  pop rax\n  mov rsp, rbp\n  push qword [rsp]\n  mov rcx, [rsp+16]\n  mov [rsp+8], rcx\n  mov [rsp+16+8*2], rax\n  pop rbp\n  ret\n\n"
            .to_string())
    );
    assert_eq!(
        generate_function_assembly(&functions[1]),
        Ok("g:\n  push rbp\n  mov rbp, rsp\n  pop rbp\n  ret\n\n".to_string())
    );
    assert_eq!(
        generate_function_assembly(&functions[2]),
        Ok("h:\n  push rbp\n  mov rbp, rsp\n\
            h@op_0:\n  mov rax, 1\n  push rax\n\
            h@op_1:\n  pop rax\n  mov rsp, rbp\n  push qword [rsp]\n  mov rcx, [rsp+16]\n  mov [rsp+8], rcx\n  mov [rsp+16+8*0], rax\n  pop rbp\n  ret\n\n"
            .to_string())
    );
    // A function may have any number of parameters, and a call any number of arguments
    let many = function_of(
        "fun f(a: int, b: int, c: int, d: int, e: int, f: int, g: int) { g a f(1, 2, 3, 4, 5, 6, 7) }",
    );
    assert_eq!(
        generate_function_assembly(&many).unwrap(),
        "f:\n  push rbp\n  mov rbp, rsp\n\
         f@op_0:\n  push qword [rbp+16+8*0]\n\
         f@op_1:\n  push qword [rbp+16+8*6]\n\
         f@op_2:\n  mov rax, 1\n  push rax\n\
         f@op_3:\n  mov rax, 2\n  push rax\n\
         f@op_4:\n  mov rax, 3\n  push rax\n\
         f@op_5:\n  mov rax, 4\n  push rax\n\
         f@op_6:\n  mov rax, 5\n  push rax\n\
         f@op_7:\n  mov rax, 6\n  push rax\n\
         f@op_8:\n  mov rax, 7\n  push rax\n\
         f@op_9:\n  call f\n  add rsp, 8*7\n\
         f@op_10:\n  mov rsp, rbp\n  pop rbp\n  ret\n\n"
    );
}

#[test]
fn blocks_are_written_with_their_jumps() {
    let functions = vec![function_of(
        "fun f() { true if 1 drop false elif else endif while true do break continue done }",
    )];
    assert_eq!(
        generate_function_assembly(&functions[0]),
        Ok("f:\n  push rbp\n  mov rbp, rsp\n\
            f@op_0:\n  push 1\n\
            f@op_1:\n  pop rax\n  test rax, rax\n  jz f@op_5\n\
            f@op_2:\n  mov rax, 1\n  push rax\n\
            f@op_3:\n  pop rax\n\
            f@op_4:\n  push 0\n\
            \x20 jmp f@op_8\n\
            f@op_5:\n  pop rax\n  test rax, rax\n  jz f@op_6\n\
            \x20 jmp f@op_8\n\
            f@op_6:\n\
            f@op_7:\n\
            f@op_8:\n\
            f@op_9:\n  push 1\n\
            f@op_10:\n  pop rax\n  test rax, rax\n  jz f@op_14\n\
            f@op_11:\n  jmp f@op_14\n\
            f@op_12:\n  jmp f@op_8\n\
            f@op_13:\n  jmp f@op_8\n\
            f@op_14:\n  mov rsp, rbp\n  pop rbp\n  ret\n\n"
            .to_string())
    );
    // Outside a loop, `break` leaves the body and `continue` starts it again
    assert_eq!(
        generate_function_assembly(&function_of("fun f() { 1 break continue }")),
        Ok("f:\n  push rbp\n  mov rbp, rsp\n\
            f@op_0:\n  mov rax, 1\n  push rax\n\
            f@op_1:\n  jmp f@op_3\n\
            f@op_2:\n  jmp f@op_0\n\
            f@op_3:\n  mov rsp, rbp\n  pop rbp\n  ret\n\n"
            .to_string())
    );
}

#[test]
fn words_and_literals_are_written() {
    let functions = vec![function_of(
        "fun f(p: ptr) { 'a' \"hi\" TRUE - / * != >= > <= < dup drop swap rot over \
         load_byte store_word load_dword store_qword shl shr syscall2 print cast(int) }",
    )];
    assert_eq!(
        generate_function_assembly(&functions[0]),
        Ok("f:\n  push rbp\n  mov rbp, rsp\n\
            f@op_0:\n  push 97\n\
            f@op_1:\nsection .data\nf@str_1: db 104, 105, 0\nsection .text\n  mov rax, f@str_1\n  push rax\n\
            f@op_2:\n  push 1\n\
            f@op_3:\n  pop rbx\n  pop rax\n  sub rax, rbx\n  push rax\n\
            f@op_4:\n  pop rbx\n  pop rax\n  cqo\n  idiv rbx\n  push rax\n\
            f@op_5:\n  pop rbx\n  pop rax\n  imul rax, rbx\n  push rax\n\
            f@op_6:\n  pop rbx\n  pop rax\n  cmp rax, rbx\n  setne al\n  movzx rax, al\n  push rax\n\
            f@op_7:\n  pop rbx\n  pop rax\n  cmp rax, rbx\n  setge al\n  movzx rax, al\n  push rax\n\
            f@op_8:\n  pop rbx\n  pop rax\n  cmp rax, rbx\n  setg al\n  movzx rax, al\n  push rax\n\
            f@op_9:\n  pop rbx\n  pop rax\n  cmp rax, rbx\n  setle al\n  movzx rax, al\n  push rax\n\
            f@op_10:\n  pop rbx\n  pop rax\n  cmp rax, rbx\n  setl al\n  movzx rax, al\n  push rax\n\
            f@op_11:\n  pop rax\n  push rax\n  push rax\n\
            f@op_12:\n  pop rax\n\
            f@op_13:\n  pop rax\n  pop rbx\n  push rax\n  push rbx\n\
            f@op_14:\n  pop rcx\n  pop rbx\n  pop rax\n  push rbx\n  push rcx\n  push rax\n\
            f@op_15:\n  pop rbx\n  pop rax\n  push rax\n  push rbx\n  push rax\n\
            f@op_16:\n  pop rax\n  xor rbx, rbx\n  mov bl, [rax]\n  push rbx\n\
            f@op_17:\n  pop rax\n  pop rbx\n  mov [rax], bx\n\
            f@op_18:\n  pop rax\n  xor rbx, rbx\n  mov ebx, [rax]\n  push rbx\n\
            f@op_19:\n  pop rax\n  pop rbx\n  mov [rax], rbx\n\
            f@op_20:\n  pop rcx\n  pop rax\n  shl rax, cl\n  push rax\n\
            f@op_21:\n  pop rcx\n  pop rax\n  shr rax, cl\n  push rax\n\
            f@op_22:\n  pop rax\n  pop rdi\n  pop rsi\n  syscall\n  push rax\n\
            f@op_23:\n  pop rdi\n  call ?print\n\
            f@op_24:\n\
            f@op_25:\n  mov rsp, rbp\n  pop rbp\n  ret\n\n"
            .to_string())
    );
}

#[test]
fn operations_that_cannot_be_written() {
    // Each of them is refused by an earlier pass of a compilation
    let unsupported = |column: usize| {
        Err(CompilerError::CodeGenError(
            CodeGenError::UnsupportedOp,
            Location::new(1, column, None),
        ))
    };
    // A name that is no parameter
    let functions = vec![function_of("fun f(a: int) { a b }")];
    assert_eq!(generate_function_assembly(&functions[0]), unsupported(19));
    assert_eq!(generate_assembly(&functions), unsupported(19));
    assert_eq!(
        check_function(&functions[0], &functions),
        Err(type_error(TypeError::TypeMismatch, 1, 19))
    );
    // A system call with more arguments than there are registers for them
    let mut function = function_of("fun f() { 1 }");
    function.ops[0].typ = OpType::Intrinsic(Intrinsic::Syscall(7));
    let functions = vec![function];
    assert_eq!(generate_function_assembly(&functions[0]), unsupported(11));
    assert_eq!(
        check_function(&functions[0], &functions),
        Err(type_error(TypeError::TypeMismatch, 1, 11))
    );
    // A keyword without its target
    let mut function = function_of("fun f() { true if endif }");
    function.ops[1].typ = OpType::If(unresolved());
    assert_eq!(generate_function_assembly(&function), unsupported(16));
    // A token that has no value
    let mut function = function_of("fun f() { 1 }");
    if let OpType::Push(token) = &mut function.ops[0].typ {
        token.typ = TokenType::Keyword(rot::class::token::Keyword::Fun);
    }
    let functions = vec![function];
    assert_eq!(generate_function_assembly(&functions[0]), unsupported(11));
    assert_eq!(
        check_function(&functions[0], &functions),
        Err(type_error(TypeError::TypeMismatch, 1, 11))
    );
}

#[test]
fn what_passes_its_checks_is_written() {
    for code in [
        "fun main() -> str { \"a\nb\" return }",
        "fun main() -> char { '\n' return }",
        "fun $main() { } fun main() { $main() }",
        "fun main() { 1 break drop }",
        "fun main() { true if continue endif }",
        "fun main() { f(1, 2, 3, 4, 5, 6, 7) } \
         fun f(a: int, b: int, c: int, d: int, e: int, f: int, g: int) { }",
        "fun main() { 1 2 3 4 5 6 7 syscall6 drop }",
    ] {
        let tokens = tokens_of(code);
        let sources = parse_functions(&tokens).unwrap();
        let functions = lower_functions(&sources).unwrap();
        assert!(check_functions(&functions).is_empty(), "{}", code);
        assert!(generate_assembly(&functions).is_ok(), "{}", code);
        assert!(compile_tokens(&tokens).is_ok(), "{}", code);
    }
    // A body of literals and a return is written if the literals are what is declared
    assert!(compile_code("fun main() -> str { \"a\nb\" return }", None).is_ok());
    assert_eq!(
        compile_code("fun main() -> str { \"a\nb\" 1 return }", None),
        Err(type_error(TypeError::StackImbalance, 2, 6))
    );
    assert_eq!(
        compile_code("fun main() -> int { \"a\" return }", None),
        Err(type_error(TypeError::StackImbalance, 1, 25))
    );
}

// ---- the whole compilation

#[test]
fn errors_of_every_pass() {
    assert_eq!(
        compile_code("fun main() { # }", Some("m.rot".to_string())),
        Err(CompilerError::LexerError(Location::new(1, 14, Some("m.rot".to_string()))))
    );
    assert_eq!(
        compile_code("fun f() { }", None),
        Err(CompilerError::SegmentationError(
            SegmentationError::MissingEntryPoint,
            Location::new(1, 12, None)
        ))
    );
    assert_eq!(
        compile_code("fun main() { ; }", None),
        Err(CompilerError::LoweringError(
            LoweringError::UnknownToken,
            Location::new(1, 14, None)
        ))
    );
    assert_eq!(
        compile_code("fun main() { else }", None),
        Err(CompilerError::ControlFlowError(
            ControlFlowError::UnmatchedElse,
            Location::new(1, 14, None)
        ))
    );
    assert_eq!(
        compile_code("fun main() { + }", None),
        Err(type_error(TypeError::StackUnderflow, 1, 14))
    );
    // After the checks nothing is refused
    assert!(compile_code("fun main() { break }", None).is_ok());
    // The lowering of an earlier function fails before the check of a later one
    assert_eq!(
        compile_code("fun main() { + }\nfun f() { ; }", None),
        Err(CompilerError::LoweringError(
            LoweringError::UnknownToken,
            Location::new(2, 11, None)
        ))
    );
}

#[test]
fn functions_are_written_in_the_order_of_their_declaration() {
    let assembly = compile_code(
        "fun b() { }\nfun main() -> int { b() a(1) return }\nfun a(n: int) -> int { n }",
        None,
    )
    .unwrap();
    let b = assembly.find("\nb:\n").unwrap();
    let main = assembly.find("\nmain:\n").unwrap();
    let a = assembly.find("\na:\n").unwrap();
    assert!(b < main && main < a);
    assert!(assembly.starts_with(START));
}
