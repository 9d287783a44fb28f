use lox::ast::{Expression, Statement};
use lox::interpreter::Interpreter;
use lox::number::Number;
use lox::parser::{Parser, ParseError, SyntaxProblem};
use lox::scanner::scan;
use lox::session::run;
use lox::token::{Token, TokenType};
use lox::value::{InterpreterError, Value};

fn parse_source(source: &str) -> (Vec<Option<Statement>>, Parser) {
    let mut parser = Parser::new(scan(source.to_string()));
    let statements = parser.parse();
    (statements, parser)
}

fn single_expression(source: &str) -> Expression {
    let (mut statements, parser) = parse_source(&format!("{};", source));
    assert!(!parser.has_errors());
    assert_eq!(statements.len(), 1);
    match statements.pop() {
        Some(Some(Statement::Expression(e))) => e,
        _ => panic!("expected an expression statement"),
    }
}

fn evaluate(source: &str) -> Result<Value, InterpreterError> {
    Interpreter::new().evaluate(&single_expression(source))
}

fn shown(source: &str) -> String {
    match evaluate(source) {
        Ok(v) => v.stringify(),
        Err(e) => panic!("unexpected failure {:?}", e),
    }
}

fn printed(source: &str) -> Vec<Option<String>> {
    let mut interpreter = Interpreter::new();
    let report = run(&mut interpreter, source.to_string());
    assert!(report.executed, "diagnostics: {:?}", report.diagnostics);
    report.effects.into_iter().map(|e| e.expect("statement failed").1).collect()
}

fn num(n: i64) -> Value {
    Value::Number(Number::from_integer(n))
}

#[test]
fn precedence_tree_and_value() {
    let e = single_expression("1 + 2 * 3");
    assert_eq!(e.print(), "(+ 1 (* 2 3))");
    assert_eq!(shown("1 + 2 * 3"), "7");
    match evaluate("1 + 2 * 3") {
        Ok(Value::Number(n)) => assert!(n.equals(&Number::from_integer(7))),
        _ => panic!("expected a number"),
    }
}

#[test]
fn left_associative_levels_and_grouping() {
    assert_eq!(single_expression("1 - 2 - 3").print(), "(- (- 1 2) 3)");
    assert_eq!(single_expression("(1 - 2) * -x").print(), "(* (group (- 1 2)) (- x))");
    assert_eq!(single_expression("!!true == 1 < 2").print(), "(== (! (! true)) (< 1 2))");
    assert_eq!(shown("1 - 2 - 3"), "-4");
    assert_eq!(shown("-(2 * 3)"), "-6");
}

#[test]
fn parenthesize_lists_each_expression() {
    let e = single_expression("1");
    let parts = vec![single_expression("a"), single_expression("nil")];
    assert_eq!(e.parenthesize("op".to_string(), parts), "(op a nil)");
    assert_eq!(e.parenthesize("none".to_string(), Vec::new()), "(none)");
}

#[test]
fn literal_constructor() {
    let t = Token::new(TokenType::True, "true".to_string(), None, 1);
    assert_eq!(Expression::literal(t).print(), "true");
    let n = Token::new(TokenType::Nil, "nil".to_string(), None, 1);
    assert_eq!(Expression::literal(n).print(), "nil");
}

#[test]
fn string_concatenation() {
    match evaluate("\"a\" + \"b\"") {
        Ok(Value::String(s)) => assert_eq!(s, "ab"),
        _ => panic!("expected a string"),
    }
}

#[test]
fn mixed_addition_is_a_type_mismatch() {
    assert!(matches!(evaluate("1 + \"a\""), Err(InterpreterError::TypeMismatch)));
    assert!(matches!(evaluate("-\"a\""), Err(InterpreterError::TypeMismatch)));
    assert!(matches!(evaluate("true < 1"), Err(InterpreterError::TypeMismatch)));
    assert!(matches!(evaluate("\"a\" * 2"), Err(InterpreterError::TypeMismatch)));
}

#[test]
fn declaration_then_print() {
    assert_eq!(printed("var x = 5; print x;"), vec![None, Some("5".to_string())]);
}

#[test]
fn undefined_variable_is_an_error() {
    let mut interpreter = Interpreter::new();
    let report = run(&mut interpreter, "print y;".to_string());
    assert!(report.executed);
    assert_eq!(report.effects.len(), 1);
    match &report.effects[0] {
        Err(InterpreterError::UndefinedVariable(name)) => assert_eq!(name, "y"),
        other => panic!("unexpected {:?}", other),
    }
}

#[test]
fn missing_paren_is_a_syntax_error_and_nothing_runs() {
    let mut interpreter = Interpreter::new();
    let report = run(&mut interpreter, "(1 + 2".to_string());
    assert!(!report.executed);
    assert!(report.effects.is_empty());
    assert_eq!(report.diagnostics, vec!["[line: 1] Error at end: Expect ')' after expression.".to_string()]);
    let (statements, parser) = parse_source("(1 + 2");
    assert!(parser.has_errors());
    assert_eq!(statements.len(), 1);
    assert!(statements[0].is_none());
}

#[test]
fn static_errors_keep_earlier_statements_from_running() {
    let mut interpreter = Interpreter::new();
    let report = run(&mut interpreter, "var a = 1; print a; print ;".to_string());
    assert!(!report.executed);
    assert!(report.effects.is_empty());
    let later = run(&mut interpreter, "print a;".to_string());
    assert!(matches!(later.effects[0], Err(InterpreterError::UndefinedVariable(_))));
}

#[test]
fn parser_recovers_at_statement_boundaries() {
    let (statements, parser) = parse_source("print ; var = 2; print 3; 1 + ; print 4;");
    assert!(parser.has_errors());
    let filled: Vec<bool> = statements.iter().map(|s| s.is_some()).collect();
    assert_eq!(filled, vec![false, false, true, false, true]);
    assert_eq!(
        parser.diagnostics(),
        vec![
            "[line: 1] Error at ';': Expect expression.".to_string(),
            "[line: 1] Error at '=': Expect variable name.".to_string(),
            "[line: 1] Error at ';': Expect expression.".to_string(),
        ]
    );
}

#[test]
fn missing_semicolons_are_syntax_errors() {
    let (statements, parser) = parse_source("print 1");
    assert!(parser.has_errors());
    assert!(statements[0].is_none());
    assert_eq!(parser.diagnostics(), vec!["[line: 1] Error at end: Expect ';' after value.".to_string()]);
    let (_, parser) = parse_source("var x = 1 print x;");
    assert_eq!(
        parser.diagnostics(),
        vec!["[line: 1] Error at 'print': Expect ';' after variable declaration.".to_string()]
    );
}

#[test]
fn syntax_problem_messages() {
    let e = ParseError { at: 0, problem: SyntaxProblem::ExpectRightParen };
    assert_eq!(e.problem.message(), "Expect ')' after expression.");
    assert_eq!(SyntaxProblem::ExpectExpression.message(), "Expect expression.");
}

#[test]
fn equality_has_no_coercion() {
    assert_eq!(shown("nil == nil"), "true");
    assert_eq!(shown("1 == \"1\""), "false");
    assert_eq!(shown("1 != \"1\""), "true");
    assert_eq!(shown("0.5 == 1 / 2"), "true");
    assert_eq!(shown("\"ab\" == \"ab\""), "true");
    assert_eq!(shown("true == false"), "false");
    assert_eq!(shown("nil == false"), "false");
}

#[test]
fn equality_reflexive_and_symmetric_on_values() {
    let values = vec![
        num(3),
        Value::Number(Number::from_ratio(6, 2).unwrap()),
        Value::Boolean(true),
        Value::Boolean(false),
        Value::Null,
        Value::String("x".to_string()),
        Value::String("1".to_string()),
        num(1),
    ];
    for a in &values {
        assert!(a.is_equal(a.cloned()));
        for b in &values {
            assert_eq!(a.is_equal(b.cloned()), b.is_equal(a.cloned()));
        }
    }
    assert!(values[0].is_equal(values[1].cloned()));
    assert!(!values[6].is_equal(values[7].cloned()));
}

#[test]
fn redeclaration_overwrites() {
    assert_eq!(printed("var x = 1; var x = 2; print x;"), vec![None, None, Some("2".to_string())]);
}

#[test]
fn declaration_without_initializer_is_nil() {
    assert_eq!(printed("var x; print x;"), vec![None, Some("nil".to_string())]);
}

#[test]
fn stringify_numbers() {
    assert_eq!(shown("7"), "7");
    assert_eq!(shown("2.50"), "2.5");
    assert_eq!(shown("6 / 3"), "2");
    assert_eq!(shown("1 / 3"), format!("0.{}", "3".repeat(64)));
    assert_eq!(shown("-1 / 2"), "-0.5");
    assert_eq!(shown("0.1 + 0.2"), "0.3");
    assert_eq!(shown("0 - 0"), "0");
    assert!(!shown("10 * 10").contains('.'));
}

#[test]
fn stringify_other_values() {
    assert_eq!(Value::Boolean(true).stringify(), "true");
    assert_eq!(Value::Null.stringify(), "nil");
    assert_eq!(Value::String("hi".to_string()).stringify(), "hi");
}

#[test]
fn arithmetic_and_comparison() {
    assert_eq!(shown("7 - 10"), "-3");
    assert_eq!(shown("1.5 * 4"), "6");
    assert_eq!(shown("3 > 2"), "true");
    assert_eq!(shown("3 >= 3"), "true");
    assert_eq!(shown("3 < 3"), "false");
    assert_eq!(shown("2 <= 2.5"), "true");
}

#[test]
fn truthiness_and_not() {
    assert_eq!(shown("!nil"), "true");
    assert_eq!(shown("!false"), "true");
    assert_eq!(shown("!0"), "false");
    assert_eq!(shown("!\"\""), "false");
    assert!(!Value::Null.is_truthy());
    assert!(num(0).is_truthy());
}

#[test]
fn division_by_zero_is_an_error() {
    assert!(matches!(evaluate("1 / 0"), Err(InterpreterError::DivisionByZero)));
    assert!(matches!(evaluate("1 / (2 - 2)"), Err(InterpreterError::DivisionByZero)));
}

#[test]
fn overflow_is_an_error() {
    assert!(matches!(
        evaluate("9223372036854775807 + 1"),
        Err(InterpreterError::NumberOutOfRange)
    ));
    assert!(matches!(num(i64::MIN).negate(), Err(InterpreterError::NumberOutOfRange)));
    assert!(matches!(
        evaluate("3037000500 * 3037000500"),
        Err(InterpreterError::NumberOutOfRange)
    ));
}

#[test]
fn value_operations_directly() {
    match num(6).divide(num(4)) {
        Ok(Value::Number(n)) => assert_eq!((n.numerator(), n.denominator()), (3, 2)),
        _ => panic!("expected a number"),
    }
    match num(1).subtract(num(4)) {
        Ok(v) => assert_eq!(v.stringify(), "-3"),
        _ => panic!("expected a number"),
    }
    assert!(matches!(num(1).greater(num(0)), Ok(Value::Boolean(true))));
    assert!(matches!(num(1).less_equal(num(0)), Ok(Value::Boolean(false))));
    assert!(matches!(num(1).greater_equal(num(1)), Ok(Value::Boolean(true))));
    assert!(matches!(num(1).less(num(2)), Ok(Value::Boolean(true))));
    assert!(matches!(num(1).multiply(num(2)), Ok(Value::Number(_))));
    assert!(matches!(num(1).equals(Value::Null), Ok(Value::Boolean(false))));
    assert!(matches!(Value::Null.not_equals(Value::Null), Ok(Value::Boolean(false))));
    assert!(matches!(Value::Null.not(), Ok(Value::Boolean(true))));
    assert!(matches!(num(2).negate(), Ok(Value::Number(_))));
}

#[test]
fn statements_continue_after_a_runtime_error() {
    let mut interpreter = Interpreter::new();
    let report = run(&mut interpreter, "print 1; print z; var z = 3; print z;".to_string());
    assert!(report.executed);
    assert!(matches!(report.effects[0], Ok((_, Some(_)))));
    assert!(matches!(report.effects[1], Err(InterpreterError::UndefinedVariable(_))));
    assert!(matches!(report.effects[2], Ok((Value::Number(_), None))));
    match &report.effects[3] {
        Ok((_, Some(s))) => assert_eq!(s, "3"),
        other => panic!("unexpected {:?}", other),
    }
}

#[test]
fn failed_declaration_binds_nothing() {
    let mut interpreter = Interpreter::new();
    let report = run(&mut interpreter, "var a = 1 + nil; print a;".to_string());
    assert!(matches!(report.effects[0], Err(InterpreterError::TypeMismatch)));
    assert!(matches!(report.effects[1], Err(InterpreterError::UndefinedVariable(_))));
}

#[test]
fn scope_carries_over_between_runs() {
    let mut interpreter = Interpreter::new();
    run(&mut interpreter, "var a = \"kept\";".to_string());
    let report = run(&mut interpreter, "print a;".to_string());
    match &report.effects[0] {
        Ok((_, Some(s))) => assert_eq!(s, "kept"),
        other => panic!("unexpected {:?}", other),
    }
}

#[test]
fn interpret_runs_each_statement() {
    let (statements, parser) = parse_source("var a = 2; print a * a; a;");
    assert!(!parser.has_errors());
    let statements: Vec<Statement> = statements.into_iter().map(|s| s.unwrap()).collect();
    let mut interpreter = Interpreter::new();
    let effects = interpreter.interpret(&statements);
    assert_eq!(effects.len(), 3);
    match &effects[1] {
        Ok((_, Some(s))) => assert_eq!(s, "4"),
        other => panic!("unexpected {:?}", other),
    }
    assert!(matches!(interpreter.execute(&statements[2]), Ok((Value::Number(_), None))));
}

#[test]
fn environment_define_and_get() {
    let mut env = lox::environment::Environment::new();
    let name = Token::new(TokenType::Identifier, "v".to_string(), None, 1);
    assert!(matches!(env.get(name.clone()), Err(InterpreterError::UndefinedVariable(_))));
    env.define("v".to_string(), num(1));
    env.define("w".to_string(), Value::Null);
    env.define("v".to_string(), Value::Boolean(true));
    assert!(matches!(env.get(name), Ok(Value::Boolean(true))));
}

#[test]
fn number_constructors() {
    assert!(Number::from_ratio(1, 0).is_none());
    assert!(Number::from_ratio(1, -2).is_none());
    let n = Number::from_digits(&['1', '2', '5'], 2).unwrap();
    assert_eq!((n.numerator(), n.denominator()), (5, 4));
    assert!(Number::from_digits(&['1'], 19).is_none());
    assert_eq!(Value::Number(n).stringify(), "1.25");
}

#[test]
fn runtime_error_messages() {
    assert_eq!(InterpreterError::UndefinedVariable("y".to_string()).message(), "Undefined variable 'y'.");
    assert_eq!(InterpreterError::TypeMismatch.message(), "Operands do not suit the operator.");
    assert_eq!(InterpreterError::DivisionByZero.message(), "Division by zero.");
    assert_eq!(InterpreterError::NumberOutOfRange.message(), "Number out of range.");
    assert_eq!(InterpreterError::MalformedExpression.message(), "Malformed expression.");
}

#[test]
fn hand_built_malformed_trees_are_errors() {
    let bare = Token::new(TokenType::Number, "1".to_string(), None, 1);
    let e = Expression::Literal(lox::ast::LiteralExpression::Number(bare));
    assert!(matches!(Interpreter::new().evaluate(&e), Err(InterpreterError::MalformedExpression)));
    let plus = Token::new(TokenType::Plus, "+".to_string(), None, 1);
    let e = Expression::unary(plus, single_expression("1"));
    assert!(matches!(Interpreter::new().evaluate(&e), Err(InterpreterError::MalformedExpression)));
    let comma = Token::new(TokenType::Comma, ",".to_string(), None, 1);
    let e = Expression::binary(single_expression("1"), comma, single_expression("2"));
    assert!(matches!(Interpreter::new().evaluate(&e), Err(InterpreterError::MalformedExpression)));
    let grouped = Expression::grouping(single_expression("2 * 4"));
    assert_eq!(grouped.print(), "(group (* 2 4))");
    match Interpreter::new().evaluate(&grouped) {
        Ok(v) => assert_eq!(v.stringify(), "8"),
        Err(e) => panic!("unexpected {:?}", e),
    }
}

#[test]
fn small_decimals_add_exactly_and_print_in_full() {
    assert_eq!(shown("0.0000000001 + 0.00000000001"), "0.00000000011");
    assert_eq!(shown("0.0000000001"), "0.0000000001");
    assert_eq!(shown("0.0000000002"), "0.0000000002");
    assert_eq!(shown("0.3 - 0.1"), "0.2");
    assert_eq!(shown("0.000000000000000001 * 1000000000000000000"), "1");
    assert_eq!(shown("1 / 1024"), "0.0009765625");
    match evaluate("0.0000000001 + 0.00000000001") {
        Ok(Value::Number(n)) => assert_eq!((n.numerator(), n.denominator()), (11, 100000000000)),
        _ => panic!("expected a number"),
    }
}

#[test]
fn statements_return_their_values() {
    let (statements, parser) = parse_source("var x; print \"7\"; print 7; x; var y = 2 * 3;");
    assert!(!parser.has_errors());
    let statements: Vec<Statement> = statements.into_iter().map(|s| s.unwrap()).collect();
    let mut interpreter = Interpreter::new();
    assert!(matches!(interpreter.execute(&statements[0]), Ok((Value::Null, None))));
    match interpreter.execute(&statements[1]) {
        Ok((Value::String(s), Some(text))) => {
            assert_eq!(s, "7");
            assert_eq!(text, "7");
        },
        other => panic!("unexpected {:?}", other),
    }
    match interpreter.execute(&statements[2]) {
        Ok((Value::Number(n), Some(text))) => {
            assert!(n.equals(&Number::from_integer(7)));
            assert_eq!(text, "7");
        },
        other => panic!("unexpected {:?}", other),
    }
    assert!(matches!(interpreter.execute(&statements[3]), Ok((Value::Null, None))));
    match interpreter.execute(&statements[4]) {
        Ok((v, None)) => assert_eq!(v.stringify(), "6"),
        other => panic!("unexpected {:?}", other),
    }
}
