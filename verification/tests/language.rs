use xur::ast::parser::{ParseError, Parser};
use xur::ast::value::{Expression, LiteralValue, Statement};
use xur::lexer::{Token, TokenKind, Tokenizer};
use xur::xurvm::var::{Builtin, Value, VmError};
use xur::xurvm::vmcore::Enviroment;
use xur::xurvm::XurVM;

fn tokens(src: &str) -> Vec<Token> {
    let mut t = Tokenizer::new(src);
    t.collect_tokens()
}

fn significant(src: &str) -> Vec<Token> {
    tokens(src)
        .into_iter()
        .filter(|t| !matches!(t.kind, TokenKind::Whitespace))
        .collect()
}

fn run(src: &str) -> Vec<Result<Value, String>> {
    let mut parser = Parser::new(significant(src));
    let mut vm = XurVM::new();
    let mut out = Vec::new();
    while let Some(st) = parser.next() {
        match st {
            Ok(s) => out.push(vm.execute(s).map_err(|e| format!("{:?}", e))),
            Err(e) => {
                out.push(Err(format!("{:?}", e)));
                break;
            }
        }
    }
    out
}

fn number(v: &Result<Value, String>) -> u128 {
    match v {
        Ok(Value::Number(n)) => *n,
        other => panic!("not a number: {:?}", other),
    }
}

#[test]
fn readme_forms_of_to_int_agree() {
    assert_eq!(number(&run(r#"to_int("FF", 16)"#)[0]), 255);
    assert_eq!(number(&run(r#""FF" to_int 16"#)[0]), 255);
    assert_eq!(number(&run(r#""FF".to_int(16)"#)[0]), 255);
    assert_eq!(number(&run(r#"to_int(,16)("FF")"#)[0]), 255);
}

#[test]
fn readme_form_still_in_progress() {
    // The README marks `(,16).to_int("FF")` as work in progress: the parameter
    // set before `.` spreads into the arguments of `.` itself, and its open slot
    // takes `to_int("FF")`, so `.` is asked to call 16.
    assert_eq!(run(r#"(,16).to_int("FF")"#)[0].clone().err(), Some("NotCallable".to_string()));
}

#[test]
fn readme_partial_forms() {
    for src in ["to_int", r#"to_int("FF")"#, "to_int(,16)"] {
        match &run(src)[0] {
            Ok(Value::Function(f)) => assert_eq!(f.name(), "to_int"),
            other => panic!("{}: {:?}", src, other),
        }
    }
}

#[test]
fn partial_application_then_call() {
    assert_eq!(number(&run(r#"to_int("FF")(16)"#)[0]), 255);
    match &run(r#"to_int("FF")"#)[0] {
        Ok(Value::Function(f)) => {
            assert_eq!(f.name(), "to_int");
            assert_eq!(f.binded_args().len(), 1);
        }
        other => panic!("expected a function, got {:?}", other),
    }
}

#[test]
fn tokens_of_mixed_source() {
    let kinds: Vec<TokenKind> = tokens("a1 @b \"x\" 42;").into_iter().map(|t| t.kind).collect();
    assert_eq!(
        kinds,
        vec![
            TokenKind::Identifier("a1".into()),
            TokenKind::Whitespace,
            TokenKind::Symbol("b".into()),
            TokenKind::Whitespace,
            TokenKind::String("x".into()),
            TokenKind::Whitespace,
            TokenKind::Numeric(42),
            TokenKind::Semicolon,
        ]
    );
}

#[test]
fn hex_literal_is_unknown() {
    let kinds: Vec<TokenKind> = tokens("0xFF").into_iter().map(|t| t.kind).collect();
    assert_eq!(kinds, vec![TokenKind::Unknown("xFF".into())]);
}

#[test]
fn token_lengths_are_bytes() {
    let ts = tokens("é ab");
    let lens: Vec<usize> = ts.iter().map(|t| t.length).collect();
    assert_eq!(lens, vec![2, 1, 2]);
    assert_eq!(lens.iter().sum::<usize>(), "é ab".len());
}

#[test]
fn add_and_double() {
    assert_eq!(number(&run("1 + 2")[0]), 3);
    assert_eq!(number(&run("x2(21)")[0]), 42);
}

#[test]
fn overflow_is_an_error() {
    let big = u128::MAX.to_string();
    let r = run(&format!("{} + 1", big));
    assert!(matches!(&r[0], Err(e) if e.contains("Overflow")));
}

#[test]
fn undefined_variable() {
    let mut vm = XurVM::new();
    let r = vm.execute(Statement::Expr(Expression::Call {
        callie: Box::new(Expression::Variable("nope".into())),
        args: vec![],
    }));
    assert!(matches!(r, Err(VmError::NotDefined(s)) if s == "nope"));
}

#[test]
fn symbol_gives_bound_function() {
    match &run(r#"@x2"#)[0] {
        Ok(Value::Function(f)) => assert_eq!(f.name(), "x2"),
        other => panic!("{:?}", other),
    }
}

#[test]
fn parse_errors() {
    let mut p = Parser::new(significant(")"));
    assert!(matches!(p.next_statement(), Err(ParseError::UnexpectedToken(TokenKind::CloseParen))));
    let mut p = Parser::new(significant("(1, 2"));
    assert!(matches!(p.next_statement(), Err(ParseError::EndOfList)));
    let mut p = Parser::new(vec![]);
    assert!(matches!(p.next_statement(), Err(ParseError::UnexpectedEndOfStatement)));
}

#[test]
fn add_fn_rebinds() {
    let mut vm = XurVM::new();
    vm.add_fn("double", 1, Builtin::X2);
    assert!(vm.get_value("double").is_some());
    let _ = LiteralValue::Number(1);
}
