use xur::ast::parser::{ParseError, Parser};
use xur::ast::value::{Expression, LiteralValue, Statement};
use xur::lexer::token::EOF_CHAR;
use xur::lexer::{Token, TokenKind, Tokenizer};
use xur::xurvm::var::{Builtin, Value, VmError};
use xur::xurvm::vmcore::Enviroment;
use xur::xurvm::XurVM;

fn kinds(src: &str) -> Vec<TokenKind> {
    Tokenizer::new(src).collect_tokens().into_iter().map(|t| t.kind).collect()
}

fn significant(src: &str) -> Vec<Token> {
    Tokenizer::new(src)
        .collect_tokens()
        .into_iter()
        .filter(|t| !matches!(t.kind, TokenKind::Whitespace))
        .collect()
}

fn statements(src: &str) -> Vec<Result<Statement, ParseError>> {
    let mut p = Parser::new(significant(src));
    let mut out = Vec::new();
    while let Some(s) = p.next() {
        let stop = s.is_err();
        out.push(s);
        if stop {
            break;
        }
    }
    out
}

fn eval(src: &str) -> Result<Value, VmError> {
    let mut vm = XurVM::new();
    let st = statements(src).pop().unwrap().unwrap();
    vm.execute(st)
}

// `%` cannot be written in source (the tokenizer reads it as an unknown token),
// so these calls are built directly.
fn call(f: &str, arg: &str) -> Result<Value, VmError> {
    let mut vm = XurVM::new();
    vm.execute(Statement::Expr(Expression::Call {
        callie: Box::new(Expression::Variable(f.into())),
        args: vec![Expression::Literal(LiteralValue::String(std::rc::Rc::new(arg.to_string())))],
    }))
}

fn num(r: Result<Value, VmError>) -> u128 {
    match r {
        Ok(Value::Number(n)) => n,
        other => panic!("not a number: {:?}", other),
    }
}

#[test]
fn tokenizer_kinds() {
    assert_eq!(kinds("%"), vec![TokenKind::Unknown("%".into())]);
    assert_eq!(kinds("+."), vec![TokenKind::Identifier("+".into()), TokenKind::Identifier(".".into())]);
    assert_eq!(kinds("@"), vec![TokenKind::Identifier("@".into())]);
    assert_eq!(
        kinds("a-b"),
        vec![
            TokenKind::Identifier("a".into()),
            TokenKind::Identifier("-".into()),
            TokenKind::Identifier("b".into()),
        ]
    );
    assert_eq!(kinds("@\"a b\""), vec![TokenKind::Symbol("a b".into())]);
    assert_eq!(kinds(":=[]"), vec![TokenKind::Colon, TokenKind::Equals, TokenKind::OpenBracket, TokenKind::CloseBracket]);
    assert_eq!(kinds("\"a\\\"b\""), vec![TokenKind::String("a\\\"b".into())]);
    assert_eq!(kinds("\"open"), vec![TokenKind::String("open".into())]);
    assert_eq!(
        kinds("340282366920938463463374607431768211456"),
        vec![TokenKind::Unknown("340282366920938463463374607431768211456".into())]
    );
    assert_eq!(
        kinds("340282366920938463463374607431768211455"),
        vec![TokenKind::Numeric(u128::MAX)]
    );
}

#[test]
fn unicode_classes_reach_the_tokenizer() {
    // XID_Start and XID_Continue beyond ASCII.
    assert_eq!(kinds("éa_1"), vec![TokenKind::Identifier("éa_1".into())]);
    // White_Space beyond ASCII.
    assert_eq!(kinds("\u{A0}\u{3000}"), vec![TokenKind::Whitespace]);
    // A numeric character that is no ASCII digit starts a number that does not parse.
    assert_eq!(kinds("٣"), vec![TokenKind::Unknown("٣".into())]);
    assert_eq!(kinds("12"), vec![TokenKind::Numeric(12)]);
}

#[test]
fn tokenizer_cursor() {
    let mut t = Tokenizer::new("ab");
    assert_eq!(t.first(), 'a');
    assert_eq!(t.second(), 'b');
    assert_eq!(t.nth(2), EOF_CHAR);
    assert_eq!(t.bump(), Some('a'));
    assert_eq!(t.len_consumed(), 1);
    t.reset_len_consumed();
    assert_eq!(t.len_consumed(), 0);
    assert!(!t.is_eof());
    assert_eq!(t.bump(), Some('b'));
    assert!(t.is_eof());
    assert_eq!(t.bump(), None);
    assert!(t.next().is_none());
}

#[test]
fn token_lengths_add_up() {
    for src in ["to_int(\"FF\", 16)", "a € b", "", "\"x\\\"y\" @z 0x1F"] {
        let total: usize = Tokenizer::new(src).collect_tokens().iter().map(|t| t.length).sum();
        assert_eq!(total, src.len());
    }
}

#[test]
fn every_statement_reads_a_token() {
    let sts = statements("1; 2 ;");
    assert_eq!(sts.len(), 4);
    assert!(matches!(sts[1], Ok(Statement::Empty)));
}

#[test]
fn inline_call_parses_as_call() {
    let a = statements("x f 2");
    let b = statements("f(x, 2)");
    assert_eq!(format!("{:?}", a), format!("{:?}", b));
    match &a[0] {
        Ok(Statement::Expr(Expression::Call { callie, args })) => {
            assert!(matches!(&**callie, Expression::Variable(f) if f == "f"));
            assert_eq!(args.len(), 2);
        }
        other => panic!("{:?}", other),
    }
}

#[test]
fn comma_slots() {
    match &statements("f(,16)")[0] {
        Ok(Statement::Expr(Expression::Call { args, .. })) => {
            assert_eq!(args.len(), 2);
            assert!(matches!(args[0], Expression::Nil));
            assert!(matches!(args[1], Expression::Literal(LiteralValue::Number(16))));
        }
        other => panic!("{:?}", other),
    }
    match &statements("f(1,)")[0] {
        Ok(Statement::Expr(Expression::Call { args, .. })) => {
            assert_eq!(args.len(), 2);
            assert!(matches!(args[1], Expression::Nil));
        }
        other => panic!("{:?}", other),
    }
}

#[test]
fn parse_error_variants() {
    assert!(matches!(statements("1 f ;")[0], Err(ParseError::ExpectedExpression(ref s)) if s == "f"));
    assert!(matches!(statements("(1, ;)")[0], Err(ParseError::InvalidListValue)));
    assert!(matches!(statements("[1, 2")[0], Err(ParseError::EndOfList)));
    assert!(matches!(statements(",")[0], Err(ParseError::UnexpectedToken(TokenKind::Comma))));
}

#[test]
fn dot_law() {
    assert_eq!(num(eval("\"FF\".to_int(16)")), num(eval("to_int(\"FF\", 16)")));
    assert_eq!(num(eval("16.x2")), 32);
    assert_eq!(num(eval("16.x2")), num(eval("x2(16)")));
    assert!(matches!(eval("\"FF\".x2"), Err(VmError::NotNumber)));
}

#[test]
fn partial_application_law() {
    assert_eq!(num(eval("to_int(\"7f\")(16)")), 127);
    assert_eq!(num(eval("+(40)(2)")), 42);
}

#[test]
fn vm_error_variants() {
    assert!(matches!(eval("(1, 2)"), Err(VmError::CannotRun)));
    assert!(matches!(eval("5(1)"), Err(VmError::NotCallable)));
    assert!(matches!(eval("x2(\"a\")"), Err(VmError::NotNumber)));
    assert!(matches!(eval("to_int(1, 16)"), Err(VmError::NotString)));
    assert!(matches!(eval("x2((()))"), Err(VmError::MissingArgument)));
    assert!(matches!(call("%", "nothing"), Err(VmError::NoBinding(ref s)) if s == "nothing"));
    assert!(matches!(eval("@nothing"), Err(VmError::NoBinding(_))));
    assert!(matches!(eval("to_int(\"FF\", 40)"), Err(VmError::InvalidRadix)));
    assert!(matches!(eval("to_int(\"ZZ\", 16)"), Err(VmError::InvalidNumber)));
    assert!(matches!(eval("x2(170141183460469231731687303715884105728)"), Err(VmError::Overflow)));
    assert!(matches!(eval("y(1)"), Err(VmError::NotDefined(ref s)) if s == "y"));
    let mut vm = XurVM::new();
    let st = Statement::Expr(Expression::Call {
        callie: Box::new(Expression::Variable("x2".into())),
        args: vec![Expression::Literal(LiteralValue::Boolean(true))],
    });
    assert!(matches!(vm.execute(st), Err(VmError::UnsupportedLiteral)));
}

#[test]
fn builtins_compute() {
    match eval("[\"AA\", \"BB\", \"CC\"].map(to_int(,16))") {
        Ok(Value::Array(v)) => {
            let ns: Vec<u128> = v.into_iter().map(|x| num(Ok(x))).collect();
            assert_eq!(ns, vec![170, 187, 204]);
        }
        other => panic!("{:?}", other),
    }
    match eval("map([1, 2, 3], x2)") {
        Ok(Value::Array(v)) => {
            let ns: Vec<u128> = v.into_iter().map(|x| num(Ok(x))).collect();
            assert_eq!(ns, vec![2, 4, 6]);
        }
        other => panic!("{:?}", other),
    }
    assert!(matches!(eval("map([], 5)"), Err(VmError::NotCallable)));
    assert!(matches!(eval("map(1, x2)"), Err(VmError::NotArray)));
    assert!(matches!(eval("map([[1]], x2)"), Err(VmError::UnsupportedLiteral)));
    assert!(matches!(eval("map([\"a\"], x2)"), Err(VmError::NotNumber)));
    match eval("map([1])") {
        Ok(Value::Function(f)) => assert_eq!(f.name(), "map"),
        other => panic!("{:?}", other),
    }
    assert_eq!(num(eval("to_int(\"z\", 36)")), 35);
    assert_eq!(num(eval("to_int(\"+101\", 2)")), 5);
    match call("%", "x2") {
        Err(e) => panic!("{:?}", e),
        Ok(v) => assert_eq!(v.debug_text(), "Value(?)"),
    }
}

#[test]
fn debug_text_of_values() {
    assert_eq!(Value::Number(255).debug_text(), "Value(255)");
    assert_eq!(Value::Nil.debug_text(), "Value(None)");
    let arr = Value::Array(vec![Value::Number(1), Value::String(std::rc::Rc::new("s".to_string()))]);
    assert_eq!(arr.debug_text(), "Value([Value(1), Value(s)])");
}

#[test]
fn read_after_write_of_bindings() {
    let mut vm = XurVM::new();
    vm.add_fn("+", 1, Builtin::X2);
    match vm.get_value("+") {
        Some(Value::Function(f)) => {
            assert_eq!(f.min_args(), 1);
            assert!(f.args_fit(1));
            assert!(!f.args_fit(2));
        }
        other => panic!("{:?}", other),
    }
    assert!(vm.get_value("to_int").is_some());
    assert!(vm.get_value("nope").is_none());
    let st = Statement::Expr(Expression::Call {
        callie: Box::new(Expression::Variable("+".into())),
        args: vec![Expression::Literal(LiteralValue::Number(5))],
    });
    assert_eq!(num(vm.execute(st)), 10);
}

#[test]
fn resolve_through_the_environment() {
    let mut vm = XurVM::new();
    let v = vm
        .resolve_args(vec![
            Expression::Literal(LiteralValue::Number(1)),
            Expression::ParenList(vec![Expression::Literal(LiteralValue::Number(2))]),
        ])
        .unwrap();
    assert_eq!(v.len(), 2);
    let r = vm.resolve_expression(Expression::Array(vec![Expression::Literal(LiteralValue::Number(3))]));
    assert_eq!(r.unwrap().debug_text(), "Value([Value(3)])");
    assert!(matches!(Value::Nil.get_number(), Err(VmError::NotNumber)));
    assert!(matches!(Value::Number(1).get_string(), Err(VmError::NotString)));
    assert!(matches!(Value::Number(1).get_callable(), Err(VmError::NotCallable)));
    let f = Value::create_fn("id", 3, Builtin::Add).get_callable().unwrap();
    assert_eq!(f.name(), "id");
    assert_eq!(f.min_args(), 3);
}

#[test]
fn parameter_set_spreads_into_arguments() {
    assert_eq!(num(eval("x2((21))")), num(eval("x2(21)")));
    assert_eq!(num(eval("x2((21))")), 42);
    assert_eq!(num(eval("+((1, 2))")), num(eval("+(1, 2)")));
    assert_eq!(num(eval("+((1, 2))")), 3);
}

#[test]
fn readme_forms_with_a_leading_gap() {
    // A list that starts with a comma keeps its first slot open, so
    // `to_int(,16)` waits for the text and a later argument fills it.
    assert_eq!(num(eval("to_int(,16)(\"FF\")")), 255);
    match eval("to_int(,16)") {
        Ok(Value::Function(f)) => {
            assert_eq!(f.name(), "to_int");
            assert_eq!(f.binded_args().len(), 2);
            assert!(matches!(f.binded_args()[0], Expression::Nil));
        }
        other => panic!("{:?}", other),
    }
    assert_eq!(
        format!("{:?}", statements("f(,16)")),
        format!(
            "{:?}",
            vec![Ok::<Statement, ParseError>(Statement::Expr(Expression::Call {
                callie: Box::new(Expression::Variable("f".into())),
                args: vec![Expression::Nil, Expression::Literal(LiteralValue::Number(16))],
            }))]
        )
    );
}

#[test]
fn bare_names_and_values() {
    match eval("to_int") {
        Ok(Value::Function(f)) => assert_eq!(f.name(), "to_int"),
        other => panic!("{:?}", other),
    }
    assert_eq!(num(eval("5")), 5);
    assert!(matches!(eval("nope"), Err(VmError::NotDefined(ref s)) if s == "nope"));
}

#[test]
fn parse_errors_read_the_first_token() {
    let mut p = Parser::new(significant(") 1"));
    assert!(matches!(p.next(), Some(Err(ParseError::UnexpectedToken(TokenKind::CloseParen)))));
    assert!(matches!(p.next(), Some(Ok(_))));
    assert!(p.next().is_none());
}

#[test]
fn values_and_expressions_copy() {
    let e = Expression::Call {
        callie: Box::new(Expression::Variable("f".into())),
        args: vec![Expression::Nil, Expression::Literal(LiteralValue::Number(1))],
    };
    assert_eq!(format!("{:?}", e.clone()), format!("{:?}", e));
    let v = Value::Array(vec![Value::Number(1), Value::String(std::rc::Rc::new("s".to_string()))]);
    assert_eq!(v.clone().debug_text(), v.debug_text());
}

#[test]
fn dot_never_joins_an_identifier() {
    assert_eq!(
        kinds("a.b.to_int"),
        vec![
            TokenKind::Identifier("a".into()),
            TokenKind::Identifier(".".into()),
            TokenKind::Identifier("b".into()),
            TokenKind::Identifier(".".into()),
            TokenKind::Identifier("to_int".into()),
        ]
    );
    for t in Tokenizer::new("x_1.y2..z").collect_tokens() {
        if let TokenKind::Identifier(s) = t.kind {
            assert!(s == "." || !s.contains('.'));
        }
    }
}

#[test]
fn array_items_in_order() {
    match eval("[1, x2(2), \"s\"]") {
        Ok(Value::Array(v)) => {
            assert_eq!(v.len(), 3);
            assert_eq!(Value::Array(v).debug_text(), "Value([Value(1), Value(4), Value(s)])");
        }
        other => panic!("{:?}", other),
    }
    assert!(matches!(eval("[1, y, z]"), Err(VmError::NotDefined(ref s)) if s == "y"));
    assert!(matches!(eval("[x2(\"a\"), y]"), Err(VmError::NotNumber)));
}
