use scriptvm::emitter::{BuildOptions, VMBuild, VMBuildError};
use scriptvm::exec;
use scriptvm::lexer::{Literal as Lit, Token};
use scriptvm::machine::{NumAnswer, NumRequest, Shown, Step, VMExec, VMExecError};
use scriptvm::opcode::OPCode;
use scriptvm::tree::{Declaration, Expression, Primary, Statement};
use scriptvm::value::Literal;
use scriptvm::LangErr;

fn answer(q: NumRequest) -> NumAnswer {
    match q {
        NumRequest::Arith(op, a, b) => {
            let (x, y) = (f64::from_bits(a), f64::from_bits(b));
            let v = match op {
                OPCode::ADD => x + y,
                OPCode::SUB => x - y,
                OPCode::MULTIPLY => x * y,
                _ => x / y,
            };
            NumAnswer::Num(v.to_bits())
        }
        NumRequest::Compare(op, a, b) => {
            let (x, y) = (f64::from_bits(a), f64::from_bits(b));
            NumAnswer::Bool(match op {
                OPCode::LT => x < y,
                OPCode::GT => x > y,
                OPCode::LTOREQ => x <= y,
                _ => x >= y,
            })
        }
        NumRequest::Show(n) => NumAnswer::Text(format!("{}", f64::from_bits(n)).into_bytes()),
        NumRequest::Count(n) => NumAnswer::Count(f64::from_bits(n) as usize),
    }
}

fn show(s: &Shown) -> String {
    match s {
        Shown::Literal(Literal::Num(n)) => format!("Num({:?})", f64::from_bits(*n)),
        Shown::Literal(Literal::Bool(b)) => format!("Bool({:?})", b),
        Shown::Literal(Literal::String(t)) => format!("String({:?})", String::from_utf8_lossy(t)),
        Shown::Literal(Literal::Nil) => "Nil".to_string(),
        Shown::Nil => "nil".to_string(),
        Shown::Empty => "None".to_string(),
    }
}

/// Drives a run to its end; gives the result and what was printed.
fn drive(vm: &mut VMExec, first: Result<Step, VMExecError>) -> (Result<String, VMExecError>, Vec<String>) {
    let mut printed = Vec::new();
    let mut step = first;
    loop {
        step = match step {
            Err(e) => return (Err(e), printed),
            Ok(Step::Finished(s)) => return (Ok(show(&s)), printed),
            Ok(Step::Print(s)) => {
                printed.push(show(&s));
                vm.proceed()
            }
            Ok(Step::Continue) => vm.proceed(),
            Ok(Step::Numeric(q)) => {
                let a = answer(q);
                assert!(vm.accepts(&a));
                vm.resume(a)
            }
        };
    }
}

fn num(x: f64) -> Expression {
    Expression::Primary(Primary::Literal(Lit::Num(x.to_bits())), 0)
}

fn text(s: &str) -> Expression {
    Expression::Primary(Primary::Literal(Lit::String(s.as_bytes().to_vec())), 0)
}

fn ident(s: &str, pos: i32) -> Expression {
    Expression::Primary(Primary::Identifier(s.as_bytes().to_vec()), pos)
}

fn bin(l: Expression, t: Token, pos: i32, r: Expression) -> Expression {
    Expression::Binary(Box::new(l), (t, pos), Box::new(r))
}

fn decl(e: Expression, is_statement: bool) -> Declaration {
    Declaration::Statement(Statement::ExpressionStmt(e, is_statement, 0), 0)
}

fn run_decls(decls: Vec<Declaration>, debug: bool) -> (Result<String, VMExecError>, Vec<String>) {
    let mut vm = VMExec::new();
    let options = BuildOptions { debug, code: false };
    match exec(&decls, "", options, &mut vm) {
        Err(LangErr::ExecErr(e)) => (Err(e), Vec::new()),
        Err(other) => panic!("build failed: {:?}", other),
        Ok(step) => drive(&mut vm, Ok(step)),
    }
}

fn run_expr(e: Expression) -> Result<String, VMExecError> {
    run_decls(vec![decl(e, false)], false).0
}

#[test]
fn it_works() {
    assert_eq!(2 + 2, 4);
}

#[test]
fn precedence_tree_evaluates_deepest_left_first() {
    let e = bin(num(2.0), Token::Plus, 2, bin(num(3.0), Token::Asterix, 6, num(4.0)));
    assert_eq!(run_expr(e), Ok("Num(14.0)".to_string()));
}

#[test]
fn print_statement_prints_and_leaves_empty_stack() {
    let e = Expression::PrintExpr(Box::new(bin(text("hi"), Token::Asterix, 11, num(2.0))), 0);
    let (res, printed) = run_decls(vec![decl(e, true)], false);
    assert_eq!(printed, vec!["String(\"hihi\")".to_string()]);
    assert_eq!(res, Ok("None".to_string()));
}

#[test]
fn table_string_plus_number() {
    assert_eq!(run_expr(bin(text("ab"), Token::Plus, 3, num(3.0))), Ok("String(\"ab3\")".to_string()));
    assert_eq!(run_expr(bin(num(3.0), Token::Plus, 3, text("ab"))), Ok("String(\"3ab\")".to_string()));
}

#[test]
fn table_string_times_number() {
    assert_eq!(run_expr(bin(text("x"), Token::Asterix, 3, num(3.0))), Ok("String(\"xxx\")".to_string()));
    assert_eq!(run_expr(bin(num(2.5), Token::Asterix, 3, text("ab"))), Ok("String(\"abab\")".to_string()));
    assert_eq!(run_expr(bin(text("x"), Token::Asterix, 3, num(0.0))), Ok("String(\"\")".to_string()));
}

#[test]
fn table_numbers() {
    assert_eq!(run_expr(bin(num(2.0), Token::Asterix, 1, num(3.0))), Ok("Num(6.0)".to_string()));
    assert_eq!(run_expr(bin(num(2.0), Token::Minus, 1, num(3.0))), Ok("Num(-1.0)".to_string()));
    assert_eq!(run_expr(bin(num(3.0), Token::Slash, 1, num(2.0))), Ok("Num(1.5)".to_string()));
    assert_eq!(run_expr(bin(num(2.0), Token::LtOrEq, 1, num(2.0))), Ok("Bool(true)".to_string()));
    assert_eq!(run_expr(bin(num(2.0), Token::Lt, 1, num(2.0))), Ok("Bool(false)".to_string()));
    assert_eq!(run_expr(bin(num(3.0), Token::Gt, 1, num(2.0))), Ok("Bool(true)".to_string()));
    assert_eq!(run_expr(bin(num(1.0), Token::GtOrEq, 1, num(2.0))), Ok("Bool(false)".to_string()));
}

#[test]
fn table_string_concat() {
    assert_eq!(run_expr(bin(text("ab"), Token::Plus, 1, text("cd"))), Ok("String(\"abcd\")".to_string()));
}

#[test]
fn unsupported_pair_reports_kinds_and_operator() {
    let b = Expression::Primary(Primary::Literal(Lit::Bool(true)), 0);
    let r = run_expr(bin(b, Token::Plus, 4, num(1.0)));
    assert_eq!(
        r,
        Err(VMExecError::UnsupportedOperation(Literal::Bool(true), Literal::Num(1.0f64.to_bits()), OPCode::ADD, -1))
    );
    let r = run_decls(vec![decl(bin(text("a"), Token::Minus, 4, text("b")), false)], true).0;
    assert_eq!(
        r,
        Err(VMExecError::UnsupportedOperation(
            Literal::String(b"a".to_vec()),
            Literal::String(b"b".to_vec()),
            OPCode::SUB,
            4
        ))
    );
}

#[test]
fn assignment_round_trip() {
    let decls = vec![
        decl(bin(ident("name", 0), Token::Equals, 5, num(5.0)), true),
        decl(ident("name", 9), false),
    ];
    assert_eq!(run_decls(decls, false).0, Ok("Num(5.0)".to_string()));
}

#[test]
fn reassignment_replaces_binding() {
    let decls = vec![
        decl(bin(ident("a", 0), Token::Equals, 2, num(1.0)), true),
        decl(bin(ident("b", 0), Token::Equals, 2, ident("a", 4)), true),
        decl(bin(ident("a", 0), Token::Equals, 2, num(7.0)), true),
        decl(Expression::PrintExpr(Box::new(ident("b", 6)), 0), true),
        decl(bin(ident("a", 0), Token::Plus, 2, ident("b", 4)), false),
    ];
    let (res, printed) = run_decls(decls, true);
    assert_eq!(printed, vec!["Num(1.0)".to_string()]);
    assert_eq!(res, Ok("Num(8.0)".to_string()));
}

#[test]
fn undefined_operand_fails() {
    let decls = vec![decl(bin(ident("ghost", 7), Token::Plus, 2, num(1.0)), false)];
    assert_eq!(run_decls(decls, true).0, Err(VMExecError::VariableNotDefined(b"ghost".to_vec(), 7)));
    let decls = vec![decl(bin(num(1.0), Token::Plus, 2, ident("ghost", 7)), false)];
    assert_eq!(run_decls(decls, false).0, Err(VMExecError::VariableNotDefined(b"ghost".to_vec(), 0)));
}

#[test]
fn undefined_result_is_nil() {
    assert_eq!(run_expr(ident("ghost", 0)), Ok("nil".to_string()));
}

#[test]
fn empty_program_result_is_none() {
    assert_eq!(run_decls(vec![], false).0, Ok("None".to_string()));
}

#[test]
fn stack_overflow_is_reported() {
    let mut vm = VMExec::with_capacity(2);
    let program = vec![
        OPCode::VERSION.byte(), 1, OPCode::META_END.byte(),
        OPCode::PUSH_NIL.byte(), OPCode::PUSH_NIL.byte(), OPCode::PUSH_NIL.byte(), OPCode::END.byte(),
    ];
    let first = vm.exec(program);
    assert_eq!(drive(&mut vm, first).0, Err(VMExecError::StackOverflow(5)));
}

#[test]
fn stack_underflow_is_reported() {
    let mut vm = VMExec::new();
    let program = vec![OPCode::META_END.byte(), OPCode::POP.byte(), OPCode::END.byte()];
    let first = vm.exec(program);
    assert_eq!(drive(&mut vm, first).0, Err(VMExecError::StackUnderflow(1)));
    let program = vec![OPCode::META_END.byte(), OPCode::PUSH_NIL.byte(), OPCode::ADD.byte(), OPCode::END.byte()];
    let first = vm.exec(program);
    assert_eq!(drive(&mut vm, first).0, Err(VMExecError::StackUnderflow(2)));
}

#[test]
fn bad_bytes_are_reported() {
    let mut vm = VMExec::new();
    let first = vm.exec(vec![OPCode::META_END.byte(), 0x50]);
    assert_eq!(drive(&mut vm, first).0, Err(VMExecError::InvalidOPCode(0x50, 1)));
    let first = vm.exec(vec![OPCode::META_END.byte(), OPCode::NULL.byte()]);
    assert_eq!(drive(&mut vm, first).0, Err(VMExecError::UnsupportedOPCode(OPCode::NULL, 1)));
    let first = vm.exec(vec![OPCode::PUSH_NIL.byte()]);
    assert_eq!(drive(&mut vm, first).0, Err(VMExecError::UnsupportedOPCode(OPCode::PUSH_NIL, 0)));
    let first = vm.exec(vec![OPCode::META_END.byte(), OPCode::PUSH_NUM.byte(), 1, 2]);
    assert_eq!(drive(&mut vm, first).0, Err(VMExecError::InvalidOperationContent(1)));
    let first = vm.exec(vec![OPCode::META_END.byte(), OPCode::PUSH_NIL.byte()]);
    assert_eq!(drive(&mut vm, first).0, Err(VMExecError::InvalidOperationContent(2)));
    let first = vm.exec(vec![OPCode::META_END.byte(), OPCode::PUSH_NIL.byte(), OPCode::PUSH_VAR.byte(), OPCode::END.byte()]);
    assert_eq!(drive(&mut vm, first).0, Err(VMExecError::InvalidIdentifier(2)));
}

#[test]
fn build_writes_exact_bytes() {
    let e = bin(ident("a", 3), Token::Equals, 5, num(1.0));
    let decls = vec![decl(e, true)];
    let mut b = VMBuild::new();
    let bytes = b.build(&decls, "a=1", BuildOptions { debug: true, code: true }).unwrap();
    let mut expected = vec![
        OPCode::VERSION.byte(), 1, OPCode::DEBUG.byte(), OPCode::DEBUG_CODE.byte(), b'a', b'=', b'1',
        OPCode::DEBUG_CODE_END.byte(), OPCode::META_END.byte(),
        OPCode::PUSH_STRING.byte(), b'a', OPCode::NULL.byte(), OPCode::PUSH_VAR.byte(), 3,
        OPCode::PUSH_NUM.byte(),
    ];
    expected.extend_from_slice(&1.0f64.to_bits().to_le_bytes());
    expected.extend_from_slice(&[OPCode::ASSIGN.byte(), 5, OPCode::POP.byte(), OPCode::END.byte()]);
    assert_eq!(bytes, expected);
    let plain = b.build(&decls, "a=1", BuildOptions { debug: false, code: false }).unwrap();
    let mut expected = vec![
        OPCode::VERSION.byte(), 1, OPCode::META_END.byte(),
        OPCode::PUSH_STRING.byte(), b'a', OPCode::NULL.byte(), OPCode::PUSH_VAR.byte(),
        OPCode::PUSH_NUM.byte(),
    ];
    expected.extend_from_slice(&1.0f64.to_bits().to_le_bytes());
    expected.extend_from_slice(&[OPCode::ASSIGN.byte(), OPCode::POP.byte(), OPCode::END.byte()]);
    assert_eq!(plain, expected);
}

#[test]
fn embedded_source_is_read_back() {
    let mut b = VMBuild::new();
    let decls = vec![decl(num(1.0), false)];
    let bytes = b.build(&decls, "1", BuildOptions { debug: false, code: true }).unwrap();
    let mut vm = VMExec::new();
    let first = vm.exec(bytes);
    assert_eq!(drive(&mut vm, first).0, Ok("Num(1.0)".to_string()));
    assert_eq!(vm.query(), &b"1".to_vec());
}

#[test]
fn build_errors() {
    let mut b = VMBuild::new();
    let decls = vec![decl(bin(num(1.0), Token::Dot, 8, num(2.0)), false)];
    assert_eq!(
        b.build(&decls, "", BuildOptions { debug: false, code: false }),
        Err(VMBuildError::UnsupportedOperator(Token::Dot, 8))
    );
    let v = Expression::Primary(Primary::Literal(Lit::Variable(b"x".to_vec())), 6);
    let decls = vec![decl(v, false)];
    assert_eq!(
        b.build(&decls, "", BuildOptions { debug: false, code: false }),
        Err(VMBuildError::UnsupportedType(6))
    );
    let mut vm = VMExec::new();
    let r = exec(&decls, "", BuildOptions { debug: false, code: false }, &mut vm);
    assert_eq!(r, Err(LangErr::BuildErr(VMBuildError::UnsupportedType(6))));
}

#[test]
fn opcode_bytes_round_trip() {
    for b in 0u8..=255 {
        if let Some(op) = OPCode::from_byte(b) {
            assert_eq!(op.byte(), b);
        }
    }
    assert_eq!(OPCode::from_byte(OPCode::PUSH_STRING.byte()), Some(OPCode::PUSH_STRING));
    assert_eq!(OPCode::from_byte(0x42), None);
}

#[test]
fn cast_bool_resolves_variables() {
    let mut vm = VMExec::new();
    let program = vec![
        OPCode::META_END.byte(), OPCode::PUSH_STRING.byte(), b'f', OPCode::NULL.byte(), OPCode::PUSH_VAR.byte(),
        OPCode::PUSH_BOOL.byte(), 1, OPCode::ASSIGN.byte(),
        OPCode::PUSH_STRING.byte(), b'f', OPCode::NULL.byte(), OPCode::PUSH_VAR.byte(), OPCode::PRINT.byte(),
        OPCode::PUSH_NIL.byte(), OPCode::PRINT.byte(), OPCode::END.byte(),
    ];
    let first = vm.exec(program);
    assert!(matches!(first, Ok(Step::Print(_))));
    let top = vm.peek().unwrap();
    assert_eq!(vm.cast_bool(top, Some(3)), Ok(true));
    let next = vm.proceed();
    assert!(matches!(next, Ok(Step::Print(Shown::Literal(Literal::Nil)))));
    let top = vm.peek().unwrap();
    assert_eq!(vm.cast_bool(top, Some(3)), Err(VMExecError::InvalidCast(Literal::Nil, 3)));
}

#[test]
fn not_defined_names_the_variable() {
    let vm = VMExec::new();
    assert_eq!(vm.not_defined("ghost", Some(4)), Err(VMExecError::VariableNotDefined(b"ghost".to_vec(), 4)));
    assert_eq!(vm.not_defined("x", None), Err(VMExecError::VariableNotDefined(b"x".to_vec(), 0)));
}

#[test]
fn debug_build_runs_with_positions() {
    let decls = vec![
        decl(bin(ident("n", 0), Token::Equals, 2, num(2.0)), true),
        decl(bin(ident("n", 4), Token::Asterix, 6, num(21.0)), false),
    ];
    let mut b = VMBuild::new();
    let bytes = b.build(&decls, "n = 2; n * 21", BuildOptions { debug: true, code: true }).unwrap();
    let mut vm = VMExec::new();
    let first = vm.exec(bytes);
    assert_eq!(drive(&mut vm, first).0, Ok("Num(42.0)".to_string()));
    assert_eq!(vm.query(), &b"n = 2; n * 21".to_vec());
}
