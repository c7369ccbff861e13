use parallelized_programming_language::compiler::{BytecodeCompiler, CompileError};
use parallelized_programming_language::num::Num;
use parallelized_programming_language::parse_expr;
use parallelized_programming_language::parser::Expr;
use parallelized_programming_language::scanner::{Scanner, Token};
use parallelized_programming_language::vm::{Bytecode, RunError, RuntimeError, VM};

fn num(x: f64) -> Num {
    Num::from_bits(x.to_bits())
}

fn val(n: Num) -> f64 {
    f64::from_bits(n.to_bits())
}

/// Renders a tree the way the derived `Debug` renders one with `f64` literals.
fn show(e: &Expr) -> String {
    match e {
        Expr::Number(n) => format!("Number({:?})", val(*n)),
        Expr::Ident(s) => format!("Ident({:?})", s),
        Expr::UnaryOp { op, rhs } => format!("UnaryOp {{ op: {:?}, rhs: {} }}", op, show(rhs)),
        Expr::BinaryOp { lhs, op, rhs } => {
            format!("BinaryOp {{ lhs: {}, op: {:?}, rhs: {} }}", show(lhs), op, show(rhs))
        }
        Expr::Call { name, args } => {
            let a: Vec<String> = args.iter().map(show).collect();
            format!("Call {{ name: {:?}, args: [{}] }}", name, a.join(", "))
        }
        Expr::Function { name, params, body } => {
            let b: Vec<String> = body.iter().map(show).collect();
            format!("Function {{ name: {:?}, params: {:?}, body: [{}] }}", name, params, b.join(", "))
        }
    }
}

fn run_source(code: &str) -> f64 {
    let expr = parse_expr(code).unwrap();
    let bytecode = BytecodeCompiler::compile(&expr).unwrap();
    val(VM::run(bytecode).unwrap())
}

#[test]
fn full_pipeline_basic() {
    let expr = parse_expr("7 * (8 + 9) - 3").unwrap();
    let debug = show(&expr);
    assert!(debug.contains("BinaryOp"));
    assert!(debug.contains("Number(7.0)"));
    assert!(debug.contains("Number(9.0)"));
}

#[test]
fn full_pipeline_negative() {
    let expr = parse_expr("-1 + 5").unwrap();
    let debug = show(&expr);
    assert!(debug.contains("UnaryOp"));
    assert!(debug.contains("Number(1.0)"));
}

#[test]
fn full_pipeline_multiple_ops() {
    let expr = parse_expr("1+2*3-4/2").unwrap();
    let debug = show(&expr);
    assert!(debug.contains("BinaryOp"));
    assert!(debug.contains("Star"));
    assert!(debug.contains("Slash"));
}

#[test]
fn integration_parse_simple_expr() {
    let code = "10 - 4";
    let expr = parse_expr(code).unwrap();
    let bytecode = BytecodeCompiler::compile(&expr).unwrap();
    let result = VM::run(bytecode).unwrap();
    assert_eq!(val(result), 6.);
}

#[test]
fn integration_parse_pipeline_in_main() {
    let code = "1 + 2 * (3 - 4)";
    let expr = parse_expr(code).unwrap();
    let bytecode = BytecodeCompiler::compile(&expr).unwrap();
    let result = VM::run(bytecode).unwrap();
    assert_eq!(val(result) as i64, -1_i64);
}

#[test]
fn integration_scan_sequence() {
    let code = "foo = 42; // comment \n spawn";
    let mut scanner = Scanner::new(code);
    let tokens: Vec<Token> = std::iter::from_fn(|| Some(scanner.next_token().unwrap()))
        .take_while(|t| *t != Token::Eof)
        .collect();
    assert_eq!(
        tokens,
        vec![
            Token::Identifier("foo".into()),
            Token::Assign,
            Token::Number(num(42.)),
            Token::Semicolon,
            Token::KeywordSpawn,
        ]
    );
}

#[test]
fn integration_scan_all_tokens() {
    let code = "(1+2)*3 - jz 100;";
    let mut scanner = Scanner::new(code);
    let mut tokens = Vec::new();
    loop {
        let t = scanner.next_token().unwrap();
        tokens.push(t.clone());
        if t == Token::Eof {
            break;
        }
    }
    assert_eq!(tokens.last(), Some(&Token::Eof));
    assert!(tokens.contains(&Token::LParen));
    assert!(tokens.contains(&Token::KeywordJz));
}

#[test]
fn integration_native_print() {
    let expr = parse_expr("print(123)").unwrap();
    let bytecode = BytecodeCompiler::compile(&expr).unwrap();
    let mut vm = VM::new(bytecode);
    let _ = vm.execute();
    assert_eq!(vm.output, vec![vec![num(123.0)]]);
}

#[test]
fn integration_user_function() {
    let bytecode = vec![
        Bytecode::LoadConst(num(10.0)),
        Bytecode::StoreVar(0),
        Bytecode::Call("add1".to_string(), 1),
        Bytecode::Halt,
        Bytecode::LoadVar(0),
        Bytecode::LoadConst(num(1.0)),
        Bytecode::Add,
        Bytecode::Return,
    ];
    let mut vm = VM::new(bytecode);
    vm.user_functions.insert("add1".to_string(), 4);
    let _ = vm.execute();
    assert_eq!(vm.stack.pop(), Some(num(11.0)));
}

#[test]
fn seven_times_sum_minus_three_tree() {
    let expr = parse_expr("7 * (8 + 9) - 3").unwrap();
    match expr {
        Expr::BinaryOp { lhs, op: Token::Minus, rhs } => {
            assert_eq!(*rhs, Expr::Number(num(3.0)));
            let left = show(&lhs);
            assert!(left.contains("Number(7.0)"));
            assert!(left.contains("Number(9.0)"));
        }
        other => panic!("unexpected tree {}", show(&other)),
    }
    assert_eq!(run_source("7 * (8 + 9) - 3"), 116.0);
}

#[test]
fn precedence_and_unary_minus() {
    assert_eq!(run_source("1 + 2 * (3 - 4)"), -1.0);
    assert_eq!(run_source("-2+3"), 1.0);
    assert_eq!(run_source("2 * 3 + 4 * 5"), 26.0);
    assert_eq!(run_source("1.5 * 4 / 3"), 2.0);
    assert_eq!(run_source("10 - 4 - 3"), 3.0);
    assert_eq!(run_source("8 / 2 / 2"), 2.0);
    assert_eq!(run_source("1+2*3-4/2"), 5.0);
    assert_eq!(run_source("2 - -3 - 1"), 4.0);
}

#[test]
fn compile_emits_postfix_code_and_halt() {
    let expr = parse_expr("-1 + 5").unwrap();
    assert_eq!(
        BytecodeCompiler::compile(&expr).unwrap(),
        vec![
            Bytecode::LoadConst(num(1.0)),
            Bytecode::Neg,
            Bytecode::LoadConst(num(5.0)),
            Bytecode::Add,
            Bytecode::Halt,
        ]
    );
    let call = parse_expr("f(1, 2)").unwrap();
    assert_eq!(
        BytecodeCompiler::compile(&call).unwrap(),
        vec![
            Bytecode::LoadConst(num(1.0)),
            Bytecode::LoadConst(num(2.0)),
            Bytecode::Call("f".to_string(), 2),
            Bytecode::Halt,
        ]
    );
}

#[test]
fn compile_is_deterministic() {
    let a = parse_expr("(1+2)*3 - f(4)").unwrap();
    let b = parse_expr("(1+2)*3 - f(4)").unwrap();
    assert_eq!(a, b);
    assert_eq!(BytecodeCompiler::compile(&a), BytecodeCompiler::compile(&b));
}

#[test]
fn identifiers_do_not_compile() {
    let expr = parse_expr("x + 1").unwrap();
    assert_eq!(BytecodeCompiler::compile(&expr), Err(CompileError::UnboundIdentifier("x".to_string())));
}

#[test]
fn unsupported_operators_do_not_compile() {
    let unary = Expr::UnaryOp { op: Token::Plus, rhs: Box::new(Expr::Number(num(1.0))) };
    assert_eq!(BytecodeCompiler::compile(&unary), Err(CompileError::UnsupportedOperator));
    let binary = Expr::BinaryOp {
        lhs: Box::new(Expr::Number(num(1.0))),
        op: Token::Assign,
        rhs: Box::new(Expr::Number(num(2.0))),
    };
    assert_eq!(BytecodeCompiler::compile(&binary), Err(CompileError::UnsupportedOperator));
}

#[test]
fn function_definitions_compile_to_nothing() {
    let expr = parse_expr("fn f(a) { a }").unwrap();
    assert_eq!(BytecodeCompiler::compile(&expr), Ok(vec![Bytecode::Halt]));
}

#[test]
fn run_expr_goes_through_the_compiler() {
    let expr = parse_expr("10 - 4").unwrap();
    assert_eq!(VM::run_expr::<BytecodeCompiler>(&expr), Ok(num(6.0)));
    let bad = parse_expr("y").unwrap();
    assert_eq!(
        VM::run_expr::<BytecodeCompiler>(&bad),
        Err(RunError::Compile(CompileError::UnboundIdentifier("y".to_string())))
    );
    let faulty = Expr::Call { name: "g".to_string(), args: vec![] };
    assert_eq!(VM::run_expr::<BytecodeCompiler>(&faulty), Ok(num(0.0)));
    let _ = RuntimeError::StackUnderflow;
}
