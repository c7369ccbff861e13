//! Lowering of expression trees to bytecode.
use crate::parser::Expr;
use crate::scanner::Token;
use crate::vm::Bytecode;
use vstd::prelude::*;

verus! {

broadcast use vstd::std_specs::vec::axiom_vec_index_decreases;

/// Why an expression could not be lowered.
#[derive(Debug, Clone, PartialEq)]
pub enum CompileError {
    /// An operator other than unary `-` or binary `+ - * /`.
    UnsupportedOperator,
    /// A bare variable reference: no pass assigns names to memory slots.
    UnboundIdentifier(String),
}

/// The instructions that evaluate `e`, leaving its value on the stack. Function
/// definitions lower to nothing.
pub open spec fn lower(e: Expr) -> Result<Seq<Bytecode>, CompileError>
    decreases e, 0nat,
{
    match e {
        Expr::Number(v) => Ok(seq![Bytecode::LoadConst(v)]),
        Expr::Ident(name) => Err(CompileError::UnboundIdentifier(name)),
        Expr::UnaryOp { op, rhs } => match lower(*rhs) {
            Err(err) => Err(err),
            Ok(c) => if op is Minus {
                Ok(c.push(Bytecode::Neg))
            } else {
                Err(CompileError::UnsupportedOperator)
            },
        },
        Expr::BinaryOp { lhs, op, rhs } => match lower(*lhs) {
            Err(err) => Err(err),
            Ok(cl) => match lower(*rhs) {
                Err(err) => Err(err),
                Ok(cr) => match binary_instruction(op) {
                    Some(i) => Ok(cl + cr.push(i)),
                    None => Err(CompileError::UnsupportedOperator),
                },
            },
        },
        Expr::Call { name, args } => match lower_all(args, args.len() as int) {
            Err(err) => Err(err),
            Ok(c) => Ok(c.push(Bytecode::Call(name, args.len()))),
        },
        Expr::Function { .. } => Ok(Seq::empty()),
    }
}

/// The instructions of the first `n` arguments, left to right.
pub open spec fn lower_all(args: Vec<Expr>, n: int) -> Result<Seq<Bytecode>, CompileError>
    decreases args, n,
{
    if n <= 0 || n > args.len() {
        Ok(Seq::empty())
    } else {
        match lower_all(args, n - 1) {
            Err(err) => Err(err),
            Ok(c) => match lower(args[n - 1]) {
                Err(err) => Err(err),
                Ok(d) => Ok(c + d),
            },
        }
    }
}

pub open spec fn binary_instruction(op: Token) -> Option<Bytecode> {
    match op {
        Token::Plus => Some(Bytecode::Add),
        Token::Minus => Some(Bytecode::Sub),
        Token::Star => Some(Bytecode::Mul),
        Token::Slash => Some(Bytecode::Div),
        _ => None,
    }
}

/// The whole program for `e`: its instructions followed by `Halt`.
pub open spec fn compile_spec(e: Expr) -> Result<Seq<Bytecode>, CompileError> {
    match lower(e) {
        Err(err) => Err(err),
        Ok(c) => Ok(c.push(Bytecode::Halt)),
    }
}

proof fn lemma_lower_all_err(args: Vec<Expr>, k: int, m: int)
    requires
        0 < k <= m <= args.len(),
        lower_all(args, k) is Err,
    ensures
        lower_all(args, m) == lower_all(args, k),
    decreases m - k,
{
    if m > k {
        lemma_lower_all_err(args, k, m - 1);
    }
}

/// Lowers an expression tree to a sequence of instructions.
pub trait Compiler {
    /// The instruction type emitted.
    type Instruction;

    /// The program that `compile` produces for `expr`, or the reason it fails.
    spec fn lowering(expr: Expr) -> Result<Seq<Self::Instruction>, CompileError>;

    fn compile(expr: &Expr) -> (r: Result<Vec<Self::Instruction>, CompileError>)
        ensures
            match r {
                Ok(code) => Self::lowering(*expr) == Ok::<_, CompileError>(code@),
                Err(e) => Self::lowering(*expr) == Err::<Seq<Self::Instruction>, _>(e),
            },
    ;
}

/// The compiler that emits `Bytecode` for the stack machine.
pub struct BytecodeCompiler;

impl BytecodeCompiler {
    /// Lowers `expr` and appends `Halt`.
    pub fn compile(expr: &Expr) -> (r: Result<Vec<Bytecode>, CompileError>)
        ensures
            match r {
                Ok(code) => compile_spec(*expr) == Ok::<_, CompileError>(code@),
                Err(e) => compile_spec(*expr) == Err::<Seq<Bytecode>, _>(e),
            },
    {
        let mut code: Vec<Bytecode> = Vec::new();
        match Bytecode::compile_expr(expr, &mut code) {
            Err(e) => Err(e),
            Ok(()) => {
                code.push(Bytecode::Halt);
                Ok(code)
            },
        }
    }
}

impl Compiler for BytecodeCompiler {
    type Instruction = Bytecode;

    open spec fn lowering(expr: Expr) -> Result<Seq<Bytecode>, CompileError> {
        compile_spec(expr)
    }

    fn compile(expr: &Expr) -> (r: Result<Vec<Bytecode>, CompileError>) {
        BytecodeCompiler::compile(expr)
    }
}

impl Bytecode {
    /// Appends the instructions that evaluate `expr` to `code`.
    pub fn compile_expr(expr: &Expr, code: &mut Vec<Bytecode>) -> (r: Result<(), CompileError>)
        ensures
            match lower(*expr) {
                Ok(c) => r is Ok && final(code)@ == old(code)@ + c,
                Err(e) => r == Err::<(), _>(e),
            },
        decreases expr,
    {
        match expr {
            Expr::Number(n) => {
                code.push(Bytecode::LoadConst(*n));
                Ok(())
            },
            Expr::Ident(name) => Err(CompileError::UnboundIdentifier(name.clone())),
            Expr::UnaryOp { op, rhs } => {
                match Bytecode::compile_expr(rhs, code) {
                    Err(e) => Err(e),
                    Ok(()) => match op {
                        Token::Minus => {
                            code.push(Bytecode::Neg);
                            Ok(())
                        },
                        _ => Err(CompileError::UnsupportedOperator),
                    },
                }
            },
            Expr::BinaryOp { lhs, op, rhs } => {
                let ghost c0 = code@;
                match Bytecode::compile_expr(lhs, code) {
                    Err(e) => Err(e),
                    Ok(()) => match Bytecode::compile_expr(rhs, code) {
                        Err(e) => Err(e),
                        Ok(()) => {
                            let i = match op {
                                Token::Plus => Bytecode::Add,
                                Token::Minus => Bytecode::Sub,
                                Token::Star => Bytecode::Mul,
                                Token::Slash => Bytecode::Div,
                                _ => {
                                    return Err(CompileError::UnsupportedOperator);
                                },
                            };
                            code.push(i);
                            proof {
                                let cl = lower(**lhs)->Ok_0;
                                let cr = lower(**rhs)->Ok_0;
                                assert(code@ =~= c0 + (cl + cr.push(i)));
                            }
                            Ok(())
                        },
                    },
                }
            },
            Expr::Call { name, args } => {
                let ghost c0 = code@;
                let mut i: usize = 0;
                while i < args.len()
                    invariant
                        i <= args.len(),
                        *expr == (Expr::Call { name: *name, args: *args }),
                        lower_all(*args, i as int) is Ok,
                        code@ == c0 + lower_all(*args, i as int)->Ok_0,
                    decreases args.len() - i,
                {
                    let ghost before = code@;
                    match Bytecode::compile_expr(&args[i], code) {
                        Err(e) => {
                            proof {
                                lemma_lower_all_err(*args, i + 1, args.len() as int);
                            }
                            return Err(e);
                        },
                        Ok(()) => {},
                    }
                    proof {
                        assert(code@ =~= c0 + lower_all(*args, i + 1)->Ok_0);
                    }
                    i = i + 1;
                }
                code.push(Bytecode::Call(name.clone(), args.len()));
                proof {
                    assert(code@ =~= c0 + lower_all(*args, args.len() as int)->Ok_0.push(
                        Bytecode::Call(*name, args.len()),
                    ));
                }
                Ok(())
            },
            Expr::Function { .. } => {
                proof {
                    assert(code@ =~= code@ + Seq::<Bytecode>::empty());
                }
                Ok(())
            },
        }
    }
}

} // verus!
