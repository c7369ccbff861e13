//! The bytecode instruction set and the stack machine that executes it.
use crate::compiler::{CompileError, Compiler};
use crate::num::{is_zero_bits, neg_bits, Num};
use crate::parser::Expr;
use vstd::hash_map::{HashMapWithView, StringHashMap};
use vstd::prelude::*;

verus! {

broadcast use vstd::std_specs::hash::group_hash_axioms;

/// One instruction of the virtual machine. Jump and call targets are absolute
/// instruction indices.
#[derive(Debug, Clone, PartialEq)]
pub enum Bytecode {
    Neg,
    Add,
    Sub,
    Mul,
    Div,
    LoadConst(Num),
    LoadVar(usize),
    StoreVar(usize),
    Spawn,
    Sync,
    Barrier,
    Jump(usize),
    JumpIfZero(usize),
    JumpIfNotZero(usize),
    Pop,
    Dup,
    Call(String, usize),
    Return,
    Halt,
}

/// A fatal execution fault. Calling an unknown function is not one: it is skipped.
#[derive(Debug, Clone, Copy, PartialEq, Eq, Structural)]
pub enum RuntimeError {
    /// An instruction needed more values than the stack holds (a native call included),
    /// or `Return` found no caller.
    StackUnderflow,
    /// `LoadVar` named a memory slot that was never written.
    UnboundVariable(usize),
}

/// Where the machine stands after an instruction.
#[derive(Debug, Clone, Copy, PartialEq, Eq, Structural)]
pub enum Status {
    /// More instructions remain to be run.
    Running,
    /// A `Halt` instruction was reached.
    Halted,
    /// The program counter is past the last instruction.
    Finished,
}

/// A function provided by the host rather than written in bytecode.
#[derive(Debug, Clone, Copy, PartialEq, Eq, Structural)]
pub enum Native {
    /// Records its arguments as one line of output and returns `0.0`.
    Print,
}

/// The part of the machine that instructions change.
pub struct MachineState {
    pub stack: Seq<Num>,
    pub memory: Map<usize, Num>,
    pub pc: usize,
    /// Results of spawned units of work not yet collected, in spawn order.
    pub pending: Seq<Num>,
    /// Return addresses of the calls in progress, innermost last.
    pub frames: Seq<usize>,
    /// The argument lists that `Print` was called with, in call order.
    pub output: Seq<Seq<Num>>,
}

/// What the machine runs: its instructions and its two function registries.
pub struct Program {
    pub code: Seq<Bytecode>,
    pub users: Map<Seq<char>, usize>,
    pub natives: Map<Seq<char>, Native>,
}

pub open spec fn zero() -> Num {
    Num { bits: 0 }
}

pub open spec fn arith(op: Bytecode, a: Num, b: Num) -> Num {
    match op {
        Bytecode::Add => Num { bits: crate::num::f64_sum(a.bits, b.bits) },
        Bytecode::Sub => Num { bits: crate::num::f64_difference(a.bits, b.bits) },
        Bytecode::Mul => Num { bits: crate::num::f64_product(a.bits, b.bits) },
        _ => Num { bits: crate::num::f64_quotient(a.bits, b.bits) },
    }
}

/// The argument list of a native call with `argc` arguments: the top `argc` values of the
/// stack, in push order.
pub open spec fn native_args(stack: Seq<Num>, argc: usize) -> Seq<Num> {
    stack.subrange(stack.len() - argc, stack.len() as int)
}

/// The stack without a native call's arguments.
pub open spec fn native_popped(stack: Seq<Num>, argc: usize) -> Seq<Num> {
    stack.subrange(0, stack.len() - argc)
}

pub open spec fn next(s: MachineState) -> MachineState {
    MachineState { pc: (s.pc + 1) as usize, ..s }
}

pub open spec fn with_stack(s: MachineState, stack: Seq<Num>) -> MachineState {
    MachineState { stack, pc: (s.pc + 1) as usize, ..s }
}

/// One instruction: the state after it and how the machine stands. On a fault the state
/// is the one before the instruction.
pub open spec fn step_spec(p: Program, s: MachineState) -> (MachineState, Result<Status, RuntimeError>) {
    if s.pc >= p.code.len() {
        (s, Ok(Status::Finished))
    } else {
        let len = s.stack.len();
        let ok = Ok(Status::Running);
        let under = (s, Err(RuntimeError::StackUnderflow));
        match p.code[s.pc as int] {
            Bytecode::Neg => if len < 1 {
                under
            } else {
                (with_stack(s, s.stack.drop_last().push(Num { bits: neg_bits(s.stack.last().bits) })), ok)
            },
            Bytecode::LoadConst(v) => (with_stack(s, s.stack.push(v)), ok),
            Bytecode::LoadVar(i) => if s.memory.contains_key(i) {
                (with_stack(s, s.stack.push(s.memory[i])), ok)
            } else {
                (s, Err(RuntimeError::UnboundVariable(i)))
            },
            Bytecode::StoreVar(i) => if len < 1 {
                under
            } else {
                (MachineState {
                    memory: s.memory.insert(i, s.stack.last()),
                    ..with_stack(s, s.stack.drop_last())
                }, ok)
            },
            Bytecode::Spawn => {
                let v = if len > 0 { s.stack.last() } else { zero() };
                (MachineState { pending: s.pending.push(v), ..next(s) }, ok)
            },
            Bytecode::Sync => (MachineState { pending: Seq::empty(), ..with_stack(s, s.pending) }, ok),
            Bytecode::Barrier => (MachineState { pending: Seq::empty(), ..next(s) }, ok),
            Bytecode::Jump(t) => (MachineState { pc: t, ..s }, ok),
            Bytecode::JumpIfZero(t) => if len < 1 {
                under
            } else if is_zero_bits(s.stack.last().bits) {
                (MachineState { pc: t, ..s }, ok)
            } else {
                (next(s), ok)
            },
            Bytecode::JumpIfNotZero(t) => if len < 1 {
                under
            } else if !is_zero_bits(s.stack.last().bits) {
                (MachineState { pc: t, ..s }, ok)
            } else {
                (next(s), ok)
            },
            Bytecode::Pop => if len < 1 {
                (next(s), ok)
            } else {
                (with_stack(s, s.stack.drop_last()), ok)
            },
            Bytecode::Dup => if len < 1 {
                under
            } else {
                (with_stack(s, s.stack.push(s.stack.last())), ok)
            },
            Bytecode::Call(name, argc) => if p.natives.contains_key(name@) && argc > len {
                under
            } else if p.natives.contains_key(name@) {
                let args = native_args(s.stack, argc);
                (MachineState {
                    output: s.output.push(args),
                    ..with_stack(s, native_popped(s.stack, argc).push(zero()))
                }, ok)
            } else if p.users.contains_key(name@) {
                (MachineState { pc: p.users[name@], frames: s.frames.push((s.pc + 1) as usize), ..s }, ok)
            } else {
                (next(s), ok)
            },
            Bytecode::Return => if len < 1 || s.frames.len() < 1 {
                under
            } else {
                (MachineState {
                    pc: s.frames.last(),
                    frames: s.frames.drop_last(),
                    ..s
                }, ok)
            },
            Bytecode::Halt => (s, Ok(Status::Halted)),
            op => if len < 2 {
                under
            } else {
                let a = s.stack[len - 2];
                let b = s.stack[len - 1];
                (with_stack(s, s.stack.drop_last().drop_last().push(arith(op, a, b))), ok)
            },
        }
    }
}

/// At most `fuel` instructions, stopping early at a fault, a `Halt` or the end of the code.
pub open spec fn run_spec(p: Program, s: MachineState, fuel: nat) -> (MachineState, Result<Status, RuntimeError>)
    decreases fuel,
{
    if fuel == 0 {
        (s, Ok(Status::Running))
    } else {
        let (s2, r) = step_spec(p, s);
        if r == Ok::<Status, RuntimeError>(Status::Running) {
            run_spec(p, s2, (fuel - 1) as nat)
        } else {
            (s2, r)
        }
    }
}

/// The top of the stack, or `0.0` when it is empty.
pub open spec fn top_or_zero(stack: Seq<Num>) -> Num {
    if stack.len() > 0 { stack.last() } else { zero() }
}

pub open spec fn initial_state() -> MachineState {
    MachineState {
        stack: Seq::empty(),
        memory: Map::empty(),
        pc: 0,
        pending: Seq::empty(),
        frames: Seq::empty(),
        output: Seq::empty(),
    }
}

pub open spec fn default_natives() -> Map<Seq<char>, Native> {
    Map::empty().insert("print"@, Native::Print)
}

/// The stack machine: one instance executes one program.
pub struct VM {
    pub stack: Vec<Num>,
    pub memory: HashMapWithView<usize, Num>,
    pub pc: usize,
    pub bytecode: Vec<Bytecode>,
    /// Results of spawned units of work, in spawn order, until `Sync` or `Barrier`.
    pub pending: Vec<Num>,
    /// Return addresses of the calls in progress.
    pub frames: Vec<usize>,
    /// Each `Print` call's arguments, for the host to display.
    pub output: Vec<Vec<Num>>,
    /// User-defined functions: name to entry address.
    pub user_functions: StringHashMap<usize>,
    /// Host functions, looked up before user-defined ones.
    pub native_functions: StringHashMap<Native>,
}

impl VM {
    pub open spec fn state(&self) -> MachineState {
        MachineState {
            stack: self.stack@,
            memory: self.memory@,
            pc: self.pc,
            pending: self.pending@,
            frames: self.frames@,
            output: self.output@.map_values(|v: Vec<Num>| v@),
        }
    }

    pub open spec fn program(&self) -> Program {
        Program { code: self.bytecode@, users: self.user_functions@, natives: self.native_functions@ }
    }

    /// A fresh machine at instruction 0 with empty stack and memory, no user functions,
    /// and `print` as the one native function.
    pub fn new(bytecode: Vec<Bytecode>) -> (r: VM)
        ensures
            r.state() == initial_state(),
            r.program() == (Program { code: bytecode@, users: Map::empty(), natives: default_natives() }),
    {
        let mut native_functions = StringHashMap::new();
        native_functions.insert(String::from_str("print"), Native::Print);
        let r = VM {
            stack: Vec::new(),
            memory: HashMapWithView::new(),
            pc: 0,
            bytecode,
            pending: Vec::new(),
            frames: Vec::new(),
            output: Vec::new(),
            user_functions: StringHashMap::new(),
            native_functions,
        };
        proof {
            reveal_strlit("print");
            assert(r.state().output =~= Seq::<Seq<Num>>::empty());
        }
        r
    }
}


impl VM {
    /// Runs the instruction at the program counter.
    pub fn step(&mut self) -> (r: Result<Status, RuntimeError>)
        ensures
            final(self).program() == old(self).program(),
            (final(self).state(), r) == step_spec(old(self).program(), old(self).state()),
    {
        let ghost p = self.program();
        let ghost s = self.state();
        if self.pc >= self.bytecode.len() {
            return Ok(Status::Finished);
        }
        let len = self.stack.len();
        let pc = self.pc;
        match &self.bytecode[pc] {
            Bytecode::Neg => {
                if len < 1 {
                    return Err(RuntimeError::StackUnderflow);
                }
                let v = self.stack.pop().unwrap();
                self.stack.push(v.neg());
                self.pc = pc + 1;
            },
            Bytecode::Add | Bytecode::Sub | Bytecode::Mul | Bytecode::Div => {
                if len < 2 {
                    return Err(RuntimeError::StackUnderflow);
                }
                let b = self.stack.pop().unwrap();
                let a = self.stack.pop().unwrap();
                let v = match &self.bytecode[pc] {
                    Bytecode::Add => a.add(b),
                    Bytecode::Sub => a.sub(b),
                    Bytecode::Mul => a.mul(b),
                    _ => a.div(b),
                };
                self.stack.push(v);
                self.pc = pc + 1;
            },
            Bytecode::LoadConst(v) => {
                self.stack.push(*v);
                self.pc = pc + 1;
            },
            Bytecode::LoadVar(i) => {
                match self.memory.get(i) {
                    Some(v) => {
                        let v = *v;
                        self.stack.push(v);
                        self.pc = pc + 1;
                    },
                    None => {
                        return Err(RuntimeError::UnboundVariable(*i));
                    },
                }
            },
            Bytecode::StoreVar(i) => {
                if len < 1 {
                    return Err(RuntimeError::StackUnderflow);
                }
                let v = self.stack.pop().unwrap();
                self.memory.insert(*i, v);
                self.pc = pc + 1;
            },
            Bytecode::Spawn => {
                let v = if len > 0 {
                    self.stack[len - 1]
                } else {
                    Num::zero()
                };
                self.pending.push(v);
                self.pc = pc + 1;
            },
            Bytecode::Sync => {
                self.stack.clear();
                self.stack.append(&mut self.pending);
                self.pc = pc + 1;
            },
            Bytecode::Barrier => {
                self.pending.clear();
                self.pc = pc + 1;
            },
            Bytecode::Jump(t) => {
                self.pc = *t;
            },
            Bytecode::JumpIfZero(t) => {
                if len < 1 {
                    return Err(RuntimeError::StackUnderflow);
                }
                if self.stack[len - 1].is_zero() {
                    self.pc = *t;
                } else {
                    self.pc = pc + 1;
                }
            },
            Bytecode::JumpIfNotZero(t) => {
                if len < 1 {
                    return Err(RuntimeError::StackUnderflow);
                }
                if !self.stack[len - 1].is_zero() {
                    self.pc = *t;
                } else {
                    self.pc = pc + 1;
                }
            },
            Bytecode::Pop => {
                self.stack.pop();
                self.pc = pc + 1;
            },
            Bytecode::Dup => {
                if len < 1 {
                    return Err(RuntimeError::StackUnderflow);
                }
                let v = self.stack[len - 1];
                self.stack.push(v);
                self.pc = pc + 1;
            },
            Bytecode::Call(name, argc) => {
                if self.native_functions.contains_key(name.as_str()) {
                    let argc = *argc;
                    if argc > len {
                        return Err(RuntimeError::StackUnderflow);
                    }
                    let args = self.stack.split_off(len - argc);
                    self.output.push(args);
                    self.stack.push(Num::zero());
                    self.pc = pc + 1;
                    proof {
                        assert(self.state().output =~= s.output.push(native_args(s.stack, argc)));
                        assert(self.stack@ =~= native_popped(s.stack, argc).push(zero()));
                    }
                } else {
                    match self.user_functions.get(name.as_str()) {
                        Some(addr) => {
                            let addr = *addr;
                            self.frames.push(pc + 1);
                            self.pc = addr;
                        },
                        None => {
                            self.pc = pc + 1;
                        },
                    }
                }
            },
            Bytecode::Return => {
                if len < 1 || self.frames.len() < 1 {
                    return Err(RuntimeError::StackUnderflow);
                }
                let ret = self.frames.pop().unwrap();
                self.pc = ret;
            },
            Bytecode::Halt => {
                return Ok(Status::Halted);
            },
        }
        proof {
            assert(self.state().output =~= step_spec(p, s).0.output);
            assert(self.state().stack =~= step_spec(p, s).0.stack);
        }
        Ok(Status::Running)
    }
}

impl VM {
    /// Runs at most `fuel` instructions; stops early at a fault, at `Halt`, or when the
    /// program counter leaves the code. `Ok(Status::Running)` means the fuel ran out.
    pub fn execute_steps(&mut self, fuel: u64) -> (r: Result<Status, RuntimeError>)
        ensures
            final(self).program() == old(self).program(),
            (final(self).state(), r) == run_spec(old(self).program(), old(self).state(), fuel as nat),
    {
        let ghost p = self.program();
        let ghost s0 = self.state();
        let mut remaining = fuel;
        while remaining > 0
            invariant
                self.program() == p,
                p == old(self).program(),
                s0 == old(self).state(),
                run_spec(p, s0, fuel as nat) == run_spec(p, self.state(), remaining as nat),
            decreases remaining,
        {
            let r = self.step();
            match r {
                Ok(Status::Running) => {},
                _ => {
                    return r;
                },
            }
            remaining = remaining - 1;
        }
        Ok(Status::Running)
    }

    /// Runs until a fault, `Halt`, or the end of the code (or 2^64 - 1 instructions).
    pub fn execute(&mut self) -> (r: Result<Status, RuntimeError>)
        ensures
            final(self).program() == old(self).program(),
            (final(self).state(), r) == run_spec(old(self).program(), old(self).state(), u64::MAX as nat),
    {
        self.execute_steps(u64::MAX)
    }

    /// Executes `bytecode` on a fresh machine and returns the top of the stack, or `0.0`
    /// when the stack is empty at the end.
    pub fn run(bytecode: Vec<Bytecode>) -> (r: Result<Num, RuntimeError>)
        ensures
            r == run_result(bytecode@),
    {
        let mut vm = VM::new(bytecode);
        match vm.execute() {
            Err(e) => Err(e),
            Ok(_) => {
                let len = vm.stack.len();
                if len > 0 {
                    Ok(vm.stack[len - 1])
                } else {
                    Ok(Num::zero())
                }
            },
        }
    }
}

/// The outcome of running `code` on a fresh machine: the final top of the stack (or
/// `0.0`), or the fault that stopped it.
pub open spec fn run_result(code: Seq<Bytecode>) -> Result<Num, RuntimeError> {
    let p = Program { code, users: Map::empty(), natives: default_natives() };
    let (s, r) = run_spec(p, initial_state(), u64::MAX as nat);
    match r {
        Ok(_) => Ok(top_or_zero(s.stack)),
        Err(e) => Err(e),
    }
}

/// Why an expression could not be evaluated.
#[derive(Debug, Clone, PartialEq)]
pub enum RunError {
    Compile(CompileError),
    Runtime(RuntimeError),
}

impl VM {
    /// Compiles `expr` with the compiler `C`, then runs the program on a fresh machine.
    pub fn run_expr<C: Compiler<Instruction = Bytecode>>(expr: &Expr) -> (r: Result<Num, RunError>)
        ensures
            match C::lowering(*expr) {
                Err(e) => r == Err::<Num, RunError>(RunError::Compile(e)),
                Ok(code) => match run_result(code) {
                    Ok(v) => r == Ok::<Num, RunError>(v),
                    Err(e) => r == Err::<Num, RunError>(RunError::Runtime(e)),
                },
            },
    {
        match C::compile(expr) {
            Err(e) => Err(RunError::Compile(e)),
            Ok(bytecode) => match VM::run(bytecode) {
                Ok(v) => Ok(v),
                Err(e) => Err(RunError::Runtime(e)),
            },
        }
    }
}

} // verus!
