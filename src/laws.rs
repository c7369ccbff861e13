//! Properties of compilation and execution that hold for every input.
use crate::compiler::{compile_spec, lower};
use crate::num::{neg_bits, Num};
use crate::parser::Expr;
use crate::grammar::{
    advance_spec, expr_spec, is_operator, led_spec, look, loop_spec, nud_spec, parse_spec, tree,
    Failure, Pos, Tree,
};
use crate::parser::binding_power;
use crate::scanner::{skip_spec, Token};
use crate::vm::{
    arith, default_natives, initial_state, run_result, run_spec, step_spec, top_or_zero,
    Bytecode, MachineState, Program, RuntimeError, Status,
};
use vstd::prelude::*;

verus! {

/// `n` instructions, each of which leaves the machine running; `None` if one does not.
pub open spec fn steps(p: Program, s: MachineState, n: nat) -> Option<MachineState>
    decreases n,
{
    if n == 0 {
        Some(s)
    } else {
        let (s2, r) = step_spec(p, s);
        if r == Ok::<Status, RuntimeError>(Status::Running) {
            steps(p, s2, (n - 1) as nat)
        } else {
            None
        }
    }
}

/// Trees of number literals under unary `-` and binary `+ - * /`.
pub open spec fn is_arithmetic(e: Expr) -> bool
    decreases e,
{
    match e {
        Expr::Number(_) => true,
        Expr::UnaryOp { op, rhs } => op is Minus && is_arithmetic(*rhs),
        Expr::BinaryOp { lhs, op, rhs } => (op is Plus || op is Minus || op is Star || op is Slash)
            && is_arithmetic(*lhs) && is_arithmetic(*rhs),
        _ => false,
    }
}

/// The value of an arithmetic tree, each operation rounded as IEEE-754 binary64 does.
pub open spec fn eval(e: Expr) -> Num
    decreases e,
{
    match e {
        Expr::Number(v) => v,
        Expr::UnaryOp { op, rhs } => Num { bits: neg_bits(eval(*rhs).bits) },
        Expr::BinaryOp { lhs, op, rhs } => arith(
            match op {
                Token::Plus => Bytecode::Add,
                Token::Minus => Bytecode::Sub,
                Token::Star => Bytecode::Mul,
                _ => Bytecode::Div,
            },
            eval(*lhs),
            eval(*rhs),
        ),
        _ => Num { bits: 0 },
    }
}

proof fn lemma_steps_add(p: Program, s: MachineState, a: nat, b: nat)
    requires
        steps(p, s, a) is Some,
    ensures
        steps(p, s, a + b) == steps(p, steps(p, s, a)->Some_0, b),
    decreases a,
{
    if a > 0 {
        let (s2, r) = step_spec(p, s);
        lemma_steps_add(p, s2, (a - 1) as nat, b);
        assert((a + b - 1) as nat == (a - 1) as nat + b);
    }
}

proof fn lemma_steps_run(p: Program, s: MachineState, n: nat, f: nat)
    requires
        steps(p, s, n) is Some,
    ensures
        run_spec(p, s, n + f) == run_spec(p, steps(p, s, n)->Some_0, f),
    decreases n,
{
    if n > 0 {
        let (s2, r) = step_spec(p, s);
        lemma_steps_run(p, s2, (n - 1) as nat, f);
        assert((n + f - 1) as nat == (n - 1) as nat + f);
    }
}

proof fn lemma_one_step(p: Program, s: MachineState)
    ensures
        step_spec(p, s).1 == Ok::<Status, RuntimeError>(Status::Running) ==> steps(p, s, 1)
            == Some(step_spec(p, s).0),
{
    let s2 = step_spec(p, s).0;
    assert(steps(p, s2, 0) == Some(s2));
}

/// Running the code of an arithmetic tree pushes its value and moves past the code.
proof fn lemma_lower_runs(p: Program, s: MachineState, e: Expr)
    requires
        is_arithmetic(e),
        lower(e) is Ok,
        p.code.len() <= usize::MAX,
        s.pc + lower(e)->Ok_0.len() <= p.code.len(),
        p.code.subrange(s.pc as int, s.pc + lower(e)->Ok_0.len()) == lower(e)->Ok_0,
    ensures
        steps(p, s, lower(e)->Ok_0.len()) == Some(
            MachineState {
                stack: s.stack.push(eval(e)),
                pc: (s.pc + lower(e)->Ok_0.len()) as usize,
                ..s
            },
        ),
    decreases e,
{
    let c = lower(e)->Ok_0;
    match e {
        Expr::Number(v) => {
            assert(p.code.subrange(s.pc as int, s.pc + c.len())[0] == c[0]);
            lemma_one_step(p, s);
        },
        Expr::UnaryOp { op, rhs } => {
            let cr = lower(*rhs)->Ok_0;
            assert(p.code.subrange(s.pc as int, s.pc + cr.len()) =~= cr) by {
                assert(c == cr.push(Bytecode::Neg));
                assert forall|i: int| 0 <= i < cr.len() implies p.code.subrange(
                    s.pc as int,
                    s.pc + cr.len(),
                )[i] == cr[i] by {
                    assert(p.code.subrange(s.pc as int, s.pc + c.len())[i] == c[i]);
                }
            }
            lemma_lower_runs(p, s, *rhs);
            let s1 = steps(p, s, cr.len())->Some_0;
            assert(p.code[s1.pc as int] == c[cr.len() as int]) by {
                assert(p.code.subrange(s.pc as int, s.pc + c.len())[cr.len() as int] == c[cr.len() as int]);
            }
            lemma_steps_add(p, s, cr.len(), 1);
            lemma_one_step(p, s1);
            assert(s1.stack.drop_last() =~= s.stack);
            assert(c.len() == cr.len() + 1);
        },
        Expr::BinaryOp { lhs, op, rhs } => {
            let cl = lower(*lhs)->Ok_0;
            let cr = lower(*rhs)->Ok_0;
            let i = match op {
                Token::Plus => Bytecode::Add,
                Token::Minus => Bytecode::Sub,
                Token::Star => Bytecode::Mul,
                _ => Bytecode::Div,
            };
            assert(c == cl + cr.push(i));
            let base = p.code.subrange(s.pc as int, s.pc + c.len());
            assert(p.code.subrange(s.pc as int, s.pc + cl.len()) =~= cl) by {
                assert forall|k: int| 0 <= k < cl.len() implies p.code.subrange(
                    s.pc as int,
                    s.pc + cl.len(),
                )[k] == cl[k] by {
                    assert(base[k] == c[k]);
                }
            }
            lemma_lower_runs(p, s, *lhs);
            let s1 = steps(p, s, cl.len())->Some_0;
            assert(p.code.subrange(s1.pc as int, s1.pc + cr.len()) =~= cr) by {
                assert forall|k: int| 0 <= k < cr.len() implies p.code.subrange(
                    s1.pc as int,
                    s1.pc + cr.len(),
                )[k] == cr[k] by {
                    assert(base[cl.len() + k] == c[cl.len() + k]);
                }
            }
            lemma_lower_runs(p, s1, *rhs);
            let s2 = steps(p, s1, cr.len())->Some_0;
            assert(p.code[s2.pc as int] == i) by {
                assert(base[(cl.len() + cr.len()) as int] == c[(cl.len() + cr.len()) as int]);
            }
            lemma_steps_add(p, s, cl.len(), cr.len());
            lemma_steps_add(p, s, cl.len() + cr.len(), 1);
            lemma_one_step(p, s2);
            assert(s2.stack.drop_last().drop_last() =~= s.stack);
            assert(c.len() == cl.len() + cr.len() + 1);
        },
        _ => {},
    }
}

/// Compiling an arithmetic tree and running the program gives the tree's value: `*` and
/// `/` bind tighter than `+` and `-`, and unary `-` tighter than both, as the tree has it.
pub proof fn lemma_arithmetic_runs_to_value(e: Expr)
    requires
        is_arithmetic(e),
        lower(e) is Ok ==> lower(e)->Ok_0.len() < usize::MAX,
    ensures
        compile_spec(e) is Ok,
        run_result(compile_spec(e)->Ok_0) == Ok::<Num, RuntimeError>(eval(e)),
{
    lemma_arithmetic_lowers(e);
    let c = lower(e)->Ok_0;
    let code = compile_spec(e)->Ok_0;
    let p = Program { code, users: Map::empty(), natives: default_natives() };
    let s = initial_state();
    assert(p.code.subrange(0, c.len() as int) =~= c);
    lemma_lower_runs(p, s, e);
    let s1 = steps(p, s, c.len())->Some_0;
    lemma_steps_run(p, s, c.len(), (u64::MAX - c.len()) as nat);
    assert(p.code[s1.pc as int] == Bytecode::Halt);
    assert(run_spec(p, s1, (u64::MAX - c.len()) as nat) == (s1, Ok::<Status, RuntimeError>(Status::Halted)));
}

proof fn lemma_arithmetic_lowers(e: Expr)
    requires
        is_arithmetic(e),
    ensures
        lower(e) is Ok,
    decreases e,
{
    match e {
        Expr::UnaryOp { op, rhs } => lemma_arithmetic_lowers(*rhs),
        Expr::BinaryOp { lhs, op, rhs } => {
            lemma_arithmetic_lowers(*lhs);
            lemma_arithmetic_lowers(*rhs);
        },
        _ => {},
    }
}

/// Compilation is a function of the tree: structurally equal trees give identical
/// programs (or identical errors).
pub proof fn lemma_compile_deterministic(e1: Expr, e2: Expr)
    requires
        e1 == e2,
    ensures
        compile_spec(e1) == compile_spec(e2),
{
}

proof fn lemma_run_extend(p: Program, extra: Seq<Bytecode>, s: MachineState, fuel: nat)
    requires
        run_spec(p, s, fuel).1 == Ok::<Status, RuntimeError>(Status::Halted),
    ensures
        run_spec(Program { code: p.code + extra, ..p }, s, fuel) == run_spec(p, s, fuel),
    decreases fuel,
{
    let pe = Program { code: p.code + extra, ..p };
    if fuel > 0 {
        assert(s.pc < p.code.len());
        assert(pe.code[s.pc as int] == p.code[s.pc as int]);
        assert(step_spec(pe, s) == step_spec(p, s));
        let (s2, r) = step_spec(p, s);
        if r == Ok::<Status, RuntimeError>(Status::Running) {
            lemma_run_extend(p, extra, s2, (fuel - 1) as nat);
        }
    }
}

/// Execution stops at the first `Halt` it reaches: when running `code` ends at a `Halt`,
/// instructions appended after `code` do not change the result.
pub proof fn lemma_halt_ignores_suffix(code: Seq<Bytecode>, extra: Seq<Bytecode>)
    requires
        run_spec(
            Program { code, users: Map::empty(), natives: default_natives() },
            initial_state(),
            u64::MAX as nat,
        ).1 == Ok::<Status, RuntimeError>(Status::Halted),
    ensures
        run_result(code + extra) == run_result(code),
{
    let p = Program { code, users: Map::empty(), natives: default_natives() };
    lemma_run_extend(p, extra, initial_state(), u64::MAX as nat);
}

/// Each instruction's effect on the spawned units not yet collected: `Spawn` adds the
/// value it samples (the top of the stack, or `0.0`), `Sync` moves all of them onto the
/// emptied stack in spawn order, `Barrier` discards them, and nothing else touches them.
pub proof fn lemma_pending_step(p: Program, s: MachineState)
    requires
        s.pc < p.code.len(),
        step_spec(p, s).1 == Ok::<Status, RuntimeError>(Status::Running),
    ensures
        ({
            let s2 = step_spec(p, s).0;
            match p.code[s.pc as int] {
                Bytecode::Spawn => s2.pending == s.pending.push(top_or_zero(s.stack)) && s2.stack
                    == s.stack,
                Bytecode::Sync => s2.stack == s.pending && s2.pending == Seq::<Num>::empty(),
                Bytecode::Barrier => s2.stack == s.stack && s2.pending == Seq::<Num>::empty(),
                _ => s2.pending == s.pending,
            }
        }),
{
}

/// After `n` consecutive `Spawn` instructions, a `Sync` leaves on the stack the values
/// collected before them followed by exactly `n` values, one per spawn, in spawn order,
/// and nothing remains to collect.
pub proof fn lemma_sync_after_spawns(p: Program, s: MachineState, n: nat)
    requires
        s.pc + n < p.code.len(),
        p.code.len() <= usize::MAX,
        forall|i: int| 0 <= i < n ==> #[trigger] p.code[s.pc + i] is Spawn,
        p.code[s.pc + n] is Sync,
    ensures
        steps(p, s, n + 1) is Some,
        steps(p, s, n + 1)->Some_0.stack == s.pending + Seq::new(n, |i: int| top_or_zero(s.stack)),
        steps(p, s, n + 1)->Some_0.pending == Seq::<Num>::empty(),
        steps(p, s, n + 1)->Some_0.pc == s.pc + n + 1,
    decreases n,
{
    if n == 0 {
        lemma_one_step(p, s);
        assert(s.pending + Seq::new(0, |i: int| top_or_zero(s.stack)) =~= s.pending);
    } else {
        assert(p.code[s.pc + 0] is Spawn);
        let s1 = step_spec(p, s).0;
        lemma_one_step(p, s);
        assert forall|i: int| 0 <= i < (n - 1) as nat implies #[trigger] p.code[s1.pc + i] is Spawn by {
            assert(p.code[s.pc + (i + 1)] is Spawn);
        }
        lemma_sync_after_spawns(p, s1, (n - 1) as nat);
        lemma_steps_add(p, s, 1, n);
        assert(s1.pending + Seq::new((n - 1) as nat, |i: int| top_or_zero(s1.stack)) =~= s.pending
            + Seq::new(n, |i: int| top_or_zero(s.stack)));
    }
}

/// `Barrier` leaves the stack as it was and completes every spawned unit.
pub proof fn lemma_barrier_keeps_stack(p: Program, s: MachineState)
    requires
        s.pc < p.code.len(),
        p.code[s.pc as int] is Barrier,
    ensures
        step_spec(p, s).1 == Ok::<Status, RuntimeError>(Status::Running),
        step_spec(p, s).0.stack == s.stack,
        step_spec(p, s).0.pending == Seq::<Num>::empty(),
{
}

/// A call to a name that is neither native nor user-defined is skipped: execution goes
/// on at the next instruction with the stack and everything else unchanged.
pub proof fn lemma_unknown_call_skipped(p: Program, s: MachineState, name: String, argc: usize)
    requires
        s.pc < p.code.len(),
        p.code[s.pc as int] == Bytecode::Call(name, argc),
        !p.natives.contains_key(name@),
        !p.users.contains_key(name@),
    ensures
        step_spec(p, s) == (MachineState { pc: (s.pc + 1) as usize, ..s }, Ok::<Status, RuntimeError>(
            Status::Running,
        )),
{
}

/// Reading an unwritten slot, and arithmetic on too few operands, fail with their own
/// error kinds and change nothing.
pub proof fn lemma_faults_are_reported(p: Program, s: MachineState, slot: usize)
    requires
        s.pc < p.code.len(),
    ensures
        p.code[s.pc as int] == Bytecode::LoadVar(slot) && !s.memory.contains_key(slot) ==> step_spec(
            p,
            s,
        ) == (s, Err::<Status, RuntimeError>(RuntimeError::UnboundVariable(slot))),
        (p.code[s.pc as int] is Add || p.code[s.pc as int] is Sub || p.code[s.pc as int] is Mul
            || p.code[s.pc as int] is Div) && s.stack.len() < 2 ==> step_spec(p, s) == (s, Err::<
            Status,
            RuntimeError,
        >(RuntimeError::StackUnderflow)),
{
}

/// The values sampled by the `Spawn` instructions among the next `n` instructions, in
/// the order they run.
pub open spec fn spawned(p: Program, s: MachineState, n: nat) -> Seq<Num>
    decreases n,
{
    if n == 0 {
        Seq::empty()
    } else {
        let here = if s.pc < p.code.len() && p.code[s.pc as int] is Spawn {
            seq![top_or_zero(s.stack)]
        } else {
            Seq::empty()
        };
        here + spawned(p, step_spec(p, s).0, (n - 1) as nat)
    }
}

/// None of the next `n` instructions is a `Sync` or a `Barrier`.
pub open spec fn no_rendezvous(p: Program, s: MachineState, n: nat) -> bool
    decreases n,
{
    n == 0 || (!(s.pc < p.code.len() && (p.code[s.pc as int] is Sync || p.code[s.pc as int] is Barrier))
        && no_rendezvous(p, step_spec(p, s).0, (n - 1) as nat))
}

proof fn lemma_pending_counts_spawns(p: Program, s: MachineState, n: nat)
    requires
        steps(p, s, n) is Some,
        no_rendezvous(p, s, n),
    ensures
        steps(p, s, n)->Some_0.pending == s.pending + spawned(p, s, n),
    decreases n,
{
    if n == 0 {
        assert(s.pending + Seq::<Num>::empty() =~= s.pending);
    } else {
        let s2 = step_spec(p, s).0;
        lemma_pending_counts_spawns(p, s2, (n - 1) as nat);
        let here = if s.pc < p.code.len() && p.code[s.pc as int] is Spawn {
            seq![top_or_zero(s.stack)]
        } else {
            Seq::empty()
        };
        if s.pc < p.code.len() {
            lemma_pending_step(p, s);
        }
        assert(s2.pending == s.pending + here);
        assert(s.pending + (here + spawned(p, s2, (n - 1) as nat)) =~= (s.pending + here)
            + spawned(p, s2, (n - 1) as nat));
    }
}

/// Whatever runs between two rendezvous points, a `Sync` leaves on the stack exactly one
/// value per `Spawn` run since the last `Sync` or `Barrier` (here: since `s`, where nothing
/// was pending), in the order the spawns ran.
pub proof fn lemma_sync_collects_all(p: Program, s: MachineState, n: nat)
    requires
        s.pending.len() == 0,
        steps(p, s, n) is Some,
        no_rendezvous(p, s, n),
        steps(p, s, n)->Some_0.pc < p.code.len(),
        p.code[steps(p, s, n)->Some_0.pc as int] is Sync,
    ensures
        steps(p, s, n + 1) is Some,
        steps(p, s, n + 1)->Some_0.stack == spawned(p, s, n),
        steps(p, s, n + 1)->Some_0.pending.len() == 0,
{
    let s1 = steps(p, s, n)->Some_0;
    lemma_pending_counts_spawns(p, s, n);
    lemma_one_step(p, s1);
    lemma_steps_add(p, s, n, 1);
    assert(s.pending + spawned(p, s, n) =~= spawned(p, s, n));
}

/// The same law for a run: when nothing was pending at `s` and the `n` instructions
/// that follow hold no `Sync` or `Barrier` and are followed by a `Sync`, then running
/// `n + 1` instructions from `s` (what `VM::execute_steps(n + 1)` does) stops with the
/// machine still running, exactly one value per `Spawn` on the stack in spawn order, and
/// nothing pending.
pub proof fn lemma_run_sync_collects_all(p: Program, s: MachineState, n: nat)
    requires
        s.pending.len() == 0,
        steps(p, s, n) is Some,
        no_rendezvous(p, s, n),
        steps(p, s, n)->Some_0.pc < p.code.len(),
        p.code[steps(p, s, n)->Some_0.pc as int] is Sync,
    ensures
        run_spec(p, s, n + 1).1 == Ok::<Status, RuntimeError>(Status::Running),
        run_spec(p, s, n + 1).0.stack == spawned(p, s, n),
        run_spec(p, s, n + 1).0.pending.len() == 0,
{
    lemma_sync_collects_all(p, s, n);
    lemma_steps_run(p, s, n + 1, 0);
    assert(n + 1 + 0 == n + 1);
}

proof fn lemma_loop_stops(s: Seq<char>, p: Pos, lhs: Tree, min_bp: u8, f: nat)
    requires
        loop_spec(s, p, lhs, min_bp, f) is Ok,
    ensures
        ({
            let q = loop_spec(s, p, lhs, min_bp, f)->Ok_0.1;
            !(look(s, q) matches Some(op) && is_operator(op) && binding_power(op) > min_bp)
        }),
    decreases f,
{
    if f > 0 {
        match look(s, p) {
            Some(op) => if !(op is Eof || op is RParen || binding_power(op) <= min_bp) {
                match advance_spec(s, p) {
                    Some(at2) => match led_spec(s, at2, lhs, op, (f - 1) as nat) {
                        Ok((l2, at3)) => lemma_loop_stops(s, at3, l2, min_bp, (f - 1) as nat),
                        Err(_) => {},
                    },
                    None => {},
                }
            },
            None => {},
        }
    }
}

/// An expression parsed at power `min_bp` ends before any operator that binds more
/// tightly than `min_bp`: such operators are always taken into it.
pub proof fn lemma_expr_takes_tighter_operators(s: Seq<char>, p: Pos, min_bp: u8, f: nat)
    requires
        expr_spec(s, p, min_bp, f) is Ok,
    ensures
        ({
            let q = expr_spec(s, p, min_bp, f)->Ok_0.1;
            !(look(s, q) matches Some(op) && is_operator(op) && binding_power(op) > min_bp)
        }),
{
    let (lhs, at1) = nud_spec(s, p, (f - 1) as nat)->Ok_0;
    lemma_loop_stops(s, at1, lhs, min_bp, (f - 1) as nat);
}

/// Operators of equal power group to the left: the right operand of a binary operator
/// `op` is parsed at `op`'s own power, and ends before the next operator unless that one
/// binds more tightly. An operator of the same or lower power that follows is therefore
/// applied by the enclosing loop, with `lhs op rhs` as its left operand.
pub proof fn lemma_right_operand_stops(s: Seq<char>, p: Pos, lhs: Tree, op: Token, f: nat)
    requires
        is_operator(op),
        led_spec(s, p, lhs, op, f) is Ok,
    ensures
        ({
            let (t, q) = led_spec(s, p, lhs, op, f)->Ok_0;
            &&& t matches Tree::Binary(l, o, _) && *l == lhs && o == op
            &&& !(look(s, q) matches Some(next) && is_operator(next) && binding_power(next)
                > binding_power(op))
        }),
{
    lemma_expr_takes_tighter_operators(s, p, binding_power(op), (f - 1) as nat);
}

/// For a text that parses to an arithmetic tree (`e` being what `parse_expr` returns for
/// it), compiling and running the program gives the IEEE-754 value of that tree.
pub proof fn lemma_parsed_text_runs_to_value(src: Seq<char>, e: Expr)
    requires
        parse_spec(src) == Ok::<Tree, Failure>(tree(e)),
        is_arithmetic(e),
        lower(e) is Ok ==> lower(e)->Ok_0.len() < usize::MAX,
    ensures
        compile_spec(e) is Ok,
        run_result(compile_spec(e)->Ok_0) == Ok::<Num, RuntimeError>(eval(e)),
{
    lemma_arithmetic_runs_to_value(e);
}

/// Once the scanner has reached the end of the text, the next token it reports is the end
/// marker and its cursor stays where it is: it reports the end marker forever.
pub proof fn lemma_end_is_sticky(s: Seq<char>)
    ensures
        skip_spec(s, s.len() as int) == s.len(),
{
}

} // verus!
