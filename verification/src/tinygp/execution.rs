//! The interpreter: a runtime state and a recursive evaluator over the flat
//! program encoding, with bounded loops.

use vstd::prelude::*;
use super::common::{Expr, Stat, Token, Program, Number, scan_end, get_node_end, is_truthy};
use super::grammar::{well_formed, registers_within};
use super::safety::{
    kept_output,
    lemma_well_formed_runs,
    lemma_block_keeps_output,
    lemma_loop_keeps_output,
};

verus! {

/// Why evaluation stopped before the end of the program.
#[derive(Debug, Clone, Copy, PartialEq, Eq, Structural)]
pub enum EvalError {
    /// An `INPUT` statement found the input stream exhausted.
    Finished,
    /// The token at this position cannot stand where it does.
    Syntax(usize),
    /// This register does not exist.
    Semantic(usize),
    /// A loop ran for as many iterations as the runtime allows.
    MaxIteration,
}

/// The number of loop iterations a fresh runtime allows.
pub const DEFAULT_MAX_ITERATIONS: usize = 100;

/// The state a program runs in.
pub struct Runtime {
    /// The registers.
    pub memory: Vec<Number>,
    /// The input stream.
    pub input: Vec<Number>,
    /// Everything written so far.
    pub output: Vec<Number>,
    /// Index of the next input to read.
    pub input_cursor: usize,
    /// The number of iterations at which a loop is cut off.
    pub max_iterations: usize,
    /// Set once a read was attempted on an exhausted input stream.
    pub overread: bool,
}

/// The mathematical content of a [`Runtime`].
pub ghost struct Machine {
    pub memory: Seq<Number>,
    pub input: Seq<Number>,
    pub output: Seq<Number>,
    pub cursor: nat,
    pub max_iterations: nat,
    pub overread: bool,
}

impl View for Runtime {
    type V = Machine;

    open spec fn view(&self) -> Machine {
        Machine {
            memory: self.memory@,
            input: self.input@,
            output: self.output@,
            cursor: self.input_cursor as nat,
            max_iterations: self.max_iterations as nat,
            overread: self.overread,
        }
    }
}

/// A memory of `memsize` registers that hold zero.
pub open spec fn zeroed(memsize: nat) -> Seq<Number> {
    Seq::new(memsize, |i: int| 0i32)
}

/// The machine before a run: the given registers and input, nothing read or
/// written yet, and the default iteration limit.
pub open spec fn start(memory: Seq<Number>, input: Seq<Number>) -> Machine {
    Machine {
        memory,
        input,
        output: Seq::empty(),
        cursor: 0,
        max_iterations: DEFAULT_MAX_ITERATIONS as nat,
        overread: false,
    }
}

impl Machine {
    /// The machine after an attempt to read the next input into register `reg`.
    pub open spec fn read_into(self, reg: int) -> Machine {
        Machine {
            memory: self.memory.update(reg, self.input[self.cursor as int]),
            cursor: self.cursor + 1,
            ..self
        }
    }

    /// The machine after a read was attempted with nothing left to read.
    pub open spec fn starved(self) -> Machine {
        Machine { overread: true, ..self }
    }

    /// The machine after `val` was stored in register `reg`.
    pub open spec fn store(self, reg: int, val: Number) -> Machine {
        Machine { memory: self.memory.update(reg, val), ..self }
    }

    /// The machine after `val` was written to the output.
    pub open spec fn emit(self, val: Number) -> Machine {
        Machine { output: self.output.push(val), ..self }
    }
}

impl Runtime {
    /// A runtime with `memsize` zeroed registers, the given input, nothing
    /// read or written yet, and the default iteration limit.
    pub fn new(memsize: usize, input: Vec<Number>) -> (runtime: Runtime)
        ensures
            runtime@ == start(zeroed(memsize as nat), input@),
    {
        let memory: Vec<Number> = vec![0; memsize];
        assert(memory@ =~= zeroed(memsize as nat));
        Runtime {
            memory,
            input,
            output: Vec::new(),
            input_cursor: 0,
            max_iterations: DEFAULT_MAX_ITERATIONS,
            overread: false,
        }
    }

    /// A runtime like a new one, but with the given registers.
    pub fn with_memory(memory: Vec<Number>, input: Vec<Number>) -> (runtime: Runtime)
        ensures
            runtime@ == start(memory@, input@),
    {
        Runtime {
            memory,
            input,
            output: Vec::new(),
            input_cursor: 0,
            max_iterations: DEFAULT_MAX_ITERATIONS,
            overread: false,
        }
    }

    /// Takes the next input value, or records an overread when none is left.
    pub fn next_input(&mut self) -> (val: Option<Number>)
        ensures
            old(self)@.cursor < old(self)@.input.len() ==> val == Some(
                old(self)@.input[old(self)@.cursor as int],
            ) && final(self)@ == (Machine { cursor: old(self)@.cursor + 1, ..old(self)@ }),
            old(self)@.cursor >= old(self)@.input.len() ==> val.is_none() && final(self)@ == old(
                self,
            )@.starved(),
    {
        if self.input_cursor < self.input.len() {
            let val = self.input[self.input_cursor];
            self.input_cursor += 1;
            Some(val)
        } else {
            self.overread = true;
            None
        }
    }

    /// Stores `val` in register `num`; fails, changing nothing, when there is
    /// no such register.
    pub fn set_reg(&mut self, num: usize, val: Number) -> (r: Result<(), EvalError>)
        ensures
            num < old(self)@.memory.len() ==> r.is_ok() && final(self)@ == old(self)@.store(
                num as int,
                val,
            ),
            num >= old(self)@.memory.len() ==> r == Err::<(), EvalError>(EvalError::Semantic(num))
                && final(self)@ == old(self)@,
    {
        if num >= self.memory.len() {
            Err(EvalError::Semantic(num))
        } else {
            self.memory[num] = val;
            Ok(())
        }
    }

    /// The value of register `num`; fails when there is no such register.
    pub fn read_reg(&self, num: usize) -> (r: Result<Number, EvalError>)
        ensures
            r == read_register(self@.memory, num),
    {
        if num >= self.memory.len() {
            Err(EvalError::Semantic(num))
        } else {
            Ok(self.memory[num])
        }
    }
}

/// The value of register `num`, or the error for a register that is missing.
pub open spec fn read_register(memory: Seq<Number>, num: usize) -> Result<Number, EvalError> {
    if num < memory.len() {
        Ok(memory[num as int])
    } else {
        Err(EvalError::Semantic(num))
    }
}

/// The nearest representable number.
pub open spec fn saturate(x: int) -> Number {
    if x > Number::MAX {
        Number::MAX
    } else if x < Number::MIN {
        Number::MIN
    } else {
        x as Number
    }
}

/// The quotient of `a` by `b` rounded toward zero, for `b != 0`.
pub open spec fn quotient(a: int, b: int) -> int {
    if a >= 0 && b > 0 {
        a / b
    } else if a < 0 && b < 0 {
        (-a) / (-b)
    } else if a < 0 {
        -((-a) / b)
    } else {
        -(a / (-b))
    }
}

/// Division that leaves the numerator unchanged when the divisor is zero.
pub open spec fn protected_quotient(lhs: Number, rhs: Number) -> Number {
    if rhs == 0 {
        lhs
    } else {
        saturate(quotient(lhs as int, rhs as int))
    }
}

/// The canonical number for a truth value.
pub open spec fn truth(b: bool) -> Number {
    if b {
        1
    } else {
        0
    }
}

/// The value of a unary operator applied to `arg`; only `NOT` is unary.
pub open spec fn apply_unary(arg: Number) -> Number {
    truth(arg == 0)
}

/// The value of a binary operator applied to `lhs` and `rhs`.
pub open spec fn apply_binary(op: Expr, lhs: Number, rhs: Number) -> Number {
    match op {
        Expr::ADD => saturate(lhs + rhs),
        Expr::SUB => saturate(lhs - rhs),
        Expr::MUL => saturate(lhs * rhs),
        Expr::DIV => protected_quotient(lhs, rhs),
        Expr::EQ => truth(lhs == rhs),
        Expr::LT => truth(lhs < rhs),
        Expr::GT => truth(lhs > rhs),
        Expr::OR => truth(lhs != 0 || rhs != 0),
        Expr::AND => truth(lhs != 0 && rhs != 0),
        _ => 0,
    }
}

/// Brings a wide intermediate result back into range.
fn saturate_wide(x: i64) -> (r: Number)
    ensures
        r == saturate(x as int),
{
    if x > (i32::MAX as i64) {
        i32::MAX
    } else if x < (i32::MIN as i64) {
        i32::MIN
    } else {
        x as i32
    }
}

/// Sum that stops at the representable extremes.
pub fn saturating_sum(lhs: Number, rhs: Number) -> (r: Number)
    ensures
        r == saturate(lhs + rhs),
{
    saturate_wide(lhs as i64 + rhs as i64)
}

/// Difference that stops at the representable extremes.
pub fn saturating_difference(lhs: Number, rhs: Number) -> (r: Number)
    ensures
        r == saturate(lhs - rhs),
{
    saturate_wide(lhs as i64 - rhs as i64)
}

/// Product that stops at the representable extremes.
pub fn saturating_product(lhs: Number, rhs: Number) -> (r: Number)
    ensures
        r == saturate(lhs * rhs),
{
    assert(-0x4000_0000_0000_0000 <= (lhs as int) * (rhs as int) <= 0x4000_0000_0000_0000)
        by (nonlinear_arith)
        requires
            -0x8000_0000 <= (lhs as int) < 0x8000_0000,
            -0x8000_0000 <= (rhs as int) < 0x8000_0000,
    ;
    saturate_wide((lhs as i64) * (rhs as i64))
}

/// Division rounded toward zero that returns the numerator unchanged when
/// the divisor is zero, and stops at the largest number for the one quotient
/// that is out of range.
pub fn protected_div(lhs: Number, rhs: Number) -> (r: Number)
    ensures
        r == protected_quotient(lhs, rhs),
{
    match lhs.checked_div(rhs) {
        Some(q) => q,
        None => if rhs == 0 {
            lhs
        } else {
            i32::MAX
        },
    }
}

/// `1` when the numbers are equal, `0` otherwise.
pub fn equal(lhs: Number, rhs: Number) -> (r: Number)
    ensures
        r == truth(lhs == rhs),
{
    if lhs == rhs {
        1
    } else {
        0
    }
}

/// `1` when `lhs` is below `rhs`, `0` otherwise.
pub fn less_than(lhs: Number, rhs: Number) -> (r: Number)
    ensures
        r == truth(lhs < rhs),
{
    if lhs < rhs {
        1
    } else {
        0
    }
}

/// `1` when `lhs` is above `rhs`, `0` otherwise.
pub fn greater_than(lhs: Number, rhs: Number) -> (r: Number)
    ensures
        r == truth(lhs > rhs),
{
    if lhs > rhs {
        1
    } else {
        0
    }
}

/// `1` when either number is nonzero, `0` otherwise.
pub fn or(lhs: Number, rhs: Number) -> (r: Number)
    ensures
        r == truth(lhs != 0 || rhs != 0),
{
    if is_truthy(lhs) || is_truthy(rhs) {
        1
    } else {
        0
    }
}

/// `1` when both numbers are nonzero, `0` otherwise.
pub fn and(lhs: Number, rhs: Number) -> (r: Number)
    ensures
        r == truth(lhs != 0 && rhs != 0),
{
    if is_truthy(lhs) && is_truthy(rhs) {
        1
    } else {
        0
    }
}

/// `1` when the number is zero, `0` otherwise.
pub fn negation(arg: Number) -> (r: Number)
    ensures
        r == apply_unary(arg),
{
    if is_truthy(arg) {
        0
    } else {
        1
    }
}

/// Protected division leaves the numerator alone on a zero divisor and is
/// the quotient rounded toward zero wherever that quotient is representable:
/// the quotient times the divisor differs from the numerator by a remainder
/// smaller than the divisor and of the numerator's sign.
pub proof fn lemma_protected_quotient(a: Number, b: Number)
    ensures
        b == 0 ==> protected_quotient(a, b) == a,
        b != 0 && !(a == Number::MIN && b == -1) ==> {
            let q = protected_quotient(a, b) as int;
            let r = a - q * b;
            &&& q == quotient(a as int, b as int)
            &&& (a >= 0 ==> 0 <= r)
            &&& (a <= 0 ==> r <= 0)
            &&& (b > 0 ==> -b < r < b)
            &&& (b < 0 ==> b < r < -b)
        },
        a == Number::MIN && b == -1 ==> protected_quotient(a, b) == Number::MAX,
{
    if b != 0 {
        let x = a as int;
        let d = b as int;
        let ax: int = if x >= 0 { x } else { -x };
        let ad: int = if d > 0 { d } else { -d };
        vstd::arithmetic::div_mod::lemma_fundamental_div_mod(ax, ad);
        vstd::arithmetic::div_mod::lemma_mod_bound(ax, ad);
        vstd::arithmetic::div_mod::lemma_div_pos_is_pos(ax, ad);
        let k = ax / ad;
        let m = ax % ad;
        assert(ax == ad * k + m);
        assert(k <= ax) by (nonlinear_arith)
            requires
                ax == ad * k + m,
                ad >= 1,
                k >= 0,
                m >= 0,
        ;
        let q = quotient(x, d);
        if x >= 0 && d > 0 {
            assert(x - q * d == m) by (nonlinear_arith)
                requires
                    x == d * k + m,
                    q == k,
            ;
        } else if x < 0 && d < 0 {
            assert(x - q * d == -m) by (nonlinear_arith)
                requires
                    -x == (-d) * k + m,
                    q == k,
            ;
        } else if x < 0 {
            assert(x - q * d == -m) by (nonlinear_arith)
                requires
                    -x == d * k + m,
                    q == -k,
            ;
        } else {
            assert(x - q * d == m) by (nonlinear_arith)
                requires
                    x == (-d) * k + m,
                    q == -k,
            ;
        }
        if a == Number::MIN && b == -1 {
            assert(k == ax) by (nonlinear_arith)
                requires
                    ax == ad * k + m,
                    ad == 1,
                    0 <= m < ad,
            ;
        } else if x == Number::MIN as int && ad >= 2 {
            assert(k < ax) by (nonlinear_arith)
                requires
                    ax == ad * k + m,
                    ad >= 2,
                    k >= 0,
                    m >= 0,
                    ax > 0,
            ;
        }
    }
}

/// The value of the expression rooted at `pos` and the position after it.
pub open spec fn expr_value(p: Seq<Token>, pos: int, memory: Seq<Number>) -> Result<
    (int, Number),
    EvalError,
>
    decreases p.len() - pos,
{
    if !(0 <= pos < p.len()) {
        Err(EvalError::Syntax(pos as usize))
    } else {
        match p[pos] {
            Token::Reg(n) => match read_register(memory, n) {
                Ok(v) => Ok((pos + 1, v)),
                Err(e) => Err(e),
            },
            Token::Expr(Expr::Num(v)) => Ok((pos + 1, v)),
            Token::Expr(Expr::Reg(_)) => Err(EvalError::Syntax(pos as usize)),
            Token::Expr(Expr::NOT) => match expr_value(p, pos + 1, memory) {
                Ok((q, v)) => Ok((q, apply_unary(v))),
                Err(e) => Err(e),
            },
            Token::Expr(op) => match expr_value(p, pos + 1, memory) {
                Ok((q, lhs)) => if pos < q <= p.len() {
                    match expr_value(p, q, memory) {
                        Ok((r, rhs)) => Ok((r, apply_binary(op, lhs, rhs))),
                        Err(e) => Err(e),
                    }
                } else {
                    Err(EvalError::Syntax(pos as usize))
                },
                Err(e) => Err(e),
            },
            _ => Err(EvalError::Syntax(pos as usize)),
        }
    }
}

/// How a token changes the depth while looking for the end of a branch:
/// like [`level_change`](super::common::level_change), except that an `ELSE`
/// of the branch itself ends it too.
pub open spec fn skip_change(t: Token, level: int) -> int {
    match t {
        Token::Stat(Stat::IF) | Token::Stat(Stat::WHILE) => 1,
        Token::END => -1,
        Token::ELSE => if level == 1 {
            -1
        } else {
            0
        },
        _ => 0,
    }
}

/// Scans forward from `i` inside a branch that is open at depth `level` and
/// yields the position of the `ELSE` or `END` that ends the branch, or the
/// length of the program when nothing does.
pub open spec fn skip_end(p: Seq<Token>, i: int, level: int) -> int
    decreases p.len() - i,
{
    if 0 <= i < p.len() {
        if level + skip_change(p[i], level) <= 0 {
            i
        } else {
            skip_end(p, i + 1, level + skip_change(p[i], level))
        }
    } else {
        i
    }
}

/// Where evaluation continues after a block that stopped at `b`, when an
/// `END` is required there.
pub open spec fn after_end(p: Seq<Token>, b: int) -> Result<int, EvalError> {
    if 0 <= b < p.len() && p[b] == Token::END {
        Ok(b + 1)
    } else {
        Err(EvalError::Syntax(b as usize))
    }
}

/// Where evaluation continues after the first branch of an `IF` that stopped
/// at `b`: past the `END`, or past the whole `ELSE` branch, which is skipped.
pub open spec fn after_then(p: Seq<Token>, b: int) -> Result<int, EvalError> {
    if 0 <= b < p.len() && p[b] == Token::ELSE {
        Ok(scan_end(p, b + 1, 1))
    } else {
        after_end(p, b)
    }
}

/// The machine after the statement at `pos`, with the position after the
/// statement or the reason evaluation stopped.
pub open spec fn stat_effect(p: Seq<Token>, pos: int, m: Machine) -> (
    Machine,
    Result<int, EvalError>,
)
    decreases p.len() - pos, 1nat, 0nat,
{
    if !(0 <= pos < p.len()) {
        (m, Err(EvalError::Syntax(pos as usize)))
    } else {
        match p[pos] {
            Token::Stat(Stat::OUTPUT) => match expr_value(p, pos + 1, m.memory) {
                Ok((q, v)) => (m.emit(v), Ok(q)),
                Err(e) => (m, Err(e)),
            },
            Token::Stat(Stat::INPUT) => if pos + 1 < p.len() && p[pos + 1] is Reg {
                let n = p[pos + 1]->Reg_0;
                if m.cursor >= m.input.len() {
                    (m.starved(), Err(EvalError::Finished))
                } else if n < m.memory.len() {
                    (m.read_into(n as int), Ok(pos + 2))
                } else {
                    (Machine { cursor: m.cursor + 1, ..m }, Err(EvalError::Semantic(n)))
                }
            } else {
                (m, Err(EvalError::Syntax((pos + 1) as usize)))
            },
            Token::Stat(Stat::LOAD) => if pos + 1 < p.len() && p[pos + 1] is Reg {
                let n = p[pos + 1]->Reg_0;
                match expr_value(p, pos + 2, m.memory) {
                    Ok((q, v)) => if n < m.memory.len() {
                        (m.store(n as int, v), Ok(q))
                    } else {
                        (m, Err(EvalError::Semantic(n)))
                    },
                    Err(e) => (m, Err(e)),
                }
            } else {
                (m, Err(EvalError::Syntax((pos + 1) as usize)))
            },
            Token::Stat(Stat::IF) => match expr_value(p, pos + 1, m.memory) {
                Err(e) => (m, Err(e)),
                Ok((c, v)) => if !(pos < c <= p.len()) {
                    (m, Err(EvalError::Syntax(pos as usize)))
                } else if v != 0 {
                    then_effect(p, c, m)
                } else {
                    else_effect(p, c, m)
                },
            },
            Token::Stat(Stat::WHILE) => match expr_value(p, pos + 1, m.memory) {
                Err(e) => (m, Err(e)),
                Ok((c, v)) => if !(pos < c <= p.len()) {
                    (m, Err(EvalError::Syntax(pos as usize)))
                } else {
                    let (m2, r) = loop_effect(p, pos, c, m, v, 0, m.max_iterations);
                    match r {
                        Err(e) => (m2, Err(e)),
                        Ok(_) => (m2, after_end(p, skip_end(p, c, 1))),
                    }
                },
            },
            _ => (m, Err(EvalError::Syntax(pos as usize))),
        }
    }
}

/// The machine after an `IF` whose condition held: the first branch, which
/// starts at `body`, runs; an `ELSE` branch is skipped.
pub open spec fn then_effect(p: Seq<Token>, body: int, m: Machine) -> (
    Machine,
    Result<int, EvalError>,
)
    decreases p.len() - body, 3nat, 0nat,
{
    let (m2, r) = block_effect(p, body, m);
    match r {
        Err(e) => (m2, Err(e)),
        Ok(b) => (m2, after_then(p, b)),
    }
}

/// The machine after an `IF` whose condition failed: the first branch, which
/// starts at `body`, is skipped; an `ELSE` branch runs.
pub open spec fn else_effect(p: Seq<Token>, body: int, m: Machine) -> (
    Machine,
    Result<int, EvalError>,
)
    decreases p.len() - body, 3nat, 0nat,
{
    let b = skip_end(p, body, 1);
    if body <= b < p.len() && p[b] == Token::ELSE {
        let (m2, r) = block_effect(p, b + 1, m);
        match r {
            Err(e) => (m2, Err(e)),
            Ok(e) => (m2, after_end(p, e)),
        }
    } else {
        (m, after_end(p, b))
    }
}

/// The machine after the `WHILE` at `pos`, whose body starts at `body`, has
/// run to its end from a state in which its condition had the value `v` and
/// `iteration` rounds were already made. A round runs the body and evaluates
/// the condition again; the loop is cut off once `cap` rounds were made.
pub open spec fn loop_effect(
    p: Seq<Token>,
    pos: int,
    body: int,
    m: Machine,
    v: Number,
    iteration: nat,
    cap: nat,
) -> (Machine, Result<(), EvalError>)
    decreases p.len() - pos, 0nat, cap - iteration,
{
    if v == 0 {
        (m, Ok(()))
    } else if !(pos < body <= p.len()) {
        (m, Err(EvalError::Syntax(pos as usize)))
    } else {
        let (m2, r) = block_effect(p, body, m);
        match r {
            Err(e) => (m2, Err(e)),
            Ok(_) => match expr_value(p, pos + 1, m2.memory) {
                Err(e) => (m2, Err(e)),
                Ok((_, v2)) => if iteration + 1 >= cap {
                    (m2, Err(EvalError::MaxIteration))
                } else {
                    loop_effect(p, pos, body, m2, v2, iteration + 1, cap)
                },
            },
        }
    }
}

/// The machine after the statements from `pos` up to the end of their block,
/// with the position at which the block ends (an `ELSE`, an `END` or the end
/// of the program) or the reason evaluation stopped.
pub open spec fn block_effect(p: Seq<Token>, pos: int, m: Machine) -> (
    Machine,
    Result<int, EvalError>,
)
    decreases p.len() - pos, 2nat, 0nat,
{
    if !(0 <= pos < p.len()) || p[pos] == Token::ELSE || p[pos] == Token::END {
        (m, Ok(pos))
    } else {
        let (m2, r) = stat_effect(p, pos, m);
        match r {
            Err(e) => (m2, Err(e)),
            Ok(q) => if pos < q <= p.len() {
                block_effect(p, q, m2)
            } else {
                (m2, Err(EvalError::Syntax(pos as usize)))
            },
        }
    }
}

/// A position as the specification counts it.
pub open spec fn lift(r: Result<usize, EvalError>) -> Result<int, EvalError> {
    match r {
        Ok(q) => Ok(q as int),
        Err(e) => Err(e),
    }
}

/// Applies a binary operator.
fn apply(op: Expr, lhs: Number, rhs: Number) -> (r: Number)
    ensures
        r == apply_binary(op, lhs, rhs),
{
    match op {
        Expr::ADD => saturating_sum(lhs, rhs),
        Expr::SUB => saturating_difference(lhs, rhs),
        Expr::MUL => saturating_product(lhs, rhs),
        Expr::DIV => protected_div(lhs, rhs),
        Expr::EQ => equal(lhs, rhs),
        Expr::LT => less_than(lhs, rhs),
        Expr::GT => greater_than(lhs, rhs),
        Expr::OR => or(lhs, rhs),
        Expr::AND => and(lhs, rhs),
        _ => 0,
    }
}

/// Evaluates the expression rooted at `pos`. Returns its value and the
/// position after it.
pub fn eval_expr(program: &Program, pos: usize, runtime: &Runtime) -> (r: Result<
    (usize, Number),
    EvalError,
>)
    ensures
        match r {
            Ok((q, v)) => expr_value(program@, pos as int, runtime@.memory) == Ok::<
                (int, Number),
                EvalError,
            >((q as int, v)) && pos < q <= program.len(),
            Err(e) => expr_value(program@, pos as int, runtime@.memory) == Err::<
                (int, Number),
                EvalError,
            >(e),
        },
    decreases program.len() - pos,
{
    if pos >= program.len() {
        return Err(EvalError::Syntax(pos));
    }
    match program[pos] {
        Token::Expr(func) => match func {
            Expr::Num(val) => Ok((pos + 1, val)),
            Expr::Reg(_) => Err(EvalError::Syntax(pos)),
            Expr::NOT => match eval_expr(program, pos + 1, runtime) {
                Ok((next, arg)) => Ok((next, negation(arg))),
                Err(e) => Err(e),
            },
            _ => match eval_expr(program, pos + 1, runtime) {
                Ok((mid, lhs)) => match eval_expr(program, mid, runtime) {
                    Ok((next, rhs)) => Ok((next, apply(func, lhs, rhs))),
                    Err(e) => Err(e),
                },
                Err(e) => Err(e),
            },
        },
        Token::Reg(num) => match runtime.read_reg(num) {
            Ok(val) => Ok((pos + 1, val)),
            Err(e) => Err(e),
        },
        _ => Err(EvalError::Syntax(pos)),
    }
}

/// Finds the `ELSE` or `END` that ends the branch starting at `pos`, without
/// consuming it. Returns the length of the program when nothing ends it.
pub fn skip_block(program: &Program, pos: usize) -> (end: usize)
    ensures
        end == skip_end(program@, pos as int, 1),
        pos <= end,
        end <= program.len() || end == pos,
{
    let mut depth: usize = 0;
    let mut cursor: usize = pos;
    while cursor < program.len()
        invariant
            pos <= cursor,
            cursor <= program.len() || cursor == pos,
            depth <= cursor - pos,
            skip_end(program@, cursor as int, depth + 1) == skip_end(program@, pos as int, 1),
        decreases program.len() - cursor,
    {
        match program[cursor] {
            Token::Stat(Stat::IF) | Token::Stat(Stat::WHILE) => {
                depth += 1;
            },
            Token::END => {
                if depth == 0 {
                    return cursor;
                }
                depth -= 1;
            },
            Token::ELSE => {
                if depth == 0 {
                    return cursor;
                }
            },
            _ => {},
        }
        cursor += 1;
    }
    cursor
}

/// Requires an `END` at `pos` and steps over it.
fn expect_end(program: &Program, pos: usize) -> (r: Result<usize, EvalError>)
    ensures
        lift(r) == after_end(program@, pos as int),
        r matches Ok(q) ==> q == pos + 1 && q <= program.len(),
{
    if pos < program.len() {
        match program[pos] {
            Token::END => Ok(pos + 1),
            _ => Err(EvalError::Syntax(pos)),
        }
    } else {
        Err(EvalError::Syntax(pos))
    }
}

/// Runs the statements from `pos` up to the end of their block. Returns the
/// position of the `ELSE` or `END` that ends the block, or the length of the
/// program.
pub fn eval_block(program: &Program, pos: usize, runtime: &mut Runtime) -> (r: Result<
    usize,
    EvalError,
>)
    ensures
        (final(runtime)@, lift(r)) == block_effect(program@, pos as int, old(runtime)@),
        r matches Ok(q) ==> pos <= q && (q <= program.len() || q == pos),
    decreases program.len() - pos, 2nat,
{
    let mut at: usize = pos;
    loop
        invariant
            pos <= at,
            at <= program.len() || at == pos,
            block_effect(program@, at as int, runtime@) == block_effect(
                program@,
                pos as int,
                old(runtime)@,
            ),
        decreases program.len() - at,
    {
        if at >= program.len() {
            return Ok(at);
        }
        match program[at] {
            Token::ELSE | Token::END => {
                return Ok(at);
            },
            _ => {},
        }
        match eval_stat(program, at, runtime) {
            Ok(next) => {
                at = next;
            },
            Err(e) => {
                return Err(e);
            },
        }
    }
}

/// Runs the first branch of an `IF`, which starts at `pos`, and skips the
/// `ELSE` branch if there is one.
fn handle_if_true(program: &Program, pos: usize, runtime: &mut Runtime) -> (r: Result<
    usize,
    EvalError,
>)
    requires
        pos <= program.len(),
    ensures
        (final(runtime)@, lift(r)) == then_effect(program@, pos as int, old(runtime)@),
        r matches Ok(q) ==> pos < q <= program.len(),
    decreases program.len() - pos, 3nat,
{
    let end_or_else = match eval_block(program, pos, runtime) {
        Ok(at) => at,
        Err(e) => {
            return Err(e);
        },
    };
    if end_or_else < program.len() {
        match program[end_or_else] {
            Token::ELSE => {
                return Ok(get_node_end(program, end_or_else));
            },
            _ => {},
        }
    }
    expect_end(program, end_or_else)
}

/// Skips the first branch of an `IF`, which starts at `true_block_pos`, and
/// runs the `ELSE` branch if there is one.
fn handle_if_false(program: &Program, true_block_pos: usize, runtime: &mut Runtime) -> (r: Result<
    usize,
    EvalError,
>)
    requires
        true_block_pos <= program.len(),
    ensures
        (final(runtime)@, lift(r)) == else_effect(program@, true_block_pos as int, old(runtime)@),
        r matches Ok(q) ==> true_block_pos < q <= program.len(),
    decreases program.len() - true_block_pos, 3nat,
{
    let true_block_end = skip_block(program, true_block_pos);
    if true_block_end < program.len() {
        match program[true_block_end] {
            Token::ELSE => {
                let else_block_pos = true_block_end + 1;
                return match eval_block(program, else_block_pos, runtime) {
                    Ok(endpos) => expect_end(program, endpos),
                    Err(e) => Err(e),
                };
            },
            _ => {},
        }
    }
    expect_end(program, true_block_end)
}

/// Runs the `WHILE` statement at `pos`.
fn handle_while(program: &Program, pos: usize, runtime: &mut Runtime) -> (r: Result<
    usize,
    EvalError,
>)
    requires
        pos < program.len(),
        program[pos as int] == Token::Stat(Stat::WHILE),
    ensures
        (final(runtime)@, lift(r)) == stat_effect(program@, pos as int, old(runtime)@),
        r matches Ok(q) ==> pos < q <= program.len(),
    decreases program.len() - pos, 0nat,
{
    let expr_pos = pos + 1;
    let (block_pos, first) = match eval_expr(program, expr_pos, runtime) {
        Ok(found) => found,
        Err(e) => {
            return Err(e);
        },
    };
    let block_end_pos = skip_block(program, block_pos);
    let cap = runtime.max_iterations;
    let mut expr_val = first;
    let mut iteration: usize = 0;
    let ghost whole = loop_effect(
        program@,
        pos as int,
        block_pos as int,
        runtime@,
        first,
        0,
        cap as nat,
    );
    while is_truthy(expr_val)
        invariant
            pos < block_pos <= program.len(),
            expr_pos == pos + 1,
            iteration == 0 || iteration < cap,
            loop_effect(
                program@,
                pos as int,
                block_pos as int,
                runtime@,
                expr_val,
                iteration as nat,
                cap as nat,
            ) == whole,
            stat_effect(program@, pos as int, old(runtime)@) == (
                whole.0,
                match whole.1 {
                    Err(e) => Err(e),
                    Ok(_) => after_end(program@, block_end_pos as int),
                },
            ),
        decreases cap - iteration,
    {
        match eval_block(program, block_pos, runtime) {
            Ok(_) => {},
            Err(e) => {
                return Err(e);
            },
        }
        match eval_expr(program, expr_pos, runtime) {
            Ok((_, val)) => {
                expr_val = val;
            },
            Err(e) => {
                return Err(e);
            },
        }
        iteration += 1;
        if iteration >= cap {
            return Err(EvalError::MaxIteration);
        }
    }
    expect_end(program, block_end_pos)
}

/// Runs the statement at `pos`. Returns the position after it.
pub fn eval_stat(program: &Program, pos: usize, runtime: &mut Runtime) -> (r: Result<
    usize,
    EvalError,
>)
    ensures
        (final(runtime)@, lift(r)) == stat_effect(program@, pos as int, old(runtime)@),
        r matches Ok(q) ==> pos < q <= program.len(),
    decreases program.len() - pos, 1nat,
{
    if pos >= program.len() {
        return Err(EvalError::Syntax(pos));
    }
    match program[pos] {
        Token::Stat(stat) => match stat {
            Stat::OUTPUT => match eval_expr(program, pos + 1, runtime) {
                Ok((newpos, val)) => {
                    runtime.output.push(val);
                    Ok(newpos)
                },
                Err(e) => Err(e),
            },
            Stat::INPUT => {
                if pos + 1 >= program.len() {
                    return Err(EvalError::Syntax(pos + 1));
                }
                let destination = match program[pos + 1] {
                    Token::Reg(num) => num,
                    _ => {
                        return Err(EvalError::Syntax(pos + 1));
                    },
                };
                let val = match runtime.next_input() {
                    Some(val) => val,
                    None => {
                        return Err(EvalError::Finished);
                    },
                };
                match runtime.set_reg(destination, val) {
                    Ok(_) => Ok(pos + 2),
                    Err(e) => Err(e),
                }
            },
            Stat::LOAD => {
                if pos + 1 >= program.len() {
                    return Err(EvalError::Syntax(pos + 1));
                }
                let destination = match program[pos + 1] {
                    Token::Reg(num) => num,
                    _ => {
                        return Err(EvalError::Syntax(pos + 1));
                    },
                };
                match eval_expr(program, pos + 2, runtime) {
                    Ok((newpos, val)) => match runtime.set_reg(destination, val) {
                        Ok(_) => Ok(newpos),
                        Err(e) => Err(e),
                    },
                    Err(e) => Err(e),
                }
            },
            Stat::IF => match eval_expr(program, pos + 1, runtime) {
                Ok((true_block_pos, condition_val)) => {
                    if is_truthy(condition_val) {
                        handle_if_true(program, true_block_pos, runtime)
                    } else {
                        handle_if_false(program, true_block_pos, runtime)
                    }
                },
                Err(e) => Err(e),
            },
            Stat::WHILE => handle_while(program, pos, runtime),
        },
        _ => Err(EvalError::Syntax(pos)),
    }
}

/// The number of times the body of the `WHILE` at `pos` is run, from a
/// state in which its condition had the value `v` and `iteration` rounds
/// were already made.
pub open spec fn rounds_run(
    p: Seq<Token>,
    pos: int,
    body: int,
    m: Machine,
    v: Number,
    iteration: nat,
    cap: nat,
) -> nat
    decreases cap - iteration,
{
    if v == 0 || !(pos < body <= p.len()) {
        0
    } else {
        let (m2, r) = block_effect(p, body, m);
        match r {
            Err(_) => 1,
            Ok(_) => match expr_value(p, pos + 1, m2.memory) {
                Err(_) => 1,
                Ok((_, v2)) => if iteration + 1 >= cap {
                    1
                } else {
                    1 + rounds_run(p, pos, body, m2, v2, iteration + 1, cap)
                },
            },
        }
    }
}

/// A loop runs its body at most as often as the iteration limit leaves
/// room for, and once where the limit leaves none.
pub proof fn lemma_rounds_are_bounded(
    p: Seq<Token>,
    pos: int,
    body: int,
    m: Machine,
    v: Number,
    iteration: nat,
    cap: nat,
)
    ensures
        rounds_run(p, pos, body, m, v, iteration, cap) <= if iteration < cap {
            cap - iteration
        } else {
            1
        },
    decreases cap - iteration,
{
    if v != 0 && pos < body <= p.len() {
        let (m2, r) = block_effect(p, body, m);
        if r is Ok {
            let again = expr_value(p, pos + 1, m2.memory);
            if again is Ok && iteration + 1 < cap {
                lemma_rounds_are_bounded(p, pos, body, m2, again->Ok_0.1, iteration + 1, cap);
            }
        }
    }
}

/// Whether the condition of the `WHILE` at `pos` holds in every state.
pub open spec fn always_true(p: Seq<Token>, pos: int) -> bool {
    forall|memory: Seq<Number>|
        (#[trigger] expr_value(p, pos + 1, memory)) matches Ok((_, v)) && v != 0
}

/// A loop whose condition always holds never ends by itself: it is cut off
/// at the iteration limit, unless its body stops the run before. Its body
/// has then run no more often than the limit says, and what was written
/// before the loop and in it is kept.
pub proof fn lemma_endless_loop_is_cut_off(
    p: Seq<Token>,
    pos: int,
    body: int,
    m: Machine,
    v: Number,
    iteration: nat,
    cap: nat,
)
    requires
        always_true(p, pos),
        v != 0,
    ensures
        loop_effect(p, pos, body, m, v, iteration, cap).1 is Err,
        block_effect(p, body, m).1 is Ok && iteration + 1 >= cap && pos < body <= p.len()
            ==> loop_effect(p, pos, body, m, v, iteration, cap).1 == Err::<(), EvalError>(
            EvalError::MaxIteration,
        ),
        kept_output(m, loop_effect(p, pos, body, m, v, iteration, cap).0),
        iteration < cap ==> rounds_run(p, pos, body, m, v, iteration, cap) <= cap - iteration,
    decreases cap - iteration,
{
    lemma_loop_keeps_output(p, pos, body, m, v, iteration, cap);
    lemma_rounds_are_bounded(p, pos, body, m, v, iteration, cap);
    if pos < body <= p.len() {
        let (m2, r) = block_effect(p, body, m);
        if r is Ok {
            let again = expr_value(p, pos + 1, m2.memory);
            if iteration + 1 < cap {
                lemma_endless_loop_is_cut_off(p, pos, body, m2, again->Ok_0.1, iteration + 1, cap);
            }
        }
    }
}

/// Runs a program from its first token.
///
/// The run ends at the end of the program, or early when an `INPUT` finds
/// the input exhausted or a loop reaches the iteration limit; in each case
/// what was written so far stays in the runtime. A program that is well
/// formed and names only existing registers never ends in another way.
pub fn execute(program: &Program, runtime: &mut Runtime) -> (r: Result<usize, EvalError>)
    ensures
        (final(runtime)@, lift(r)) == block_effect(program@, 0, old(runtime)@),
        kept_output(old(runtime)@, final(runtime)@),
        well_formed(program@) && registers_within(program@, old(runtime)@.memory.len()) ==> {
            ||| r == Ok::<usize, EvalError>(program.len())
            ||| r == Err::<usize, EvalError>(EvalError::Finished)
            ||| r == Err::<usize, EvalError>(EvalError::MaxIteration)
        },
{
    proof {
        if well_formed(program@) && registers_within(program@, runtime@.memory.len()) {
            lemma_well_formed_runs(program@, runtime@);
        }
        lemma_block_keeps_output(program@, 0, runtime@);
    }
    eval_block(program, 0, runtime)
}

} // verus!
