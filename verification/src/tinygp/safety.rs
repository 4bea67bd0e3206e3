//! Well-formed programs run without structural errors.
//!
//! The interpreter reports a syntax error when a token stands where it
//! cannot, and a semantic error when a register does not exist. The lemmas
//! here show that neither happens for a well-formed program whose registers
//! all exist: such a run ends at the end of the program, on exhausted input,
//! or at the iteration limit.

use vstd::prelude::*;
use super::common::{Stat, Token, Number, node_end};
use super::grammar::{
    Expect,
    operands,
    react,
    parse,
    well_formed,
    registers_within,
    lemma_parse_first,
};
use super::structure::{
    done,
    open_blocks,
    block_weight,
    lemma_expression_extent,
    lemma_block_extent,
    lemma_open_blocks_step,
    lemma_open_blocks_bottom,
    lemma_open_blocks_single,
};
use super::execution::{
    always_true,
    rounds_run,
    lemma_endless_loop_is_cut_off,
    EvalError,
    Machine,
    expr_value,
    skip_end,
    stat_effect,
    then_effect,
    else_effect,
    loop_effect,
    block_effect,
};

verus! {

/// A run did not stop on a structural error.
pub open spec fn sound(r: Result<int, EvalError>) -> bool {
    r is Ok || r == Err::<int, EvalError>(EvalError::Finished) || r == Err::<int, EvalError>(
        EvalError::MaxIteration,
    )
}

/// Where an expression is expected in a well-formed program, evaluation
/// succeeds and ends where the expression ends.
pub proof fn lemma_expression_runs(
    p: Seq<Token>,
    a: int,
    stack: Seq<Expect>,
    memory: Seq<Number>,
)
    requires
        0 <= a <= p.len(),
        stack.len() > 0,
        stack.last() is Expression,
        parse(stack, p.subrange(a, p.len() as int)) == Some(done()),
        registers_within(p, memory.len()),
    ensures
        expr_value(p, a, memory) is Ok,
        node_end(p, a) == Some(expr_value(p, a, memory)->Ok_0.0),
        a < expr_value(p, a, memory)->Ok_0.0 <= p.len(),
        parse(stack.drop_last(), p.subrange(expr_value(p, a, memory)->Ok_0.0, p.len() as int))
            == Some(done()),
    decreases p.len() - a,
{
    let n = p.len() as int;
    lemma_expression_extent(p, a, stack);
    let t = p[a];
    assert(p.subrange(a, n) =~= seq![t] + p.subrange(a + 1, n));
    lemma_parse_first(stack, t, p.subrange(a + 1, n));
    let rep = react(Expect::Expression, t).unwrap();
    let after = stack.drop_last() + rep;
    if rep.len() == 1 {
        assert(after.last() is Expression);
        lemma_expression_runs(p, a + 1, after, memory);
    } else if rep.len() == 2 {
        assert(after.last() is Expression);
        lemma_expression_runs(p, a + 1, after, memory);
        lemma_expression_extent(p, a + 1, after);
        let m = node_end(p, a + 1).unwrap();
        let mid = after.drop_last();
        assert(mid =~= stack.drop_last().push(Expect::Expression));
        lemma_expression_runs(p, m, mid, memory);
    }
}

/// Inside a well-formed program, the scan for the end of a branch stops at
/// the `ELSE` or `END` that ends the outermost open block, with everything
/// inside that block complete.
#[verifier::rlimit(30)]
pub proof fn lemma_skip_extent(p: Seq<Token>, j: int, base: Seq<Expect>, open: Seq<Expect>)
    requires
        0 <= j <= p.len(),
        open.len() > 0,
        open[0] is Then || open[0] is Block,
        parse(base + open, p.subrange(j, p.len() as int)) == Some(done()),
    ensures
        ({
            let b = skip_end(p, j, open_blocks(open));
            &&& j <= b < p.len()
            &&& (p[b] == Token::END || p[b] == Token::ELSE && open[0] is Then)
            &&& parse(base.push(open[0]), p.subrange(b, p.len() as int)) == Some(done())
        }),
    decreases p.len() - j,
{
    let n = p.len() as int;
    let level = open_blocks(open);
    lemma_open_blocks_bottom(open);
    if j == n {
        assert(p.subrange(j, n) =~= Seq::<Token>::empty());
        assert((base + open)[base.len() as int] == open[0]);
        assert(false);
    }
    let t = p[j];
    let stack = base + open;
    assert(p.subrange(j, n) =~= seq![t] + p.subrange(j + 1, n));
    lemma_parse_first(stack, t, p.subrange(j + 1, n));
    assert(stack.last() == open.last());
    let rep = react(open.last(), t).unwrap();
    let next = open.drop_last() + rep;
    assert(stack.drop_last() + rep =~= base + next);
    lemma_open_blocks_step(open, t);
    if open.len() == 1 {
        assert(open =~= seq![open[0]]);
        assert(base + open =~= base.push(open[0]));
        lemma_open_blocks_single(open[0]);
        if t is Stat {
            assert(next[0] == open[0]);
            lemma_open_blocks_bottom(next);
            lemma_skip_extent(p, j + 1, base, next);
        }
    } else {
        assert(next[0] == open[0]);
        lemma_open_blocks_bottom(next);
        if level == 1 {
            // The only open block is the outermost one, so the innermost
            // expectation is an operand, which no `ELSE` or `END` satisfies.
            assert(open.drop_last()[0] == open[0]);
            lemma_open_blocks_bottom(open.drop_last());
            assert(block_weight(open.last()) == 0);
        }
        lemma_skip_extent(p, j + 1, base, next);
    }
}

/// What the lemmas below establish of a statement, a branch or a block that
/// starts where `stack` is the state of the recognizer: the memory keeps
/// its size, the run stops on no structural error, and where it goes on the
/// recognizer is back at `stack`.
pub open spec fn runs_to(
    p: Seq<Token>,
    from: int,
    stack: Seq<Expect>,
    before: Machine,
    result: (Machine, Result<int, EvalError>),
) -> bool {
    &&& result.0.memory.len() == before.memory.len()
    &&& sound(result.1)
    &&& result.1 matches Ok(q) ==> from <= q <= p.len() && parse(
        stack,
        p.subrange(q, p.len() as int),
    ) == Some(done())
}

/// A well-formed block runs up to the token that ends it.
pub proof fn lemma_block_runs(p: Seq<Token>, pos: int, stack: Seq<Expect>, m: Machine)
    requires
        0 <= pos <= p.len(),
        stack.len() > 0,
        stack.last().holds_statements(),
        parse(stack, p.subrange(pos, p.len() as int)) == Some(done()),
        registers_within(p, m.memory.len()),
    ensures
        runs_to(p, pos, stack, m, block_effect(p, pos, m)),
        block_effect(p, pos, m).1 matches Ok(b) ==> b == p.len() || p[b] == Token::ELSE || p[b]
            == Token::END,
    decreases p.len() - pos, 2nat, 0nat,
{
    let n = p.len() as int;
    if pos < n && p[pos] != Token::ELSE && p[pos] != Token::END {
        assert(p.subrange(pos, n) =~= seq![p[pos]] + p.subrange(pos + 1, n));
        lemma_parse_first(stack, p[pos], p.subrange(pos + 1, n));
        lemma_statement_runs(p, pos, stack, m);
        let (m2, r) = stat_effect(p, pos, m);
        match r {
            Ok(q) => {
                lemma_block_runs(p, q, stack, m2);
            },
            Err(_) => {},
        }
    }
}

/// A statement of a well-formed program runs to its end.
#[verifier::rlimit(30)]
pub proof fn lemma_statement_runs(p: Seq<Token>, pos: int, stack: Seq<Expect>, m: Machine)
    requires
        0 <= pos < p.len(),
        p[pos] is Stat,
        stack.len() > 0,
        stack.last().holds_statements(),
        parse(stack, p.subrange(pos, p.len() as int)) == Some(done()),
        registers_within(p, m.memory.len()),
    ensures
        runs_to(p, pos + 1, stack, m, stat_effect(p, pos, m)),
    decreases p.len() - pos, 1nat, 0nat,
{
    let n = p.len() as int;
    let t = p[pos];
    let s = t->Stat_0;
    assert(p.subrange(pos, n) =~= seq![t] + p.subrange(pos + 1, n));
    lemma_parse_first(stack, t, p.subrange(pos + 1, n));
    let after = stack + operands(s);
    assert(stack.drop_last() + (seq![stack.last()] + operands(s)) =~= after);
    match s {
        Stat::INPUT => {
            lemma_register_runs(p, pos + 1, after);
            assert(after.drop_last() =~= stack);
        },
        Stat::OUTPUT => {
            lemma_expression_runs(p, pos + 1, after, m.memory);
            assert(after.drop_last() =~= stack);
        },
        Stat::LOAD => {
            lemma_register_runs(p, pos + 1, after);
            let mid = after.drop_last();
            assert(mid =~= stack.push(Expect::Expression));
            lemma_expression_runs(p, pos + 2, mid, m.memory);
            assert(mid.drop_last() =~= stack);
        },
        Stat::IF => {
            lemma_expression_runs(p, pos + 1, after, m.memory);
            let (c, v) = expr_value(p, pos + 1, m.memory)->Ok_0;
            assert(after.drop_last() =~= stack.push(Expect::Then));
            if v != 0 {
                lemma_then_runs(p, c, stack, m);
            } else {
                lemma_else_runs(p, c, stack, m);
            }
        },
        Stat::WHILE => {
            lemma_expression_runs(p, pos + 1, after, m.memory);
            let (c, v) = expr_value(p, pos + 1, m.memory)->Ok_0;
            assert(after.drop_last() =~= stack.push(Expect::Block));
            lemma_loop_runs(p, pos, c, stack, after, m, v, 0, m.max_iterations);
            let open = seq![Expect::Block];
            assert(stack + open =~= stack.push(Expect::Block));
            lemma_skip_extent(p, c, stack, open);
            lemma_open_blocks_single(Expect::Block);
            let b = skip_end(p, c, 1);
            assert(p.subrange(b, n) =~= seq![p[b]] + p.subrange(b + 1, n));
            lemma_parse_first(stack.push(Expect::Block), p[b], p.subrange(b + 1, n));
            assert(stack.push(Expect::Block).drop_last() + Seq::<Expect>::empty() =~= stack);
        },
    }
}

/// Where a register is expected in a well-formed program, a register stands.
proof fn lemma_register_runs(p: Seq<Token>, a: int, stack: Seq<Expect>)
    requires
        0 <= a <= p.len(),
        stack.len() > 0,
        stack.last() is Register,
        parse(stack, p.subrange(a, p.len() as int)) == Some(done()),
    ensures
        a < p.len(),
        p[a] is Reg,
        parse(stack.drop_last(), p.subrange(a + 1, p.len() as int)) == Some(done()),
{
    let n = p.len() as int;
    if a == n {
        assert(p.subrange(a, n) =~= Seq::<Token>::empty());
        assert(false);
    }
    assert(p.subrange(a, n) =~= seq![p[a]] + p.subrange(a + 1, n));
    lemma_parse_first(stack, p[a], p.subrange(a + 1, n));
    assert(stack.drop_last() + Seq::<Expect>::empty() =~= stack.drop_last());
}

/// The first branch of an `IF` runs to the end of the statement.
#[verifier::rlimit(30)]
pub proof fn lemma_then_runs(p: Seq<Token>, body: int, stack: Seq<Expect>, m: Machine)
    requires
        0 <= body <= p.len(),
        stack.len() > 0,
        parse(stack.push(Expect::Then), p.subrange(body, p.len() as int)) == Some(done()),
        registers_within(p, m.memory.len()),
    ensures
        runs_to(p, body, stack, m, then_effect(p, body, m)),
    decreases p.len() - body, 3nat, 0nat,
{
    let n = p.len() as int;
    let inner = stack.push(Expect::Then);
    lemma_block_runs(p, body, inner, m);
    let (m2, r) = block_effect(p, body, m);
    match r {
        Ok(b) => {
            if b == n {
                assert(p.subrange(b, n) =~= Seq::<Token>::empty());
                assert(false);
            }
            assert(p.subrange(b, n) =~= seq![p[b]] + p.subrange(b + 1, n));
            lemma_parse_first(inner, p[b], p.subrange(b + 1, n));
            if p[b] == Token::ELSE {
                let open = seq![Expect::Block];
                assert(inner.drop_last() + open =~= stack + open);
                lemma_block_extent(p, b + 1, stack, open);
                lemma_open_blocks_single(Expect::Block);
            } else {
                assert(inner.drop_last() + Seq::<Expect>::empty() =~= stack);
            }
        },
        Err(_) => {},
    }
}

/// The `ELSE` branch of an `IF`, if there is one, runs to the end of the
/// statement.
#[verifier::rlimit(30)]
pub proof fn lemma_else_runs(p: Seq<Token>, body: int, stack: Seq<Expect>, m: Machine)
    requires
        0 <= body <= p.len(),
        stack.len() > 0,
        parse(stack.push(Expect::Then), p.subrange(body, p.len() as int)) == Some(done()),
        registers_within(p, m.memory.len()),
    ensures
        runs_to(p, body, stack, m, else_effect(p, body, m)),
    decreases p.len() - body, 3nat, 0nat,
{
    let n = p.len() as int;
    let open = seq![Expect::Then];
    let inner = stack.push(Expect::Then);
    assert(stack + open =~= inner);
    lemma_skip_extent(p, body, stack, open);
    lemma_open_blocks_single(Expect::Then);
    let b = skip_end(p, body, 1);
    assert(p.subrange(b, n) =~= seq![p[b]] + p.subrange(b + 1, n));
    lemma_parse_first(inner, p[b], p.subrange(b + 1, n));
    if p[b] == Token::ELSE {
        let other = stack.push(Expect::Block);
        assert(inner.drop_last() + seq![Expect::Block] =~= other);
        lemma_block_runs(p, b + 1, other, m);
        let (m2, r) = block_effect(p, b + 1, m);
        match r {
            Ok(e) => {
                if e == n {
                    assert(p.subrange(e, n) =~= Seq::<Token>::empty());
                    assert(false);
                }
                assert(p.subrange(e, n) =~= seq![p[e]] + p.subrange(e + 1, n));
                lemma_parse_first(other, p[e], p.subrange(e + 1, n));
                assert(other.drop_last() + Seq::<Expect>::empty() =~= stack);
            },
            Err(_) => {},
        }
    } else {
        assert(inner.drop_last() + Seq::<Expect>::empty() =~= stack);
    }
}

/// The rounds of a `WHILE` stop on no structural error.
pub proof fn lemma_loop_runs(
    p: Seq<Token>,
    pos: int,
    body: int,
    stack: Seq<Expect>,
    after: Seq<Expect>,
    m: Machine,
    v: Number,
    iteration: nat,
    cap: nat,
)
    requires
        0 <= pos < body <= p.len(),
        stack.len() > 0,
        after == stack + operands(Stat::WHILE),
        parse(after, p.subrange(pos + 1, p.len() as int)) == Some(done()),
        parse(stack.push(Expect::Block), p.subrange(body, p.len() as int)) == Some(done()),
        registers_within(p, m.memory.len()),
    ensures
        loop_effect(p, pos, body, m, v, iteration, cap).0.memory.len() == m.memory.len(),
        loop_effect(p, pos, body, m, v, iteration, cap).1 is Ok || loop_effect(
            p,
            pos,
            body,
            m,
            v,
            iteration,
            cap,
        ).1 == Err::<(), EvalError>(EvalError::Finished) || loop_effect(
            p,
            pos,
            body,
            m,
            v,
            iteration,
            cap,
        ).1 == Err::<(), EvalError>(EvalError::MaxIteration),
    decreases p.len() - pos, 0nat, cap - iteration,
{
    if v != 0 {
        lemma_block_runs(p, body, stack.push(Expect::Block), m);
        let (m2, r) = block_effect(p, body, m);
        match r {
            Ok(_) => {
                lemma_expression_runs(p, pos + 1, after, m2.memory);
                let (_, v2) = expr_value(p, pos + 1, m2.memory)->Ok_0;
                if iteration + 1 < cap {
                    lemma_loop_runs(p, pos, body, stack, after, m2, v2, iteration + 1, cap);
                }
            },
            Err(_) => {},
        }
    }
}

/// A well-formed program whose registers all exist runs to its end, or
/// stops on exhausted input or at the iteration limit; it never stops on a
/// syntax or semantic error.
pub proof fn lemma_well_formed_runs(p: Seq<Token>, m: Machine)
    requires
        well_formed(p),
        registers_within(p, m.memory.len()),
    ensures
        block_effect(p, 0, m).0.memory.len() == m.memory.len(),
        block_effect(p, 0, m).1 == Ok::<int, EvalError>(p.len() as int) || block_effect(p, 0, m).1
            == Err::<int, EvalError>(EvalError::Finished) || block_effect(p, 0, m).1 == Err::<
            int,
            EvalError,
        >(EvalError::MaxIteration),
{
    let n = p.len() as int;
    assert(p.subrange(0, n) =~= p);
    lemma_block_runs(p, 0, done(), m);
    match block_effect(p, 0, m).1 {
        Ok(b) => {
            if b < n {
                assert(p.subrange(b, n) =~= seq![p[b]] + p.subrange(b + 1, n));
                lemma_parse_first(done(), p[b], p.subrange(b + 1, n));
            }
        },
        Err(_) => {},
    }
}

/// What was written is kept: the first output is the beginning of the
/// second.
pub open spec fn kept_output(before: Machine, after: Machine) -> bool {
    before.output.is_prefix_of(after.output)
}

/// Keeping what was written carries over from step to step.
proof fn lemma_kept_output_twice(a: Machine, b: Machine, c: Machine)
    requires
        kept_output(a, b),
        kept_output(b, c),
    ensures
        kept_output(a, c),
{
    assert(a.output =~= c.output.subrange(0, a.output.len() as int)) by {
        assert forall|i: int| 0 <= i < a.output.len() implies a.output[i] == c.output[i] by {
            assert(a.output[i] == b.output.subrange(0, a.output.len() as int)[i]);
            assert(b.output[i] == c.output.subrange(0, b.output.len() as int)[i]);
        }
    }
}

/// A block only adds to what was written.
pub proof fn lemma_block_keeps_output(p: Seq<Token>, pos: int, m: Machine)
    ensures
        kept_output(m, block_effect(p, pos, m).0),
    decreases p.len() - pos, 2nat, 0nat,
{
    if 0 <= pos < p.len() && p[pos] != Token::ELSE && p[pos] != Token::END {
        lemma_statement_keeps_output(p, pos, m);
        let (m2, r) = stat_effect(p, pos, m);
        match r {
            Ok(q) => {
                if pos < q <= p.len() {
                    lemma_block_keeps_output(p, q, m2);
                    lemma_kept_output_twice(m, m2, block_effect(p, q, m2).0);
                }
            },
            Err(_) => {},
        }
    } else {
        assert(m.output =~= m.output.subrange(0, m.output.len() as int));
    }
}

/// A statement only adds to what was written.
pub proof fn lemma_statement_keeps_output(p: Seq<Token>, pos: int, m: Machine)
    ensures
        kept_output(m, stat_effect(p, pos, m).0),
    decreases p.len() - pos, 1nat, 0nat,
{
    assert(m.output =~= m.output.subrange(0, m.output.len() as int));
    if 0 <= pos < p.len() {
        match p[pos] {
            Token::Stat(Stat::OUTPUT) => {
                match expr_value(p, pos + 1, m.memory) {
                    Ok((_, v)) => {
                        assert(m.output =~= m.output.push(v).subrange(0, m.output.len() as int));
                    },
                    Err(_) => {},
                }
            },
            Token::Stat(Stat::IF) => {
                match expr_value(p, pos + 1, m.memory) {
                    Ok((c, v)) => {
                        if pos < c <= p.len() {
                            if v != 0 {
                                lemma_block_keeps_output(p, c, m);
                            } else {
                                let b = skip_end(p, c, 1);
                                if c <= b < p.len() && p[b] == Token::ELSE {
                                    lemma_block_keeps_output(p, b + 1, m);
                                }
                            }
                        }
                    },
                    Err(_) => {},
                }
            },
            Token::Stat(Stat::WHILE) => {
                match expr_value(p, pos + 1, m.memory) {
                    Ok((c, v)) => {
                        if pos < c <= p.len() {
                            lemma_loop_keeps_output(p, pos, c, m, v, 0, m.max_iterations);
                        }
                    },
                    Err(_) => {},
                }
            },
            _ => {},
        }
    }
}

/// The rounds of a loop only add to what was written.
pub proof fn lemma_loop_keeps_output(
    p: Seq<Token>,
    pos: int,
    body: int,
    m: Machine,
    v: Number,
    iteration: nat,
    cap: nat,
)
    ensures
        kept_output(m, loop_effect(p, pos, body, m, v, iteration, cap).0),
    decreases p.len() - pos, 0nat, cap - iteration,
{
    assert(m.output =~= m.output.subrange(0, m.output.len() as int));
    if v != 0 && pos < body <= p.len() {
        lemma_block_keeps_output(p, body, m);
        let (m2, r) = block_effect(p, body, m);
        match r {
            Ok(_) => match expr_value(p, pos + 1, m2.memory) {
                Ok((_, v2)) => {
                    if iteration + 1 < cap {
                        lemma_loop_keeps_output(p, pos, body, m2, v2, iteration + 1, cap);
                        lemma_kept_output_twice(
                            m,
                            m2,
                            loop_effect(p, pos, body, m2, v2, iteration + 1, cap).0,
                        );
                    }
                },
                Err(_) => {},
            },
            Err(_) => {},
        }
    }
}

/// In a well-formed program whose registers all exist, a loop whose
/// condition always holds is given up softly: it stops on exhausted input
/// or at the iteration limit, never on a structural error, and what was
/// written is kept.
pub proof fn lemma_endless_loop_stops_softly(
    p: Seq<Token>,
    pos: int,
    body: int,
    stack: Seq<Expect>,
    m: Machine,
    v: Number,
    cap: nat,
)
    requires
        0 <= pos < body <= p.len(),
        stack.len() > 0,
        parse(stack + operands(Stat::WHILE), p.subrange(pos + 1, p.len() as int)) == Some(done()),
        parse(stack.push(Expect::Block), p.subrange(body, p.len() as int)) == Some(done()),
        registers_within(p, m.memory.len()),
        always_true(p, pos),
        v != 0,
    ensures
        ({
            let (after, r) = loop_effect(p, pos, body, m, v, 0, cap);
            &&& r == Err::<(), EvalError>(EvalError::Finished) || r == Err::<(), EvalError>(
                EvalError::MaxIteration,
            )
            &&& kept_output(m, after)
            &&& after.memory.len() == m.memory.len()
            &&& cap > 0 ==> rounds_run(p, pos, body, m, v, 0, cap) <= cap
        }),
{
    lemma_loop_runs(p, pos, body, stack, stack + operands(Stat::WHILE), m, v, 0, cap);
    lemma_endless_loop_is_cut_off(p, pos, body, m, v, 0, cap);
}

} // verus!
