//! The grammar of programs, stated as a pushdown recognizer.
//!
//! Reading a program left to right, the recognizer keeps a stack of what is
//! still expected. A statement pushes its operands, an operand is popped when
//! it is complete, and `IF`/`WHILE` push a block that only `END` (or, for the
//! first branch of an `IF`, `ELSE`) can close. A program is well formed when
//! reading all of it leaves nothing but the top-level expectation.

use vstd::prelude::*;
use super::common::{Expr, Stat, Token, Program};

verus! {

/// Something the recognizer still has to see.
#[derive(Debug, Clone, Copy, PartialEq, Eq, Structural)]
pub enum Expect {
    /// One complete expression.
    Expression,
    /// One register token.
    Register,
    /// The statements of the first branch of an `IF`, up to `ELSE` or `END`.
    Then,
    /// The statements of an `ELSE` branch or a `WHILE` body, up to `END`.
    Block,
    /// The statements of the program itself.
    Program,
}

impl Expect {
    /// Whether statements may start while this is the innermost expectation.
    pub open spec fn holds_statements(self) -> bool {
        self is Then || self is Block || self is Program
    }
}

/// What a statement operator expects after itself, innermost last.
pub open spec fn operands(s: Stat) -> Seq<Expect> {
    match s {
        Stat::INPUT => seq![Expect::Register],
        Stat::OUTPUT => seq![Expect::Expression],
        Stat::LOAD => seq![Expect::Expression, Expect::Register],
        Stat::IF => seq![Expect::Then, Expect::Expression],
        Stat::WHILE => seq![Expect::Block, Expect::Expression],
    }
}

/// What replaces the innermost expectation `top` once `t` is read, or `None`
/// when `t` may not appear there.
pub open spec fn react(top: Expect, t: Token) -> Option<Seq<Expect>> {
    match top {
        Expect::Expression => match t {
            Token::Reg(_) => Some(Seq::empty()),
            Token::Expr(Expr::Reg(_)) => None,
            Token::Expr(Expr::Num(_)) => Some(Seq::empty()),
            Token::Expr(Expr::NOT) => Some(seq![Expect::Expression]),
            Token::Expr(_) => Some(seq![Expect::Expression, Expect::Expression]),
            _ => None,
        },
        Expect::Register => match t {
            Token::Reg(_) => Some(Seq::empty()),
            _ => None,
        },
        _ => match t {
            Token::Stat(s) => Some(seq![top] + operands(s)),
            Token::ELSE => if top is Then {
                Some(seq![Expect::Block])
            } else {
                None
            },
            Token::END => if top is Program {
                None
            } else {
                Some(Seq::empty())
            },
            _ => None,
        },
    }
}

/// The stack after reading one token, or `None` when the token is rejected.
pub open spec fn step(stack: Seq<Expect>, t: Token) -> Option<Seq<Expect>> {
    if stack.len() == 0 {
        None
    } else {
        match react(stack.last(), t) {
            Some(r) => Some(stack.drop_last() + r),
            None => None,
        }
    }
}

/// The stack after reading all of `tokens`, starting from `stack`.
pub open spec fn parse(stack: Seq<Expect>, tokens: Seq<Token>) -> Option<Seq<Expect>>
    decreases tokens.len(),
{
    if tokens.len() == 0 {
        Some(stack)
    } else {
        match parse(stack, tokens.drop_last()) {
            Some(s) => step(s, tokens.last()),
            None => None,
        }
    }
}

/// A well-formed program is a sequence of complete statements: every operator
/// is followed by exactly its operands and every block is closed.
pub open spec fn well_formed(p: Seq<Token>) -> bool {
    parse(seq![Expect::Program], p) == Some(seq![Expect::Program])
}

/// Exactly one complete expression.
pub open spec fn is_expression(x: Seq<Token>) -> bool {
    parse(seq![Expect::Expression], x) == Some(Seq::<Expect>::empty())
}

/// Every register a program names exists in a memory of `memsize` cells.
pub open spec fn registers_within(p: Seq<Token>, memsize: nat) -> bool {
    forall|i: int| 0 <= i < p.len() ==> (#[trigger] p[i] matches Token::Reg(n) ==> n < memsize)
}

/// Every literal of a program lies from `low` up to, but excluding, `high`.
pub open spec fn literals_within(p: Seq<Token>, low: int, high: int) -> bool {
    forall|i: int|
        0 <= i < p.len() ==> (#[trigger] p[i] matches Token::Expr(Expr::Num(v)) ==> low <= v < high)
}

/// Reading `a` and then `b` is reading their concatenation.
pub proof fn lemma_parse_concat(stack: Seq<Expect>, a: Seq<Token>, b: Seq<Token>)
    ensures
        parse(stack, a + b) == match parse(stack, a) {
            Some(m) => parse(m, b),
            None => None,
        },
    decreases b.len(),
{
    if b.len() == 0 {
        assert(a + b =~= a);
    } else {
        assert((a + b).drop_last() =~= a + b.drop_last());
        assert((a + b).last() == b.last());
        lemma_parse_concat(stack, a, b.drop_last());
    }
}

/// Reading a single token is one step.
pub proof fn lemma_parse_single(stack: Seq<Expect>, t: Token)
    ensures
        parse(stack, seq![t]) == step(stack, t),
{
    let one = seq![t];
    assert(one.drop_last() =~= Seq::<Token>::empty());
    assert(parse(stack, one.drop_last()) == Some(stack));
}

/// Reading `t` and then `rest`.
pub proof fn lemma_parse_first(stack: Seq<Expect>, t: Token, rest: Seq<Token>)
    ensures
        parse(stack, seq![t] + rest) == match step(stack, t) {
            Some(m) => parse(m, rest),
            None => None,
        },
{
    lemma_parse_concat(stack, seq![t], rest);
    lemma_parse_single(stack, t);
}

/// A successful reading never looks below the expectations it started with:
/// it succeeds in the same way on top of any other stack.
pub proof fn lemma_parse_frame(base: Seq<Expect>, stack: Seq<Expect>, x: Seq<Token>)
    requires
        parse(stack, x).is_some(),
    ensures
        parse(base + stack, x) == Some(base + parse(stack, x).unwrap()),
    decreases x.len(),
{
    if x.len() == 0 {
    } else {
        lemma_parse_frame(base, stack, x.drop_last());
        let m = parse(stack, x.drop_last()).unwrap();
        let r = react(m.last(), x.last()).unwrap();
        assert((base + m).last() == m.last());
        assert((base + m).drop_last() =~= base + m.drop_last());
        assert((base + m).drop_last() + r =~= base + (m.drop_last() + r));
    }
}

/// The top-level expectation is never removed, and statements are read the
/// same way inside any block as at top level.
pub proof fn lemma_parse_rebase(
    base: Seq<Expect>,
    top: Expect,
    above: Seq<Expect>,
    x: Seq<Token>,
)
    requires
        top.holds_statements(),
        parse(seq![Expect::Program] + above, x).is_some(),
    ensures
        ({
            let r = parse(seq![Expect::Program] + above, x).unwrap();
            &&& r.len() > 0
            &&& r[0] == Expect::Program
            &&& parse(base.push(top) + above, x) == Some(base.push(top) + r.skip(1))
        }),
    decreases x.len(),
{
    let start = seq![Expect::Program] + above;
    if x.len() == 0 {
        assert(start.skip(1) =~= above);
    } else {
        lemma_parse_rebase(base, top, above, x.drop_last());
        let m = parse(start, x.drop_last()).unwrap();
        let t = x.last();
        let rep = react(m.last(), t).unwrap();
        let r = m.drop_last() + rep;
        let other = base.push(top) + m.skip(1);
        if m.len() == 1 {
            assert(m.skip(1) =~= Seq::<Expect>::empty());
            assert(other =~= base.push(top));
            assert(other.drop_last() =~= base);
            match t {
                Token::Stat(s) => {
                    assert(r =~= seq![Expect::Program] + operands(s));
                    assert(r.skip(1) =~= operands(s));
                    assert(base + (seq![top] + operands(s)) =~= base.push(top) + r.skip(1));
                },
                _ => {},
            }
        } else {
            assert(other.last() == m.last());
            assert(r[0] == m[0]);
            assert(other.drop_last() + rep =~= base.push(top) + r.skip(1));
        }
    }
}

/// A well-formed sequence of statements can stand wherever statements may
/// start, and leaves the expectations as it found them.
pub proof fn lemma_statements_anywhere(base: Seq<Expect>, top: Expect, x: Seq<Token>)
    requires
        top.holds_statements(),
        well_formed(x),
    ensures
        parse(base.push(top), x) == Some(base.push(top)),
{
    assert(seq![Expect::Program] + Seq::<Expect>::empty() =~= seq![Expect::Program]);
    lemma_parse_rebase(base, top, Seq::empty(), x);
    assert(seq![Expect::Program].skip(1) =~= Seq::<Expect>::empty());
    assert(base.push(top) + Seq::<Expect>::empty() =~= base.push(top));
}

/// A complete expression satisfies an expected expression on any stack.
pub proof fn lemma_expression_anywhere(base: Seq<Expect>, x: Seq<Token>)
    requires
        is_expression(x),
    ensures
        parse(base.push(Expect::Expression), x) == Some(base),
{
    lemma_parse_frame(base, seq![Expect::Expression], x);
    assert(base + seq![Expect::Expression] =~= base.push(Expect::Expression));
    assert(base + Seq::<Expect>::empty() =~= base);
}

/// Two well-formed programs in a row are a well-formed program.
pub proof fn lemma_well_formed_concat(a: Seq<Token>, b: Seq<Token>)
    requires
        well_formed(a),
        well_formed(b),
    ensures
        well_formed(a + b),
{
    lemma_parse_concat(seq![Expect::Program], a, b);
}

/// Reading a program is reading a prefix of it and then the rest.
pub proof fn lemma_parse_split(stack: Seq<Expect>, p: Seq<Token>, k: int)
    requires
        0 <= k <= p.len(),
    ensures
        parse(stack, p) == match parse(stack, p.subrange(0, k)) {
            Some(m) => parse(m, p.subrange(k, p.len() as int)),
            None => None,
        },
{
    assert(p =~= p.subrange(0, k) + p.subrange(k, p.len() as int));
    lemma_parse_concat(stack, p.subrange(0, k), p.subrange(k, p.len() as int));
}

/// Reading one more token of a program.
pub proof fn lemma_parse_extend(stack: Seq<Expect>, p: Seq<Token>, k: int)
    requires
        0 <= k < p.len(),
    ensures
        parse(stack, p.subrange(0, k + 1)) == match parse(stack, p.subrange(0, k)) {
            Some(m) => step(m, p[k]),
            None => None,
        },
{
    let q = p.subrange(0, k + 1);
    assert(q.drop_last() =~= p.subrange(0, k));
    assert(q.last() == p[k]);
}

/// Pushes the operands of a statement operator.
fn push_operands(stack: &mut Vec<Expect>, s: Stat)
    ensures
        final(stack)@ == old(stack)@ + operands(s),
{
    match s {
        Stat::INPUT => {
            stack.push(Expect::Register);
        },
        Stat::OUTPUT => {
            stack.push(Expect::Expression);
        },
        Stat::LOAD => {
            stack.push(Expect::Expression);
            stack.push(Expect::Register);
        },
        Stat::IF => {
            stack.push(Expect::Then);
            stack.push(Expect::Expression);
        },
        Stat::WHILE => {
            stack.push(Expect::Block);
            stack.push(Expect::Expression);
        },
    }
    assert(stack@ =~= old(stack)@ + operands(s));
}

/// Advances the recognizer by one token. Returns `false`, leaving the stack
/// in an unspecified state, when the token is rejected.
fn advance(stack: &mut Vec<Expect>, t: Token) -> (ok: bool)
    ensures
        ok == step(old(stack)@, t).is_some(),
        ok ==> step(old(stack)@, t) == Some(final(stack)@),
{
    let top = match stack.pop() {
        Some(top) => top,
        None => {
            return false;
        },
    };
    let ghost rest = stack@;
    match top {
        Expect::Expression => match t {
            Token::Reg(_) => {
                assert(stack@ =~= rest + Seq::<Expect>::empty());
                true
            },
            Token::Expr(Expr::Reg(_)) => false,
            Token::Expr(Expr::Num(_)) => {
                assert(stack@ =~= rest + Seq::<Expect>::empty());
                true
            },
            Token::Expr(Expr::NOT) => {
                stack.push(Expect::Expression);
                assert(stack@ =~= rest + seq![Expect::Expression]);
                true
            },
            Token::Expr(_) => {
                stack.push(Expect::Expression);
                stack.push(Expect::Expression);
                assert(stack@ =~= rest + seq![Expect::Expression, Expect::Expression]);
                true
            },
            _ => false,
        },
        Expect::Register => match t {
            Token::Reg(_) => {
                assert(stack@ =~= rest + Seq::<Expect>::empty());
                true
            },
            _ => false,
        },
        _ => match t {
            Token::Stat(s) => {
                stack.push(top);
                push_operands(stack, s);
                assert(stack@ =~= rest + (seq![top] + operands(s)));
                true
            },
            Token::ELSE => match top {
                Expect::Then => {
                    stack.push(Expect::Block);
                    assert(stack@ =~= rest + seq![Expect::Block]);
                    true
                },
                _ => false,
            },
            Token::END => match top {
                Expect::Program => false,
                _ => {
                    assert(stack@ =~= rest + Seq::<Expect>::empty());
                    true
                },
            },
            _ => false,
        },
    }
}

/// Decides whether a program is well formed.
pub fn is_well_formed(program: &Program) -> (ok: bool)
    ensures
        ok == well_formed(program@),
{
    let mut stack: Vec<Expect> = Vec::new();
    stack.push(Expect::Program);
    assert(stack@ =~= seq![Expect::Program]);
    assert(program@.subrange(0, 0) =~= Seq::<Token>::empty());
    let mut i: usize = 0;
    while i < program.len()
        invariant
            i <= program.len(),
            parse(seq![Expect::Program], program@.subrange(0, i as int)) == Some(stack@),
        decreases program.len() - i,
    {
        proof {
            lemma_parse_extend(seq![Expect::Program], program@, i as int);
            lemma_parse_split(seq![Expect::Program], program@, i + 1);
        }
        if !advance(&mut stack, program[i]) {
            return false;
        }
        i += 1;
    }
    assert(program@.subrange(0, i as int) =~= program@);
    if stack.len() != 1 {
        return false;
    }
    match stack[0] {
        Expect::Program => {
            assert(stack@ =~= seq![Expect::Program]);
            true
        },
        _ => false,
    }
}

/// Decides whether every register a program names is below `memsize`.
pub fn has_registers_within(program: &Program, memsize: usize) -> (ok: bool)
    ensures
        ok == registers_within(program@, memsize as nat),
{
    let mut i: usize = 0;
    while i < program.len()
        invariant
            i <= program.len(),
            registers_within(program@.subrange(0, i as int), memsize as nat),
        decreases program.len() - i,
    {
        match program[i] {
            Token::Reg(n) => {
                if n >= memsize {
                    return false;
                }
            },
            _ => {},
        }
        assert forall|k: int| 0 <= k < i + 1 implies (#[trigger] program@.subrange(
            0,
            i + 1,
        )[k] matches Token::Reg(n) ==> n < memsize) by {
            if k < i {
                assert(program@.subrange(0, i as int)[k] == program@[k]);
            }
        }
        i += 1;
    }
    assert(program@.subrange(0, i as int) =~= program@);
    true
}

/// Joining programs names no register that neither of them names.
pub proof fn lemma_registers_concat(a: Seq<Token>, b: Seq<Token>, memsize: nat)
    requires
        registers_within(a, memsize),
        registers_within(b, memsize),
    ensures
        registers_within(a + b, memsize),
{
    assert forall|i: int| 0 <= i < (a + b).len() implies (#[trigger] (a + b)[i] matches Token::Reg(
        n,
    ) ==> n < memsize) by {
        if i < a.len() {
            assert((a + b)[i] == a[i]);
        } else {
            assert((a + b)[i] == b[i - a.len()]);
        }
    }
}

/// A part of a program names no register that the program does not name.
pub proof fn lemma_registers_subrange(p: Seq<Token>, from: int, to: int, memsize: nat)
    requires
        registers_within(p, memsize),
        0 <= from <= to <= p.len(),
    ensures
        registers_within(p.subrange(from, to), memsize),
{
    assert forall|i: int| 0 <= i < to - from implies (#[trigger] p.subrange(from, to)[i] matches
        Token::Reg(n) ==> n < memsize) by {
        assert(p.subrange(from, to)[i] == p[from + i]);
    }
}

/// Joining programs brings in no literal that neither of them holds.
pub proof fn lemma_literals_concat(a: Seq<Token>, b: Seq<Token>, low: int, high: int)
    requires
        literals_within(a, low, high),
        literals_within(b, low, high),
    ensures
        literals_within(a + b, low, high),
{
    assert forall|i: int| 0 <= i < (a + b).len() implies (#[trigger] (a + b)[i] matches Token::Expr(
        Expr::Num(v),
    ) ==> low <= v < high) by {
        if i < a.len() {
            assert((a + b)[i] == a[i]);
        } else {
            assert((a + b)[i] == b[i - a.len()]);
        }
    }
}

} // verus!
