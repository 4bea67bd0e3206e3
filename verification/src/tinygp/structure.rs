//! How structural navigation agrees with the grammar.
//!
//! `node_end` walks operands and counts block nesting without knowing the
//! grammar. The lemmas here show that, inside a well-formed program, the range
//! it delimits is exactly one syntactic unit: a complete expression, or a
//! complete statement together with its blocks.

use vstd::prelude::*;
use super::common::{Expr, Stat, Token, level_change, scan_end, node_end, lemma_scan_end_bounds};
use super::grammar::{
    Expect,
    operands,
    react,
    step,
    parse,
    well_formed,
    is_expression,
    lemma_parse_concat,
    lemma_parse_first,
    lemma_parse_single,
    lemma_parse_frame,
    lemma_parse_split,
    lemma_expression_anywhere,
    lemma_statements_anywhere,
};

verus! {

/// The stack that remains to be satisfied at the end of a well-formed program.
pub open spec fn done() -> Seq<Expect> {
    seq![Expect::Program]
}

/// One for an expectation that is an open block, zero otherwise.
pub open spec fn block_weight(e: Expect) -> int {
    if e is Then || e is Block {
        1
    } else {
        0
    }
}

/// Number of open blocks among the expectations.
pub open spec fn open_blocks(stack: Seq<Expect>) -> int
    decreases stack.len(),
{
    if stack.len() == 0 {
        0
    } else {
        open_blocks(stack.drop_last()) + block_weight(stack.last())
    }
}

proof fn lemma_open_blocks_concat(a: Seq<Expect>, b: Seq<Expect>)
    ensures
        open_blocks(a + b) == open_blocks(a) + open_blocks(b),
    decreases b.len(),
{
    if b.len() == 0 {
        assert(a + b =~= a);
    } else {
        assert((a + b).drop_last() =~= a + b.drop_last());
        lemma_open_blocks_concat(a, b.drop_last());
    }
}

/// A stack whose bottom is an open block has at least one open block.
pub proof fn lemma_open_blocks_bottom(a: Seq<Expect>)
    ensures
        open_blocks(a) >= 0,
        a.len() > 0 && (a[0] is Then || a[0] is Block) ==> open_blocks(a) >= 1,
    decreases a.len(),
{
    if a.len() > 0 {
        lemma_open_blocks_bottom(a.drop_last());
        if a.len() > 1 {
            assert(a.drop_last()[0] == a[0]);
        }
    }
}

/// The open blocks of a single expectation.
pub proof fn lemma_open_blocks_single(x: Expect)
    ensures
        open_blocks(seq![x]) == block_weight(x),
{
    let one = seq![x];
    assert(one.drop_last() =~= Seq::<Expect>::empty());
    assert(open_blocks(one.drop_last()) == 0);
}

proof fn lemma_open_blocks_two(x: Expect, y: Expect)
    ensures
        open_blocks(seq![x, y]) == block_weight(x) + block_weight(y),
{
    let two = seq![x, y];
    assert(two.drop_last() =~= seq![x]);
    lemma_open_blocks_single(x);
}

/// What a reaction contributes to the number of open blocks is what the
/// token contributes to the nesting depth.
proof fn lemma_react_open_blocks(top: Expect, t: Token)
    requires
        react(top, t).is_some(),
    ensures
        open_blocks(react(top, t).unwrap()) == block_weight(top) + level_change(t),
{
    lemma_open_blocks_single(Expect::Expression);
    lemma_open_blocks_single(Expect::Block);
    lemma_open_blocks_two(Expect::Expression, Expect::Expression);
    match t {
        Token::Stat(s) => {
            lemma_open_blocks_single(top);
            lemma_open_blocks_concat(seq![top], operands(s));
            lemma_open_blocks_single(Expect::Register);
            lemma_open_blocks_two(Expect::Expression, Expect::Register);
            lemma_open_blocks_two(Expect::Then, Expect::Expression);
            lemma_open_blocks_two(Expect::Block, Expect::Expression);
        },
        _ => {},
    }
}

/// Reading a token changes the number of open blocks by what the token
/// contributes to the nesting depth.
pub proof fn lemma_open_blocks_step(open: Seq<Expect>, t: Token)
    requires
        open.len() > 0,
        react(open.last(), t).is_some(),
    ensures
        open_blocks(open.drop_last() + react(open.last(), t).unwrap()) == open_blocks(open)
            + level_change(t),
{
    lemma_react_open_blocks(open.last(), t);
    lemma_open_blocks_concat(open.drop_last(), react(open.last(), t).unwrap());
}

/// Inside a well-formed program, wherever an expression is expected,
/// `node_end` delimits exactly one complete expression.
#[verifier::rlimit(30)]
pub proof fn lemma_expression_extent(p: Seq<Token>, a: int, stack: Seq<Expect>)
    requires
        0 <= a <= p.len(),
        stack.len() > 0,
        stack.last() is Expression,
        parse(stack, p.subrange(a, p.len() as int)) == Some(done()),
    ensures
        node_end(p, a).is_some(),
        a < node_end(p, a).unwrap() <= p.len(),
        is_expression(p.subrange(a, node_end(p, a).unwrap())),
        parse(stack.drop_last(), p.subrange(node_end(p, a).unwrap(), p.len() as int)) == Some(
            done(),
        ),
    decreases p.len() - a,
{
    let n = p.len() as int;
    let base = stack.drop_last();
    let want = seq![Expect::Expression];
    if a == n {
        assert(p.subrange(a, n) =~= Seq::<Token>::empty());
        assert(false);
    }
    let t = p[a];
    assert(p.subrange(a, n) =~= seq![t] + p.subrange(a + 1, n));
    lemma_parse_first(stack, t, p.subrange(a + 1, n));
    let rep = react(Expect::Expression, t).unwrap();
    let after = base + rep;
    assert(parse(after, p.subrange(a + 1, n)) == Some(done()));
    lemma_parse_single(want, t);
    assert(want.drop_last() =~= Seq::<Expect>::empty());
    assert(step(want, t) == Some(Seq::<Expect>::empty() + rep));
    if rep.len() == 0 {
        assert(p.subrange(a, a + 1) =~= seq![t]);
        assert(Seq::<Expect>::empty() + rep =~= Seq::<Expect>::empty());
        assert(after =~= base);
    } else if rep.len() == 1 {
        assert(after.last() is Expression);
        lemma_expression_extent(p, a + 1, after);
        let e = node_end(p, a + 1).unwrap();
        assert(after.drop_last() =~= base);
        assert(p.subrange(a, e) =~= seq![t] + p.subrange(a + 1, e));
        lemma_parse_first(want, t, p.subrange(a + 1, e));
        assert(Seq::<Expect>::empty() + rep =~= want);
    } else {
        assert(after.last() is Expression);
        lemma_expression_extent(p, a + 1, after);
        let m = node_end(p, a + 1).unwrap();
        let mid = after.drop_last();
        assert(mid =~= base.push(Expect::Expression));
        lemma_expression_extent(p, m, mid);
        let e = node_end(p, m).unwrap();
        assert(mid.drop_last() =~= base);
        assert(node_end(p, a) == Some(e));
        let x1 = p.subrange(a + 1, m);
        let x2 = p.subrange(m, e);
        assert(p.subrange(a, e) =~= seq![t] + (x1 + x2));
        lemma_parse_first(want, t, x1 + x2);
        assert(Seq::<Expect>::empty() + rep =~= want.push(Expect::Expression));
        lemma_parse_concat(want.push(Expect::Expression), x1, x2);
        lemma_expression_anywhere(want, x1);
    }
}

/// Inside a well-formed program, a scan that starts with as many levels as
/// there are open blocks above `base` stops right after the `END` that closes
/// the outermost of them.
#[verifier::rlimit(30)]
pub proof fn lemma_block_extent(
    p: Seq<Token>,
    j: int,
    base: Seq<Expect>,
    open: Seq<Expect>,
)
    requires
        0 <= j <= p.len(),
        open.len() > 0,
        open[0] is Then || open[0] is Block,
        parse(base + open, p.subrange(j, p.len() as int)) == Some(done()),
    ensures
        ({
            let e = scan_end(p, j, open_blocks(open));
            &&& j < e <= p.len()
            &&& p[e - 1] == Token::END
            &&& parse(open, p.subrange(j, e)) == Some(Seq::<Expect>::empty())
            &&& parse(base, p.subrange(e, p.len() as int)) == Some(done())
        }),
    decreases p.len() - j,
{
    let n = p.len() as int;
    let level = open_blocks(open);
    lemma_open_blocks_bottom(open);
    if j == n {
        assert(p.subrange(j, n) =~= Seq::<Token>::empty());
        assert((base + open)[base.len() as int] == open[0]);
        assert(false);
    }
    let t = p[j];
    let stack = base + open;
    assert(p.subrange(j, n) =~= seq![t] + p.subrange(j + 1, n));
    lemma_parse_first(stack, t, p.subrange(j + 1, n));
    assert(stack.last() == open.last());
    let rep = react(open.last(), t).unwrap();
    let next = open.drop_last() + rep;
    assert(stack.drop_last() + rep =~= base + next);
    lemma_parse_single(open, t);
    lemma_react_open_blocks(open.last(), t);
    lemma_open_blocks_concat(open.drop_last(), rep);
    assert(open_blocks(next) == level + level_change(t));
    if next.len() > 0 {
        if open.len() > 1 {
            assert(next[0] == open[0]);
        } else {
            assert(open.drop_last() =~= Seq::<Expect>::empty());
            assert(next =~= rep);
        }
        assert(next[0] is Then || next[0] is Block);
        lemma_open_blocks_bottom(next);
        lemma_block_extent(p, j + 1, base, next);
        let e = scan_end(p, j + 1, open_blocks(next));
        assert(p.subrange(j, e) =~= seq![t] + p.subrange(j + 1, e));
        lemma_parse_first(open, t, p.subrange(j + 1, e));
    } else {
        assert(next =~= Seq::<Expect>::empty());
        assert(open_blocks(next) == 0);
        assert(level_change(t) == -1);
        assert(base + next =~= base);
        assert(p.subrange(j, j + 1) =~= seq![t]);
    }
}

/// The extent of an `INPUT` statement.
#[verifier::rlimit(30)]
proof fn lemma_input_extent(p: Seq<Token>, a: int, stack: Seq<Expect>)
    requires
        0 <= a < p.len(),
        p[a] == Token::Stat(Stat::INPUT),
        stack.len() > 0,
        parse(stack, p.subrange(a, p.len() as int)) == Some(done()),
    ensures
        stack.last().holds_statements(),
        node_end(p, a) == Some(a + 2),
        a + 2 <= p.len(),
        p[a + 1] is Reg,
        well_formed(p.subrange(a, a + 2)),
        parse(stack, p.subrange(a + 2, p.len() as int)) == Some(done()),
{
    let n = p.len() as int;
    let t = p[a];
    assert(p.subrange(a, n) =~= seq![t] + p.subrange(a + 1, n));
    lemma_parse_first(stack, t, p.subrange(a + 1, n));
    let after = stack.push(Expect::Register);
    assert(stack.drop_last() + (seq![stack.last()] + operands(Stat::INPUT)) =~= after);
    lemma_register_next(p, a + 1, after);
    assert(after.drop_last() =~= stack);
    let r = p[a + 1];
    assert(node_end(p, a + 1) == Some(a + 2));
    let alone = done().push(Expect::Register);
    assert(done().drop_last() + (done() + operands(Stat::INPUT)) =~= alone);
    assert(p.subrange(a, a + 2) =~= seq![t] + seq![r]);
    lemma_parse_first(done(), t, seq![r]);
    lemma_parse_single(alone, r);
    assert(alone.drop_last() + Seq::<Expect>::empty() =~= done());
}

/// The extent of an `OUTPUT` statement.
#[verifier::rlimit(30)]
proof fn lemma_output_extent(p: Seq<Token>, a: int, stack: Seq<Expect>)
    requires
        0 <= a < p.len(),
        p[a] == Token::Stat(Stat::OUTPUT),
        stack.len() > 0,
        parse(stack, p.subrange(a, p.len() as int)) == Some(done()),
    ensures
        stack.last().holds_statements(),
        node_end(p, a).is_some(),
        node_end(p, a) == node_end(p, a + 1),
        a + 1 < node_end(p, a).unwrap() <= p.len(),
        is_expression(p.subrange(a + 1, node_end(p, a).unwrap())),
        well_formed(p.subrange(a, node_end(p, a).unwrap())),
        parse(stack, p.subrange(node_end(p, a).unwrap(), p.len() as int)) == Some(done()),
{
    let n = p.len() as int;
    let t = p[a];
    assert(p.subrange(a, n) =~= seq![t] + p.subrange(a + 1, n));
    lemma_parse_first(stack, t, p.subrange(a + 1, n));
    let after = stack.push(Expect::Expression);
    assert(stack.drop_last() + (seq![stack.last()] + operands(Stat::OUTPUT)) =~= after);
    lemma_expression_extent(p, a + 1, after);
    assert(after.drop_last() =~= stack);
    let e = node_end(p, a + 1).unwrap();
    let alone = done().push(Expect::Expression);
    assert(done().drop_last() + (done() + operands(Stat::OUTPUT)) =~= alone);
    assert(p.subrange(a, e) =~= seq![t] + p.subrange(a + 1, e));
    lemma_parse_first(done(), t, p.subrange(a + 1, e));
    lemma_expression_anywhere(done(), p.subrange(a + 1, e));
}

/// The extent of a `LOAD` statement.
#[verifier::rlimit(30)]
proof fn lemma_load_extent(p: Seq<Token>, a: int, stack: Seq<Expect>)
    requires
        0 <= a < p.len(),
        p[a] == Token::Stat(Stat::LOAD),
        stack.len() > 0,
        parse(stack, p.subrange(a, p.len() as int)) == Some(done()),
    ensures
        stack.last().holds_statements(),
        a + 2 < p.len(),
        p[a + 1] is Reg,
        node_end(p, a).is_some(),
        node_end(p, a) == node_end(p, a + 2),
        a + 2 < node_end(p, a).unwrap() <= p.len(),
        is_expression(p.subrange(a + 2, node_end(p, a).unwrap())),
        well_formed(p.subrange(a, node_end(p, a).unwrap())),
        parse(stack, p.subrange(node_end(p, a).unwrap(), p.len() as int)) == Some(done()),
{
    let n = p.len() as int;
    let t = p[a];
    assert(p.subrange(a, n) =~= seq![t] + p.subrange(a + 1, n));
    lemma_parse_first(stack, t, p.subrange(a + 1, n));
    let mid = stack.push(Expect::Expression);
    let after = mid.push(Expect::Register);
    assert(stack.drop_last() + (seq![stack.last()] + operands(Stat::LOAD)) =~= after);
    lemma_register_next(p, a + 1, after);
    assert(after.drop_last() =~= mid);
    lemma_expression_extent(p, a + 2, mid);
    assert(mid.drop_last() =~= stack);
    let r = p[a + 1];
    let e = node_end(p, a + 2).unwrap();
    assert(node_end(p, a + 1) == Some(a + 2));
    let alone_mid = done().push(Expect::Expression);
    let alone = alone_mid.push(Expect::Register);
    assert(done().drop_last() + (done() + operands(Stat::LOAD)) =~= alone);
    assert(p.subrange(a, e) =~= seq![t] + (seq![r] + p.subrange(a + 2, e)));
    lemma_parse_first(done(), t, seq![r] + p.subrange(a + 2, e));
    lemma_parse_first(alone, r, p.subrange(a + 2, e));
    assert(alone.drop_last() + Seq::<Expect>::empty() =~= alone_mid);
    lemma_expression_anywhere(done(), p.subrange(a + 2, e));
}

/// The extent of an `IF` or `WHILE` statement.
#[verifier::rlimit(30)]
proof fn lemma_compound_extent(p: Seq<Token>, a: int, stack: Seq<Expect>)
    requires
        0 <= a < p.len(),
        p[a] == Token::Stat(Stat::IF) || p[a] == Token::Stat(Stat::WHILE),
        stack.len() > 0,
        parse(stack, p.subrange(a, p.len() as int)) == Some(done()),
    ensures
        stack.last().holds_statements(),
        node_end(p, a).is_some(),
        a + 1 < node_end(p, a).unwrap() <= p.len(),
        p[node_end(p, a).unwrap() - 1] == Token::END,
        well_formed(p.subrange(a, node_end(p, a).unwrap())),
        parse(stack, p.subrange(node_end(p, a).unwrap(), p.len() as int)) == Some(done()),
{
    let n = p.len() as int;
    let t = p[a];
    let s = t->Stat_0;
    assert(p.subrange(a, n) =~= seq![t] + p.subrange(a + 1, n));
    lemma_parse_first(stack, t, p.subrange(a + 1, n));
    let open = operands(s);
    assert(stack.drop_last() + (seq![stack.last()] + open) =~= stack + open);
    lemma_block_extent(p, a + 1, stack, open);
    lemma_open_blocks_two(Expect::Then, Expect::Expression);
    lemma_open_blocks_two(Expect::Block, Expect::Expression);
    let e = scan_end(p, a + 1, 1);
    assert(done().drop_last() + (done() + open) =~= done() + open);
    assert(p.subrange(a, e) =~= seq![t] + p.subrange(a + 1, e));
    lemma_parse_first(done(), t, p.subrange(a + 1, e));
    lemma_parse_frame(done(), open, p.subrange(a + 1, e));
    assert(done() + Seq::<Expect>::empty() =~= done());
}

/// Inside a well-formed program, wherever a statement starts, `node_end`
/// delimits exactly that statement, which is well formed on its own.
pub proof fn lemma_statement_extent(p: Seq<Token>, a: int, stack: Seq<Expect>)
    requires
        0 <= a < p.len(),
        p[a] is Stat,
        stack.len() > 0,
        parse(stack, p.subrange(a, p.len() as int)) == Some(done()),
    ensures
        stack.last().holds_statements(),
        node_end(p, a).is_some(),
        a < node_end(p, a).unwrap() <= p.len(),
        well_formed(p.subrange(a, node_end(p, a).unwrap())),
        parse(stack, p.subrange(node_end(p, a).unwrap(), p.len() as int)) == Some(done()),
{
    match p[a]->Stat_0 {
        Stat::INPUT => lemma_input_extent(p, a, stack),
        Stat::OUTPUT => lemma_output_extent(p, a, stack),
        Stat::LOAD => lemma_load_extent(p, a, stack),
        _ => lemma_compound_extent(p, a, stack),
    }
}

/// Where a register is expected in a well-formed program, a register follows.
proof fn lemma_register_next(p: Seq<Token>, a: int, stack: Seq<Expect>)
    requires
        0 <= a <= p.len(),
        stack.len() > 0,
        stack.last() is Register,
        parse(stack, p.subrange(a, p.len() as int)) == Some(done()),
    ensures
        a < p.len(),
        p[a] is Reg,
        parse(stack.drop_last(), p.subrange(a + 1, p.len() as int)) == Some(done()),
{
    let n = p.len() as int;
    if a == n {
        assert(p.subrange(a, n) =~= Seq::<Token>::empty());
        assert(false);
    }
    assert(p.subrange(a, n) =~= seq![p[a]] + p.subrange(a + 1, n));
    lemma_parse_first(stack, p[a], p.subrange(a + 1, n));
    assert(stack.drop_last() + Seq::<Expect>::empty() =~= stack.drop_last());
}

/// In a well-formed program every index is the root of a node: `node_end` is
/// defined there, lies strictly after the index and within the program.
pub proof fn lemma_node_end_of_well_formed(p: Seq<Token>, i: int)
    requires
        well_formed(p),
        0 <= i < p.len(),
    ensures
        node_end(p, i).is_some(),
        i < node_end(p, i).unwrap() <= p.len(),
{
    let n = p.len() as int;
    lemma_parse_split(done(), p, i);
    let stack = parse(done(), p.subrange(0, i)).unwrap();
    let t = p[i];
    assert(p.subrange(i, n) =~= seq![t] + p.subrange(i + 1, n));
    lemma_parse_first(stack, t, p.subrange(i + 1, n));
    match t {
        Token::Expr(_) => {
            lemma_expression_extent(p, i, stack);
        },
        Token::Stat(_) => {
            lemma_statement_extent(p, i, stack);
        },
        Token::ELSE => {
            lemma_scan_end_bounds(p, i + 1, 1);
        },
        _ => {},
    }
}

/// Exactly one complete statement: a statement operator followed by
/// precisely what it expects.
pub open spec fn is_statement(p: Seq<Token>) -> bool {
    &&& p.len() > 0
    &&& p[0] is Stat
    &&& parse(operands(p[0]->Stat_0), p.subrange(1, p.len() as int)) == Some(
        Seq::<Expect>::empty(),
    )
}

/// Nothing can be read once nothing is expected.
pub proof fn lemma_parse_nothing_expected(x: Seq<Token>)
    requires
        x.len() > 0,
    ensures
        parse(Seq::<Expect>::empty(), x).is_none(),
    decreases x.len(),
{
    if x.len() > 1 {
        lemma_parse_nothing_expected(x.drop_last());
    } else {
        assert(x.drop_last().len() == 0);
        assert(parse(Seq::<Expect>::empty(), x.drop_last()) == Some(Seq::<Expect>::empty()));
    }
}

/// If what is expected is satisfied both by a prefix of the tokens and by
/// all of them, the prefix is all of them.
proof fn lemma_satisfied_once(stack: Seq<Expect>, x: Seq<Token>, e: int)
    requires
        0 <= e <= x.len(),
        parse(stack, x.subrange(0, e)) == Some(Seq::<Expect>::empty()),
        parse(stack, x) == Some(Seq::<Expect>::empty()),
    ensures
        e == x.len(),
{
    lemma_parse_split(stack, x, e);
    if e < x.len() {
        lemma_parse_nothing_expected(x.subrange(e, x.len() as int));
    }
}

/// A single complete statement is a well-formed program.
proof fn lemma_statement_well_formed(p: Seq<Token>)
    requires
        is_statement(p),
    ensures
        well_formed(p),
        parse(done(), p.subrange(0, p.len() as int)) == Some(done()),
{
    let n = p.len() as int;
    let ops = operands(p[0]->Stat_0);
    let tail = p.subrange(1, n);
    assert(p =~= seq![p[0]] + tail);
    lemma_parse_first(done(), p[0], tail);
    assert(done().drop_last() + (done() + ops) =~= done() + ops);
    lemma_parse_frame(done(), ops, tail);
    assert(done() + Seq::<Expect>::empty() =~= done());
    assert(p.subrange(0, n) =~= p);
}

/// The end of a single `INPUT` statement.
#[verifier::rlimit(30)]
proof fn lemma_single_input(p: Seq<Token>)
    requires
        is_statement(p),
        p[0] == Token::Stat(Stat::INPUT),
    ensures
        node_end(p, 0) == Some(p.len() as int),
{
    let n = p.len() as int;
    let ops = operands(Stat::INPUT);
    let tail = p.subrange(1, n);
    lemma_statement_well_formed(p);
    lemma_input_extent(p, 0, done());
    let r = p[1];
    assert(tail.subrange(0, 1) =~= seq![r]);
    lemma_parse_single(ops, r);
    assert(ops.drop_last() + Seq::<Expect>::empty() =~= Seq::<Expect>::empty());
    lemma_satisfied_once(ops, tail, 1);
}

/// The end of a single `OUTPUT` statement.
#[verifier::rlimit(30)]
proof fn lemma_single_output(p: Seq<Token>)
    requires
        is_statement(p),
        p[0] == Token::Stat(Stat::OUTPUT),
    ensures
        node_end(p, 0) == Some(p.len() as int),
{
    let n = p.len() as int;
    let ops = operands(Stat::OUTPUT);
    let tail = p.subrange(1, n);
    lemma_statement_well_formed(p);
    lemma_output_extent(p, 0, done());
    let e = node_end(p, 0).unwrap();
    assert(ops =~= seq![Expect::Expression]);
    assert(tail.subrange(0, e - 1) =~= p.subrange(1, e));
    lemma_satisfied_once(ops, tail, e - 1);
}

/// A register and a complete expression are what `LOAD` expects.
proof fn lemma_load_operands(r: Token, x: Seq<Token>)
    requires
        r is Reg,
        is_expression(x),
    ensures
        parse(operands(Stat::LOAD), seq![r] + x) == Some(Seq::<Expect>::empty()),
{
    let ops = operands(Stat::LOAD);
    lemma_parse_first(ops, r, x);
    assert(ops.drop_last() + Seq::<Expect>::empty() =~= seq![Expect::Expression]);
}

/// The end of a single `LOAD` statement.
#[verifier::rlimit(30)]
proof fn lemma_single_load(p: Seq<Token>)
    requires
        is_statement(p),
        p[0] == Token::Stat(Stat::LOAD),
    ensures
        node_end(p, 0) == Some(p.len() as int),
{
    let n = p.len() as int;
    let tail = p.subrange(1, n);
    lemma_statement_well_formed(p);
    lemma_load_extent(p, 0, done());
    let e = node_end(p, 0).unwrap();
    lemma_load_operands(p[1], p.subrange(2, e));
    assert(tail.subrange(0, e - 1) =~= seq![p[1]] + p.subrange(2, e));
    lemma_satisfied_once(operands(Stat::LOAD), tail, e - 1);
}

/// The end of a single `IF` or `WHILE` statement.
#[verifier::rlimit(30)]
proof fn lemma_single_compound(p: Seq<Token>)
    requires
        is_statement(p),
        p[0] == Token::Stat(Stat::IF) || p[0] == Token::Stat(Stat::WHILE),
    ensures
        node_end(p, 0) == Some(p.len() as int),
{
    let n = p.len() as int;
    let ops = operands(p[0]->Stat_0);
    let tail = p.subrange(1, n);
    assert(p =~= seq![p[0]] + tail);
    lemma_parse_first(done(), p[0], tail);
    assert(done().drop_last() + (done() + ops) =~= done() + ops);
    lemma_parse_frame(done(), ops, tail);
    assert(done() + Seq::<Expect>::empty() =~= done());
    lemma_block_extent(p, 1, done(), ops);
    lemma_open_blocks_two(Expect::Then, Expect::Expression);
    lemma_open_blocks_two(Expect::Block, Expect::Expression);
    let e = scan_end(p, 1, 1);
    assert(tail.subrange(0, e - 1) =~= p.subrange(1, e));
    lemma_satisfied_once(ops, tail, e - 1);
}

/// A single complete statement is a well-formed program, and `node_end`
/// from its start lands exactly at its length.
pub proof fn lemma_single_statement(p: Seq<Token>)
    requires
        is_statement(p),
    ensures
        well_formed(p),
        node_end(p, 0) == Some(p.len() as int),
{
    lemma_statement_well_formed(p);
    match p[0]->Stat_0 {
        Stat::INPUT => lemma_single_input(p),
        Stat::OUTPUT => lemma_single_output(p),
        Stat::LOAD => lemma_single_load(p),
        _ => lemma_single_compound(p),
    }
}

/// A register or a literal is a complete expression.
pub proof fn lemma_leaf_expression(t: Token)
    requires
        t is Reg || t matches Token::Expr(Expr::Num(_)),
    ensures
        is_expression(seq![t]),
{
    let want = seq![Expect::Expression];
    lemma_parse_single(want, t);
    assert(want.drop_last() + Seq::<Expect>::empty() =~= Seq::<Expect>::empty());
}

/// `NOT` followed by a complete expression is a complete expression.
pub proof fn lemma_unary_expression(x: Seq<Token>)
    requires
        is_expression(x),
    ensures
        is_expression(seq![Token::Expr(Expr::NOT)] + x),
{
    let want = seq![Expect::Expression];
    lemma_parse_first(want, Token::Expr(Expr::NOT), x);
    assert(want.drop_last() + seq![Expect::Expression] =~= want);
}

/// A binary operator followed by two complete expressions is a complete
/// expression.
pub proof fn lemma_binary_expression(op: Expr, x: Seq<Token>, y: Seq<Token>)
    requires
        op.arity() == 2,
        is_expression(x),
        is_expression(y),
    ensures
        is_expression(seq![Token::Expr(op)] + x + y),
{
    let want = seq![Expect::Expression];
    assert(seq![Token::Expr(op)] + x + y =~= seq![Token::Expr(op)] + (x + y));
    lemma_parse_first(want, Token::Expr(op), x + y);
    assert(want.drop_last() + seq![Expect::Expression, Expect::Expression] =~= want.push(
        Expect::Expression,
    ));
    lemma_parse_concat(want.push(Expect::Expression), x, y);
    lemma_expression_anywhere(want, x);
}

/// `INPUT` followed by a register is a complete statement.
pub proof fn lemma_input_statement(n: usize)
    ensures
        is_statement(seq![Token::Stat(Stat::INPUT), Token::Reg(n)]),
{
    let p = seq![Token::Stat(Stat::INPUT), Token::Reg(n)];
    let ops = operands(Stat::INPUT);
    assert(p.subrange(1, 2) =~= seq![Token::Reg(n)]);
    lemma_parse_single(ops, Token::Reg(n));
    assert(ops.drop_last() + Seq::<Expect>::empty() =~= Seq::<Expect>::empty());
}

/// `OUTPUT` followed by a complete expression is a complete statement.
pub proof fn lemma_output_statement(x: Seq<Token>)
    requires
        is_expression(x),
    ensures
        is_statement(seq![Token::Stat(Stat::OUTPUT)] + x),
{
    let p = seq![Token::Stat(Stat::OUTPUT)] + x;
    assert(p.subrange(1, p.len() as int) =~= x);
    assert(operands(Stat::OUTPUT) =~= seq![Expect::Expression]);
}

/// `LOAD`, a register and a complete expression are a complete statement.
pub proof fn lemma_load_statement(n: usize, x: Seq<Token>)
    requires
        is_expression(x),
    ensures
        is_statement(seq![Token::Stat(Stat::LOAD), Token::Reg(n)] + x),
{
    let p = seq![Token::Stat(Stat::LOAD), Token::Reg(n)] + x;
    assert(p.subrange(1, p.len() as int) =~= seq![Token::Reg(n)] + x);
    lemma_load_operands(Token::Reg(n), x);
}

/// `IF`, a condition, a block of statements and `END` are a complete
/// statement.
pub proof fn lemma_if_statement(cond: Seq<Token>, then: Seq<Token>)
    requires
        is_expression(cond),
        well_formed(then),
    ensures
        is_statement(seq![Token::Stat(Stat::IF)] + cond + then + seq![Token::END]),
{
    let p = seq![Token::Stat(Stat::IF)] + cond + then + seq![Token::END];
    let ops = operands(Stat::IF);
    let open = seq![Expect::Then];
    assert(p.subrange(1, p.len() as int) =~= cond + (then + seq![Token::END]));
    lemma_parse_concat(ops, cond, then + seq![Token::END]);
    assert(ops =~= open.push(Expect::Expression));
    lemma_expression_anywhere(open, cond);
    lemma_parse_concat(open, then, seq![Token::END]);
    assert(open =~= Seq::<Expect>::empty().push(Expect::Then));
    lemma_statements_anywhere(Seq::empty(), Expect::Then, then);
    lemma_parse_single(open, Token::END);
    assert(open.drop_last() + Seq::<Expect>::empty() =~= Seq::<Expect>::empty());
}

/// `IF`, a condition, a block, `ELSE`, another block and `END` are a
/// complete statement.
pub proof fn lemma_if_else_statement(cond: Seq<Token>, then: Seq<Token>, otherwise: Seq<Token>)
    requires
        is_expression(cond),
        well_formed(then),
        well_formed(otherwise),
    ensures
        is_statement(
            seq![Token::Stat(Stat::IF)] + cond + then + seq![Token::ELSE] + otherwise
                + seq![Token::END],
        ),
{
    let p = seq![Token::Stat(Stat::IF)] + cond + then + seq![Token::ELSE] + otherwise
        + seq![Token::END];
    let ops = operands(Stat::IF);
    let open = seq![Expect::Then];
    let closing = seq![Expect::Block];
    let rest = seq![Token::ELSE] + (otherwise + seq![Token::END]);
    assert(p.subrange(1, p.len() as int) =~= cond + (then + rest));
    lemma_parse_concat(ops, cond, then + rest);
    assert(ops =~= open.push(Expect::Expression));
    lemma_expression_anywhere(open, cond);
    lemma_parse_concat(open, then, rest);
    assert(open =~= Seq::<Expect>::empty().push(Expect::Then));
    lemma_statements_anywhere(Seq::empty(), Expect::Then, then);
    lemma_parse_first(open, Token::ELSE, otherwise + seq![Token::END]);
    assert(open.drop_last() + seq![Expect::Block] =~= closing);
    lemma_parse_concat(closing, otherwise, seq![Token::END]);
    assert(closing =~= Seq::<Expect>::empty().push(Expect::Block));
    lemma_statements_anywhere(Seq::empty(), Expect::Block, otherwise);
    lemma_parse_single(closing, Token::END);
    assert(closing.drop_last() + Seq::<Expect>::empty() =~= Seq::<Expect>::empty());
}

/// `WHILE`, a condition, a block of statements and `END` are a complete
/// statement.
pub proof fn lemma_while_statement(cond: Seq<Token>, body: Seq<Token>)
    requires
        is_expression(cond),
        well_formed(body),
    ensures
        is_statement(seq![Token::Stat(Stat::WHILE)] + cond + body + seq![Token::END]),
{
    let p = seq![Token::Stat(Stat::WHILE)] + cond + body + seq![Token::END];
    let ops = operands(Stat::WHILE);
    let open = seq![Expect::Block];
    assert(p.subrange(1, p.len() as int) =~= cond + (body + seq![Token::END]));
    lemma_parse_concat(ops, cond, body + seq![Token::END]);
    assert(ops =~= open.push(Expect::Expression));
    lemma_expression_anywhere(open, cond);
    lemma_parse_concat(open, body, seq![Token::END]);
    assert(open =~= Seq::<Expect>::empty().push(Expect::Block));
    lemma_statements_anywhere(Seq::empty(), Expect::Block, body);
    lemma_parse_single(open, Token::END);
    assert(open.drop_last() + Seq::<Expect>::empty() =~= Seq::<Expect>::empty());
}

} // verus!
