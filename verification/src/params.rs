//! Configuration of the evolutionary run and of program growth.

use vstd::prelude::*;
use crate::tinygp::common::{Expr, Stat, Token, Number};
use crate::tinygp::grammar::{
    well_formed,
    registers_within,
    is_well_formed,
    has_registers_within,
    lemma_well_formed_concat,
    lemma_registers_concat,
};
use crate::tinygp::structure::{
    lemma_input_statement,
    lemma_single_statement,
    lemma_output_statement,
    lemma_leaf_expression,
};

verus! {

/// One example: the inputs a program is given and the outputs it should give.
pub type Case = (Vec<Number>, Vec<Number>);

/// The inputs and expected outputs of each case.
pub open spec fn views(cases: Seq<Case>) -> Seq<(Seq<Number>, Seq<Number>)> {
    Seq::new(cases.len(), |i: int| (cases[i].0@, cases[i].1@))
}

/// A fitness score. Higher is better; zero is a perfect match and negative
/// magnitudes measure error.
pub type Fitness = i64;

/// A probability, as a ratio of two integers.
#[derive(Debug, Clone, Copy, PartialEq, Eq, Structural)]
pub struct Probability {
    pub numerator: u32,
    pub denominator: u32,
}

impl Probability {
    /// The ratio lies between zero and one.
    pub open spec fn wf(self) -> bool {
        self.numerator <= self.denominator && self.denominator > 0
    }

    /// The probability `numerator / denominator`.
    pub fn new(numerator: u32, denominator: u32) -> (p: Probability)
        requires
            numerator <= denominator,
            denominator > 0,
        ensures
            p.wf(),
            p.numerator == numerator,
            p.denominator == denominator,
    {
        Probability { numerator, denominator }
    }

    /// The probability of `percent` in a hundred.
    pub open spec fn percent_of(percent: u32) -> Probability {
        Probability { numerator: percent, denominator: 100 }
    }

    /// The probability of `percent` in a hundred.
    pub fn percent(percent: u32) -> (p: Probability)
        requires
            percent <= 100,
        ensures
            p.wf(),
            p == Probability::percent_of(percent),
    {
        Probability { numerator: percent, denominator: 100 }
    }
}

/// The sum of a table's weights.
pub open spec fn total_weight(weights: Seq<u32>) -> nat
    decreases weights.len(),
{
    if weights.len() == 0 {
        0
    } else {
        total_weight(weights.drop_last()) + weights.last() as nat
    }
}

/// The weights of a table of expression operators.
pub open spec fn expr_weights(table: Seq<(Expr, u32)>) -> Seq<u32> {
    Seq::new(table.len(), |i: int| table[i].1)
}

/// The weights of a table of statement operators.
pub open spec fn stat_weights(table: Seq<(Stat, u32)>) -> Seq<u32> {
    Seq::new(table.len(), |i: int| table[i].1)
}

/// A table can be sampled from when it is not empty and its weights sum to
/// a positive number that fits the weight type.
pub open spec fn samplable(weights: Seq<u32>) -> bool {
    0 < total_weight(weights) <= u32::MAX
}

/// The weights of the expression table, in order.
pub fn expr_weights_of(table: &Vec<(Expr, u32)>) -> (weights: Vec<u32>)
    ensures
        weights@ == expr_weights(table@),
{
    let mut weights: Vec<u32> = Vec::new();
    let mut i: usize = 0;
    while i < table.len()
        invariant
            i <= table.len(),
            weights@ == expr_weights(table@.subrange(0, i as int)),
        decreases table.len() - i,
    {
        weights.push(table[i].1);
        i += 1;
        assert(weights@ =~= expr_weights(table@.subrange(0, i as int)));
    }
    assert(table@.subrange(0, i as int) =~= table@);
    weights
}

/// The weights of the statement table, in order.
pub fn stat_weights_of(table: &Vec<(Stat, u32)>) -> (weights: Vec<u32>)
    ensures
        weights@ == stat_weights(table@),
{
    let mut weights: Vec<u32> = Vec::new();
    let mut i: usize = 0;
    while i < table.len()
        invariant
            i <= table.len(),
            weights@ == stat_weights(table@.subrange(0, i as int)),
        decreases table.len() - i,
    {
        weights.push(table[i].1);
        i += 1;
        assert(weights@ =~= stat_weights(table@.subrange(0, i as int)));
    }
    assert(table@.subrange(0, i as int) =~= table@);
    weights
}

/// A prefix of a table weighs no more than the table.
pub proof fn lemma_total_weight_prefix(weights: Seq<u32>, k: int)
    requires
        0 <= k <= weights.len(),
    ensures
        total_weight(weights.subrange(0, k)) <= total_weight(weights),
    decreases weights.len() - k,
{
    if k < weights.len() {
        lemma_total_weight_prefix(weights, k + 1);
        assert(weights.subrange(0, k + 1).drop_last() =~= weights.subrange(0, k));
    } else {
        assert(weights.subrange(0, k) =~= weights);
    }
}

/// Decides whether a table can be sampled from.
pub fn is_samplable(weights: &Vec<u32>) -> (ok: bool)
    ensures
        ok == samplable(weights@),
{
    let mut total: u64 = 0;
    let mut i: usize = 0;
    assert(weights@.subrange(0, 0) =~= Seq::<u32>::empty());
    while i < weights.len()
        invariant
            i <= weights.len(),
            total == total_weight(weights@.subrange(0, i as int)),
            total <= u32::MAX,
        decreases weights.len() - i,
    {
        proof {
            assert(weights@.subrange(0, i + 1).drop_last() =~= weights@.subrange(0, i as int));
            lemma_total_weight_prefix(weights@, i + 1);
        }
        total = total + weights[i] as u64;
        if total > u32::MAX as u64 {
            return false;
        }
        i += 1;
    }
    assert(weights@.subrange(0, i as int) =~= weights@);
    total > 0
}

/// How random programs are grown.
#[derive(Debug, Clone)]
pub struct GrowingParams {
    /// Smallest literal, inclusive.
    pub min_const: Number,
    /// Largest literal, exclusive.
    pub max_const: Number,
    /// Probability that an expression is a leaf.
    pub p_expression_plug: Probability,
    /// Probability that a leaf is a register rather than a literal.
    pub p_prefer_reg_over_num: Probability,
    /// Probability that a mutated statement gets a new statement in front.
    pub p_insertion: Probability,
    /// Relative weights of the expression operators. `Expr::Num` and
    /// `Expr::Reg` stand for a random literal and a random register.
    pub d_expr: Vec<(Expr, u32)>,
    /// Relative weights of the statement operators.
    pub d_stat: Vec<(Stat, u32)>,
}

/// The configuration of a run.
#[derive(Debug, Clone)]
pub struct Params {
    pub seed: u64,
    /// Number of registers.
    pub memsize: usize,
    /// Number of individuals.
    pub popsize: usize,
    pub max_depth: usize,
    /// Largest program the run keeps.
    pub max_size: usize,
    /// Probability that a child comes from crossover rather than mutation.
    pub p_crossover: Probability,
    /// Probability that mutation changes a given token.
    pub p_mut_per_node: Probability,
    /// Number of competitors drawn beside the first in a tournament.
    pub tournament_size: usize,
    /// The fitness at which the problem counts as solved.
    pub acceptable_error: Fitness,
    /// Whether registers start with random values instead of zero.
    pub random_initial_memory: bool,
    /// Statements every grown program starts with.
    pub prefix: Vec<Token>,
    /// Statements every grown program ends with.
    pub suffix: Vec<Token>,
    pub growing: GrowingParams,
}

/// The mathematical content of [`GrowingParams`].
pub ghost struct GrowingView {
    pub min_const: Number,
    pub max_const: Number,
    pub p_expression_plug: Probability,
    pub p_prefer_reg_over_num: Probability,
    pub p_insertion: Probability,
    pub d_expr: Seq<(Expr, u32)>,
    pub d_stat: Seq<(Stat, u32)>,
}

/// The mathematical content of [`Params`].
pub ghost struct ParamsView {
    pub seed: u64,
    pub memsize: usize,
    pub popsize: usize,
    pub max_depth: usize,
    pub max_size: usize,
    pub p_crossover: Probability,
    pub p_mut_per_node: Probability,
    pub tournament_size: usize,
    pub acceptable_error: Fitness,
    pub random_initial_memory: bool,
    pub prefix: Seq<Token>,
    pub suffix: Seq<Token>,
    pub growing: GrowingView,
}

impl View for GrowingParams {
    type V = GrowingView;

    open spec fn view(&self) -> GrowingView {
        GrowingView {
            min_const: self.min_const,
            max_const: self.max_const,
            p_expression_plug: self.p_expression_plug,
            p_prefer_reg_over_num: self.p_prefer_reg_over_num,
            p_insertion: self.p_insertion,
            d_expr: self.d_expr@,
            d_stat: self.d_stat@,
        }
    }
}

impl View for Params {
    type V = ParamsView;

    open spec fn view(&self) -> ParamsView {
        ParamsView {
            seed: self.seed,
            memsize: self.memsize,
            popsize: self.popsize,
            max_depth: self.max_depth,
            max_size: self.max_size,
            p_crossover: self.p_crossover,
            p_mut_per_node: self.p_mut_per_node,
            tournament_size: self.tournament_size,
            acceptable_error: self.acceptable_error,
            random_initial_memory: self.random_initial_memory,
            prefix: self.prefix@,
            suffix: self.suffix@,
            growing: self.growing@,
        }
    }
}

impl GrowingParams {
    /// The literal range is not empty, the probabilities are probabilities
    /// and both tables can be sampled from.
    pub open spec fn wf(&self) -> bool {
        &&& self.min_const < self.max_const
        &&& self.p_expression_plug.wf()
        &&& self.p_prefer_reg_over_num.wf()
        &&& self.p_insertion.wf()
        &&& samplable(expr_weights(self.d_expr@))
        &&& samplable(stat_weights(self.d_stat@))
    }
}

impl Probability {
    /// Decides whether the ratio lies between zero and one.
    pub fn is_valid(&self) -> (ok: bool)
        ensures
            ok == self.wf(),
    {
        self.numerator <= self.denominator && self.denominator > 0
    }
}

impl Params {
    /// What every stochastic operation relies on: there is at least one
    /// register and one individual, the probabilities are probabilities, the
    /// growth configuration is valid, and the fixed prefix and suffix are
    /// well-formed programs over the registers.
    pub open spec fn wf(&self) -> bool {
        &&& self.memsize > 0
        &&& self.popsize > 0
        &&& self.p_crossover.wf()
        &&& self.p_mut_per_node.wf()
        &&& self.growing.wf()
        &&& well_formed(self.prefix@)
        &&& well_formed(self.suffix@)
        &&& registers_within(self.prefix@, self.memsize as nat)
        &&& registers_within(self.suffix@, self.memsize as nat)
    }
}

/// The expression table in which every operator, the literal and the
/// register weigh the same.
pub open spec fn uniform_expr_table() -> Seq<(Expr, u32)> {
    seq![
        (Expr::ADD, 1u32),
        (Expr::SUB, 1u32),
        (Expr::MUL, 1u32),
        (Expr::DIV, 1u32),
        (Expr::EQ, 1u32),
        (Expr::LT, 1u32),
        (Expr::GT, 1u32),
        (Expr::OR, 1u32),
        (Expr::AND, 1u32),
        (Expr::NOT, 1u32),
        (Expr::Num(0i32), 1u32),
        (Expr::Reg(0usize), 1u32),
    ]
}

/// The statement table in which every operator weighs the same.
pub open spec fn uniform_stat_table() -> Seq<(Stat, u32)> {
    seq![
        (Stat::LOAD, 1u32),
        (Stat::IF, 1u32),
        (Stat::WHILE, 1u32),
        (Stat::INPUT, 1u32),
        (Stat::OUTPUT, 1u32),
    ]
}

/// The program that reads one input into each of the first `count`
/// registers, in order.
pub open spec fn reads(count: nat) -> Seq<Token>
    decreases count,
{
    if count == 0 {
        Seq::empty()
    } else {
        reads((count - 1) as nat) + seq![
            Token::Stat(Stat::INPUT),
            Token::Reg((count - 1) as usize),
        ]
    }
}

/// The program that writes the first register.
pub open spec fn writes_first() -> Seq<Token> {
    seq![Token::Stat(Stat::OUTPUT), Token::Reg(0)]
}

/// A table weighs what it weighed before an entry was added, plus the entry.
pub proof fn lemma_total_weight_push(weights: Seq<u32>, w: u32)
    ensures
        total_weight(weights.push(w)) == total_weight(weights) + w,
{
    assert(weights.push(w).drop_last() =~= weights);
}

/// An expression table of the given weights, operator by operator. The
/// entries for the literal and the register stand for a random literal and
/// a random register.
pub fn expr_table(
    add: u32,
    sub: u32,
    mul: u32,
    div: u32,
    eq: u32,
    lt: u32,
    gt: u32,
    or: u32,
    and: u32,
    not: u32,
    num: u32,
    reg: u32,
) -> (table: Vec<(Expr, u32)>)
    ensures
        table@ == seq![
            (Expr::ADD, add),
            (Expr::SUB, sub),
            (Expr::MUL, mul),
            (Expr::DIV, div),
            (Expr::EQ, eq),
            (Expr::LT, lt),
            (Expr::GT, gt),
            (Expr::OR, or),
            (Expr::AND, and),
            (Expr::NOT, not),
            (Expr::Num(0i32), num),
            (Expr::Reg(0usize), reg),
        ],
        total_weight(expr_weights(table@)) == add + sub + mul + div + eq + lt + gt + or + and + not
            + num + reg,
{
    let mut table: Vec<(Expr, u32)> = Vec::new();
    let ghost mut sum: nat = 0;
    let entries = [
        (Expr::ADD, add),
        (Expr::SUB, sub),
        (Expr::MUL, mul),
        (Expr::DIV, div),
        (Expr::EQ, eq),
        (Expr::LT, lt),
        (Expr::GT, gt),
        (Expr::OR, or),
        (Expr::AND, and),
        (Expr::NOT, not),
        (Expr::Num(0), num),
        (Expr::Reg(0), reg),
    ];
    let mut i: usize = 0;
    assert(expr_weights(table@) =~= Seq::<u32>::empty());
    while i < 12
        invariant
            i <= 12,
            entries@.len() == 12,
            table@ == entries@.subrange(0, i as int),
            total_weight(expr_weights(table@)) == sum,
            sum == total_weight(expr_weights(entries@.subrange(0, i as int))),
        decreases 12 - i,
    {
        let ghost before = table@;
        table.push(entries[i]);
        proof {
            assert(table@ =~= entries@.subrange(0, i + 1));
            assert(expr_weights(table@) =~= expr_weights(before).push(entries@[i as int].1));
            lemma_total_weight_push(expr_weights(before), entries@[i as int].1);
            sum = sum + entries@[i as int].1 as nat;
        }
        i += 1;
    }
    proof {
        assert(entries@.subrange(0, 12) =~= entries@);
        assert(table@ =~= seq![
            (Expr::ADD, add),
            (Expr::SUB, sub),
            (Expr::MUL, mul),
            (Expr::DIV, div),
            (Expr::EQ, eq),
            (Expr::LT, lt),
            (Expr::GT, gt),
            (Expr::OR, or),
            (Expr::AND, and),
            (Expr::NOT, not),
            (Expr::Num(0i32), num),
            (Expr::Reg(0usize), reg),
        ]);
        lemma_expr_table_weight(table@);
    }
    table
}

/// The weight of a twelve-entry expression table, written out.
proof fn lemma_expr_table_weight(t: Seq<(Expr, u32)>)
    requires
        t.len() == 12,
    ensures
        total_weight(expr_weights(t)) == t[0].1 + t[1].1 + t[2].1 + t[3].1 + t[4].1 + t[5].1
            + t[6].1 + t[7].1 + t[8].1 + t[9].1 + t[10].1 + t[11].1,
{
    let w = expr_weights(t);
    lemma_weight_unrolled(w, 12);
    lemma_weight_unrolled(w, 11);
    lemma_weight_unrolled(w, 10);
    lemma_weight_unrolled(w, 9);
    lemma_weight_unrolled(w, 8);
    lemma_weight_unrolled(w, 7);
    lemma_weight_unrolled(w, 6);
    lemma_weight_unrolled(w, 5);
    lemma_weight_unrolled(w, 4);
    lemma_weight_unrolled(w, 3);
    lemma_weight_unrolled(w, 2);
    lemma_weight_unrolled(w, 1);
    assert(w.subrange(0, 0) =~= Seq::<u32>::empty());
    assert(w.subrange(0, 12) =~= w);
}

/// The first `k` weights weigh what the first `k - 1` weigh, plus the last
/// of them.
proof fn lemma_weight_unrolled(w: Seq<u32>, k: int)
    requires
        0 < k <= w.len(),
    ensures
        total_weight(w.subrange(0, k)) == total_weight(w.subrange(0, k - 1)) + w[k - 1],
{
    assert(w.subrange(0, k).drop_last() =~= w.subrange(0, k - 1));
}

/// A statement table of the given weights, operator by operator.
pub fn stat_table(load: u32, if_: u32, while_: u32, input: u32, output: u32) -> (table: Vec<
    (Stat, u32),
>)
    ensures
        table@ == seq![
            (Stat::LOAD, load),
            (Stat::IF, if_),
            (Stat::WHILE, while_),
            (Stat::INPUT, input),
            (Stat::OUTPUT, output),
        ],
        total_weight(stat_weights(table@)) == load + if_ + while_ + input + output,
{
    let mut table: Vec<(Stat, u32)> = Vec::new();
    table.push((Stat::LOAD, load));
    table.push((Stat::IF, if_));
    table.push((Stat::WHILE, while_));
    table.push((Stat::INPUT, input));
    table.push((Stat::OUTPUT, output));
    proof {
        assert(table@ =~= seq![
            (Stat::LOAD, load),
            (Stat::IF, if_),
            (Stat::WHILE, while_),
            (Stat::INPUT, input),
            (Stat::OUTPUT, output),
        ]);
        let w = stat_weights(table@);
        lemma_weight_unrolled(w, 5);
        lemma_weight_unrolled(w, 4);
        lemma_weight_unrolled(w, 3);
        lemma_weight_unrolled(w, 2);
        lemma_weight_unrolled(w, 1);
        assert(w.subrange(0, 0) =~= Seq::<u32>::empty());
        assert(w.subrange(0, 5) =~= w);
    }
    table
}

/// The program that reads one input into each of the first `count`
/// registers.
pub fn read_inputs(count: usize) -> (program: Vec<Token>)
    ensures
        program@ == reads(count as nat),
        program.len() == 2 * count,
        well_formed(program@),
        forall|memsize: nat| memsize >= count ==> #[trigger] registers_within(program@, memsize),
{
    let mut program: Vec<Token> = Vec::new();
    let mut i: usize = 0;
    while i < count
        invariant
            i <= count,
            program@ == reads(i as nat),
            program.len() == 2 * i,
            well_formed(program@),
            registers_within(program@, i as nat),
        decreases count - i,
    {
        let ghost before = program@;
        program.push(Token::Stat(Stat::INPUT));
        program.push(Token::Reg(i));
        proof {
            let read = seq![Token::Stat(Stat::INPUT), Token::Reg(i)];
            assert(program@ =~= before + read);
            lemma_input_statement(i);
            lemma_single_statement(read);
            lemma_well_formed_concat(before, read);
            assert forall|k: int| 0 <= k < before.len() implies (#[trigger] before[k] matches
                Token::Reg(n) ==> n < i + 1) by {}
            lemma_registers_concat(before, read, (i + 1) as nat);
        }
        i += 1;
    }
    proof {
        assert forall|memsize: nat| memsize >= count implies #[trigger] registers_within(
            program@,
            memsize,
        ) by {
            assert forall|k: int| 0 <= k < program@.len() implies (#[trigger] program@[k] matches
                Token::Reg(n) ==> n < memsize) by {}
        }
    }
    program
}

/// The program that writes the first register.
pub fn write_first() -> (program: Vec<Token>)
    ensures
        program@ == writes_first(),
        well_formed(program@),
        forall|memsize: nat| memsize > 0 ==> #[trigger] registers_within(program@, memsize),
{
    let mut program: Vec<Token> = Vec::new();
    program.push(Token::Stat(Stat::OUTPUT));
    program.push(Token::Reg(0));
    proof {
        assert(program@ =~= writes_first());
        assert(writes_first() =~= seq![Token::Stat(Stat::OUTPUT)] + seq![Token::Reg(0)]);
        lemma_leaf_expression(Token::Reg(0));
        lemma_output_statement(seq![Token::Reg(0)]);
        lemma_single_statement(writes_first());
    }
    program
}

impl GrowingParams {
    /// The standard growth configuration.
    pub open spec fn standard_view() -> GrowingView {
        GrowingView {
            min_const: -100i32,
            max_const: 100i32,
            p_expression_plug: Probability::percent_of(80),
            p_prefer_reg_over_num: Probability::percent_of(50),
            p_insertion: Probability::percent_of(10),
            d_expr: uniform_expr_table(),
            d_stat: uniform_stat_table(),
        }
    }

    /// Literals from -100 up to 100, four leaves in five expressions, as
    /// many registers as literals among the leaves, an insertion before one
    /// mutated statement in ten, and uniform operator tables.
    pub fn standard() -> (growing: GrowingParams)
        ensures
            growing.wf(),
            growing@ == GrowingParams::standard_view(),
    {
        GrowingParams {
            min_const: -100,
            max_const: 100,
            p_expression_plug: Probability::percent(80),
            p_prefer_reg_over_num: Probability::percent(50),
            p_insertion: Probability::percent(10),
            d_expr: expr_table(1, 1, 1, 1, 1, 1, 1, 1, 1, 1, 1, 1),
            d_stat: stat_table(1, 1, 1, 1, 1),
        }
    }
}

impl Params {
    /// The standard configuration.
    pub open spec fn standard_view() -> ParamsView {
        ParamsView {
            seed: 0,
            memsize: 5,
            popsize: 10,
            max_depth: 5,
            max_size: 1000,
            p_crossover: Probability::percent_of(90),
            p_mut_per_node: Probability::percent_of(5),
            tournament_size: 2,
            acceptable_error: 0,
            random_initial_memory: false,
            prefix: reads(1),
            suffix: writes_first(),
            growing: GrowingParams::standard_view(),
        }
    }

    /// Five registers, ten individuals, programs of up to a thousand
    /// tokens, crossover for nine children in ten, a mutation rate of five
    /// in a hundred per token, tournaments of two extra competitors, a
    /// perfect score as the goal, zeroed registers, and programs that start
    /// by reading one input and end by writing the first register.
    pub fn standard() -> (params: Params)
        ensures
            params.wf(),
            params@ == Params::standard_view(),
            forall|memsize: nat|
                memsize > 0 ==> #[trigger] registers_within(params.prefix@, memsize),
            forall|memsize: nat|
                memsize > 0 ==> #[trigger] registers_within(params.suffix@, memsize),
    {
        let prefix = read_inputs(1);
        Params {
            seed: 0,
            memsize: 5,
            popsize: 10,
            max_depth: 5,
            max_size: 1000,
            p_crossover: Probability::percent(90),
            p_mut_per_node: Probability::percent(5),
            tournament_size: 2,
            acceptable_error: 0,
            random_initial_memory: false,
            prefix,
            suffix: write_first(),
            growing: GrowingParams::standard(),
        }
    }
}

impl GrowingParams {
    /// Decides whether the growth configuration is valid.
    pub fn is_valid(&self) -> (ok: bool)
        ensures
            ok == self.wf(),
    {
        self.min_const < self.max_const && self.p_expression_plug.is_valid()
            && self.p_prefer_reg_over_num.is_valid() && self.p_insertion.is_valid()
            && is_samplable(&expr_weights_of(&self.d_expr)) && is_samplable(
            &stat_weights_of(&self.d_stat),
        )
    }
}

impl Params {
    /// Decides whether a fitness reaches the goal of the run: the acceptable
    /// error.
    pub fn reaches_goal(&self, fitness: Fitness) -> (reached: bool)
        ensures
            reached == (fitness >= self.acceptable_error),
    {
        fitness >= self.acceptable_error
    }

    /// Decides whether the configuration is valid.
    pub fn is_valid(&self) -> (ok: bool)
        ensures
            ok == self.wf(),
    {
        self.memsize > 0 && self.popsize > 0 && self.p_crossover.is_valid()
            && self.p_mut_per_node.is_valid() && self.growing.is_valid() && is_well_formed(
            &self.prefix,
        ) && is_well_formed(&self.suffix) && has_registers_within(&self.prefix, self.memsize)
            && has_registers_within(&self.suffix, self.memsize)
    }
}

impl Default for GrowingParams {
    fn default() -> (growing: GrowingParams)
        ensures
            growing.wf(),
            growing@ == GrowingParams::standard_view(),
    {
        GrowingParams::standard()
    }
}

impl Default for Params {
    fn default() -> (params: Params)
        ensures
            params.wf(),
            params@ == Params::standard_view(),
    {
        Params::standard()
    }
}

} // verus!
