//! A catalog of problems to evolve programs for.
//!
//! Each benchmark names its problem, sets the parameters of the run, lists
//! the cases and picks the scoring strategy.

pub mod bench_1_1;
pub mod bench_1_2;
pub mod bench_1_3;
pub mod bench_1_4;
pub mod bench_final;
pub mod bench_final_bool;

use vstd::prelude::*;
use crate::params::{Case, Params, views};
use crate::tinygp::common::{Expr, Stat, Number};
use crate::tinygp::evolution::scorable;
use crate::tinygp::fitness_funcs::FitnessFunc;

verus! {

/// A problem, ready to run.
pub struct Benchmark {
    pub name: &'static str,
    pub params: Params,
    pub cases: Vec<Case>,
    pub fitness_func: FitnessFunc,
}

impl Benchmark {
    /// The parameters are valid and the strategy can score every case.
    pub open spec fn wf(&self) -> bool {
        self.params.wf() && scorable(self.cases@, self.fitness_func)
    }
}

/// The expression table of the given weights.
pub open spec fn expr_weighted(
    add: u32,
    sub: u32,
    mul: u32,
    div: u32,
    eq: u32,
    lt: u32,
    gt: u32,
    or: u32,
    and: u32,
    not: u32,
    num: u32,
    reg: u32,
) -> Seq<(Expr, u32)> {
    seq![
        (Expr::ADD, add),
        (Expr::SUB, sub),
        (Expr::MUL, mul),
        (Expr::DIV, div),
        (Expr::EQ, eq),
        (Expr::LT, lt),
        (Expr::GT, gt),
        (Expr::OR, or),
        (Expr::AND, and),
        (Expr::NOT, not),
        (Expr::Num(0i32), num),
        (Expr::Reg(0usize), reg),
    ]
}

/// The statement table of the given weights.
pub open spec fn stat_weighted(load: u32, if_: u32, while_: u32, input: u32, output: u32) -> Seq<
    (Stat, u32),
> {
    seq![
        (Stat::LOAD, load),
        (Stat::IF, if_),
        (Stat::WHILE, while_),
        (Stat::INPUT, input),
        (Stat::OUTPUT, output),
    ]
}

/// Adds a case.
pub fn push_case(cases: &mut Vec<Case>, inputs: Vec<Number>, outputs: Vec<Number>)
    ensures
        views(final(cases)@) == views(old(cases)@).push((inputs@, outputs@)),
        final(cases).len() == old(cases).len() + 1,
        forall|i: int| 0 <= i < old(cases).len() ==> final(cases)[i] == old(cases)[i],
        final(cases)[old(cases).len() as int].0@ == inputs@,
        final(cases)[old(cases).len() as int].1@ == outputs@,
{
    cases.push((inputs, outputs));
    assert(views(cases@) =~= views(old(cases)@).push((inputs@, outputs@)));
}

/// Whether a string spells the given name.
fn is_named(suite: &str, name: &str) -> (same: bool)
    ensures
        same == (suite@ == name@),
{
    suite.to_owned() == name.to_owned()
}

/// The benchmark that goes by the name `suite`, if there is one.
pub fn find_benchmark(suite: &str) -> (found: Option<Benchmark>)
    ensures
        found.is_some() <==> is_suite(suite@),
        found matches Some(bench) ==> bench.wf() && bench.name@ == suite@,
{
    if is_named(suite, "1_1_a") {
        Some(bench_1_1::bench_1_1_a())
    } else if is_named(suite, "1_1_b") {
        Some(bench_1_1::bench_1_1_b())
    } else if is_named(suite, "1_1_c") {
        Some(bench_1_1::bench_1_1_c())
    } else if is_named(suite, "1_1_d") {
        Some(bench_1_1::bench_1_1_d())
    } else if is_named(suite, "1_1_e") {
        Some(bench_1_1::bench_1_1_e())
    } else if is_named(suite, "1_1_f") {
        Some(bench_1_1::bench_1_1_f())
    } else if is_named(suite, "1_2_a") {
        Some(bench_1_2::bench_1_2_a())
    } else if is_named(suite, "1_2_b") {
        Some(bench_1_2::bench_1_2_b())
    } else if is_named(suite, "1_2_c") {
        Some(bench_1_2::bench_1_2_c())
    } else if is_named(suite, "1_2_d") {
        Some(bench_1_2::bench_1_2_d())
    } else if is_named(suite, "1_2_e") {
        Some(bench_1_2::bench_1_2_e())
    } else if is_named(suite, "1_3_a") {
        Some(bench_1_3::bench_1_3_a())
    } else if is_named(suite, "1_3_b") {
        Some(bench_1_3::bench_1_3_b())
    } else if is_named(suite, "1_4_a") {
        Some(bench_1_4::bench_1_4_a())
    } else if is_named(suite, "final_1") {
        Some(bench_final::bench_final_1())
    } else if is_named(suite, "final_2") {
        Some(bench_final::bench_final_2())
    } else if is_named(suite, "final_3") {
        Some(bench_final::bench_final_3())
    } else {
        find_boolean_benchmark(suite)
    }
}

/// The boolean benchmark that goes by the name `suite`, if there is one.
fn find_boolean_benchmark(suite: &str) -> (found: Option<Benchmark>)
    ensures
        found.is_some() <==> is_boolean_suite(suite@),
        found matches Some(bench) ==> bench.wf() && bench.name@ == suite@,
{
    if is_named(suite, "final_bool_1") {
        Some(bench_final_bool::bench_final_bool_1())
    } else if is_named(suite, "final_bool_2") {
        Some(bench_final_bool::bench_final_bool_2())
    } else if is_named(suite, "final_bool_3") {
        Some(bench_final_bool::bench_final_bool_3())
    } else if is_named(suite, "final_bool_4") {
        Some(bench_final_bool::bench_final_bool_4())
    } else if is_named(suite, "final_bool_5") {
        Some(bench_final_bool::bench_final_bool_5())
    } else if is_named(suite, "final_bool_6") {
        Some(bench_final_bool::bench_final_bool_6())
    } else if is_named(suite, "final_bool_7") {
        Some(bench_final_bool::bench_final_bool_7())
    } else if is_named(suite, "final_bool_8") {
        Some(bench_final_bool::bench_final_bool_8())
    } else if is_named(suite, "final_bool_9") {
        Some(bench_final_bool::bench_final_bool_9())
    } else if is_named(suite, "final_bool_10") {
        Some(bench_final_bool::bench_final_bool_10())
    } else {
        None
    }
}

/// The names of the boolean benchmarks.
pub open spec fn is_boolean_suite(suite: Seq<char>) -> bool {
    ||| suite == "final_bool_1"@
    ||| suite == "final_bool_2"@
    ||| suite == "final_bool_3"@
    ||| suite == "final_bool_4"@
    ||| suite == "final_bool_5"@
    ||| suite == "final_bool_6"@
    ||| suite == "final_bool_7"@
    ||| suite == "final_bool_8"@
    ||| suite == "final_bool_9"@
    ||| suite == "final_bool_10"@
}

/// The names by which benchmarks are found.
pub open spec fn is_suite(suite: Seq<char>) -> bool {
    ||| suite == "1_1_a"@
    ||| suite == "1_1_b"@
    ||| suite == "1_1_c"@
    ||| suite == "1_1_d"@
    ||| suite == "1_1_e"@
    ||| suite == "1_1_f"@
    ||| suite == "1_2_a"@
    ||| suite == "1_2_b"@
    ||| suite == "1_2_c"@
    ||| suite == "1_2_d"@
    ||| suite == "1_2_e"@
    ||| suite == "1_3_a"@
    ||| suite == "1_3_b"@
    ||| suite == "1_4_a"@
    ||| suite == "final_1"@
    ||| suite == "final_2"@
    ||| suite == "final_3"@
    ||| is_boolean_suite(suite)
}

} // verus!
