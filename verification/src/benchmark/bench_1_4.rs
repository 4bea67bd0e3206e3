//! Problems that ask for an arithmetic mean.

use vstd::prelude::*;
use crate::params::{
    views,
    Case,
    Params,
    ParamsView,
    GrowingParams,
    GrowingView,
    Probability,
    expr_table,
    stat_table,
};
use crate::tinygp::fitness_funcs::FitnessFunc;
use super::{Benchmark, push_case, expr_weighted, stat_weighted};

verus! {

/// The program should read numbers from -99 to 99 and write only their
/// arithmetic mean, rounded to an integer.
pub fn bench_1_4_a() -> (bench: Benchmark)
    ensures
        bench.wf(),
        bench.name@ == "1_4_a"@,
        bench.fitness_func == FitnessFunc::DiffFirstPromoteSingle,
        bench.params@ == (ParamsView {
            popsize: 1000,
            max_size: 10000,
            memsize: 15,
            growing: GrowingView {
                d_expr: expr_weighted(4, 1, 0, 1, 0, 0, 0, 0, 0, 0, 1, 1),
                d_stat: stat_weighted(1, 0, 1, 4, 1),
                p_prefer_reg_over_num: Probability::percent_of(80),
                min_const: 1i32,
                max_const: 11i32,
                p_insertion: Probability::percent_of(50),
                ..GrowingParams::standard_view()
            },
            ..Params::standard_view()
        }),
        views(bench.cases@) =~~= seq![
            (seq![32i32, -80i32, 48i32], seq![0i32]),
            (seq![74i32, -58i32, 74i32], seq![30i32]),
            (seq![40i32, 84i32, -59i32], seq![21i32]),
            (seq![59i32, 71i32, 20i32], seq![50i32]),
            (seq![-94i32, -89i32, 21i32], seq![-54i32]),
            (seq![-41i32, -26i32, 9i32], seq![-20i32]),
            (seq![10i32, -35i32, 66i32], seq![13i32]),
            (seq![40i32, 47i32, -18i32], seq![23i32]),
            (seq![69i32, 25i32, 82i32], seq![58i32]),
            (seq![-54i32, -94i32, -64i32], seq![-71i32]),
        ],
{
    let mut params = Params::standard();
    params.popsize = 1000;
    params.max_size = 10000;
    params.memsize = 15;
    params.growing.d_expr = expr_table(4, 1, 0, 1, 0, 0, 0, 0, 0, 0, 1, 1);
    params.growing.d_stat = stat_table(1, 0, 1, 4, 1);
    params.growing.p_prefer_reg_over_num = Probability::percent(80);
    params.growing.min_const = 1;
    params.growing.max_const = 11;
    params.growing.p_insertion = Probability::percent(50);
    let mut cases: Vec<Case> = Vec::new();
    assert(views(cases@) =~= Seq::empty());
    push_case(&mut cases, vec![32, -80, 48], vec![0]);
    push_case(&mut cases, vec![74, -58, 74], vec![30]);
    push_case(&mut cases, vec![40, 84, -59], vec![21]);
    push_case(&mut cases, vec![59, 71, 20], vec![50]);
    push_case(&mut cases, vec![-94, -89, 21], vec![-54]);
    push_case(&mut cases, vec![-41, -26, 9], vec![-20]);
    push_case(&mut cases, vec![10, -35, 66], vec![13]);
    push_case(&mut cases, vec![40, 47, -18], vec![23]);
    push_case(&mut cases, vec![69, 25, 82], vec![58]);
    push_case(&mut cases, vec![-54, -94, -64], vec![-71]);
    Benchmark { name: "1_4_a", params, cases, fitness_func: FitnessFunc::DiffFirstPromoteSingle }
}

} // verus!
