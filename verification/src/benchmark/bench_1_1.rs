//! Problems that ask for a constant.

use vstd::prelude::*;
use crate::params::{views, Case, Params, ParamsView, GrowingParams, GrowingView, Probability};
use crate::tinygp::fitness_funcs::FitnessFunc;
use super::{Benchmark, push_case};

verus! {

/// The program should write the number 1 somewhere in its output; other
/// numbers may surround it.
pub fn bench_1_1_a() -> (bench: Benchmark)
    ensures
        bench.wf(),
        bench.name@ == "1_1_a"@,
        bench.fitness_func == FitnessFunc::DiffBest,
        bench.params@ == (ParamsView {
            memsize: 3,
            popsize: 100,
            max_size: 10,
            p_crossover: Probability::percent_of(90),
            p_mut_per_node: Probability::percent_of(20),
            tournament_size: 2,
            random_initial_memory: true,
            growing: GrowingView {
                p_prefer_reg_over_num: Probability::percent_of(20),
                ..GrowingParams::standard_view()
            },
            ..Params::standard_view()
        }),
        views(bench.cases@) =~~= seq![
            (seq![0i32], seq![1i32]),
            (seq![1i32], seq![1i32]),
            (seq![1i32, 2i32], seq![1i32]),
        ],
{
    let mut params = Params::standard();
    params.memsize = 3;
    params.popsize = 100;
    params.max_size = 10;
    params.p_crossover = Probability::percent(90);
    params.p_mut_per_node = Probability::percent(20);
    params.tournament_size = 2;
    params.random_initial_memory = true;
    params.growing.p_prefer_reg_over_num = Probability::percent(20);
    let mut cases: Vec<Case> = Vec::new();
    assert(views(cases@) =~= Seq::empty());
    push_case(&mut cases, vec![0], vec![1]);
    push_case(&mut cases, vec![1], vec![1]);
    push_case(&mut cases, vec![1, 2], vec![1]);
    Benchmark { name: "1_1_a", params, cases, fitness_func: FitnessFunc::DiffBest }
}

/// The program should write the number 789 somewhere in its output; other
/// numbers may surround it.
pub fn bench_1_1_b() -> (bench: Benchmark)
    ensures
        bench.wf(),
        bench.name@ == "1_1_b"@,
        bench.fitness_func == FitnessFunc::DiffBest,
        bench.params@ == (ParamsView {
            memsize: 3,
            popsize: 1000,
            max_size: 10,
            p_crossover: Probability::percent_of(90),
            p_mut_per_node: Probability::percent_of(10),
            tournament_size: 2,
            acceptable_error: -1i64,
            growing: GrowingView {
                p_prefer_reg_over_num: Probability::percent_of(10),
                max_const: 1000i32,
                ..GrowingParams::standard_view()
            },
            ..Params::standard_view()
        }),
        views(bench.cases@) =~~= seq![
            (seq![0i32], seq![789i32]),
            (seq![1i32], seq![789i32]),
            (seq![1i32, 2i32], seq![789i32]),
        ],
{
    let mut params = Params::standard();
    params.memsize = 3;
    params.popsize = 1000;
    params.max_size = 10;
    params.p_crossover = Probability::percent(90);
    params.p_mut_per_node = Probability::percent(10);
    params.tournament_size = 2;
    params.acceptable_error = -1;
    params.growing.p_prefer_reg_over_num = Probability::percent(10);
    params.growing.max_const = 1000;
    let mut cases: Vec<Case> = Vec::new();
    assert(views(cases@) =~= Seq::empty());
    push_case(&mut cases, vec![0], vec![789]);
    push_case(&mut cases, vec![1], vec![789]);
    push_case(&mut cases, vec![1, 2], vec![789]);
    Benchmark { name: "1_1_b", params, cases, fitness_func: FitnessFunc::DiffBest }
}

/// The program should write the number 31415 somewhere in its output; other
/// numbers may surround it.
pub fn bench_1_1_c() -> (bench: Benchmark)
    ensures
        bench.wf(),
        bench.name@ == "1_1_c"@,
        bench.fitness_func == FitnessFunc::DiffBest,
        bench.params@ == (ParamsView {
            memsize: 3,
            popsize: 2000,
            max_size: 10,
            p_crossover: Probability::percent_of(50),
            p_mut_per_node: Probability::percent_of(10),
            tournament_size: 2,
            acceptable_error: -10i64,
            growing: GrowingView {
                p_prefer_reg_over_num: Probability::percent_of(10),
                max_const: 100000i32,
                ..GrowingParams::standard_view()
            },
            ..Params::standard_view()
        }),
        views(bench.cases@) =~~= seq![
            (seq![0i32], seq![31415i32]),
            (seq![1i32], seq![31415i32]),
            (seq![1i32, 2i32], seq![31415i32]),
        ],
{
    let mut params = Params::standard();
    params.memsize = 3;
    params.popsize = 2000;
    params.max_size = 10;
    params.p_crossover = Probability::percent(50);
    params.p_mut_per_node = Probability::percent(10);
    params.tournament_size = 2;
    params.acceptable_error = -10;
    params.growing.p_prefer_reg_over_num = Probability::percent(10);
    params.growing.max_const = 100000;
    let mut cases: Vec<Case> = Vec::new();
    assert(views(cases@) =~= Seq::empty());
    push_case(&mut cases, vec![0], vec![31415]);
    push_case(&mut cases, vec![1], vec![31415]);
    push_case(&mut cases, vec![1, 2], vec![31415]);
    Benchmark { name: "1_1_c", params, cases, fitness_func: FitnessFunc::DiffBest }
}

/// The program should write the number 1 first; other numbers may follow.
pub fn bench_1_1_d() -> (bench: Benchmark)
    ensures
        bench.wf(),
        bench.name@ == "1_1_d"@,
        bench.fitness_func == FitnessFunc::DiffFirst,
        bench.params@ == (ParamsView {
            memsize: 3,
            popsize: 100,
            max_size: 10,
            p_crossover: Probability::percent_of(90),
            p_mut_per_node: Probability::percent_of(20),
            tournament_size: 2,
            random_initial_memory: true,
            growing: GrowingView {
                p_prefer_reg_over_num: Probability::percent_of(20),
                ..GrowingParams::standard_view()
            },
            ..Params::standard_view()
        }),
        views(bench.cases@) =~~= seq![
            (seq![0i32], seq![1i32]),
            (seq![1i32], seq![1i32]),
            (seq![1i32, 2i32], seq![1i32]),
        ],
{
    let mut params = Params::standard();
    params.memsize = 3;
    params.popsize = 100;
    params.max_size = 10;
    params.p_crossover = Probability::percent(90);
    params.p_mut_per_node = Probability::percent(20);
    params.tournament_size = 2;
    params.random_initial_memory = true;
    params.growing.p_prefer_reg_over_num = Probability::percent(20);
    let mut cases: Vec<Case> = Vec::new();
    assert(views(cases@) =~= Seq::empty());
    push_case(&mut cases, vec![0], vec![1]);
    push_case(&mut cases, vec![1], vec![1]);
    push_case(&mut cases, vec![1, 2], vec![1]);
    Benchmark { name: "1_1_d", params, cases, fitness_func: FitnessFunc::DiffFirst }
}

/// The program should write the number 789 first; other numbers may follow.
pub fn bench_1_1_e() -> (bench: Benchmark)
    ensures
        bench.wf(),
        bench.name@ == "1_1_e"@,
        bench.fitness_func == FitnessFunc::DiffFirst,
        bench.params@ == (ParamsView {
            memsize: 3,
            popsize: 1000,
            max_size: 10,
            p_crossover: Probability::percent_of(90),
            p_mut_per_node: Probability::percent_of(10),
            tournament_size: 2,
            acceptable_error: -1i64,
            growing: GrowingView {
                p_prefer_reg_over_num: Probability::percent_of(10),
                max_const: 1000i32,
                ..GrowingParams::standard_view()
            },
            ..Params::standard_view()
        }),
        views(bench.cases@) =~~= seq![
            (seq![0i32], seq![789i32]),
            (seq![1i32], seq![789i32]),
            (seq![1i32, 2i32], seq![789i32]),
        ],
{
    let mut params = Params::standard();
    params.memsize = 3;
    params.popsize = 1000;
    params.max_size = 10;
    params.p_crossover = Probability::percent(90);
    params.p_mut_per_node = Probability::percent(10);
    params.tournament_size = 2;
    params.acceptable_error = -1;
    params.growing.p_prefer_reg_over_num = Probability::percent(10);
    params.growing.max_const = 1000;
    let mut cases: Vec<Case> = Vec::new();
    assert(views(cases@) =~= Seq::empty());
    push_case(&mut cases, vec![0], vec![789]);
    push_case(&mut cases, vec![1], vec![789]);
    push_case(&mut cases, vec![1, 2], vec![789]);
    Benchmark { name: "1_1_e", params, cases, fitness_func: FitnessFunc::DiffFirst }
}

/// The program should write the number 1 and nothing else.
pub fn bench_1_1_f() -> (bench: Benchmark)
    ensures
        bench.wf(),
        bench.name@ == "1_1_f"@,
        bench.fitness_func == FitnessFunc::DiffOnly,
        bench.params@ == (ParamsView {
            memsize: 10,
            popsize: 1000,
            max_size: 4,
            p_crossover: Probability::percent_of(90),
            p_mut_per_node: Probability::percent_of(20),
            tournament_size: 2,
            random_initial_memory: true,
            growing: GrowingView {
                p_prefer_reg_over_num: Probability::percent_of(20),
                ..GrowingParams::standard_view()
            },
            ..Params::standard_view()
        }),
        views(bench.cases@) =~~= seq![
            (seq![0i32], seq![1i32]),
            (seq![1i32], seq![1i32]),
            (seq![1i32, 2i32], seq![1i32]),
        ],
{
    let mut params = Params::standard();
    params.memsize = 10;
    params.popsize = 1000;
    params.max_size = 4;
    params.p_crossover = Probability::percent(90);
    params.p_mut_per_node = Probability::percent(20);
    params.tournament_size = 2;
    params.random_initial_memory = true;
    params.growing.p_prefer_reg_over_num = Probability::percent(20);
    let mut cases: Vec<Case> = Vec::new();
    assert(views(cases@) =~= Seq::empty());
    push_case(&mut cases, vec![0], vec![1]);
    push_case(&mut cases, vec![1], vec![1]);
    push_case(&mut cases, vec![1, 2], vec![1]);
    Benchmark { name: "1_1_f", params, cases, fitness_func: FitnessFunc::DiffOnly }
}

} // verus!
