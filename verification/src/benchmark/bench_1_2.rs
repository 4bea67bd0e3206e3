//! Problems that ask for arithmetic on two inputs.

use vstd::prelude::*;
use crate::params::{views, Case, Params, ParamsView, GrowingParams, GrowingView, Probability};
use crate::tinygp::fitness_funcs::FitnessFunc;
use super::{Benchmark, push_case};

verus! {

/// The program should read two numbers from 0 to 9 and write only their
/// sum.
pub fn bench_1_2_a() -> (bench: Benchmark)
    ensures
        bench.wf(),
        bench.name@ == "1_2_a"@,
        bench.fitness_func == FitnessFunc::DiffOnly,
        bench.params@ == (ParamsView {
            popsize: 1000,
            random_initial_memory: true,
            acceptable_error: 0i64,
            max_size: 12,
            p_mut_per_node: Probability::percent_of(90),
            growing: GrowingView {
                p_prefer_reg_over_num: Probability::percent_of(90),
                ..GrowingParams::standard_view()
            },
            ..Params::standard_view()
        }),
        views(bench.cases@) =~~= seq![
            (seq![4i32, 7i32], seq![11i32]),
            (seq![4i32, 4i32], seq![8i32]),
            (seq![7i32, 8i32], seq![15i32]),
        ],
{
    let mut params = Params::standard();
    params.popsize = 1000;
    params.random_initial_memory = true;
    params.acceptable_error = 0;
    params.max_size = 12;
    params.p_mut_per_node = Probability::percent(90);
    params.growing.p_prefer_reg_over_num = Probability::percent(90);
    let mut cases: Vec<Case> = Vec::new();
    assert(views(cases@) =~= Seq::empty());
    push_case(&mut cases, vec![4, 7], vec![11]);
    push_case(&mut cases, vec![4, 4], vec![8]);
    push_case(&mut cases, vec![7, 8], vec![15]);
    Benchmark { name: "1_2_a", params, cases, fitness_func: FitnessFunc::DiffOnly }
}

/// The program should read two numbers from -9 to 9 and write only their
/// sum.
pub fn bench_1_2_b() -> (bench: Benchmark)
    ensures
        bench.wf(),
        bench.name@ == "1_2_b"@,
        bench.fitness_func == FitnessFunc::DiffOnly,
        bench.params@ == (ParamsView {
            popsize: 1000,
            max_size: 12,
            memsize: 3,
            acceptable_error: 0i64,
            growing: GrowingView {
                p_prefer_reg_over_num: Probability::percent_of(90),
                ..GrowingParams::standard_view()
            },
            ..Params::standard_view()
        }),
        views(bench.cases@) =~~= seq![
            (seq![-9i32, 9i32], seq![0i32]),
            (seq![-5i32, 2i32], seq![-3i32]),
            (seq![5i32, -2i32], seq![3i32]),
            (seq![4i32, 7i32], seq![11i32]),
            (seq![4i32, 4i32], seq![8i32]),
            (seq![-7i32, -8i32], seq![-15i32]),
        ],
{
    let mut params = Params::standard();
    params.popsize = 1000;
    params.max_size = 12;
    params.memsize = 3;
    params.acceptable_error = 0;
    params.growing.p_prefer_reg_over_num = Probability::percent(90);
    let mut cases: Vec<Case> = Vec::new();
    assert(views(cases@) =~= Seq::empty());
    push_case(&mut cases, vec![-9, 9], vec![0]);
    push_case(&mut cases, vec![-5, 2], vec![-3]);
    push_case(&mut cases, vec![5, -2], vec![3]);
    push_case(&mut cases, vec![4, 7], vec![11]);
    push_case(&mut cases, vec![4, 4], vec![8]);
    push_case(&mut cases, vec![-7, -8], vec![-15]);
    Benchmark { name: "1_2_b", params, cases, fitness_func: FitnessFunc::DiffOnly }
}

/// The program should read two numbers from -9999 to 9999 and write only
/// their sum. One case of the table asks for something else: for the inputs
/// 320 and 320 it expects 0.
pub fn bench_1_2_c() -> (bench: Benchmark)
    ensures
        bench.wf(),
        bench.name@ == "1_2_c"@,
        bench.fitness_func == FitnessFunc::DiffOnly,
        bench.params@ == (ParamsView {
            popsize: 1000,
            max_size: 12,
            tournament_size: 5,
            memsize: 3,
            acceptable_error: 0i64,
            p_mut_per_node: Probability::percent_of(50),
            growing: GrowingView {
                p_prefer_reg_over_num: Probability::percent_of(90),
                ..GrowingParams::standard_view()
            },
            ..Params::standard_view()
        }),
        views(bench.cases@) =~~= seq![
            (seq![2000i32, 9999i32], seq![11999i32]),
            (seq![1i32, 1000i32], seq![1001i32]),
            (seq![-30i32, 230i32], seq![200i32]),
            (seq![-40i32, -1000i32], seq![-1040i32]),
            (seq![1i32, 3i32], seq![4i32]),
            (seq![-320i32, -430i32], seq![-750i32]),
            (seq![320i32, 320i32], seq![0i32]),
            (seq![-10i32, -10i32], seq![-20i32]),
            (seq![35i32, 35i32], seq![70i32]),
            (seq![1234i32, 1003i32], seq![2237i32]),
            (seq![5555i32, 1234i32], seq![6789i32]),
            (seq![0i32, 4123i32], seq![4123i32]),
            (seq![7890i32, -3100i32], seq![4790i32]),
            (seq![9999i32, 0i32], seq![9999i32]),
        ],
{
    let mut params = Params::standard();
    params.popsize = 1000;
    params.max_size = 12;
    params.tournament_size = 5;
    params.memsize = 3;
    params.acceptable_error = 0;
    params.p_mut_per_node = Probability::percent(50);
    params.growing.p_prefer_reg_over_num = Probability::percent(90);
    let mut cases: Vec<Case> = Vec::new();
    assert(views(cases@) =~= Seq::empty());
    push_case(&mut cases, vec![2000, 9999], vec![11999]);
    push_case(&mut cases, vec![1, 1000], vec![1001]);
    push_case(&mut cases, vec![-30, 230], vec![200]);
    push_case(&mut cases, vec![-40, -1000], vec![-1040]);
    push_case(&mut cases, vec![1, 3], vec![4]);
    push_case(&mut cases, vec![-320, -430], vec![-750]);
    push_case(&mut cases, vec![320, 320], vec![0]);
    push_case(&mut cases, vec![-10, -10], vec![-20]);
    push_case(&mut cases, vec![35, 35], vec![70]);
    push_case(&mut cases, vec![1234, 1003], vec![2237]);
    push_case(&mut cases, vec![5555, 1234], vec![6789]);
    push_case(&mut cases, vec![0, 4123], vec![4123]);
    push_case(&mut cases, vec![7890, -3100], vec![4790]);
    push_case(&mut cases, vec![9999, 0], vec![9999]);
    Benchmark { name: "1_2_c", params, cases, fitness_func: FitnessFunc::DiffOnly }
}

/// The program should read two numbers from -9999 to 9999 and write only
/// their difference.
pub fn bench_1_2_d() -> (bench: Benchmark)
    ensures
        bench.wf(),
        bench.name@ == "1_2_d"@,
        bench.fitness_func == FitnessFunc::DiffOnly,
        bench.params@ == (ParamsView {
            popsize: 10000,
            random_initial_memory: true,
            max_size: 12,
            ..Params::standard_view()
        }),
        views(bench.cases@) =~~= seq![
            (seq![2000i32, 9999i32], seq![-7999i32]),
            (seq![5000i32, 2500i32], seq![2500i32]),
            (seq![1i32, 1000i32], seq![-999i32]),
        ],
{
    let mut params = Params::standard();
    params.popsize = 10000;
    params.random_initial_memory = true;
    params.max_size = 12;
    let mut cases: Vec<Case> = Vec::new();
    assert(views(cases@) =~= Seq::empty());
    push_case(&mut cases, vec![2000, 9999], vec![-7999]);
    push_case(&mut cases, vec![5000, 2500], vec![2500]);
    push_case(&mut cases, vec![1, 1000], vec![-999]);
    Benchmark { name: "1_2_d", params, cases, fitness_func: FitnessFunc::DiffOnly }
}

/// The program should read two numbers from -9999 to 9999 and write only
/// their product.
pub fn bench_1_2_e() -> (bench: Benchmark)
    ensures
        bench.wf(),
        bench.name@ == "1_2_e"@,
        bench.fitness_func == FitnessFunc::DiffOnly,
        bench.params@ == (ParamsView {
            popsize: 10000,
            random_initial_memory: true,
            ..Params::standard_view()
        }),
        views(bench.cases@) =~~= seq![
            (seq![5i32, 500i32], seq![2500i32]),
            (seq![8i32, 80i32], seq![640i32]),
            (seq![100i32, 800i32], seq![80000i32]),
        ],
{
    let mut params = Params::standard();
    params.popsize = 10000;
    params.random_initial_memory = true;
    let mut cases: Vec<Case> = Vec::new();
    assert(views(cases@) =~= Seq::empty());
    push_case(&mut cases, vec![5, 500], vec![2500]);
    push_case(&mut cases, vec![8, 80], vec![640]);
    push_case(&mut cases, vec![100, 800], vec![80000]);
    Benchmark { name: "1_2_e", params, cases, fitness_func: FitnessFunc::DiffOnly }
}

} // verus!
