//! Problems that ask for the larger of two inputs.

use vstd::prelude::*;
use crate::params::{views, Case, Params, ParamsView};
use crate::tinygp::fitness_funcs::FitnessFunc;
use super::{Benchmark, push_case};

verus! {

/// The program should read two numbers from 0 to 9 and write only the
/// larger.
pub fn bench_1_3_a() -> (bench: Benchmark)
    ensures
        bench.wf(),
        bench.name@ == "1_3_a"@,
        bench.fitness_func == FitnessFunc::DiffFirstPromoteSingle,
        bench.params@ == (ParamsView {
            popsize: 10000,
            ..Params::standard_view()
        }),
        views(bench.cases@) =~~= seq![
            (seq![0i32, 9i32], seq![9i32]),
            (seq![7i32, 1i32], seq![7i32]),
            (seq![2i32, 4i32], seq![4i32]),
            (seq![6i32, 0i32], seq![6i32]),
        ],
{
    let mut params = Params::standard();
    params.popsize = 10000;
    let mut cases: Vec<Case> = Vec::new();
    assert(views(cases@) =~= Seq::empty());
    push_case(&mut cases, vec![0, 9], vec![9]);
    push_case(&mut cases, vec![7, 1], vec![7]);
    push_case(&mut cases, vec![2, 4], vec![4]);
    push_case(&mut cases, vec![6, 0], vec![6]);
    Benchmark { name: "1_3_a", params, cases, fitness_func: FitnessFunc::DiffFirstPromoteSingle }
}

/// The program should read two numbers from -9999 to 9999 and write only
/// the larger.
pub fn bench_1_3_b() -> (bench: Benchmark)
    ensures
        bench.wf(),
        bench.name@ == "1_3_b"@,
        bench.fitness_func == FitnessFunc::DiffFirstPromoteSingle,
        bench.params@ == (ParamsView {
            popsize: 10000,
            ..Params::standard_view()
        }),
        views(bench.cases@) =~~= seq![
            (seq![-9999i32, 9999i32], seq![9999i32]),
            (seq![7777i32, 21i32], seq![7777i32]),
            (seq![2115i32, -600i32], seq![2115i32]),
            (seq![0i32, 15i32], seq![15i32]),
            (seq![15i32, 0i32], seq![15i32]),
            (seq![2i32, 3i32], seq![3i32]),
            (seq![3i32, 2i32], seq![3i32]),
        ],
{
    let mut params = Params::standard();
    params.popsize = 10000;
    let mut cases: Vec<Case> = Vec::new();
    assert(views(cases@) =~= Seq::empty());
    push_case(&mut cases, vec![-9999, 9999], vec![9999]);
    push_case(&mut cases, vec![7777, 21], vec![7777]);
    push_case(&mut cases, vec![2115, -600], vec![2115]);
    push_case(&mut cases, vec![0, 15], vec![15]);
    push_case(&mut cases, vec![15, 0], vec![15]);
    push_case(&mut cases, vec![2, 3], vec![3]);
    push_case(&mut cases, vec![3, 2], vec![3]);
    Benchmark { name: "1_3_b", params, cases, fitness_func: FitnessFunc::DiffFirstPromoteSingle }
}

} // verus!
