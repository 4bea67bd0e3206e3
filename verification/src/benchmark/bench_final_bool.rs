//! Boolean problems.

use vstd::prelude::*;
use crate::params::{Case, Params, ParamsView};
use crate::tinygp::fitness_funcs::FitnessFunc;
use super::Benchmark;

verus! {

/// Symbolic regression of a boolean function of 1 variable. No cases are
/// set yet.
pub fn bench_final_bool_1() -> (bench: Benchmark)
    ensures
        bench.wf(),
        bench.name@ == "final_bool_1"@,
        bench.fitness_func == FitnessFunc::FitBool,
        bench.params@ == (ParamsView {
            popsize: 1000,
            max_size: 10000,
            memsize: 15,
            ..Params::standard_view()
        }),
        bench.cases.len() == 0,
{
    let mut params = Params::standard();
    params.popsize = 1000;
    params.max_size = 10000;
    params.memsize = 15;
    let mut cases: Vec<Case> = Vec::new();
    Benchmark { name: "final_bool_1", params, cases, fitness_func: FitnessFunc::FitBool }
}

/// Symbolic regression of a boolean function of 2 variables. No cases are
/// set yet.
pub fn bench_final_bool_2() -> (bench: Benchmark)
    ensures
        bench.wf(),
        bench.name@ == "final_bool_2"@,
        bench.fitness_func == FitnessFunc::FitBool,
        bench.params@ == (ParamsView {
            popsize: 1000,
            max_size: 10000,
            memsize: 15,
            ..Params::standard_view()
        }),
        bench.cases.len() == 0,
{
    let mut params = Params::standard();
    params.popsize = 1000;
    params.max_size = 10000;
    params.memsize = 15;
    let mut cases: Vec<Case> = Vec::new();
    Benchmark { name: "final_bool_2", params, cases, fitness_func: FitnessFunc::FitBool }
}

/// Symbolic regression of a boolean function of 3 variables. No cases are
/// set yet.
pub fn bench_final_bool_3() -> (bench: Benchmark)
    ensures
        bench.wf(),
        bench.name@ == "final_bool_3"@,
        bench.fitness_func == FitnessFunc::FitBool,
        bench.params@ == (ParamsView {
            popsize: 1000,
            max_size: 10000,
            memsize: 15,
            ..Params::standard_view()
        }),
        bench.cases.len() == 0,
{
    let mut params = Params::standard();
    params.popsize = 1000;
    params.max_size = 10000;
    params.memsize = 15;
    let mut cases: Vec<Case> = Vec::new();
    Benchmark { name: "final_bool_3", params, cases, fitness_func: FitnessFunc::FitBool }
}

/// Symbolic regression of a boolean function of 4 variables. No cases are
/// set yet.
pub fn bench_final_bool_4() -> (bench: Benchmark)
    ensures
        bench.wf(),
        bench.name@ == "final_bool_4"@,
        bench.fitness_func == FitnessFunc::FitBool,
        bench.params@ == (ParamsView {
            popsize: 1000,
            max_size: 10000,
            memsize: 15,
            ..Params::standard_view()
        }),
        bench.cases.len() == 0,
{
    let mut params = Params::standard();
    params.popsize = 1000;
    params.max_size = 10000;
    params.memsize = 15;
    let mut cases: Vec<Case> = Vec::new();
    Benchmark { name: "final_bool_4", params, cases, fitness_func: FitnessFunc::FitBool }
}

/// Symbolic regression of a boolean function of 5 variables. No cases are
/// set yet.
pub fn bench_final_bool_5() -> (bench: Benchmark)
    ensures
        bench.wf(),
        bench.name@ == "final_bool_5"@,
        bench.fitness_func == FitnessFunc::FitBool,
        bench.params@ == (ParamsView {
            popsize: 1000,
            max_size: 10000,
            memsize: 15,
            ..Params::standard_view()
        }),
        bench.cases.len() == 0,
{
    let mut params = Params::standard();
    params.popsize = 1000;
    params.max_size = 10000;
    params.memsize = 15;
    let mut cases: Vec<Case> = Vec::new();
    Benchmark { name: "final_bool_5", params, cases, fitness_func: FitnessFunc::FitBool }
}

/// Symbolic regression of a boolean function of 6 variables. No cases are
/// set yet.
pub fn bench_final_bool_6() -> (bench: Benchmark)
    ensures
        bench.wf(),
        bench.name@ == "final_bool_6"@,
        bench.fitness_func == FitnessFunc::FitBool,
        bench.params@ == (ParamsView {
            popsize: 1000,
            max_size: 10000,
            memsize: 15,
            ..Params::standard_view()
        }),
        bench.cases.len() == 0,
{
    let mut params = Params::standard();
    params.popsize = 1000;
    params.max_size = 10000;
    params.memsize = 15;
    let mut cases: Vec<Case> = Vec::new();
    Benchmark { name: "final_bool_6", params, cases, fitness_func: FitnessFunc::FitBool }
}

/// Symbolic regression of a boolean function of 7 variables. No cases are
/// set yet.
pub fn bench_final_bool_7() -> (bench: Benchmark)
    ensures
        bench.wf(),
        bench.name@ == "final_bool_7"@,
        bench.fitness_func == FitnessFunc::FitBool,
        bench.params@ == (ParamsView {
            popsize: 1000,
            max_size: 10000,
            memsize: 15,
            ..Params::standard_view()
        }),
        bench.cases.len() == 0,
{
    let mut params = Params::standard();
    params.popsize = 1000;
    params.max_size = 10000;
    params.memsize = 15;
    let mut cases: Vec<Case> = Vec::new();
    Benchmark { name: "final_bool_7", params, cases, fitness_func: FitnessFunc::FitBool }
}

/// Symbolic regression of a boolean function of 8 variables. No cases are
/// set yet.
pub fn bench_final_bool_8() -> (bench: Benchmark)
    ensures
        bench.wf(),
        bench.name@ == "final_bool_8"@,
        bench.fitness_func == FitnessFunc::FitBool,
        bench.params@ == (ParamsView {
            popsize: 1000,
            max_size: 10000,
            memsize: 15,
            ..Params::standard_view()
        }),
        bench.cases.len() == 0,
{
    let mut params = Params::standard();
    params.popsize = 1000;
    params.max_size = 10000;
    params.memsize = 15;
    let mut cases: Vec<Case> = Vec::new();
    Benchmark { name: "final_bool_8", params, cases, fitness_func: FitnessFunc::FitBool }
}

/// Symbolic regression of a boolean function of 9 variables. No cases are
/// set yet.
pub fn bench_final_bool_9() -> (bench: Benchmark)
    ensures
        bench.wf(),
        bench.name@ == "final_bool_9"@,
        bench.fitness_func == FitnessFunc::FitBool,
        bench.params@ == (ParamsView {
            popsize: 1000,
            max_size: 10000,
            memsize: 15,
            ..Params::standard_view()
        }),
        bench.cases.len() == 0,
{
    let mut params = Params::standard();
    params.popsize = 1000;
    params.max_size = 10000;
    params.memsize = 15;
    let mut cases: Vec<Case> = Vec::new();
    Benchmark { name: "final_bool_9", params, cases, fitness_func: FitnessFunc::FitBool }
}

/// Symbolic regression of a boolean function of 10 variables. No cases are
/// set yet.
pub fn bench_final_bool_10() -> (bench: Benchmark)
    ensures
        bench.wf(),
        bench.name@ == "final_bool_10"@,
        bench.fitness_func == FitnessFunc::FitBool,
        bench.params@ == (ParamsView {
            popsize: 1000,
            max_size: 10000,
            memsize: 15,
            ..Params::standard_view()
        }),
        bench.cases.len() == 0,
{
    let mut params = Params::standard();
    params.popsize = 1000;
    params.max_size = 10000;
    params.memsize = 15;
    let mut cases: Vec<Case> = Vec::new();
    Benchmark { name: "final_bool_10", params, cases, fitness_func: FitnessFunc::FitBool }
}

} // verus!
