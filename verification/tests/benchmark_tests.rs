use genlang::benchmark::bench_1_1::{
    bench_1_1_a, bench_1_1_b, bench_1_1_c, bench_1_1_d, bench_1_1_e, bench_1_1_f,
};
use genlang::benchmark::bench_1_2::{
    bench_1_2_a, bench_1_2_b, bench_1_2_c, bench_1_2_d, bench_1_2_e,
};
use genlang::benchmark::bench_1_3::{bench_1_3_a, bench_1_3_b};
use genlang::benchmark::bench_1_4::bench_1_4_a;
use genlang::benchmark::bench_final::{
    bench_final_1, bench_final_2, bench_final_3, bench_square, bench_sum, sum, sum_of_squares,
};
use genlang::benchmark::bench_final_bool::{
    bench_final_bool_1, bench_final_bool_10, bench_final_bool_2, bench_final_bool_3,
    bench_final_bool_4, bench_final_bool_5, bench_final_bool_6, bench_final_bool_7,
    bench_final_bool_8, bench_final_bool_9,
};
use genlang::benchmark::{push_case, Benchmark};
use genlang::params::{expr_table, read_inputs, stat_table, write_first, Params, Probability};
use genlang::tinygp::common::{Expr, Stat, Token};
use genlang::tinygp::fitness_funcs::FitnessFunc;
use genlang::tinygp::grammar::{has_registers_within, is_well_formed};

fn all_benchmarks() -> Vec<Benchmark> {
    vec![
        bench_1_1_a(),
        bench_1_1_b(),
        bench_1_1_c(),
        bench_1_1_d(),
        bench_1_1_e(),
        bench_1_1_f(),
        bench_1_2_a(),
        bench_1_2_b(),
        bench_1_2_c(),
        bench_1_2_d(),
        bench_1_2_e(),
        bench_1_3_a(),
        bench_1_3_b(),
        bench_1_4_a(),
        bench_final_1(),
        bench_sum(),
        bench_square(),
        bench_final_2(),
        bench_final_3(),
        bench_final_bool_1(),
        bench_final_bool_2(),
        bench_final_bool_3(),
        bench_final_bool_4(),
        bench_final_bool_5(),
        bench_final_bool_6(),
        bench_final_bool_7(),
        bench_final_bool_8(),
        bench_final_bool_9(),
        bench_final_bool_10(),
    ]
}

fn is_valid(params: &Params) -> bool {
    let probabilities = [
        params.p_crossover,
        params.p_mut_per_node,
        params.growing.p_expression_plug,
        params.growing.p_prefer_reg_over_num,
        params.growing.p_insertion,
    ];
    params.memsize > 0
        && params.popsize > 0
        && probabilities.iter().all(|p| p.denominator > 0 && p.numerator <= p.denominator)
        && params.growing.min_const < params.growing.max_const
        && params.growing.d_expr.iter().map(|e| e.1 as u64).sum::<u64>() > 0
        && params.growing.d_stat.iter().map(|e| e.1 as u64).sum::<u64>() > 0
        && is_well_formed(&params.prefix)
        && is_well_formed(&params.suffix)
        && has_registers_within(&params.prefix, params.memsize)
        && has_registers_within(&params.suffix, params.memsize)
}

#[test]
fn standard_parameters() {
    let params = Params::default();
    assert_eq!(params.seed, 0);
    assert_eq!(params.memsize, 5);
    assert_eq!(params.popsize, 10);
    assert_eq!(params.max_depth, 5);
    assert_eq!(params.max_size, 1000);
    assert_eq!(params.p_crossover, Probability { numerator: 90, denominator: 100 });
    assert_eq!(params.p_mut_per_node, Probability { numerator: 5, denominator: 100 });
    assert_eq!(params.tournament_size, 2);
    assert_eq!(params.acceptable_error, 0);
    assert!(!params.random_initial_memory);
    assert_eq!(params.prefix, vec![Token::Stat(Stat::INPUT), Token::Reg(0)]);
    assert_eq!(params.suffix, vec![Token::Stat(Stat::OUTPUT), Token::Reg(0)]);
    assert_eq!(params.growing.min_const, -100);
    assert_eq!(params.growing.max_const, 100);
    assert_eq!(params.growing.p_expression_plug, Probability::percent(80));
    assert_eq!(params.growing.p_prefer_reg_over_num, Probability::percent(50));
    assert_eq!(params.growing.p_insertion, Probability::percent(10));
    assert_eq!(params.growing.d_expr, expr_table(1, 1, 1, 1, 1, 1, 1, 1, 1, 1, 1, 1));
    assert_eq!(params.growing.d_stat, stat_table(1, 1, 1, 1, 1));
    assert!(is_valid(&params));
}

#[test]
fn tables_list_the_operators_in_order() {
    assert_eq!(
        expr_table(1, 2, 3, 4, 5, 6, 7, 8, 9, 10, 11, 12),
        vec![
            (Expr::ADD, 1),
            (Expr::SUB, 2),
            (Expr::MUL, 3),
            (Expr::DIV, 4),
            (Expr::EQ, 5),
            (Expr::LT, 6),
            (Expr::GT, 7),
            (Expr::OR, 8),
            (Expr::AND, 9),
            (Expr::NOT, 10),
            (Expr::Num(0), 11),
            (Expr::Reg(0), 12),
        ]
    );
    assert_eq!(
        stat_table(1, 2, 3, 4, 5),
        vec![
            (Stat::LOAD, 1),
            (Stat::IF, 2),
            (Stat::WHILE, 3),
            (Stat::INPUT, 4),
            (Stat::OUTPUT, 5),
        ]
    );
}

#[test]
fn fixed_programs() {
    assert_eq!(read_inputs(0), vec![]);
    assert_eq!(
        read_inputs(3),
        vec![
            Token::Stat(Stat::INPUT),
            Token::Reg(0),
            Token::Stat(Stat::INPUT),
            Token::Reg(1),
            Token::Stat(Stat::INPUT),
            Token::Reg(2),
        ]
    );
    assert_eq!(write_first(), vec![Token::Stat(Stat::OUTPUT), Token::Reg(0)]);
}

#[test]
fn every_benchmark_is_valid() {
    let benchmarks = all_benchmarks();
    assert_eq!(benchmarks.len(), 29);
    let mut names: Vec<&str> = benchmarks.iter().map(|b| b.name).collect();
    names.sort();
    names.dedup();
    assert_eq!(names.len(), 29);
    for bench in &benchmarks {
        assert!(is_valid(&bench.params), "{}", bench.name);
        let needs_expected = !matches!(
            bench.fitness_func,
            FitnessFunc::FitExactReading | FitnessFunc::FitArithmeticSeries
        );
        for (_, expected) in &bench.cases {
            assert!(!needs_expected || !expected.is_empty());
        }
    }
}

#[test]
fn constant_benchmarks() {
    let bench = bench_1_1_a();
    assert_eq!(bench.name, "1_1_a");
    assert_eq!(bench.fitness_func, FitnessFunc::DiffBest);
    assert_eq!(bench.params.memsize, 3);
    assert_eq!(bench.params.popsize, 100);
    assert_eq!(bench.params.max_size, 10);
    assert_eq!(bench.params.p_mut_per_node, Probability::percent(20));
    assert!(bench.params.random_initial_memory);
    assert_eq!(bench.params.growing.p_prefer_reg_over_num, Probability::percent(20));
    assert_eq!(bench.params.growing.max_const, 100);
    assert_eq!(bench.cases, vec![(vec![0], vec![1]), (vec![1], vec![1]), (vec![1, 2], vec![1])]);

    let bench = bench_1_1_c();
    assert_eq!(bench.name, "1_1_c");
    assert_eq!(bench.params.popsize, 2000);
    assert_eq!(bench.params.p_crossover, Probability::percent(50));
    assert_eq!(bench.params.acceptable_error, -10);
    assert_eq!(bench.params.growing.max_const, 100000);
    assert_eq!(bench.cases[2], (vec![1, 2], vec![31415]));

    assert_eq!(bench_1_1_b().params.acceptable_error, -1);
    assert_eq!(bench_1_1_d().fitness_func, FitnessFunc::DiffFirst);
    assert_eq!(bench_1_1_e().fitness_func, FitnessFunc::DiffFirst);
    assert_eq!(bench_1_1_f().fitness_func, FitnessFunc::DiffOnly);
    assert_eq!(bench_1_1_f().params.memsize, 10);
    assert_eq!(bench_1_1_f().params.max_size, 4);
}

#[test]
fn arithmetic_benchmarks_ask_for_what_they_say() {
    for bench in [bench_1_2_a(), bench_1_2_b(), bench_1_2_c()] {
        assert_eq!(bench.fitness_func, FitnessFunc::DiffOnly);
        assert_eq!(bench.params.max_size, 12);
        for (inputs, expected) in &bench.cases {
            if bench.name == "1_2_c" && inputs == &vec![320, 320] {
                // the catalog asks for 0 here
                assert_eq!(expected, &vec![0]);
                continue;
            }
            assert_eq!(expected, &vec![inputs[0] + inputs[1]], "{}", bench.name);
        }
    }
    assert_eq!(bench_1_2_a().cases.len(), 3);
    assert_eq!(bench_1_2_b().cases.len(), 6);
    assert_eq!(bench_1_2_c().cases.len(), 14);
    assert_eq!(bench_1_2_c().params.tournament_size, 5);
    for (inputs, expected) in &bench_1_2_d().cases {
        assert_eq!(expected, &vec![inputs[0] - inputs[1]]);
    }
    for (inputs, expected) in &bench_1_2_e().cases {
        assert_eq!(expected, &vec![inputs[0] * inputs[1]]);
    }
    for bench in [bench_1_3_a(), bench_1_3_b()] {
        assert_eq!(bench.fitness_func, FitnessFunc::DiffFirstPromoteSingle);
        assert_eq!(bench.params.popsize, 10000);
        for (inputs, expected) in &bench.cases {
            assert_eq!(expected, &vec![inputs[0].max(inputs[1])]);
        }
    }
    assert_eq!(bench_1_3_a().cases.len(), 4);
    assert_eq!(bench_1_3_b().cases.len(), 7);
}

#[test]
fn mean_benchmark() {
    let bench = bench_1_4_a();
    assert_eq!(bench.name, "1_4_a");
    assert_eq!(bench.params.memsize, 15);
    assert_eq!(bench.params.max_size, 10000);
    assert_eq!(bench.params.growing.d_expr, expr_table(4, 1, 0, 1, 0, 0, 0, 0, 0, 0, 1, 1));
    assert_eq!(bench.params.growing.d_stat, stat_table(1, 0, 1, 4, 1));
    assert_eq!(bench.params.growing.min_const, 1);
    assert_eq!(bench.params.growing.max_const, 11);
    assert_eq!(bench.params.growing.p_insertion, Probability::percent(50));
    assert_eq!(bench.params.growing.p_prefer_reg_over_num, Probability::percent(80));
    assert_eq!(bench.cases.len(), 10);
    for (inputs, expected) in &bench.cases {
        // the mean, rounded down
        let total: i32 = inputs.iter().sum();
        assert_eq!(expected, &vec![total.div_euclid(3)]);
    }
}

#[test]
fn series_benchmark() {
    let bench = bench_final_1();
    assert_eq!(bench.name, "final_1");
    assert_eq!(bench.fitness_func, FitnessFunc::FitArithmeticSeries);
    assert_eq!(bench.params.popsize, 5000);
    assert_eq!(bench.params.max_size, 200);
    assert_eq!(bench.params.memsize, 20);
    assert_eq!(bench.params.prefix, read_inputs(3));
    assert_eq!(bench.params.suffix, vec![]);
    assert_eq!(bench.params.growing.d_expr, expr_table(1, 0, 0, 0, 0, 1, 1, 0, 0, 0, 1, 1));
    assert_eq!(bench.params.growing.d_stat, stat_table(1, 0, 1, 1, 1));
    assert_eq!(bench.cases.len(), 50);
    assert_eq!(bench.cases[0], (vec![-12, 66, 15], vec![-12, 3, 18, 33, 48, 63]));
    assert_eq!(bench.cases[49], (vec![38, 57, 15], vec![38, 53]));
    for (inputs, expected) in &bench.cases {
        assert_eq!(inputs.len(), 3);
        if let Some(first) = expected.first() {
            assert_eq!(*first, inputs[0]);
        }
        for pair in expected.windows(2) {
            assert_eq!(pair[1] - pair[0], inputs[2]);
        }
    }
}

#[test]
fn smallest_benchmark() {
    let bench = bench_final_3();
    assert_eq!(bench.name, "final_3");
    assert_eq!(bench.fitness_func, FitnessFunc::DiffFirstPromoteSingle);
    assert_eq!(bench.params.memsize, 4);
    assert_eq!(bench.params.acceptable_error, -50);
    assert_eq!(bench.params.prefix, read_inputs(4));
    assert_eq!(bench.params.suffix, vec![]);
    assert_eq!(bench.cases.len(), 100);
    assert_eq!(bench.cases[0], (vec![-36, -62, -94, 17], vec![-94]));
    assert_eq!(bench.cases[99], (vec![-85, 66, -97, -27], vec![-97]));
    for (inputs, expected) in &bench.cases {
        assert_eq!(expected, &vec![*inputs.iter().min().unwrap()]);
    }
}

#[test]
fn sums_over_a_range() {
    assert_eq!(sum(0), 0);
    assert_eq!(sum(-4), 0);
    assert_eq!(sum(1), 1);
    assert_eq!(sum(4), 10);
    assert_eq!(sum(10), 55);
    assert_eq!(sum(10000), 50005000);
    assert_eq!(sum(65535), 2147450880);
    assert_eq!(sum_of_squares(0), 0);
    assert_eq!(sum_of_squares(-1), 0);
    assert_eq!(sum_of_squares(3), 14);
    assert_eq!(sum_of_squares(10), 385);
    assert_eq!(sum_of_squares(1000), 333833500);
    assert_eq!(sum_of_squares(1860), 2146682110);

    let bench = bench_sum();
    assert_eq!(bench.name, "final_2_sum");
    assert_eq!(bench.cases.len(), 10);
    assert_eq!(bench.cases[3], (vec![4], vec![10]));
    let bench = bench_square();
    assert_eq!(bench.name, "final_2_square");
    assert_eq!(bench.params.memsize, 1);
    assert_eq!(bench.cases[6], (vec![7], vec![49]));
    let bench = bench_final_2();
    assert_eq!(bench.name, "final_2");
    assert_eq!(bench.params.popsize, 5000);
    assert_eq!(bench.cases[9], (vec![10], vec![385]));
    assert_eq!(bench.cases[0], (vec![1], vec![1]));
}

#[test]
fn boolean_benchmarks_have_no_cases_yet() {
    let benches = [
        bench_final_bool_1(),
        bench_final_bool_2(),
        bench_final_bool_3(),
        bench_final_bool_4(),
        bench_final_bool_5(),
        bench_final_bool_6(),
        bench_final_bool_7(),
        bench_final_bool_8(),
        bench_final_bool_9(),
        bench_final_bool_10(),
    ];
    for (k, bench) in benches.iter().enumerate() {
        assert_eq!(bench.name, format!("final_bool_{}", k + 1));
        assert_eq!(bench.fitness_func, FitnessFunc::FitBool);
        assert_eq!(bench.params.popsize, 1000);
        assert_eq!(bench.params.max_size, 10000);
        assert_eq!(bench.params.memsize, 15);
        assert!(bench.cases.is_empty());
    }
}

#[test]
fn cases_are_added_at_the_end() {
    let mut cases = vec![(vec![1], vec![2])];
    push_case(&mut cases, vec![3, 4], vec![]);
    assert_eq!(cases, vec![(vec![1], vec![2]), (vec![3, 4], vec![])]);
}

#[test]
fn benchmarks_are_found_by_name() {
    for bench in all_benchmarks() {
        if bench.name == "final_2_sum" || bench.name == "final_2_square" {
            assert!(genlang::benchmark::find_benchmark(bench.name).is_none());
            continue;
        }
        let found = genlang::benchmark::find_benchmark(bench.name).unwrap();
        assert_eq!(found.name, bench.name);
        assert_eq!(found.cases, bench.cases);
        assert_eq!(found.fitness_func, bench.fitness_func);
        assert_eq!(found.params.popsize, bench.params.popsize);
    }
    assert!(genlang::benchmark::find_benchmark("1_4_b").is_none());
    assert!(genlang::benchmark::find_benchmark("").is_none());
    assert!(genlang::benchmark::find_benchmark("1_1_a ").is_none());
}

#[test]
fn parameters_are_checked() {
    assert!(Params::default().is_valid());
    let mut params = Params::default();
    params.memsize = 0;
    assert!(!params.is_valid());
    let mut params = Params::default();
    params.popsize = 0;
    assert!(!params.is_valid());
    let mut params = Params::default();
    params.p_crossover = Probability { numerator: 3, denominator: 2 };
    assert!(!params.is_valid());
    let mut params = Params::default();
    params.p_mut_per_node = Probability { numerator: 0, denominator: 0 };
    assert!(!params.is_valid());
    let mut params = Params::default();
    params.growing.max_const = params.growing.min_const;
    assert!(!params.is_valid());
    let mut params = Params::default();
    params.growing.d_expr = vec![];
    assert!(!params.is_valid());
    let mut params = Params::default();
    params.growing.d_stat = stat_table(0, 0, 0, 0, 0);
    assert!(!params.is_valid());
    let mut params = Params::default();
    params.growing.d_expr = vec![(Expr::ADD, u32::MAX), (Expr::Num(0), 1)];
    assert!(!params.is_valid());
    let mut params = Params::default();
    params.growing.d_expr = vec![(Expr::ADD, u32::MAX), (Expr::Num(0), 0)];
    assert!(params.is_valid());
    let mut params = Params::default();
    params.prefix = vec![Token::Stat(Stat::OUTPUT)];
    assert!(!params.is_valid());
    let mut params = Params::default();
    params.suffix = vec![Token::Stat(Stat::OUTPUT), Token::Reg(5)];
    assert!(!params.is_valid());
    let mut params = Params::default();
    params.memsize = 6;
    params.suffix = vec![Token::Stat(Stat::OUTPUT), Token::Reg(5)];
    assert!(params.is_valid());
}
