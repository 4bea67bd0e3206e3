use genlang::params::{Params, Probability};
use genlang::tinygp::common::{Stat, Token};
use genlang::tinygp::evolution::run_and_rank;
use genlang::tinygp::fitness_funcs::FitnessFunc;
use genlang::tinygp::grammar::{has_registers_within, is_well_formed};
use genlang::tinygp::{is_valid_population, random_population, rank_population, TinyGP};
use rand::rngs::StdRng;
use rand::SeedableRng;

const INPUT: Token = Token::Stat(Stat::INPUT);
const OUTPUT: Token = Token::Stat(Stat::OUTPUT);

fn identity_cases() -> Vec<(Vec<i32>, Vec<i32>)> {
    vec![(vec![1], vec![1]), (vec![4], vec![4]), (vec![10], vec![10])]
}

fn small_params() -> Params {
    let mut params = Params::default();
    params.memsize = 3;
    params.popsize = 40;
    params.max_size = 30;
    params
}

fn check_invariants(tgp: &TinyGP, fitness_func: FitnessFunc) {
    assert_eq!(tgp.fitness.len(), tgp.population.len());
    assert_eq!(tgp.fitness_normalized, tgp.fitness);
    let mut rand = StdRng::seed_from_u64(0);
    for (program, fitness) in tgp.population.iter().zip(&tgp.fitness) {
        assert!(is_well_formed(program));
        assert!(has_registers_within(program, tgp.params.memsize));
        let again = run_and_rank(program, &tgp.params, &tgp.cases, fitness_func, &mut rand);
        assert_eq!(*fitness, again);
    }
}

#[test]
fn random_population_is_valid_and_scored() {
    let params = small_params();
    let cases = identity_cases();
    let mut rand = StdRng::seed_from_u64(1);
    let (population, fitness) =
        random_population(&params, &cases, &mut rand, FitnessFunc::DiffFirst);
    assert_eq!(population.len(), 40);
    assert_eq!(fitness.len(), 40);
    assert!(is_valid_population(&population, params.memsize));
    assert_eq!(
        rank_population(&population, &params, &cases, FitnessFunc::DiffFirst, &mut rand),
        fitness
    );
    assert!(fitness.iter().all(|f| *f <= 0));
}

#[test]
fn new_engine_starts_at_generation_zero() {
    let tgp = TinyGP::new(small_params(), identity_cases(), 7, FitnessFunc::DiffFirst);
    assert_eq!(tgp.generation, 0);
    assert_eq!(tgp.population.len(), 40);
    assert_eq!(tgp.params.seed, 7);
    assert!(tgp.reports.is_empty());
    check_invariants(&tgp, FitnessFunc::DiffFirst);
}

#[test]
fn engines_with_the_same_seed_agree() {
    let mut first = TinyGP::new(small_params(), identity_cases(), 3, FitnessFunc::DiffFirst);
    let mut second = TinyGP::new(small_params(), identity_cases(), 3, FitnessFunc::DiffFirst);
    assert_eq!(first.population, second.population);
    first.evolve_generation(FitnessFunc::DiffFirst);
    second.evolve_generation(FitnessFunc::DiffFirst);
    assert_eq!(first.population, second.population);
    assert_eq!(first.fitness, second.fitness);
    let other = TinyGP::new(small_params(), identity_cases(), 4, FitnessFunc::DiffFirst);
    assert_ne!(first.population, other.population);
}

#[test]
fn stats_find_the_first_best_and_the_averages() {
    let population = vec![
        vec![OUTPUT, Token::Reg(0)],
        vec![INPUT, Token::Reg(0), OUTPUT, Token::Reg(0)],
        vec![INPUT, Token::Reg(1), OUTPUT, Token::Reg(1)],
        vec![INPUT, Token::Reg(0)],
    ];
    let tgp = TinyGP::from_population(
        small_params(),
        identity_cases(),
        0,
        FitnessFunc::DiffFirst,
        population,
    )
    .unwrap();
    assert_eq!(tgp.fitness, vec![-15, 0, 0, -15]);
    let report = tgp.stats();
    assert_eq!(report.generation, 0);
    assert_eq!(report.best, 1);
    assert_eq!(report.best_fitness, 0);
    // -30 / 4 rounds toward zero
    assert_eq!(report.avg_fitness, -7);
    // 12 tokens in 4 programs
    assert_eq!(report.avg_size, 3);
}

#[test]
fn loaded_populations_are_checked() {
    let good = vec![vec![OUTPUT, Token::Reg(2)], vec![]];
    assert!(is_valid_population(&good, 3));
    assert!(!is_valid_population(&good, 2));
    assert!(!is_valid_population(&vec![vec![OUTPUT]], 3));
    assert!(is_valid_population(&vec![], 3));
    let load = |population| {
        let strategy = FitnessFunc::DiffFirst;
        TinyGP::from_population(small_params(), identity_cases(), 0, strategy, population)
    };
    assert!(load(good.clone()).is_some());
    assert!(load(vec![]).is_none());
    assert!(load(vec![vec![OUTPUT]]).is_none());
    assert!(load(vec![vec![OUTPUT, Token::Reg(3)]]).is_none());
    let tgp = load(good.clone()).unwrap();
    assert_eq!(tgp.population, good);
    assert_eq!(tgp.generation, 0);
    check_invariants(&tgp, FitnessFunc::DiffFirst);
}

#[test]
fn a_generation_keeps_the_population_valid() {
    let mut tgp = TinyGP::new(small_params(), identity_cases(), 11, FitnessFunc::DiffFirst);
    for generation in 1..=5 {
        tgp.evolve_generation(FitnessFunc::DiffFirst);
        assert_eq!(tgp.generation, generation);
        assert_eq!(tgp.population.len(), 40);
        check_invariants(&tgp, FitnessFunc::DiffFirst);
        assert!(tgp.population.iter().all(|p| p.len() <= 2 * 30));
    }
}

#[test]
fn a_solved_population_is_not_evolved() {
    let population =
        vec![vec![INPUT, Token::Reg(0)], vec![INPUT, Token::Reg(0), OUTPUT, Token::Reg(0)]];
    let mut tgp = TinyGP::from_population(
        small_params(),
        identity_cases(),
        0,
        FitnessFunc::DiffFirst,
        population.clone(),
    )
    .unwrap();
    let (program, fitness) = tgp.evolve(10, FitnessFunc::DiffFirst);
    assert_eq!(fitness, 0);
    assert_eq!(program, population[1]);
    assert_eq!(tgp.generation, 0);
    assert_eq!(tgp.population, population);
    assert_eq!(tgp.reports.len(), 1);
    assert_eq!(tgp.reports[0].best, 1);
}

#[test]
fn evolution_stops_after_the_generation_budget() {
    let mut params = small_params();
    // a goal no score reaches
    params.acceptable_error = 1;
    let mut tgp = TinyGP::new(params, identity_cases(), 5, FitnessFunc::DiffFirst);
    let (program, fitness) = tgp.evolve(3, FitnessFunc::DiffFirst);
    assert_eq!(tgp.generation, 3);
    assert_eq!(tgp.reports.len(), 4);
    assert_eq!(fitness, *tgp.fitness.iter().max().unwrap());
    let best = tgp.fitness.iter().position(|f| *f == fitness).unwrap();
    assert_eq!(program, tgp.population[best]);
    assert_eq!(tgp.reports[3].best, best);
    assert_eq!(tgp.reports[3].generation, 3);
    let (_, again) = tgp.evolve(0, FitnessFunc::DiffFirst);
    assert_eq!(again, fitness);
    assert_eq!(tgp.generation, 3);
    check_invariants(&tgp, FitnessFunc::DiffFirst);
}

#[test]
fn evolution_finds_the_identity() {
    let mut params = small_params();
    params.popsize = 100;
    let mut tgp = TinyGP::new(params, identity_cases(), 0, FitnessFunc::DiffFirst);
    let (program, fitness) = tgp.evolve(20, FitnessFunc::DiffFirst);
    assert_eq!(fitness, 0);
    assert!(is_well_formed(&program));
    assert!(tgp.generation <= 20);
}

#[test]
fn oversized_children_are_dropped_for_a_parent() {
    let mut params = small_params();
    params.max_size = 6;
    params.p_crossover = Probability::new(1, 1);
    let mut tgp = TinyGP::new(params, identity_cases(), 2, FitnessFunc::DiffFirst);
    let longest = tgp.population.iter().map(|p| p.len()).max().unwrap();
    for _ in 0..5 {
        tgp.evolve_generation(FitnessFunc::DiffFirst);
    }
    assert!(tgp.population.iter().all(|p| p.len() <= longest.max(6)));
}

#[test]
fn a_slot_is_replaced() {
    let population = vec![vec![INPUT, Token::Reg(0)], vec![OUTPUT, Token::Reg(0)]];
    let mut tgp = TinyGP::from_population(
        small_params(),
        identity_cases(),
        0,
        FitnessFunc::DiffFirst,
        population.clone(),
    )
    .unwrap();
    let fitness = tgp.fitness.clone();
    let child = vec![INPUT, Token::Reg(1), OUTPUT, Token::Reg(1)];
    tgp.replace(1, child.clone(), -3);
    assert_eq!(tgp.population, vec![population[0].clone(), child]);
    assert_eq!(tgp.fitness, vec![fitness[0], -3]);
    assert_eq!(tgp.fitness_normalized, fitness);
    assert_eq!(tgp.generation, 0);
    assert!(tgp.reports.is_empty());
}

#[test]
fn a_generation_changes_at_most_as_many_slots_as_it_breeds() {
    let mut params = small_params();
    params.popsize = 3;
    let mut tgp = TinyGP::new(params, identity_cases(), 8, FitnessFunc::DiffFirst);
    // the population is larger than the number of children bred
    for _ in 0..5 {
        let extra = vec![INPUT, Token::Reg(0)];
        tgp.population.push(extra);
        tgp.fitness.push(-15);
        tgp.fitness_normalized.push(-15);
    }
    let before = tgp.population.clone();
    tgp.evolve_generation(FitnessFunc::DiffFirst);
    let changed = before.iter().zip(&tgp.population).filter(|(a, b)| a != b).count();
    assert!(changed <= 3);
    assert_eq!(tgp.population.len(), 8);
    check_invariants(&tgp, FitnessFunc::DiffFirst);
}

#[test]
fn the_last_report_is_that_of_the_final_population() {
    let mut params = small_params();
    params.acceptable_error = 1;
    let mut tgp = TinyGP::new(params, identity_cases(), 6, FitnessFunc::DiffFirst);
    let _ = tgp.evolve(2, FitnessFunc::DiffFirst);
    let _ = tgp.evolve(1, FitnessFunc::DiffFirst);
    assert_eq!(tgp.reports.len(), 5);
    let generations: Vec<u64> = tgp.reports.iter().map(|r| r.generation).collect();
    assert_eq!(generations, vec![0, 1, 2, 2, 3]);
    assert_eq!(*tgp.reports.last().unwrap(), tgp.stats());
}

#[test]
fn the_goal_is_reached_at_the_acceptable_error() {
    let mut params = Params::default();
    params.acceptable_error = -3;
    assert!(params.reaches_goal(0));
    assert!(params.reaches_goal(-3));
    assert!(!params.reaches_goal(-4));
}
