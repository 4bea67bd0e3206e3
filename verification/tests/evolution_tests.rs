use genlang::params::{GrowingParams, Params, Probability};
use genlang::tinygp::common::{get_node_end, Expr, Stat, Token};
use genlang::tinygp::evolution::{
    best_of, compatible_starts, copy_numbers, copy_program, crossover, graft, keep_or_clone,
    mutate_at, mutate_expression, mutation, negative_tournament, run_and_rank, tournament,
    worst_of,
};
use genlang::tinygp::fitness_funcs::FitnessFunc;
use genlang::tinygp::grammar::{has_registers_within, is_well_formed};
use rand::rngs::StdRng;
use rand::SeedableRng;

const INPUT: Token = Token::Stat(Stat::INPUT);
const OUTPUT: Token = Token::Stat(Stat::OUTPUT);
const LOAD: Token = Token::Stat(Stat::LOAD);
const IF: Token = Token::Stat(Stat::IF);
const WHILE: Token = Token::Stat(Stat::WHILE);
const ELSE: Token = Token::ELSE;
const END: Token = Token::END;

fn num(x: i32) -> Token {
    Token::Expr(Expr::Num(x))
}

fn sample_father() -> Vec<Token> {
    vec![
        INPUT,
        Token::Reg(0),
        IF,
        Token::Expr(Expr::GT),
        Token::Reg(0),
        num(0),
        OUTPUT,
        Token::Expr(Expr::ADD),
        Token::Reg(0),
        num(1),
        ELSE,
        OUTPUT,
        num(0),
        END,
    ]
}

fn sample_mother() -> Vec<Token> {
    vec![
        LOAD,
        Token::Reg(1),
        Token::Expr(Expr::MUL),
        num(2),
        num(3),
        WHILE,
        Token::Reg(1),
        LOAD,
        Token::Reg(1),
        num(0),
        END,
        OUTPUT,
        Token::Reg(1),
    ]
}

#[test]
fn test_mutate_expression() {
    let params = Params {
        memsize: 5,
        growing: GrowingParams { min_const: -1000, max_const: 1000, ..Default::default() },
        ..Default::default()
    };
    for seed in 0..200 {
        let mut rand = StdRng::seed_from_u64(seed);
        let source = Expr::Num(2);
        let got = mutate_expression(source, &params, &mut rand);
        match got {
            Token::Expr(Expr::Num(x)) => {
                assert!(x >= params.growing.min_const);
                assert!(x < params.growing.max_const);
            }
            Token::Reg(r) => {
                assert!(r < params.memsize);
            }
            Token::Expr(Expr::Reg(_)) => {
                panic!("mutated into the placeholder register, got: {got:?}, seed = {seed}")
            }
            _ => panic!("mutation went wrong, got: {got:?}, seed = {seed}"),
        }
    }
}

#[test]
fn mutated_operators_keep_their_arity() {
    let params = Params::default();
    let mut rand = StdRng::seed_from_u64(11);
    let mut seen_other = false;
    for _ in 0..200 {
        match mutate_expression(Expr::ADD, &params, &mut rand) {
            Token::Expr(op) => {
                assert_eq!(op.argnum(), 2);
                seen_other = seen_other || op != Expr::ADD;
            }
            other => panic!("binary operator became {other:?}"),
        }
        assert_eq!(mutate_expression(Expr::NOT, &params, &mut rand), Token::Expr(Expr::NOT));
    }
    assert!(seen_other);
}

#[test]
fn mutation_without_candidates_keeps_the_token() {
    let mut params = Params::default();
    // only leaves can be drawn
    params.growing.d_expr =
        vec![(Expr::ADD, 0), (Expr::NOT, 0), (Expr::Num(0), 1), (Expr::Reg(0), 1)];
    let mut rand = StdRng::seed_from_u64(3);
    for _ in 0..50 {
        assert_eq!(mutate_expression(Expr::MUL, &params, &mut rand), Token::Expr(Expr::MUL));
        assert_eq!(mutate_expression(Expr::NOT, &params, &mut rand), Token::Expr(Expr::NOT));
    }
}

#[test]
fn compatible_starts_lists_tokens_of_the_same_kind() {
    let mother = sample_mother();
    assert_eq!(compatible_starts(&OUTPUT, &mother), vec![0, 5, 7, 11]);
    assert_eq!(compatible_starts(&Token::Reg(7), &mother), vec![1, 6, 8, 12]);
    assert_eq!(compatible_starts(&num(9), &mother), vec![2, 3, 4, 9]);
    assert_eq!(compatible_starts(&END, &mother), vec![10]);
    assert_eq!(compatible_starts(&END, &vec![OUTPUT, num(1)]), Vec::<usize>::new());
}

#[test]
fn anchors_have_no_compatible_starts() {
    let mother = sample_father();
    assert_eq!(compatible_starts(&IF, &mother), Vec::<usize>::new());
    assert_eq!(compatible_starts(&WHILE, &mother), Vec::<usize>::new());
    assert_eq!(compatible_starts(&ELSE, &mother), Vec::<usize>::new());
}

#[test]
fn graft_splices_the_donor_subtree() {
    let father = sample_father();
    let mother = sample_mother();
    // the father's `ADD R0 1` gives way to the mother's `MUL 2 3`
    let offspring = graft(&father, 7, &mother, 2);
    let mut expected = father.clone();
    expected[7] = Token::Expr(Expr::MUL);
    expected[8] = num(2);
    expected[9] = num(3);
    assert_eq!(offspring, expected);
    // the father's `OUTPUT 0` gives way to the mother's whole loop
    let offspring = graft(&father, 11, &mother, 5);
    let mut expected = father[..11].to_vec();
    expected.extend_from_slice(&mother[5..11]);
    expected.push(END);
    assert_eq!(offspring, expected);
    assert!(is_well_formed(&offspring));
}

#[test]
fn offspring_length_follows_the_cut_points() {
    let father = sample_father();
    let mother = sample_mother();
    for (a, b) in [(0, 0), (0, 5), (6, 11), (1, 12), (4, 2), (7, 3), (13, 10), (11, 0)] {
        let father_end = get_node_end(&father, a);
        let mother_end = get_node_end(&mother, b);
        let offspring = graft(&father, a, &mother, b);
        assert_eq!(offspring.len(), a + (mother_end - b) + (father.len() - father_end));
        assert_eq!(&offspring[..a], &father[..a]);
        assert_eq!(&offspring[a..a + mother_end - b], &mother[b..mother_end]);
        assert_eq!(&offspring[a + mother_end - b..], &father[father_end..]);
    }
}

#[test]
fn crossover_with_an_empty_parent_copies_the_other() {
    let father = sample_father();
    let mut rand = StdRng::seed_from_u64(1);
    assert_eq!(crossover(&father, &vec![], &mut rand), father);
    assert_eq!(crossover(&vec![], &father, &mut rand), father);
    assert_eq!(crossover(&vec![], &vec![], &mut rand), vec![]);
}

#[test]
fn crossover_without_a_donor_returns_the_father() {
    // IF and ELSE are anchors, and the mother holds neither an expression
    // token nor an END
    let father = vec![IF, num(1), ELSE, END];
    let mother = vec![INPUT, Token::Reg(0)];
    for seed in 0..50 {
        let mut rand = StdRng::seed_from_u64(seed);
        let offspring = crossover(&father, &mother, &mut rand);
        assert_eq!(offspring, father);
    }
}

#[test]
fn crossover_keeps_programs_well_formed() {
    let father = sample_father();
    let mother = sample_mother();
    let mut changed = false;
    for seed in 0..300 {
        let mut rand = StdRng::seed_from_u64(seed);
        let offspring = crossover(&father, &mother, &mut rand);
        assert!(is_well_formed(&offspring));
        assert!(has_registers_within(&offspring, 2));
        changed = changed || offspring != father;
    }
    assert!(changed);
}

#[test]
fn crossover_is_a_graft_at_some_pair_of_cut_points() {
    let father = sample_father();
    let mother = sample_mother();
    for seed in 0..100 {
        let mut rand = StdRng::seed_from_u64(seed);
        let offspring = crossover(&father, &mother, &mut rand);
        let mut explained = offspring == father;
        for a in 0..father.len() {
            for b in compatible_starts(&father[a], &mother) {
                explained = explained || offspring == graft(&father, a, &mother, b);
            }
        }
        assert!(explained);
    }
}

#[test]
fn mutation_at_rate_zero_copies_the_parent() {
    let mut params = Params::default();
    params.p_mut_per_node = Probability::new(0, 1);
    let parent = sample_father();
    for seed in 0..50 {
        let mut rand = StdRng::seed_from_u64(seed);
        assert_eq!(mutation(&parent, &params, &mut rand), parent);
    }
    assert_eq!(mutation(&vec![], &params, &mut StdRng::seed_from_u64(0)), vec![]);
}

#[test]
fn mutation_regrows_a_statement() {
    let mut params = Params::default();
    params.p_mut_per_node = Probability::new(1, 1);
    let parent = vec![OUTPUT, Token::Expr(Expr::ADD), num(1), num(2)];
    params.growing.p_insertion = Probability::new(0, 1);
    params.growing.d_stat =
        vec![(Stat::LOAD, 0), (Stat::IF, 0), (Stat::WHILE, 0), (Stat::INPUT, 1), (Stat::OUTPUT, 0)];
    for seed in 0..50 {
        let mut rand = StdRng::seed_from_u64(seed);
        let child = mutation(&parent, &params, &mut rand);
        // the statement was replaced, with all under it, by a grown INPUT
        assert_eq!(child.len(), 2);
        assert_eq!(child[0], INPUT);
        assert!(matches!(child[1], Token::Reg(r) if r < params.memsize));
    }
}

#[test]
fn mutation_keeps_programs_well_formed() {
    let mut params = Params::default();
    params.p_mut_per_node = Probability::percent(50);
    params.growing.p_insertion = Probability::percent(50);
    params.max_size = 60;
    let mut parent = sample_father();
    let mut changed = false;
    for seed in 0..300 {
        let mut rand = StdRng::seed_from_u64(seed);
        let child = mutation(&parent, &params, &mut rand);
        assert!(is_well_formed(&child));
        assert!(has_registers_within(&child, params.memsize));
        changed = changed || child != parent;
        if child.len() < 40 {
            parent = child;
        }
    }
    assert!(changed);
}

#[test]
fn mutation_replaces_a_statement_with_everything_under_it() {
    let mut params = Params::default();
    params.p_mut_per_node = Probability::new(1, 1);
    params.max_size = 0;
    // with no room to grow, every statement is replaced by nothing
    let parent = vec![IF, num(1), OUTPUT, num(2), ELSE, END];
    let mut rand = StdRng::seed_from_u64(5);
    assert_eq!(mutation(&parent, &params, &mut rand), vec![]);
}

#[test]
fn best_and_worst_of_drawn_indices() {
    let fitness = vec![-5, -1, -9, -1, -7];
    assert_eq!(best_of(&fitness, &vec![0, 2, 4]), 0);
    assert_eq!(worst_of(&fitness, &vec![0, 2, 4]), 2);
    // the first of equals wins
    assert_eq!(best_of(&fitness, &vec![3, 1, 0]), 3);
    assert_eq!(best_of(&fitness, &vec![0, 1, 3]), 1);
    assert_eq!(worst_of(&fitness, &vec![3, 1]), 3);
    assert_eq!(best_of(&fitness, &vec![4]), 4);
    assert_eq!(worst_of(&fitness, &vec![4, 4, 4]), 4);
}

#[test]
fn tournaments_are_deterministic_for_a_seed() {
    let fitness: Vec<i64> = (0..50).map(|i| -((i * 37) % 23)).collect();
    for seed in 0..20 {
        let mut first = StdRng::seed_from_u64(seed);
        let mut second = StdRng::seed_from_u64(seed);
        for _ in 0..10 {
            assert_eq!(tournament(&fitness, 3, &mut first), tournament(&fitness, 3, &mut second));
            assert_eq!(
                negative_tournament(&fitness, 3, &mut first),
                negative_tournament(&fitness, 3, &mut second)
            );
        }
    }
}

#[test]
fn tournaments_pick_within_the_population() {
    let fitness = vec![-3, -8, 0, -1];
    let mut rand = StdRng::seed_from_u64(9);
    for _ in 0..200 {
        assert!(tournament(&fitness, 2, &mut rand) < fitness.len());
        assert!(negative_tournament(&fitness, 2, &mut rand) < fitness.len());
    }
    // with many competitors the extremes are found
    assert_eq!(tournament(&fitness, 200, &mut rand), 2);
    assert_eq!(negative_tournament(&fitness, 200, &mut rand), 1);
    // a tournament of one
    assert_eq!(tournament(&vec![4], 0, &mut rand), 0);
}

#[test]
fn run_and_rank_sums_the_case_scores() {
    let params = Params { memsize: 2, ..Default::default() };
    let mut rand = StdRng::seed_from_u64(0);
    let identity = vec![INPUT, Token::Reg(0), OUTPUT, Token::Reg(0)];
    let cases = vec![(vec![1], vec![1]), (vec![4], vec![6]), (vec![10], vec![7])];
    assert_eq!(run_and_rank(&identity, &params, &cases, FitnessFunc::DiffFirst, &mut rand), -5);
    assert_eq!(run_and_rank(&identity, &params, &vec![], FitnessFunc::DiffFirst, &mut rand), 0);
    let silent = vec![INPUT, Token::Reg(0)];
    assert_eq!(run_and_rank(&silent, &params, &cases, FitnessFunc::DiffFirst, &mut rand), -14);
    let single = vec![(vec![1], vec![1])];
    assert_eq!(
        run_and_rank(&silent, &params, &single, FitnessFunc::DiffOnly, &mut rand),
        -i64::MAX
    );
    // the sum stops at the lowest score
    assert_eq!(
        run_and_rank(&silent, &params, &cases, FitnessFunc::DiffOnly, &mut rand),
        i64::MIN
    );
}

#[test]
fn run_and_rank_with_random_registers() {
    let mut params = Params { memsize: 2, random_initial_memory: true, ..Default::default() };
    params.growing.min_const = 40;
    params.growing.max_const = 50;
    let show = vec![OUTPUT, Token::Reg(1)];
    let cases = vec![(vec![], vec![50])];
    for seed in 0..30 {
        let mut rand = StdRng::seed_from_u64(seed);
        let score = run_and_rank(&show, &params, &cases, FitnessFunc::DiffFirst, &mut rand);
        assert!(-10 <= score && score <= -1);
    }
}

#[test]
fn copies_are_equal() {
    assert_eq!(copy_program(&sample_father()), sample_father());
    assert_eq!(copy_numbers(&vec![3, -4, 5]), vec![3, -4, 5]);
}

#[test]
fn crossover_with_a_mother_of_one_register_returns_the_father() {
    let father = vec![OUTPUT, num(1)];
    let mother = vec![Token::Reg(0)];
    for seed in 0..50 {
        let mut rand = StdRng::seed_from_u64(seed);
        assert_eq!(crossover(&father, &mother, &mut rand), father);
    }
}

#[test]
fn crossover_splices_where_every_cut_has_a_donor() {
    // a cut at the statement takes the mother's statement and a cut at the
    // register takes her register: either way her register arrives
    let father = vec![INPUT, Token::Reg(0)];
    let mother = vec![INPUT, Token::Reg(1)];
    for seed in 0..50 {
        let mut rand = StdRng::seed_from_u64(seed);
        assert_eq!(crossover(&father, &mother, &mut rand), vec![INPUT, Token::Reg(1)]);
    }
}

#[test]
fn oversized_offspring_give_way_to_a_parent() {
    let father = sample_father();
    let mother = sample_mother();
    let offspring = vec![OUTPUT, num(1), OUTPUT, num(2)];
    assert_eq!(keep_or_clone(offspring.clone(), &father, &mother, 5, true), offspring);
    assert_eq!(keep_or_clone(offspring.clone(), &father, &mother, 4, true), offspring);
    assert_eq!(keep_or_clone(offspring.clone(), &father, &mother, 4, false), offspring);
    assert_eq!(keep_or_clone(offspring.clone(), &father, &mother, 3, true), father);
    assert_eq!(keep_or_clone(offspring.clone(), &father, &mother, 3, false), mother);
    assert_eq!(keep_or_clone(offspring.clone(), &father, &mother, 0, true), father);
}

#[test]
fn mutation_at_rate_one_changes_every_token_it_meets() {
    let mut params = Params::default();
    params.p_mut_per_node = Probability::new(1, 1);
    params.growing.p_insertion = Probability::new(0, 1);
    params.growing.p_expression_plug = Probability::new(1, 1);
    params.growing.p_prefer_reg_over_num = Probability::new(1, 1);
    params.growing.d_stat = vec![(Stat::LOAD, 1), (Stat::OUTPUT, 0)];
    // each of the three statements gives way to one grown LOAD of a leaf
    let parent = vec![
        INPUT,
        Token::Reg(0),
        IF,
        Token::Reg(0),
        OUTPUT,
        num(1),
        ELSE,
        END,
        OUTPUT,
        Token::Expr(Expr::ADD),
        num(1),
        num(2),
    ];
    for seed in 0..30 {
        let mut rand = StdRng::seed_from_u64(seed);
        let child = mutation(&parent, &params, &mut rand);
        assert_eq!(child.len(), 9);
        for statement in child.chunks(3) {
            assert_eq!(statement[0], LOAD);
            assert!(matches!(statement[1], Token::Reg(r) if r < params.memsize));
            assert!(matches!(statement[2], Token::Reg(r) if r < params.memsize));
        }
    }
}

#[test]
fn mutated_expressions_come_from_entries_of_positive_weight() {
    let mut params = Params::default();
    params.growing.d_expr = vec![
        (Expr::ADD, 0),
        (Expr::SUB, 2),
        (Expr::MUL, 0),
        (Expr::NOT, 1),
        (Expr::Num(0), 0),
        (Expr::Reg(0), 3),
    ];
    let mut rand = StdRng::seed_from_u64(21);
    for _ in 0..100 {
        assert_eq!(mutate_expression(Expr::ADD, &params, &mut rand), Token::Expr(Expr::SUB));
        assert_eq!(mutate_expression(Expr::MUL, &params, &mut rand), Token::Expr(Expr::SUB));
        assert!(matches!(mutate_expression(Expr::Num(4), &params, &mut rand), Token::Reg(_)));
    }
}

#[test]
fn a_step_of_mutation_follows_the_decision() {
    let mut params = Params::default();
    params.growing.p_insertion = Probability::new(1, 1);
    params.growing.p_expression_plug = Probability::new(1, 1);
    params.growing.d_stat = vec![(Stat::INPUT, 1)];
    params.growing.d_expr = vec![(Expr::ADD, 0), (Expr::SUB, 5), (Expr::Num(0), 1)];
    let parent = sample_father();
    let mut rand = StdRng::seed_from_u64(31);
    // a token that is not changed is copied, whatever it is
    for i in 0..parent.len() {
        let mut child = vec![END];
        assert_eq!(mutate_at(&parent, i, false, 10, &mut child, &params, &mut rand), i + 1);
        assert_eq!(child, vec![END, parent[i]]);
    }
    // a changed statement gives way to an inserted and a regrown statement,
    // and the step goes on after all that was under it
    let mut child = vec![END];
    assert_eq!(mutate_at(&parent, 2, true, 10, &mut child, &params, &mut rand), 14);
    assert_eq!(child.len(), 5);
    assert_eq!((child[1], child[3]), (INPUT, INPUT));
    // without room nothing takes its place
    let mut child = vec![END];
    assert_eq!(mutate_at(&parent, 6, true, 0, &mut child, &params, &mut rand), 10);
    assert_eq!(child, vec![END]);
    // a changed operator is drawn from the entries of its arity
    let mut child = vec![];
    assert_eq!(mutate_at(&parent, 7, true, 10, &mut child, &params, &mut rand), 8);
    assert_eq!(child, vec![Token::Expr(Expr::SUB)]);
    // a changed literal becomes a literal within the bounds
    let mut child = vec![];
    assert_eq!(mutate_at(&parent, 5, true, 10, &mut child, &params, &mut rand), 6);
    assert!(matches!(child[..], [Token::Expr(Expr::Num(v))] if (-100..100).contains(&v)));
    // a changed register becomes an existing register
    let mut child = vec![];
    assert_eq!(mutate_at(&parent, 4, true, 10, &mut child, &params, &mut rand), 5);
    assert!(matches!(child[..], [Token::Reg(r)] if r < params.memsize));
    // ELSE and END stay
    let mut child = vec![];
    assert_eq!(mutate_at(&parent, 10, true, 10, &mut child, &params, &mut rand), 11);
    assert_eq!(mutate_at(&parent, 13, true, 10, &mut child, &params, &mut rand), 14);
    assert_eq!(child, vec![ELSE, END]);
}
