use genlang::params::{expr_weights_of, stat_weights_of, Params, Probability};
use genlang::tinygp::common::{get_node_end, Expr, Stat, Token};
use genlang::tinygp::grammar::{has_registers_within, is_well_formed};
use genlang::tinygp::growing::{
    create_random_indiv, draw_token, grow_expr, grow_stat, rand_const, rand_reg,
};
use rand::rngs::StdRng;
use rand::SeedableRng;

#[test]
fn test_rand_expr() {
    let mut rand = StdRng::seed_from_u64(0);
    for _ in 0..1000 {
        println!("{:?}", grow_expr(&Params::default(), &mut rand, 1000));
    }
}

#[test]
fn grown_expressions_are_complete_and_fit_the_budget() {
    let mut params = Params::default();
    params.growing.p_expression_plug = Probability::percent(40);
    let mut rand = StdRng::seed_from_u64(1);
    let mut grown = 0;
    let mut abandoned = 0;
    for _ in 0..1000 {
        match grow_expr(&params, &mut rand, 9) {
            Some(code) => {
                grown += 1;
                assert!(!code.is_empty());
                assert!(code.len() <= 9);
                assert_eq!(get_node_end(&code, 0), code.len());
                assert!(has_registers_within(&code, params.memsize));
                // an expression after OUTPUT is a program
                let mut program = vec![Token::Stat(Stat::OUTPUT)];
                program.extend_from_slice(&code);
                assert!(is_well_formed(&program));
            }
            None => abandoned += 1,
        }
    }
    assert!(grown > 0);
    assert!(abandoned > 0);
}

#[test]
fn no_expression_fits_an_empty_budget() {
    let mut rand = StdRng::seed_from_u64(2);
    assert_eq!(grow_expr(&Params::default(), &mut rand, 0), None);
}

#[test]
fn leaves_only_when_plugging_is_certain() {
    let mut params = Params::default();
    params.growing.p_expression_plug = Probability::new(1, 1);
    params.growing.p_prefer_reg_over_num = Probability::new(1, 1);
    let mut rand = StdRng::seed_from_u64(3);
    for _ in 0..100 {
        let code = grow_expr(&params, &mut rand, 5).unwrap();
        assert_eq!(code.len(), 1);
        assert!(matches!(code[0], Token::Reg(r) if r < params.memsize));
    }
    params.growing.p_prefer_reg_over_num = Probability::new(0, 1);
    for _ in 0..100 {
        let code = grow_expr(&params, &mut rand, 5).unwrap();
        assert_eq!(code.len(), 1);
        assert!(matches!(code[0], Token::Expr(Expr::Num(v)) if (-100..100).contains(&v)));
    }
}

#[test]
fn operators_of_weight_zero_are_never_drawn() {
    let mut params = Params::default();
    params.growing.p_expression_plug = Probability::new(0, 1);
    params.growing.d_expr = vec![
        (Expr::ADD, 0),
        (Expr::SUB, 0),
        (Expr::NOT, 3),
        (Expr::Num(0), 2),
        (Expr::Reg(0), 0),
    ];
    let mut rand = StdRng::seed_from_u64(4);
    let mut longest = 0;
    for _ in 0..300 {
        if let Some(code) = grow_expr(&params, &mut rand, 20) {
            longest = longest.max(code.len());
            let (last, init) = code.split_last().unwrap();
            assert!(matches!(last, Token::Expr(Expr::Num(_))));
            assert!(init.iter().all(|t| *t == Token::Expr(Expr::NOT)));
        }
    }
    assert!(longest > 1);
}

#[test]
fn node_end_of_a_grown_statement_is_its_length() {
    let params = Params::default();
    let mut rand = StdRng::seed_from_u64(5);
    let mut grown = 0;
    for _ in 0..2000 {
        let code = grow_stat(40, &params, &mut rand);
        if code.is_empty() {
            continue;
        }
        grown += 1;
        assert!(code.len() <= 40);
        assert!(matches!(code[0], Token::Stat(_)));
        assert_eq!(get_node_end(&code, 0), code.len());
        assert!(is_well_formed(&code));
        assert!(has_registers_within(&code, params.memsize));
    }
    assert!(grown > 100);
}

#[test]
fn nothing_grows_without_room() {
    let params = Params::default();
    let mut rand = StdRng::seed_from_u64(6);
    for size_left in 0..3 {
        for _ in 0..100 {
            let code = grow_stat(size_left, &params, &mut rand);
            assert!(code.len() <= size_left);
        }
    }
    for _ in 0..100 {
        assert_eq!(grow_stat(0, &params, &mut rand), vec![]);
        assert_eq!(grow_stat(1, &params, &mut rand), vec![]);
    }
}

#[test]
fn a_statement_may_use_up_its_budget() {
    let params = Params::default();
    let mut rand = StdRng::seed_from_u64(15);
    let mut full = [false; 7];
    for size_left in 2..7 {
        for _ in 0..500 {
            let code = grow_stat(size_left, &params, &mut rand);
            assert!(code.len() <= size_left);
            full[size_left] = full[size_left] || code.len() == size_left;
        }
    }
    // INPUT, LOAD of a leaf, OUTPUT of a sum, IF or LOAD, WHILE of a leaf
    assert_eq!(full, [false, false, true, true, true, true, true]);
}

#[test]
fn grown_loops_guard_themselves() {
    let mut params = Params::default();
    params.growing.d_stat =
        vec![(Stat::LOAD, 0), (Stat::IF, 0), (Stat::WHILE, 5), (Stat::INPUT, 0), (Stat::OUTPUT, 0)];
    let mut rand = StdRng::seed_from_u64(7);
    let mut grown = 0;
    for _ in 0..200 {
        let code = grow_stat(30, &params, &mut rand);
        if code.is_empty() {
            continue;
        }
        grown += 1;
        assert_eq!(code[0], Token::Stat(Stat::WHILE));
        let n = code.len();
        assert_eq!(
            &code[n - 4..],
            &[Token::Stat(Stat::LOAD), Token::Reg(0), Token::Reg(0), Token::END]
        );
    }
    assert!(grown > 0);
}

#[test]
fn grown_conditionals_hold_a_statement() {
    let mut params = Params::default();
    params.growing.d_stat =
        vec![(Stat::LOAD, 0), (Stat::IF, 1), (Stat::WHILE, 0), (Stat::INPUT, 1), (Stat::OUTPUT, 0)];
    let mut rand = StdRng::seed_from_u64(8);
    let mut with_else = 0;
    let mut conditionals = 0;
    for _ in 0..2000 {
        let code = grow_stat(60, &params, &mut rand);
        if code.is_empty() || code[0] != Token::Stat(Stat::IF) {
            continue;
        }
        conditionals += 1;
        assert_eq!(*code.last().unwrap(), Token::END);
        assert!(code.contains(&Token::Stat(Stat::INPUT)));
        if code.contains(&Token::ELSE) {
            with_else += 1;
        }
    }
    assert!(conditionals > 0);
    assert!(with_else > 0);
}

#[test]
fn random_registers_and_literals_stay_in_range() {
    let mut params = Params::default();
    params.memsize = 3;
    params.growing.min_const = -2;
    params.growing.max_const = 2;
    let mut rand = StdRng::seed_from_u64(9);
    let mut registers = [false; 3];
    let mut literals = [false; 4];
    for _ in 0..500 {
        match rand_reg(&params, &mut rand) {
            Token::Reg(r) => registers[r] = true,
            other => panic!("not a register: {other:?}"),
        }
        match rand_const(&params, &mut rand) {
            Token::Expr(Expr::Num(v)) => literals[(v + 2) as usize] = true,
            other => panic!("not a literal: {other:?}"),
        }
    }
    assert_eq!(registers, [true; 3]);
    assert_eq!(literals, [true; 4]);
}

#[test]
fn random_individuals_keep_prefix_and_suffix() {
    let params = Params::default();
    let mut rand = StdRng::seed_from_u64(10);
    let mut longer = 0;
    for _ in 0..200 {
        let prog = create_random_indiv(&params, &mut rand);
        assert!(prog.len() >= 4);
        assert!(matches!(prog[0], Token::Stat(Stat::INPUT)));
        assert!(matches!(prog[prog.len() - 2], Token::Stat(Stat::OUTPUT)));
        assert_eq!(&prog[..2], &params.prefix[..]);
        assert_eq!(&prog[prog.len() - 2..], &params.suffix[..]);
        assert!(is_well_formed(&prog));
        assert!(has_registers_within(&prog, params.memsize));
        if prog.len() > 4 {
            longer += 1;
        }
    }
    assert!(longer > 0);
}

#[test]
fn weights_are_read_off_the_tables() {
    let table = vec![(Expr::ADD, 4), (Expr::Num(0), 0), (Expr::NOT, 7)];
    assert_eq!(expr_weights_of(&table), vec![4, 0, 7]);
    assert_eq!(stat_weights_of(&vec![(Stat::IF, 2), (Stat::LOAD, 9)]), vec![2, 9]);
    assert_eq!(expr_weights_of(&vec![]), Vec::<u32>::new());
}

#[test]
fn certain_outcomes_of_growth() {
    let mut params = Params::default();
    // a table that yields INPUT only always yields a statement that fits
    params.growing.d_stat =
        vec![(Stat::LOAD, 0), (Stat::IF, 0), (Stat::WHILE, 0), (Stat::INPUT, 3), (Stat::OUTPUT, 0)];
    let mut rand = StdRng::seed_from_u64(12);
    for _ in 0..100 {
        let code = grow_stat(2, &params, &mut rand);
        assert_eq!(code.len(), 2);
        assert_eq!(code[0], Token::Stat(Stat::INPUT));
    }
    // certain plugging always yields a leaf
    params.growing.p_expression_plug = Probability::new(7, 7);
    for _ in 0..100 {
        assert_eq!(grow_expr(&params, &mut rand, 1).map(|code| code.len()), Some(1));
    }
}

#[test]
fn literals_of_grown_code_stay_within_bounds() {
    let mut params = Params::default();
    params.growing.min_const = 5;
    params.growing.max_const = 8;
    params.growing.p_prefer_reg_over_num = Probability::percent(10);
    params.prefix = vec![];
    params.suffix = vec![];
    let mut rand = StdRng::seed_from_u64(13);
    let mut literals = 0;
    for _ in 0..300 {
        for token in create_random_indiv(&params, &mut rand) {
            if let Token::Expr(Expr::Num(v)) = token {
                assert!((5..8).contains(&v));
                literals += 1;
            }
        }
    }
    assert!(literals > 0);
}

#[test]
fn statements_with_certain_leaves_are_certainly_grown() {
    let mut params = Params::default();
    params.growing.p_expression_plug = Probability::new(1, 1);
    params.growing.d_stat =
        vec![(Stat::LOAD, 1), (Stat::IF, 0), (Stat::WHILE, 1), (Stat::INPUT, 1), (Stat::OUTPUT, 1)];
    params.prefix = vec![];
    params.suffix = vec![];
    params.max_size = 6;
    let mut rand = StdRng::seed_from_u64(14);
    let mut lengths = [false; 7];
    for _ in 0..300 {
        let code = grow_stat(6, &params, &mut rand);
        let expected = match code[0] {
            Token::Stat(Stat::INPUT) | Token::Stat(Stat::OUTPUT) => 2,
            Token::Stat(Stat::LOAD) => 3,
            Token::Stat(Stat::WHILE) => 6,
            other => panic!("not grown: {other:?}"),
        };
        assert_eq!(code.len(), expected);
        lengths[expected] = true;
        // both statements of an individual are there
        let program = create_random_indiv(&params, &mut rand);
        assert!(program.len() >= 4);
        let first = get_node_end(&program, 0);
        assert!(first < program.len());
        assert_eq!(get_node_end(&program, first), program.len());
    }
    assert!(lengths[2] && lengths[3] && lengths[6]);
    // a loop does not fit five tokens, so growth is no longer certain
    let mut empty = 0;
    for _ in 0..300 {
        if grow_stat(5, &params, &mut rand).is_empty() {
            empty += 1;
        }
    }
    assert!(empty > 0);
}

#[test]
fn drawn_entries_become_tokens() {
    let mut params = Params::default();
    params.memsize = 3;
    params.growing.min_const = 10;
    params.growing.max_const = 12;
    let mut rand = StdRng::seed_from_u64(16);
    for _ in 0..100 {
        assert!(matches!(draw_token(Expr::Reg(9), &params, &mut rand), Token::Reg(r) if r < 3));
        assert!(matches!(
            draw_token(Expr::Num(0), &params, &mut rand),
            Token::Expr(Expr::Num(10 | 11))
        ));
    }
    for op in [
        Expr::ADD,
        Expr::SUB,
        Expr::MUL,
        Expr::DIV,
        Expr::EQ,
        Expr::LT,
        Expr::GT,
        Expr::OR,
        Expr::AND,
        Expr::NOT,
    ] {
        assert_eq!(draw_token(op, &params, &mut rand), Token::Expr(op));
    }
}

#[test]
fn plugged_leaves_follow_the_preference() {
    let mut params = Params::default();
    params.growing.p_expression_plug = Probability::percent(100);
    params.growing.p_prefer_reg_over_num = Probability::percent(0);
    let mut rand = StdRng::seed_from_u64(17);
    for _ in 0..200 {
        let code = grow_expr(&params, &mut rand, 4).unwrap();
        assert!(matches!(code[..], [Token::Expr(Expr::Num(_))]));
    }
    params.growing.p_prefer_reg_over_num = Probability::percent(100);
    for _ in 0..200 {
        let code = grow_expr(&params, &mut rand, 4).unwrap();
        assert!(matches!(code[..], [Token::Reg(_)]));
    }
}

#[test]
fn grown_code_holds_only_what_the_tables_yield() {
    let mut params = Params::default();
    params.growing.p_expression_plug = Probability::percent(30);
    params.growing.p_prefer_reg_over_num = Probability::percent(100);
    params.growing.d_expr = vec![
        (Expr::ADD, 4),
        (Expr::SUB, 1),
        (Expr::MUL, 0),
        (Expr::DIV, 1),
        (Expr::NOT, 0),
        (Expr::Num(0), 0),
        (Expr::Reg(0), 1),
    ];
    params.growing.d_stat =
        vec![(Stat::LOAD, 1), (Stat::IF, 1), (Stat::WHILE, 0), (Stat::INPUT, 0), (Stat::OUTPUT, 1)];
    params.prefix = vec![];
    params.suffix = vec![];
    params.max_size = 40;
    let mut rand = StdRng::seed_from_u64(18);
    let mut operators = 0;
    for _ in 0..300 {
        for token in create_random_indiv(&params, &mut rand) {
            match token {
                Token::Expr(Expr::ADD | Expr::SUB | Expr::DIV) => operators += 1,
                Token::Stat(Stat::LOAD | Stat::IF | Stat::OUTPUT) => {}
                Token::Reg(_) | Token::ELSE | Token::END => {}
                other => panic!("the tables do not yield {other:?}"),
            }
        }
    }
    assert!(operators > 0);
}
