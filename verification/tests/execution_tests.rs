use genlang::tinygp::common::{Expr, Stat, Token};
use genlang::tinygp::execution::{
    and, equal, eval_block, eval_expr, eval_stat, execute, greater_than, less_than, negation, or,
    protected_div, saturating_difference, saturating_product, saturating_sum, skip_block,
    EvalError, Runtime,
};

const INPUT: Token = Token::Stat(Stat::INPUT);
const OUTPUT: Token = Token::Stat(Stat::OUTPUT);
const LOAD: Token = Token::Stat(Stat::LOAD);
const IF: Token = Token::Stat(Stat::IF);
const WHILE: Token = Token::Stat(Stat::WHILE);
const ELSE: Token = Token::ELSE;
const END: Token = Token::END;

fn num(x: i32) -> Token {
    Token::Expr(Expr::Num(x))
}

#[test]
fn execution_test_runtime_input() {
    let mut runtime = Runtime::new(2, vec![2, 3, 4]);
    assert_eq!(runtime.next_input(), Some(2));
    assert_eq!(runtime.next_input(), Some(3));
    assert_eq!(runtime.next_input(), Some(4));
    assert_eq!(runtime.next_input(), None);
}

#[test]
fn execution_test_stat_input() {
    let program: Vec<Token> = vec![Token::Stat(Stat::INPUT), Token::Reg(0)];
    let mut runtime = Runtime::new(2, vec![2]);
    assert_eq!(runtime.memory, vec![0, 0]);
    assert_eq!(runtime.input.len(), 1);
    let res = eval_stat(&program, 0, &mut runtime);
    assert!(res.is_ok());
    assert_eq!(runtime.memory, vec![2, 0]);
    let res = eval_stat(&program, 0, &mut runtime);
    assert!(matches!(res, Err(EvalError::Finished)));
}

#[test]
fn execution_test_stat_input_multiple() {
    let program: Vec<Token> = vec![Token::Stat(Stat::INPUT), Token::Reg(0)];
    let mut runtime = Runtime::new(2, vec![2, 3]);
    assert_eq!(runtime.memory, vec![0, 0]);
    assert_eq!(runtime.input.len(), 2);

    let res = eval_stat(&program, 0, &mut runtime);
    assert!(res.is_ok());
    assert_eq!(runtime.memory, vec![2, 0]);

    let res = eval_stat(&program, 0, &mut runtime);
    assert!(res.is_ok());
    assert_eq!(runtime.memory, vec![3, 0]);

    let res = eval_stat(&program, 0, &mut runtime);
    assert!(matches!(res, Err(EvalError::Finished)));
}

#[test]
fn execution_test_stat_input_second_register() {
    let program: Vec<Token> = vec![Token::Stat(Stat::INPUT), Token::Reg(1)];
    let mut runtime = Runtime::new(2, vec![4]);
    assert_eq!(runtime.memory, vec![0, 0]);
    let res = eval_stat(&program, 0, &mut runtime);
    assert!(res.is_ok());
    assert_eq!(runtime.memory, vec![0, 4]);
}

#[test]
fn execution_test_stat_output() {
    let program: Vec<Token> = vec![Token::Stat(Stat::OUTPUT), Token::Reg(0)];
    let mut runtime = Runtime {
        memory: vec![2, 0],
        input: vec![],
        output: vec![],
        input_cursor: 0,
        max_iterations: 100,
        overread: false,
    };
    let res = eval_stat(&program, 0, &mut runtime);
    assert!(res.is_ok());
    assert_eq!(runtime.memory, vec![2, 0]);
    assert_eq!(runtime.output, vec![2]);
}

#[test]
fn execution_test_expression() {
    let program: Vec<Token> = vec![
        Token::Expr(Expr::ADD),
        Token::Reg(0),
        Token::Expr(Expr::DIV),
        Token::Reg(1),
        Token::Reg(1),
    ];
    let data = vec![1, -2];
    let mut runtime = Runtime::new(3, vec![]);
    runtime.memory = data;
    let (pos, val) = eval_expr(&program, 0, &mut runtime).unwrap();
    assert_eq!(5, pos);
    assert_eq!(2, val);
}

#[test]
fn execution_test_exec_identity() {
    let program: Vec<Token> = vec![
        Token::Stat(Stat::INPUT),
        Token::Reg(0),
        Token::Stat(Stat::OUTPUT),
        Token::Reg(0),
    ];
    let mut runtime = Runtime::new(2, vec![2]);
    let res = eval_stat(&program, 0, &mut runtime);
    assert!(res.is_ok());
    let res = eval_stat(&program, 2, &mut runtime);
    assert!(res.is_ok());
    assert_eq!(runtime.output, vec![2]);
}

#[test]
fn new_runtime_is_blank() {
    let runtime = Runtime::new(3, vec![4, 5]);
    assert_eq!(runtime.memory, vec![0, 0, 0]);
    assert_eq!(runtime.input, vec![4, 5]);
    assert!(runtime.output.is_empty());
    assert_eq!(runtime.input_cursor, 0);
    assert_eq!(runtime.max_iterations, 100);
    assert!(!runtime.overread);
    let given = Runtime::with_memory(vec![7, 8], vec![1]);
    assert_eq!(given.memory, vec![7, 8]);
    assert_eq!(given.input, vec![1]);
    assert_eq!(given.max_iterations, 100);
}

#[test]
fn registers_are_set_and_read() {
    let mut runtime = Runtime::new(2, vec![]);
    assert_eq!(runtime.set_reg(1, 9), Ok(()));
    assert_eq!(runtime.read_reg(1), Ok(9));
    assert_eq!(runtime.read_reg(0), Ok(0));
    assert_eq!(runtime.set_reg(2, 1), Err(EvalError::Semantic(2)));
    assert_eq!(runtime.read_reg(2), Err(EvalError::Semantic(2)));
    assert_eq!(runtime.memory, vec![0, 9]);
}

#[test]
fn exhausted_input_is_recorded() {
    let mut runtime = Runtime::new(1, vec![1]);
    assert_eq!(runtime.next_input(), Some(1));
    assert!(!runtime.overread);
    assert_eq!(runtime.next_input(), None);
    assert!(runtime.overread);
    assert_eq!(runtime.input_cursor, 1);
}

#[test]
fn output_of_a_register_with_given_memory() {
    let program = vec![OUTPUT, Token::Reg(0)];
    let mut runtime = Runtime::with_memory(vec![5, 0, 0], vec![]);
    assert_eq!(execute(&program, &mut runtime), Ok(2));
    assert_eq!(runtime.output, vec![5]);
}

#[test]
fn identity_program_echoes_its_input() {
    let program = vec![INPUT, Token::Reg(0), OUTPUT, Token::Reg(0)];
    let mut runtime = Runtime::new(1, vec![7]);
    assert_eq!(execute(&program, &mut runtime), Ok(4));
    assert_eq!(runtime.output, vec![7]);
    assert!(!runtime.overread);
}

#[test]
fn identity_program_without_input_ends_early() {
    let program = vec![INPUT, Token::Reg(0), OUTPUT, Token::Reg(0)];
    let mut runtime = Runtime::new(1, vec![]);
    assert_eq!(execute(&program, &mut runtime), Err(EvalError::Finished));
    assert_eq!(runtime.output, Vec::<i32>::new());
    assert!(runtime.overread);
}

#[test]
fn endless_loop_stops_at_the_iteration_limit() {
    let program = vec![OUTPUT, num(1), WHILE, num(1), OUTPUT, num(2), END, OUTPUT, num(3)];
    let mut runtime = Runtime::new(1, vec![]);
    assert_eq!(execute(&program, &mut runtime), Err(EvalError::MaxIteration));
    assert_eq!(runtime.output.len(), 101);
    assert_eq!(runtime.output[0], 1);
    assert!(runtime.output[1..].iter().all(|&x| x == 2));
}

#[test]
fn iteration_limit_is_configurable() {
    let program = vec![WHILE, num(1), OUTPUT, num(2), END];
    let mut runtime = Runtime::new(1, vec![]);
    runtime.max_iterations = 3;
    assert_eq!(execute(&program, &mut runtime), Err(EvalError::MaxIteration));
    assert_eq!(runtime.output, vec![2, 2, 2]);
}

#[test]
fn loop_that_ends_in_its_last_allowed_round_is_cut_off() {
    // the body runs three times and clears the condition in the third round
    let program = vec![
        LOAD,
        Token::Reg(0),
        num(3),
        WHILE,
        Token::Reg(0),
        LOAD,
        Token::Reg(0),
        Token::Expr(Expr::SUB),
        Token::Reg(0),
        num(1),
        END,
        OUTPUT,
        num(9),
    ];
    let mut runtime = Runtime::new(1, vec![]);
    runtime.max_iterations = 4;
    assert_eq!(execute(&program, &mut runtime), Ok(13));
    assert_eq!(runtime.output, vec![9]);
    let mut runtime = Runtime::new(1, vec![]);
    runtime.max_iterations = 3;
    assert_eq!(execute(&program, &mut runtime), Err(EvalError::MaxIteration));
    assert_eq!(runtime.output, Vec::<i32>::new());
}

#[test]
fn missing_operand_is_a_syntax_error() {
    let mut runtime = Runtime::new(1, vec![1]);
    assert_eq!(execute(&vec![OUTPUT], &mut runtime), Err(EvalError::Syntax(1)));
    assert_eq!(execute(&vec![INPUT], &mut runtime), Err(EvalError::Syntax(1)));
    assert_eq!(execute(&vec![INPUT, num(1)], &mut runtime), Err(EvalError::Syntax(1)));
    assert_eq!(execute(&vec![LOAD, num(1), num(1)], &mut runtime), Err(EvalError::Syntax(1)));
    assert_eq!(
        execute(&vec![OUTPUT, Token::Expr(Expr::ADD), num(1)], &mut runtime),
        Err(EvalError::Syntax(3))
    );
    assert_eq!(execute(&vec![num(1)], &mut runtime), Err(EvalError::Syntax(0)));
    assert_eq!(
        execute(&vec![OUTPUT, Token::Expr(Expr::Reg(0))], &mut runtime),
        Err(EvalError::Syntax(1))
    );
    assert_eq!(eval_expr(&vec![OUTPUT, num(1)], 0, &runtime), Err(EvalError::Syntax(0)));
    assert!(runtime.output.is_empty());
}

#[test]
fn unclosed_block_is_a_syntax_error() {
    let mut runtime = Runtime::new(1, vec![]);
    assert_eq!(
        execute(&vec![IF, num(1), OUTPUT, num(2)], &mut runtime),
        Err(EvalError::Syntax(4))
    );
    assert_eq!(runtime.output, vec![2]);
    let mut runtime = Runtime::new(1, vec![]);
    assert_eq!(
        execute(&vec![IF, num(0), OUTPUT, num(2)], &mut runtime),
        Err(EvalError::Syntax(4))
    );
    let mut runtime = Runtime::new(1, vec![]);
    assert_eq!(
        execute(&vec![WHILE, num(0), OUTPUT, num(2), ELSE, END], &mut runtime),
        Err(EvalError::Syntax(4))
    );
}

#[test]
fn missing_register_is_a_semantic_error() {
    let mut runtime = Runtime::new(2, vec![1]);
    assert_eq!(
        execute(&vec![OUTPUT, Token::Reg(2)], &mut runtime),
        Err(EvalError::Semantic(2))
    );
    assert_eq!(
        execute(&vec![LOAD, Token::Reg(5), num(1)], &mut runtime),
        Err(EvalError::Semantic(5))
    );
    assert_eq!(
        execute(&vec![INPUT, Token::Reg(3)], &mut runtime),
        Err(EvalError::Semantic(3))
    );
    assert_eq!(runtime.input_cursor, 1);
    assert_eq!(runtime.memory, vec![0, 0]);
}

#[test]
fn stray_marker_ends_the_run() {
    let program = vec![OUTPUT, num(1), END, OUTPUT, num(2)];
    let mut runtime = Runtime::new(1, vec![]);
    assert_eq!(execute(&program, &mut runtime), Ok(2));
    assert_eq!(runtime.output, vec![1]);
}

#[test]
fn block_stops_at_its_terminator() {
    let program = vec![OUTPUT, num(1), OUTPUT, num(2), ELSE, OUTPUT, num(3), END];
    let mut runtime = Runtime::new(1, vec![]);
    assert_eq!(eval_block(&program, 0, &mut runtime), Ok(4));
    assert_eq!(eval_block(&program, 5, &mut runtime), Ok(7));
    assert_eq!(eval_block(&program, 8, &mut runtime), Ok(8));
    assert_eq!(runtime.output, vec![1, 2, 3]);
}

#[test]
fn skip_block_finds_the_end_of_a_branch() {
    let program = vec![
        IF,
        num(0),
        IF,
        num(1),
        OUTPUT,
        num(1),
        ELSE,
        OUTPUT,
        num(2),
        END,
        ELSE,
        OUTPUT,
        num(3),
        END,
    ];
    // the outer first branch starts with a nested IF and ends at the outer ELSE
    assert_eq!(skip_block(&program, 2), 10);
    // the inner branches
    assert_eq!(skip_block(&program, 4), 6);
    assert_eq!(skip_block(&program, 7), 9);
    // the outer ELSE branch
    assert_eq!(skip_block(&program, 11), 13);
    // an empty branch ends where it starts
    assert_eq!(skip_block(&vec![IF, num(1), END], 2), 2);
    // a branch that nothing ends
    assert_eq!(skip_block(&vec![IF, num(1), OUTPUT, num(1)], 2), 4);
}

#[test]
fn condition_false_with_nested_block_first() {
    let program = vec![
        IF,
        num(0),
        WHILE,
        num(0),
        OUTPUT,
        num(1),
        END,
        OUTPUT,
        num(2),
        ELSE,
        OUTPUT,
        num(3),
        END,
        OUTPUT,
        num(4),
    ];
    let mut runtime = Runtime::new(1, vec![]);
    assert_eq!(execute(&program, &mut runtime), Ok(15));
    assert_eq!(runtime.output, vec![3, 4]);
}

#[test]
fn empty_branches_run() {
    let mut runtime = Runtime::new(1, vec![]);
    assert_eq!(execute(&vec![IF, num(1), END, OUTPUT, num(1)], &mut runtime), Ok(5));
    assert_eq!(execute(&vec![IF, num(0), END, OUTPUT, num(2)], &mut runtime), Ok(5));
    assert_eq!(execute(&vec![IF, num(0), ELSE, END, OUTPUT, num(3)], &mut runtime), Ok(6));
    assert_eq!(execute(&vec![IF, num(1), ELSE, END, OUTPUT, num(4)], &mut runtime), Ok(6));
    assert_eq!(execute(&vec![WHILE, num(0), END, OUTPUT, num(5)], &mut runtime), Ok(5));
    assert_eq!(runtime.output, vec![1, 2, 3, 4, 5]);
}

#[test]
fn protected_division() {
    for a in [i32::MIN, -7, -1, 0, 1, 6, i32::MAX] {
        assert_eq!(protected_div(a, 0), a);
    }
    assert_eq!(protected_div(6, 2), 3);
    assert_eq!(protected_div(1, 2), 0);
    assert_eq!(protected_div(7, 2), 3);
    assert_eq!(protected_div(-7, 2), -3);
    assert_eq!(protected_div(7, -2), -3);
    assert_eq!(protected_div(-7, -2), 3);
    assert_eq!(protected_div(i32::MIN, 1), i32::MIN);
    assert_eq!(protected_div(i32::MIN, -1), i32::MAX);
    assert_eq!(protected_div(i32::MAX, -1), -i32::MAX);
    for (a, b) in [(17, 5), (-17, 5), (17, -5), (-17, -5), (0, 3), (100, 7)] {
        assert_eq!(protected_div(a, b), a / b);
    }
}

#[test]
fn arithmetic_saturates() {
    assert_eq!(saturating_sum(2, 3), 5);
    assert_eq!(saturating_sum(i32::MAX, 1), i32::MAX);
    assert_eq!(saturating_sum(i32::MIN, -1), i32::MIN);
    assert_eq!(saturating_difference(2, 3), -1);
    assert_eq!(saturating_difference(i32::MIN, 1), i32::MIN);
    assert_eq!(saturating_difference(i32::MAX, -1), i32::MAX);
    assert_eq!(saturating_difference(0, i32::MIN), i32::MAX);
    assert_eq!(saturating_product(4, -5), -20);
    assert_eq!(saturating_product(i32::MAX, 2), i32::MAX);
    assert_eq!(saturating_product(i32::MAX, -2), i32::MIN);
    assert_eq!(saturating_product(i32::MIN, -1), i32::MAX);
    assert_eq!(saturating_product(i32::MIN, i32::MIN), i32::MAX);
    assert_eq!(saturating_product(65536, 65536), i32::MAX);
}

#[test]
fn saturation_inside_a_program() {
    let program = vec![
        OUTPUT,
        Token::Expr(Expr::ADD),
        num(i32::MAX),
        num(1),
        OUTPUT,
        Token::Expr(Expr::SUB),
        num(i32::MIN),
        num(1),
        OUTPUT,
        Token::Expr(Expr::MUL),
        num(i32::MAX),
        num(i32::MAX),
    ];
    let mut runtime = Runtime::new(1, vec![]);
    assert_eq!(execute(&program, &mut runtime), Ok(12));
    assert_eq!(runtime.output, vec![i32::MAX, i32::MIN, i32::MAX]);
}

#[test]
fn comparisons_and_booleans_are_canonical() {
    assert_eq!(equal(3, 3), 1);
    assert_eq!(equal(3, 4), 0);
    assert_eq!(less_than(3, 4), 1);
    assert_eq!(less_than(4, 4), 0);
    assert_eq!(greater_than(5, 4), 1);
    assert_eq!(greater_than(4, 4), 0);
    assert_eq!(or(0, 0), 0);
    assert_eq!(or(-3, 0), 1);
    assert_eq!(or(0, 9), 1);
    assert_eq!(and(7, -2), 1);
    assert_eq!(and(7, 0), 0);
    assert_eq!(and(0, 0), 0);
    assert_eq!(negation(0), 1);
    assert_eq!(negation(5), 0);
    assert_eq!(negation(-5), 0);
}

#[test]
fn test_output_1() {
    let program = vec![OUTPUT, num(4)];
    let mut runtime = Runtime::new(0, vec![]);
    assert_eq!(execute(&program, &mut runtime), Ok(2));
    assert_eq!(runtime.output, vec![4]);
}

#[test]
fn test_output_2() {
    let program = vec![OUTPUT, num(5), OUTPUT, num(3)];
    let mut runtime = Runtime::new(0, vec![]);
    assert_eq!(execute(&program, &mut runtime), Ok(4));
    assert_eq!(runtime.output, vec![5, 3]);
}

#[test]
fn genlang_test_expression() {
    let runtime = Runtime::new(0, vec![]);
    let value = |op: Expr, lhs: i32, rhs: i32| {
        eval_expr(&vec![Token::Expr(op), num(lhs), num(rhs)], 0, &runtime).unwrap().1
    };
    assert_eq!(value(Expr::ADD, 5, 3), 8);
    assert_eq!(value(Expr::SUB, 5, 8), -3);
    assert_eq!(value(Expr::MUL, 5, 3), 15);
    assert_eq!(value(Expr::DIV, 6, 2), 3);
    assert_eq!(value(Expr::DIV, 6, 0), 6);
}
