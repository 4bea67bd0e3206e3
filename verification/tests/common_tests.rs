use genlang::tinygp::common::{
    append_all, append_range, find_node_end, get_node_end, is_truthy, variant_eq, Expr, Stat, Token,
};
use genlang::tinygp::grammar::{has_registers_within, is_well_formed};

const INPUT: Token = Token::Stat(Stat::INPUT);
const OUTPUT: Token = Token::Stat(Stat::OUTPUT);
const LOAD: Token = Token::Stat(Stat::LOAD);
const IF: Token = Token::Stat(Stat::IF);
const WHILE: Token = Token::Stat(Stat::WHILE);
const ELSE: Token = Token::ELSE;
const END: Token = Token::END;

fn num(x: i32) -> Token {
    Token::Expr(Expr::Num(x))
}

#[test]
fn test_get_expression_end() {
    let program = vec![Token::Expr(Expr::ADD), Token::Reg(0), Token::Reg(0)];
    assert_eq!(get_node_end(&program, 0), 3);
    assert_eq!(get_node_end(&program, 1), 2);
    assert_eq!(get_node_end(&program, 2), 3);
    let program = vec![
        Token::Expr(Expr::ADD),
        Token::Expr(Expr::ADD),
        Token::Reg(0),
        Token::Reg(0),
        Token::Reg(0),
    ];
    assert_eq!(get_node_end(&program, 0), 5);
    assert_eq!(get_node_end(&program, 1), 4);
    assert_eq!(get_node_end(&program, 2), 3);
    assert_eq!(get_node_end(&program, 3), 4);
    assert_eq!(get_node_end(&program, 4), 5);
}

#[test]
fn test_expression_end_if() {
    let program = vec![
        Token::Stat(Stat::IF),
        Token::Expr(Expr::Num(12)),
        Token::Stat(Stat::OUTPUT),
        Token::Reg(0),
        Token::Stat(Stat::OUTPUT),
        Token::Reg(0),
        Token::Stat(Stat::OUTPUT),
        Token::Reg(0),
        Token::END,
    ];
    assert_eq!(get_node_end(&program, 0), 9);
}

#[test]
fn test_expression_end_if_else() {
    let program = vec![
        Token::Stat(Stat::IF),
        Token::Expr(Expr::Num(12)),
        Token::Stat(Stat::OUTPUT),
        Token::Reg(0),
        Token::Stat(Stat::OUTPUT),
        Token::Reg(0),
        Token::Stat(Stat::OUTPUT),
        Token::Reg(0),
        Token::ELSE,
        Token::Stat(Stat::OUTPUT),
        Token::Reg(0),
        Token::END,
    ];
    assert_eq!(get_node_end(&program, 0), 12);
}

#[test]
fn test_expression_end_nested_if() {
    let program = vec![
        Token::Stat(Stat::IF),
        Token::Expr(Expr::Num(12)),
        Token::Stat(Stat::OUTPUT),
        Token::Reg(0),
        Token::Stat(Stat::IF),
        Token::Expr(Expr::Num(12)),
        Token::Stat(Stat::OUTPUT),
        Token::Reg(0),
        Token::Stat(Stat::OUTPUT),
        Token::Reg(0),
        Token::Stat(Stat::OUTPUT),
        Token::Reg(0),
        Token::END,
        Token::Stat(Stat::OUTPUT),
        Token::Reg(0),
        Token::END,
    ];
    assert_eq!(get_node_end(&program, 0), 16);
    assert_eq!(get_node_end(&program, 4), 13);
}

#[test]
fn test_expression_end_nested_while() {
    let program = vec![
        Token::Stat(Stat::WHILE),
        Token::Expr(Expr::Num(12)),
        Token::Stat(Stat::OUTPUT),
        Token::Reg(0),
        Token::Stat(Stat::WHILE),
        Token::Expr(Expr::Num(12)),
        Token::Stat(Stat::OUTPUT),
        Token::Reg(0),
        Token::Stat(Stat::OUTPUT),
        Token::Reg(0),
        Token::Stat(Stat::OUTPUT),
        Token::Reg(0),
        Token::END,
        Token::Stat(Stat::OUTPUT),
        Token::Reg(0),
        Token::END,
    ];
    assert_eq!(get_node_end(&program, 0), 16);
    assert_eq!(get_node_end(&program, 4), 13);
}

#[test]
fn node_end_of_leaves_and_markers() {
    let program = vec![IF, Token::Reg(1), OUTPUT, num(3), ELSE, INPUT, Token::Reg(0), END];
    assert_eq!(get_node_end(&program, 1), 2);
    assert_eq!(get_node_end(&program, 3), 4);
    assert_eq!(get_node_end(&program, 7), 8);
    assert_eq!(get_node_end(&program, 4), 8);
    assert_eq!(get_node_end(&program, 5), 7);
}

#[test]
fn node_end_of_unary_and_load() {
    let program = vec![
        LOAD,
        Token::Reg(2),
        Token::Expr(Expr::NOT),
        Token::Expr(Expr::MUL),
        Token::Reg(0),
        num(4),
        OUTPUT,
        Token::Reg(2),
    ];
    assert_eq!(get_node_end(&program, 0), 6);
    assert_eq!(get_node_end(&program, 2), 6);
    assert_eq!(get_node_end(&program, 3), 6);
    assert_eq!(get_node_end(&program, 6), 8);
}

#[test]
fn node_end_of_unclosed_block_is_the_length() {
    let program = vec![WHILE, num(1), OUTPUT, num(2)];
    assert_eq!(get_node_end(&program, 0), 4);
}

#[test]
fn node_end_lies_after_every_index_of_a_well_formed_program() {
    let program = vec![
        INPUT,
        Token::Reg(0),
        IF,
        Token::Expr(Expr::GT),
        Token::Reg(0),
        num(0),
        WHILE,
        Token::Reg(0),
        LOAD,
        Token::Reg(0),
        Token::Expr(Expr::SUB),
        Token::Reg(0),
        num(1),
        END,
        ELSE,
        OUTPUT,
        Token::Expr(Expr::NOT),
        Token::Reg(0),
        END,
        OUTPUT,
        Token::Reg(0),
    ];
    assert!(is_well_formed(&program));
    for i in 0..program.len() {
        let end = get_node_end(&program, i);
        assert!(end > i);
        assert!(end <= program.len());
    }
    assert_eq!(get_node_end(&program, 2), 19);
    assert_eq!(get_node_end(&program, 6), 14);
    assert_eq!(get_node_end(&program, 14), 19);
}

#[test]
fn truthiness_is_being_nonzero() {
    assert!(is_truthy(1));
    assert!(is_truthy(-7));
    assert!(!is_truthy(0));
}

#[test]
fn argnum_of_every_operator() {
    assert_eq!(Expr::ADD.argnum(), 2);
    assert_eq!(Expr::SUB.argnum(), 2);
    assert_eq!(Expr::MUL.argnum(), 2);
    assert_eq!(Expr::DIV.argnum(), 2);
    assert_eq!(Expr::EQ.argnum(), 2);
    assert_eq!(Expr::LT.argnum(), 2);
    assert_eq!(Expr::GT.argnum(), 2);
    assert_eq!(Expr::OR.argnum(), 2);
    assert_eq!(Expr::AND.argnum(), 2);
    assert_eq!(Expr::NOT.argnum(), 1);
    assert_eq!(Expr::Num(5).argnum(), 0);
    assert_eq!(Expr::Reg(5).argnum(), 0);
}

#[test]
fn variant_eq_compares_kinds_only() {
    assert!(variant_eq(&Token::Reg(0), &Token::Reg(9)));
    assert!(variant_eq(&OUTPUT, &IF));
    assert!(variant_eq(&num(1), &Token::Expr(Expr::ADD)));
    assert!(variant_eq(&ELSE, &ELSE));
    assert!(variant_eq(&END, &END));
    assert!(!variant_eq(&Token::Reg(0), &num(0)));
    assert!(!variant_eq(&ELSE, &END));
    assert!(!variant_eq(&OUTPUT, &Token::Reg(0)));
}

#[test]
fn well_formed_programs_are_recognized() {
    assert!(is_well_formed(&vec![]));
    assert!(is_well_formed(&vec![INPUT, Token::Reg(0), OUTPUT, Token::Reg(0)]));
    assert!(is_well_formed(&vec![IF, num(1), END]));
    assert!(is_well_formed(&vec![IF, num(1), OUTPUT, num(2), ELSE, END]));
    assert!(is_well_formed(&vec![
        WHILE,
        Token::Expr(Expr::LT),
        Token::Reg(0),
        num(3),
        LOAD,
        Token::Reg(0),
        Token::Expr(Expr::ADD),
        Token::Reg(0),
        num(1),
        END
    ]));
}

#[test]
fn malformed_programs_are_rejected() {
    // a missing operand
    assert!(!is_well_formed(&vec![OUTPUT]));
    assert!(!is_well_formed(&vec![LOAD, Token::Reg(0)]));
    assert!(!is_well_formed(&vec![OUTPUT, Token::Expr(Expr::ADD), num(1)]));
    // an expression where a register belongs
    assert!(!is_well_formed(&vec![INPUT, num(1)]));
    assert!(!is_well_formed(&vec![LOAD, num(1), num(2)]));
    // an expression or a marker where a statement belongs
    assert!(!is_well_formed(&vec![num(1)]));
    assert!(!is_well_formed(&vec![END]));
    assert!(!is_well_formed(&vec![ELSE]));
    // blocks that are not balanced
    assert!(!is_well_formed(&vec![IF, num(1), OUTPUT, num(2)]));
    assert!(!is_well_formed(&vec![IF, num(1), END, END]));
    assert!(!is_well_formed(&vec![WHILE, num(1), ELSE, END]));
    assert!(!is_well_formed(&vec![IF, num(1), ELSE, ELSE, END]));
    // the placeholder register
    assert!(!is_well_formed(&vec![OUTPUT, Token::Expr(Expr::Reg(0))]));
}

#[test]
fn registers_are_checked_against_the_memory_size() {
    let program = vec![INPUT, Token::Reg(0), OUTPUT, Token::Reg(2)];
    assert!(has_registers_within(&program, 3));
    assert!(!has_registers_within(&program, 2));
    assert!(has_registers_within(&vec![OUTPUT, num(7)], 0));
}

#[test]
fn find_node_end_reports_missing_nodes() {
    let program = vec![LOAD, Token::Reg(2), Token::Expr(Expr::ADD), num(1)];
    assert_eq!(find_node_end(&program, 0), None);
    assert_eq!(find_node_end(&program, 1), Some(2));
    assert_eq!(find_node_end(&program, 2), None);
    assert_eq!(find_node_end(&program, 3), Some(4));
    assert_eq!(find_node_end(&program, 4), None);
    assert_eq!(find_node_end(&vec![OUTPUT, Token::Expr(Expr::Reg(0))], 0), None);
    assert_eq!(find_node_end(&vec![], 0), None);
    let program = vec![IF, num(1), OUTPUT, Token::Expr(Expr::NOT), num(2), END, INPUT];
    assert_eq!(find_node_end(&program, 0), Some(6));
    assert_eq!(find_node_end(&program, 2), Some(5));
    assert_eq!(find_node_end(&program, 6), None);
    for i in 0..6 {
        assert_eq!(find_node_end(&program, i), Some(get_node_end(&program, i)));
    }
}

#[test]
fn tokens_are_appended() {
    let source = vec![INPUT, Token::Reg(0), OUTPUT, Token::Reg(1)];
    let mut target = vec![END];
    append_range(&mut target, &source, 1, 3);
    assert_eq!(target, vec![END, Token::Reg(0), OUTPUT]);
    append_range(&mut target, &source, 2, 2);
    assert_eq!(target, vec![END, Token::Reg(0), OUTPUT]);
    append_all(&mut target, &source);
    assert_eq!(
        target,
        vec![END, Token::Reg(0), OUTPUT, INPUT, Token::Reg(0), OUTPUT, Token::Reg(1)]
    );
}
