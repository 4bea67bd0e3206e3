//! Tokens, programs and structural navigation over the flat encoding.

use vstd::prelude::*;

verus! {

/// The numeric type of registers, literals, inputs and outputs.
pub type Number = i32;

/// Canonical value produced by comparisons and boolean operators for "true".
pub const NUMBER_TRUE: Number = 1;

/// Canonical value produced by comparisons and boolean operators for "false".
pub const NUMBER_FALSE: Number = 0;

/// Every nonzero number counts as true.
pub fn is_truthy(x: Number) -> (r: bool)
    ensures
        r == (x != 0),
{
    x != 0
}

/// Expression operators.
///
/// `Reg` exists only as a placeholder in weighted operator tables; a finished
/// program refers to registers through [`Token::Reg`] instead.
#[allow(non_camel_case_types)]
#[derive(Debug, Clone, Copy, PartialEq, Eq, Structural)]
pub enum Expr {
    ADD,
    SUB,
    MUL,
    DIV,
    EQ,
    LT,
    GT,
    OR,
    AND,
    NOT,
    Num(Number),
    Reg(usize),
}

/// Statement operators.
#[allow(non_camel_case_types)]
#[derive(Debug, Clone, Copy, PartialEq, Eq, Structural)]
pub enum Stat {
    INPUT,
    OUTPUT,
    LOAD,
    IF,
    WHILE,
}

/// One element of a program.
#[allow(non_camel_case_types)]
#[derive(Debug, Clone, Copy, PartialEq, Eq, Structural)]
pub enum Token {
    Expr(Expr),
    Stat(Stat),
    Reg(usize),
    ELSE,
    END,
}

/// A program is a pre-order linearization of its syntax tree, with explicit
/// `ELSE` and `END` markers closing blocks.
pub type Program = Vec<Token>;

impl Expr {
    /// Number of operands the operator takes.
    pub open spec fn arity(self) -> nat {
        match self {
            Expr::Num(_) | Expr::Reg(_) => 0,
            Expr::NOT => 1,
            _ => 2,
        }
    }

    /// Number of operands the operator takes.
    pub fn argnum(&self) -> (n: usize)
        ensures
            n == self.arity(),
    {
        match self {
            Expr::ADD => 2,
            Expr::SUB => 2,
            Expr::MUL => 2,
            Expr::DIV => 2,
            Expr::Num(_) => 0,
            Expr::Reg(_) => 0,
            Expr::EQ => 2,
            Expr::LT => 2,
            Expr::GT => 2,
            Expr::OR => 2,
            Expr::AND => 2,
            Expr::NOT => 1,
        }
    }
}

/// The change in block nesting depth caused by a token: `IF` and `WHILE` open
/// a block, `END` closes one, everything else (including `ELSE`) is neutral.
pub open spec fn level_change(t: Token) -> int {
    match t {
        Token::Stat(Stat::IF) | Token::Stat(Stat::WHILE) => 1,
        Token::END => -1,
        _ => 0,
    }
}

/// Scans forward from `i` with nesting depth `level` and yields the position
/// at which the depth first reaches zero (one past the closing `END`), or the
/// length of the program when it never does.
pub open spec fn scan_end(p: Seq<Token>, i: int, level: int) -> int
    decreases p.len() - i,
{
    if 0 <= i < p.len() && level > 0 {
        scan_end(p, i + 1, level + level_change(p[i]))
    } else {
        i
    }
}

/// The index one past the syntactic node rooted at `i`.
///
/// Leaves end right after themselves, operators end where their last operand
/// ends, and block tokens end after their matching `END`. The result is `None`
/// when `i` is not an index of `p`, when an operand is missing, or when the
/// placeholder `Expr::Reg` is met.
pub open spec fn node_end(p: Seq<Token>, i: int) -> Option<int>
    decreases p.len() - i,
{
    if 0 <= i < p.len() {
        match p[i] {
            Token::Reg(_) | Token::Expr(Expr::Num(_)) | Token::END => Some(i + 1),
            Token::Expr(Expr::Reg(_)) => None,
            Token::Stat(Stat::INPUT) | Token::Stat(Stat::OUTPUT) | Token::Expr(Expr::NOT) => {
                node_end(p, i + 1)
            },
            Token::Stat(Stat::IF) | Token::Stat(Stat::WHILE) | Token::ELSE => {
                Some(scan_end(p, i + 1, 1))
            },
            _ => match node_end(p, i + 1) {
                Some(m) => if i < m <= p.len() { node_end(p, m) } else { None },
                None => None,
            },
        }
    } else {
        None
    }
}

/// A scan never moves backwards and never leaves the program.
pub proof fn lemma_scan_end_bounds(p: Seq<Token>, i: int, level: int)
    requires
        0 <= i <= p.len(),
    ensures
        i <= scan_end(p, i, level) <= p.len(),
    decreases p.len() - i,
{
    if i < p.len() && level > 0 {
        lemma_scan_end_bounds(p, i + 1, level + level_change(p[i]));
    }
}

/// Whenever a node end exists it lies strictly after the node's root and at
/// most at the end of the program.
pub proof fn lemma_node_end_bounds(p: Seq<Token>, i: int)
    requires
        node_end(p, i).is_some(),
    ensures
        i < node_end(p, i).unwrap() <= p.len(),
    decreases p.len() - i,
{
    match p[i] {
        Token::Reg(_) | Token::Expr(Expr::Num(_)) | Token::END => {},
        Token::Expr(Expr::Reg(_)) => {},
        Token::Stat(Stat::INPUT) | Token::Stat(Stat::OUTPUT) | Token::Expr(Expr::NOT) => {
            lemma_node_end_bounds(p, i + 1);
        },
        Token::Stat(Stat::IF) | Token::Stat(Stat::WHILE) | Token::ELSE => {
            lemma_scan_end_bounds(p, i + 1, 1);
        },
        _ => {
            lemma_node_end_bounds(p, i + 1);
            lemma_node_end_bounds(p, node_end(p, i + 1).unwrap());
        },
    }
}

/// Returns the index one past the syntactic node rooted at `index`.
pub fn get_node_end(program: &Program, index: usize) -> (end: usize)
    requires
        node_end(program@, index as int).is_some(),
    ensures
        node_end(program@, index as int) == Some(end as int),
        index < end <= program.len(),
    decreases program.len() - index,
{
    proof {
        lemma_node_end_bounds(program@, index as int);
    }
    match program[index] {
        Token::Reg(_) | Token::Expr(Expr::Num(_)) | Token::END => index + 1,
        Token::Stat(Stat::INPUT) | Token::Stat(Stat::OUTPUT) | Token::Expr(Expr::NOT) => {
            get_node_end(program, index + 1)
        },
        Token::Stat(Stat::LOAD)
        | Token::Expr(Expr::EQ)
        | Token::Expr(Expr::LT)
        | Token::Expr(Expr::GT)
        | Token::Expr(Expr::AND)
        | Token::Expr(Expr::OR)
        | Token::Expr(Expr::ADD)
        | Token::Expr(Expr::SUB)
        | Token::Expr(Expr::MUL)
        | Token::Expr(Expr::DIV) => {
            let arg1end = get_node_end(program, index + 1);
            get_node_end(program, arg1end)
        },
        Token::Stat(Stat::IF) | Token::Stat(Stat::WHILE) | Token::ELSE => {
            let mut level: usize = 1;
            let mut i: usize = index + 1;
            while i < program.len() && level > 0
                invariant
                    index < i <= program.len(),
                    level + index <= i,
                    scan_end(program@, i as int, level as int) == scan_end(
                        program@,
                        index + 1,
                        1,
                    ),
                decreases program.len() - i,
            {
                match program[i] {
                    Token::Stat(Stat::IF) | Token::Stat(Stat::WHILE) => level += 1,
                    Token::END => level -= 1,
                    _ => (),
                }
                i += 1;
            }
            i
        },
        Token::Expr(Expr::Reg(_)) => vstd::pervasive::unreached(),
    }
}

/// Returns the index one past the syntactic node rooted at `index`, or
/// `None` when there is no such node: when `index` lies outside the program,
/// an operand is missing or the placeholder `Expr::Reg` is met.
pub fn find_node_end(program: &Program, index: usize) -> (end: Option<usize>)
    ensures
        match end {
            Some(end) => node_end(program@, index as int) == Some(end as int),
            None => node_end(program@, index as int).is_none(),
        },
    decreases program.len() - index,
{
    if index >= program.len() {
        return None;
    }
    match program[index] {
        Token::Expr(Expr::Reg(_)) => None,
        Token::Reg(_)
        | Token::Expr(Expr::Num(_))
        | Token::END
        | Token::Stat(Stat::IF)
        | Token::Stat(Stat::WHILE)
        | Token::ELSE => Some(get_node_end(program, index)),
        Token::Stat(Stat::INPUT) | Token::Stat(Stat::OUTPUT) | Token::Expr(Expr::NOT) => {
            find_node_end(program, index + 1)
        },
        _ => match find_node_end(program, index + 1) {
            Some(arg1end) => {
                proof {
                    lemma_node_end_bounds(program@, index + 1);
                }
                find_node_end(program, arg1end)
            },
            None => None,
        },
    }
}

/// Whether two tokens are of the same kind, whatever they carry.
pub open spec fn same_variant(a: Token, b: Token) -> bool {
    match (a, b) {
        (Token::Expr(_), Token::Expr(_)) => true,
        (Token::Stat(_), Token::Stat(_)) => true,
        (Token::Reg(_), Token::Reg(_)) => true,
        (Token::ELSE, Token::ELSE) => true,
        (Token::END, Token::END) => true,
        _ => false,
    }
}

/// Whether two tokens are of the same kind, whatever they carry.
pub fn variant_eq(a: &Token, b: &Token) -> (r: bool)
    ensures
        r == same_variant(*a, *b),
{
    match (a, b) {
        (Token::Expr(_), Token::Expr(_)) => true,
        (Token::Stat(_), Token::Stat(_)) => true,
        (Token::Reg(_), Token::Reg(_)) => true,
        (Token::ELSE, Token::ELSE) => true,
        (Token::END, Token::END) => true,
        _ => false,
    }
}

/// Appends the tokens `src[from..to]` to `dst`.
pub fn append_range(dst: &mut Program, src: &Program, from: usize, to: usize)
    requires
        from <= to <= src.len(),
    ensures
        final(dst)@ == old(dst)@ + src@.subrange(from as int, to as int),
{
    let mut i: usize = from;
    while i < to
        invariant
            from <= i <= to <= src.len(),
            dst@ == old(dst)@ + src@.subrange(from as int, i as int),
        decreases to - i,
    {
        dst.push(src[i]);
        i += 1;
        assert(dst@ =~= old(dst)@ + src@.subrange(from as int, i as int));
    }
    assert(dst@ =~= old(dst)@ + src@.subrange(from as int, to as int));
}

/// Appends all of `src` to `dst`.
pub fn append_all(dst: &mut Program, src: &Program)
    ensures
        final(dst)@ == old(dst)@ + src@,
{
    append_range(dst, src, 0, src.len());
    assert(src@.subrange(0, src.len() as int) =~= src@);
}

} // verus!
