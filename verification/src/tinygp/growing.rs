//! Random, size-budgeted construction of syntactically valid programs.

use vstd::prelude::*;
use rand::rngs::StdRng;
use crate::params::{Params, Probability, expr_weights_of, stat_weights_of};
use super::common::{Expr, Stat, Token, Program, node_end, append_all};
use super::grammar::{
    Expect,
    parse,
    well_formed,
    is_expression,
    registers_within,
    literals_within,
    lemma_literals_concat,
    lemma_registers_concat,
    lemma_well_formed_concat,
};
use super::structure::{
    is_statement,
    lemma_single_statement,
    lemma_leaf_expression,
    lemma_unary_expression,
    lemma_binary_expression,
    lemma_input_statement,
    lemma_output_statement,
    lemma_load_statement,
    lemma_if_statement,
    lemma_if_else_statement,
    lemma_while_statement,
};
use super::random::{random_index, random_number, random_bool, weighted_index, weighted_table};

verus! {

/// A random register.
pub fn rand_reg(params: &Params, rand: &mut StdRng) -> (t: Token)
    requires
        params.memsize > 0,
    ensures
        t matches Token::Reg(n) && n < params.memsize,
{
    Token::Reg(random_index(rand, params.memsize))
}

/// A random literal within the configured bounds.
pub fn rand_const(params: &Params, rand: &mut StdRng) -> (t: Token)
    requires
        params.growing.min_const < params.growing.max_const,
    ensures
        t matches Token::Expr(Expr::Num(v)) && params.growing.min_const <= v
            < params.growing.max_const,
{
    Token::Expr(Expr::Num(random_number(rand, params.growing.min_const, params.growing.max_const)))
}

/// The registers and literals of the code are those the parameters allow:
/// every register exists and every literal lies within the bounds.
pub open spec fn fits(code: Seq<Token>, params: &Params) -> bool {
    &&& registers_within(code, params.memsize as nat)
    &&& literals_within(
        code,
        params.growing.min_const as int,
        params.growing.max_const as int,
    )
}

/// A single token fits when its register or literal does.
proof fn lemma_leaf_fits(t: Token, params: &Params)
    requires
        t matches Token::Reg(n) ==> n < params.memsize,
        t matches Token::Expr(Expr::Num(v)) ==> params.growing.min_const <= v
            < params.growing.max_const,
    ensures
        fits(seq![t], params),
{
}

/// Code joined from parts that fit fits.
proof fn lemma_fits_concat(a: Seq<Token>, b: Seq<Token>, params: &Params)
    requires
        fits(a, params),
        fits(b, params),
    ensures
        fits(a + b, params),
{
    lemma_registers_concat(a, b, params.memsize as nat);
    lemma_literals_concat(
        a,
        b,
        params.growing.min_const as int,
        params.growing.max_const as int,
    );
}

/// Whether every expression grown is certainly a single leaf.
pub open spec fn certain_leaf(params: &Params) -> bool {
    params.growing.p_expression_plug.numerator == params.growing.p_expression_plug.denominator
}

/// Whether two table entries are of one kind: the same operator, or both
/// the stand-in for a literal, or both the stand-in for a register.
pub open spec fn same_kind(entry: Expr, other: Expr) -> bool {
    match entry {
        Expr::Num(_) => other is Num,
        Expr::Reg(_) => other is Reg,
        _ => entry == other,
    }
}

/// Whether the table can yield an entry of the kind of `e`: it holds one of
/// positive weight.
pub open spec fn offers(table: Seq<(Expr, u32)>, e: Expr) -> bool {
    exists|i: int| 0 <= i < table.len() && (#[trigger] table[i]).1 > 0 && same_kind(table[i].0, e)
}

/// What a drawn table entry becomes as a token: the stand-in for a
/// register a random existing register, the stand-in for a literal a random
/// literal within the bounds, and an operator itself.
pub open spec fn drawn_as(entry: Expr, t: Token, params: &Params) -> bool {
    match entry {
        Expr::Reg(_) => t matches Token::Reg(n) && n < params.memsize,
        Expr::Num(_) => t matches Token::Expr(Expr::Num(v)) && params.growing.min_const <= v
            < params.growing.max_const,
        _ => t == Token::Expr(entry),
    }
}

/// The token for a drawn table entry: a random existing register for the
/// stand-in for a register, a random literal within the bounds for the
/// stand-in for a literal, and the operator itself for an operator.
pub fn draw_token(entry: Expr, params: &Params, rand: &mut StdRng) -> (t: Token)
    requires
        params.memsize > 0,
        params.growing.min_const < params.growing.max_const,
    ensures
        drawn_as(entry, t, params),
{
    match entry {
        Expr::Reg(_) => rand_reg(params, rand),
        Expr::Num(_) => rand_const(params, rand),
        _ => Token::Expr(entry),
    }
}

/// Whether the table can yield stand-ins only, and no operator.
pub open spec fn only_leaves(table: Seq<(Expr, u32)>) -> bool {
    forall|i: int| 0 <= i < table.len() && (#[trigger] table[i]).1 > 0 ==> table[i].0.arity() == 0
}

/// Whether growth can put the token into an expression.
///
/// A leaf is plugged in with the probability `p_expression_plug`, as a
/// register with the probability `p_prefer_reg_over_num` and else as a
/// literal; otherwise an entry is drawn from the table. So an operator needs
/// an entry of positive weight and a plug that is not certain. A register
/// needs a plug that is possible together with a preference for registers
/// that is possible, or its stand-in drawn from the table. A literal needs a
/// possible plug together with a preference that is not certain, or its
/// stand-in drawn from the table.
pub open spec fn drawn_token(t: Token, params: &Params) -> bool {
    let plug = params.growing.p_expression_plug;
    let prefer = params.growing.p_prefer_reg_over_num;
    let table = params.growing.d_expr@;
    match t {
        Token::Reg(n) => {
            &&& n < params.memsize
            &&& (plug.numerator > 0 && prefer.numerator > 0 || plug.numerator < plug.denominator
                && offers(table, Expr::Reg(0)))
        },
        Token::Expr(Expr::Num(v)) => {
            &&& params.growing.min_const <= v < params.growing.max_const
            &&& (plug.numerator > 0 && prefer.numerator < prefer.denominator || plug.numerator
                < plug.denominator && offers(table, Expr::Num(0)))
        },
        Token::Expr(Expr::Reg(_)) => false,
        Token::Expr(op) => plug.numerator < plug.denominator && offers(table, op),
        _ => false,
    }
}

/// Growth can put every token of the code into an expression.
pub open spec fn all_drawn(code: Seq<Token>, params: &Params) -> bool {
    forall|i: int| 0 <= i < code.len() ==> drawn_token(#[trigger] code[i], params)
}

/// An expression as growth yields it: complete, with registers and literals
/// as the parameters allow, and made of tokens that growth can draw.
pub open spec fn grown_expression(code: Seq<Token>, params: &Params) -> bool {
    &&& is_expression(code)
    &&& fits(code, params)
    &&& all_drawn(code, params)
}

/// Code joined from parts that growth can draw is code that growth can
/// draw.
proof fn lemma_all_drawn_concat(a: Seq<Token>, b: Seq<Token>, params: &Params)
    requires
        all_drawn(a, params),
        all_drawn(b, params),
    ensures
        all_drawn(a + b, params),
{
    assert forall|i: int| 0 <= i < (a + b).len() implies drawn_token(
        #[trigger] (a + b)[i],
        params,
    ) by {
        if i < a.len() {
            assert((a + b)[i] == a[i]);
        } else {
            assert((a + b)[i] == b[i - a.len()]);
        }
    }
}

/// A drawn token alone is a leaf as growth yields it.
proof fn lemma_grown_leaf(leaf: Token, params: &Params)
    requires
        leaf is Reg || leaf matches Token::Expr(Expr::Num(_)),
        drawn_token(leaf, params),
    ensures
        grown_expression(seq![leaf], params),
{
    lemma_leaf_expression(leaf);
    lemma_leaf_fits(leaf, params);
}

/// Grows a random expression of at most `budget` tokens.
///
/// With the configured probability the expression is a leaf: a register or a
/// literal. Otherwise an entry is drawn from the weighted table; a stand-in
/// becomes a leaf, and an operator is followed by as many grown operands as
/// it takes. The result is `None` when the expression would not fit the
/// budget.
#[verifier::rlimit(30)]
pub fn grow_expr(params: &Params, rand: &mut StdRng, budget: usize) -> (grown: Option<Vec<Token>>)
    requires
        params.wf(),
    ensures
        grown matches Some(code) ==> grown_expression(code@, params) && 0 < code.len() <= budget,
        budget == 0 ==> grown.is_none(),
        budget > 0 && (certain_leaf(params) || only_leaves(params.growing.d_expr@)) ==> (
        grown matches Some(code) && code.len() == 1),
    decreases budget,
{
    if budget == 0 {
        return None;
    }
    let mut code: Vec<Token> = Vec::new();
    if random_bool(rand, params.growing.p_expression_plug) {
        let leaf = if random_bool(rand, params.growing.p_prefer_reg_over_num) {
            rand_reg(params, rand)
        } else {
            rand_const(params, rand)
        };
        code.push(leaf);
        proof {
            assert(code@ =~= seq![leaf]);
            lemma_grown_leaf(leaf, params);
        }
        return Some(code);
    }
    let weights = expr_weights_of(&params.growing.d_expr);
    let drawn = weighted_index(rand, &weighted_table(&weights));
    let e = params.growing.d_expr[drawn].0;
    let head = draw_token(e, params, rand);
    code.push(head);
    proof {
        assert(code@ =~= seq![head]);
        assert(params.growing.d_expr@[drawn as int].1 > 0);
        assert(offers(params.growing.d_expr@, e));
        assert(drawn_token(head, params)) by {
            match e {
                Expr::Reg(_) => {
                    assert(same_kind(e, Expr::Reg(0)));
                    assert(offers(params.growing.d_expr@, Expr::Reg(0)));
                },
                Expr::Num(_) => {
                    assert(same_kind(e, Expr::Num(0)));
                    assert(offers(params.growing.d_expr@, Expr::Num(0)));
                },
                _ => {},
            }
        }
        assert(all_drawn(seq![head], params));
        lemma_leaf_fits(head, params);
    }
    if e.argnum() == 0 {
        proof {
            lemma_grown_leaf(head, params);
        }
        return Some(code);
    }
    let first = match grow_expr(params, rand, budget - 1) {
        Some(first) => first,
        None => {
            return None;
        },
    };
    append_all(&mut code, &first);
    proof {
        lemma_fits_concat(seq![head], first@, params);
        lemma_all_drawn_concat(seq![head], first@, params);
    }
    match e {
        Expr::NOT => {
            proof {
                lemma_unary_expression(first@);
            }
            Some(code)
        },
        _ => {
            let second = match grow_expr(params, rand, budget - 1 - first.len()) {
                Some(second) => second,
                None => {
                    return None;
                },
            };
            append_all(&mut code, &second);
            proof {
                lemma_binary_expression(e, first@, second@);
                lemma_fits_concat(seq![head] + first@, second@, params);
                lemma_all_drawn_concat(seq![head] + first@, second@, params);
            }
            Some(code)
        },
    }
}

/// The body every grown loop has: a `LOAD` of the first register into
/// itself.
pub open spec fn guard() -> Seq<Token> {
    seq![Token::Stat(Stat::LOAD), Token::Reg(0), Token::Reg(0)]
}

/// Whether the table can yield the operator.
pub open spec fn can_yield(table: Seq<(Stat, u32)>, stat: Stat) -> bool {
    exists|i: int| 0 <= i < table.len() && (#[trigger] table[i]).1 > 0 && table[i].0 == stat
}

/// The shapes growth gives a statement.
///
/// The operator is one the table can yield. `INPUT` reads into a register;
/// `OUTPUT` writes a grown expression; `LOAD` stores a grown expression in a
/// register; `WHILE` has a grown condition and the [`guard`] as its body;
/// `IF` has a grown condition and one grown statement as its first branch,
/// and either no second branch or one that holds at most one grown
/// statement.
pub open spec fn grown(code: Seq<Token>, params: &Params) -> bool
    decreases code.len(),
{
    &&& code.len() >= 2
    &&& code[0] is Stat
    &&& can_yield(params.growing.d_stat@, code[0]->Stat_0)
    &&& match code[0] {
        Token::Stat(Stat::INPUT) => code.len() == 2 && code[1] is Reg,
        Token::Stat(Stat::OUTPUT) => grown_expression(
            code.subrange(1, code.len() as int),
            params,
        ),
        Token::Stat(Stat::LOAD) => code[1] is Reg && grown_expression(
            code.subrange(2, code.len() as int),
            params,
        ),
        Token::Stat(Stat::WHILE) => exists|cond: Seq<Token>|
            {
                &&& grown_expression(cond, params)
                &&& code == #[trigger] (seq![Token::Stat(Stat::WHILE)] + cond) + guard()
                    + seq![Token::END]
            },
        Token::Stat(Stat::IF) => {
            ||| exists|cond: Seq<Token>, inside: Seq<Token>|
                {
                    &&& grown_expression(cond, params)
                    &&& inside.len() < code.len()
                    &&& grown(inside, params)
                    &&& code == #[trigger] (seq![Token::Stat(Stat::IF)] + cond + inside)
                        + seq![Token::END]
                }
            ||| exists|cond: Seq<Token>, inside: Seq<Token>, other: Seq<Token>|
                {
                    &&& grown_expression(cond, params)
                    &&& inside.len() < code.len()
                    &&& grown(inside, params)
                    &&& other.len() < code.len()
                    &&& other.len() == 0 || grown(other, params)
                    &&& code == #[trigger] (seq![Token::Stat(Stat::IF)] + cond + inside
                        + seq![Token::ELSE] + other) + seq![Token::END]
                }
        },
        _ => false,
    }
}

/// What growth establishes of a statement: it is a complete statement of a
/// grown shape whose registers and literals are those the parameters allow.
pub open spec fn sound_statement(code: Seq<Token>, params: &Params) -> bool {
    &&& is_statement(code)
    &&& grown(code, params)
    &&& fits(code, params)
}

/// An `INPUT` into an existing register is a sound statement.
proof fn lemma_grown_input(n: usize, params: &Params)
    requires
        n < params.memsize,
        can_yield(params.growing.d_stat@, Stat::INPUT),
    ensures
        sound_statement(seq![Token::Stat(Stat::INPUT), Token::Reg(n)], params),
{
    lemma_input_statement(n);
}

/// An `OUTPUT` of a sound expression is a sound statement.
proof fn lemma_grown_output(expr: Seq<Token>, params: &Params)
    requires
        grown_expression(expr, params),
        can_yield(params.growing.d_stat@, Stat::OUTPUT),
    ensures
        sound_statement(seq![Token::Stat(Stat::OUTPUT)] + expr, params),
{
    let head = Token::Stat(Stat::OUTPUT);
    let code = seq![head] + expr;
    lemma_output_statement(expr);
    lemma_leaf_fits(head, params);
    lemma_fits_concat(seq![head], expr, params);
    assert(code.subrange(1, code.len() as int) =~= expr);
    if expr.len() == 0 {
        assert(parse(seq![Expect::Expression], expr) == Some(seq![Expect::Expression]));
        assert(seq![Expect::Expression].len() == 1);
    }
}

/// A `LOAD` of a sound expression into an existing register is a sound
/// statement.
proof fn lemma_grown_load(n: usize, expr: Seq<Token>, params: &Params)
    requires
        n < params.memsize,
        grown_expression(expr, params),
        can_yield(params.growing.d_stat@, Stat::LOAD),
    ensures
        sound_statement(seq![Token::Stat(Stat::LOAD), Token::Reg(n)] + expr, params),
{
    let code = seq![Token::Stat(Stat::LOAD), Token::Reg(n)] + expr;
    lemma_load_statement(n, expr);
    lemma_fits_concat(seq![Token::Stat(Stat::LOAD), Token::Reg(n)], expr, params);
    assert(code.subrange(2, code.len() as int) =~= expr);
}

/// A `WHILE` with a sound condition and the guard as its body is a sound
/// statement, when there is a first register.
proof fn lemma_grown_while(cond: Seq<Token>, params: &Params)
    requires
        params.memsize > 0,
        grown_expression(cond, params),
        can_yield(params.growing.d_stat@, Stat::WHILE),
    ensures
        sound_statement(
            seq![Token::Stat(Stat::WHILE)] + cond + guard() + seq![Token::END],
            params,
        ),
{
    let head = Token::Stat(Stat::WHILE);
    let body = guard();
    let code = seq![head] + cond + body + seq![Token::END];
    lemma_leaf_expression(Token::Reg(0));
    lemma_load_statement(0, seq![Token::Reg(0)]);
    assert(seq![Token::Stat(Stat::LOAD), Token::Reg(0)] + seq![Token::Reg(0)] =~= body);
    lemma_single_statement(body);
    lemma_while_statement(cond, body);
    lemma_leaf_fits(head, params);
    lemma_leaf_fits(Token::END, params);
    lemma_fits_concat(seq![head], cond, params);
    lemma_fits_concat(seq![head] + cond, body, params);
    lemma_fits_concat(seq![head] + cond + body, seq![Token::END], params);
    assert(code == (seq![head] + cond) + guard() + seq![Token::END]);
}

/// An `IF` with a sound condition and a sound statement as its only branch
/// is a sound statement.
proof fn lemma_grown_if(cond: Seq<Token>, inside: Seq<Token>, params: &Params)
    requires
        grown_expression(cond, params),
        can_yield(params.growing.d_stat@, Stat::IF),
        sound_statement(inside, params),
    ensures
        sound_statement(seq![Token::Stat(Stat::IF)] + cond + inside + seq![Token::END], params),
{
    let head = Token::Stat(Stat::IF);
    let code = seq![head] + cond + inside + seq![Token::END];
    lemma_single_statement(inside);
    lemma_if_statement(cond, inside);
    lemma_leaf_fits(head, params);
    lemma_leaf_fits(Token::END, params);
    lemma_fits_concat(seq![head], cond, params);
    lemma_fits_concat(seq![head] + cond, inside, params);
    lemma_fits_concat(seq![head] + cond + inside, seq![Token::END], params);
    assert(code == (seq![head] + cond + inside) + seq![Token::END]);
}

/// An `IF` with a sound condition, a sound statement as its first branch
/// and nothing or a sound statement as its second is a sound statement.
proof fn lemma_grown_if_else(
    cond: Seq<Token>,
    inside: Seq<Token>,
    other: Seq<Token>,
    params: &Params,
)
    requires
        grown_expression(cond, params),
        can_yield(params.growing.d_stat@, Stat::IF),
        sound_statement(inside, params),
        other.len() == 0 || sound_statement(other, params),
    ensures
        sound_statement(
            seq![Token::Stat(Stat::IF)] + cond + inside + seq![Token::ELSE] + other
                + seq![Token::END],
            params,
        ),
{
    let head = Token::Stat(Stat::IF);
    let code = seq![head] + cond + inside + seq![Token::ELSE] + other + seq![Token::END];
    lemma_single_statement(inside);
    if other.len() > 0 {
        lemma_single_statement(other);
    }
    lemma_if_else_statement(cond, inside, other);
    lemma_leaf_fits(head, params);
    lemma_leaf_fits(Token::ELSE, params);
    lemma_leaf_fits(Token::END, params);
    lemma_fits_concat(seq![head], cond, params);
    lemma_fits_concat(seq![head] + cond, inside, params);
    lemma_fits_concat(seq![head] + cond + inside, seq![Token::ELSE], params);
    lemma_fits_concat(seq![head] + cond + inside + seq![Token::ELSE], other, params);
    lemma_fits_concat(
        seq![head] + cond + inside + seq![Token::ELSE] + other,
        seq![Token::END],
        params,
    );
    assert(code == (seq![head] + cond + inside + seq![Token::ELSE] + other) + seq![Token::END]);
}

/// Grows the operands of an `IF` of at most `size_left` tokens: a condition
/// and a statement, then either `END` or `ELSE`, another statement and
/// `END`. The result is empty when the condition does not fit or no first
/// statement could be grown.
///
/// What is grown starts with `IF`, ends with `END` and has at most two
/// tokens more than `size_left`. Nothing is grown in fewer than five tokens,
/// nor when `size_left` is below four. Where
/// every expression is certainly a leaf and the table yields `INPUT` only,
/// the statement is certainly grown: the condition, one `INPUT` and `END`,
/// or, with room for it, a second branch of one `INPUT` as well.
#[verifier::rlimit(30)]
fn grow_if(size_left: usize, params: &Params, rand: &mut StdRng) -> (code: Vec<Token>)
    requires
        params.wf(),
        size_left > 0,
        can_yield(params.growing.d_stat@, Stat::IF),
    ensures
        code.len() == 0 || sound_statement(code@, params),
        code.len() > 0 ==> {
            &&& code[0] == Token::Stat(Stat::IF)
            &&& code[code.len() - 1] == Token::END
            &&& 5 <= code.len() <= size_left + 2
        },
        size_left < 4 ==> code.len() == 0,
        size_left >= 4 && params.growing.p_expression_plug.numerator
            == params.growing.p_expression_plug.denominator && only_input(params.growing.d_stat@)
            ==> code.len() == 5 || (size_left >= 12 && code.len() == 8),
    decreases size_left, 0nat,
{
    let head = Token::Stat(Stat::IF);
    let mut code: Vec<Token> = Vec::new();
    code.push(head);
    assert(code@ =~= seq![head]);
    let cond = match grow_expr(params, rand, size_left - 1) {
        Some(cond) => cond,
        None => {
            return Vec::new();
        },
    };
    append_all(&mut code, &cond);
    let space = size_left - code.len();
    let inside = grow_stat(space, params, rand);
    if inside.len() == 0 {
        return Vec::new();
    }
    append_all(&mut code, &inside);
    let space = size_left - code.len();
    if space < 8 || random_bool(rand, Probability { numerator: 1, denominator: 2 }) {
        code.push(Token::END);
        proof {
            assert(code@ =~= seq![head] + cond@ + inside@ + seq![Token::END]);
            lemma_grown_if(cond@, inside@, params);
        }
    } else {
        code.push(Token::ELSE);
        let otherwise = grow_stat(space, params, rand);
        append_all(&mut code, &otherwise);
        code.push(Token::END);
        proof {
            assert(code@ =~= seq![head] + cond@ + inside@ + seq![Token::ELSE] + otherwise@
                + seq![Token::END]);
            lemma_grown_if_else(cond@, inside@, otherwise@, params);
        }
    }
    code
}

/// Grows the operands of a statement that holds no block: a register for
/// `INPUT`, an expression for `OUTPUT`, a register and an expression for
/// `LOAD`, and for `WHILE` a condition with the guard as the body. The
/// result is empty when the expression does not fit `size_left` tokens.
#[verifier::rlimit(30)]
fn grow_simple(stat: Stat, size_left: usize, params: &Params, rand: &mut StdRng) -> (code: Vec<
    Token,
>)
    requires
        params.wf(),
        size_left > 0,
        stat != Stat::IF,
        can_yield(params.growing.d_stat@, stat),
    ensures
        code.len() == 0 || sound_statement(code@, params),
        code.len() > 0 ==> code[0] == Token::Stat(stat),
        stat == Stat::INPUT ==> code.len() == 2 && code[0] == Token::Stat(Stat::INPUT),
        certain_leaf(params) && size_left > 1 ==> code.len() == simple_length(stat),
{
    let head = Token::Stat(stat);
    let mut code: Vec<Token> = Vec::new();
    code.push(head);
    assert(code@ =~= seq![head]);
    match stat {
        Stat::INPUT => {
            let reg = rand_reg(params, rand);
            code.push(reg);
            proof {
                assert(code@ =~= seq![head, reg]);
                lemma_grown_input(reg->Reg_0, params);
            }
        },
        Stat::OUTPUT => {
            let expr = match grow_expr(params, rand, size_left - 1) {
                Some(expr) => expr,
                None => {
                    return Vec::new();
                },
            };
            append_all(&mut code, &expr);
            proof {
                lemma_grown_output(expr@, params);
            }
        },
        Stat::LOAD => {
            let reg = rand_reg(params, rand);
            code.push(reg);
            assert(code@ =~= seq![head, reg]);
            let expr = match grow_expr(params, rand, size_left - 1) {
                Some(expr) => expr,
                None => {
                    return Vec::new();
                },
            };
            append_all(&mut code, &expr);
            proof {
                lemma_grown_load(reg->Reg_0, expr@, params);
            }
        },
        _ => {
            let cond = match grow_expr(params, rand, size_left - 1) {
                Some(cond) => cond,
                None => {
                    return Vec::new();
                },
            };
            append_all(&mut code, &cond);
            code.push(Token::Stat(Stat::LOAD));
            code.push(Token::Reg(0));
            code.push(Token::Reg(0));
            code.push(Token::END);
            proof {
                assert(code@ =~= seq![head] + cond@ + guard() + seq![Token::END]);
                lemma_grown_while(cond@, params);
            }
        },
    }
    code
}

/// The number of tokens of a grown statement that holds no `IF` and whose
/// expressions are single leaves.
pub open spec fn simple_length(stat: Stat) -> nat {
    match stat {
        Stat::INPUT => 2,
        Stat::OUTPUT => 2,
        Stat::LOAD => 3,
        Stat::WHILE => 6,
        Stat::IF => 0,
    }
}

/// Whether a statement of at most `size_left` tokens is certain to be
/// grown: no operator the table can yield is `IF`, each fits, and each but
/// `INPUT` has single leaves for its expressions.
pub open spec fn certain_growth(params: &Params, size_left: usize) -> bool {
    forall|i: int|
        0 <= i < params.growing.d_stat.len() && (#[trigger] params.growing.d_stat[i]).1 > 0 ==> {
            &&& params.growing.d_stat[i].0 != Stat::IF
            &&& simple_length(params.growing.d_stat[i].0) <= size_left
            &&& (params.growing.d_stat[i].0 == Stat::INPUT || certain_leaf(params))
        }
}

/// Whether `INPUT` is the only statement operator the table can yield.
pub open spec fn only_input(table: Seq<(Stat, u32)>) -> bool {
    forall|i: int| 0 <= i < table.len() && (#[trigger] table[i]).1 > 0 ==> table[i].0 == Stat::INPUT
}

/// Grows one random statement of at most `size_left` tokens.
///
/// A statement operator is drawn from the weighted table and its operands
/// are built: a register for `INPUT`; an expression for `OUTPUT`; a register
/// and an expression for `LOAD`; a condition and a statement, then either
/// `END` or `ELSE`, another statement and `END`, for `IF`; a condition, a
/// `LOAD` of the first register and `END` for `WHILE`. Whenever the
/// statement does not fit, nothing is grown and the result is empty.
#[verifier::rlimit(30)]
pub fn grow_stat(size_left: usize, params: &Params, rand: &mut StdRng) -> (code: Vec<Token>)
    requires
        params.wf(),
    ensures
        well_formed(code@),
        registers_within(code@, params.memsize as nat),
        code.len() > 0 ==> {
            &&& sound_statement(code@, params)
            &&& code.len() <= size_left
            &&& node_end(code@, 0) == Some(code.len() as int)
            &&& can_yield(params.growing.d_stat@, code[0]->Stat_0)
        },
        size_left < 2 ==> code.len() == 0,
        certain_growth(params, size_left) ==> code.len() > 0 && code.len() == simple_length(
            code[0]->Stat_0,
        ),
        size_left >= 2 && only_input(params.growing.d_stat@) ==> code.len() == 2 && code[0]
            == Token::Stat(Stat::INPUT),
    decreases size_left, 1nat,
{
    let weights = stat_weights_of(&params.growing.d_stat);
    let drawn = weighted_index(rand, &weighted_table(&weights));
    let stat: Stat = params.growing.d_stat[drawn].0;
    assert(params.growing.d_stat@[drawn as int].1 > 0);
    if size_left == 0 {
        return Vec::new();
    }
    let code = match stat {
        Stat::IF => grow_if(size_left, params, rand),
        _ => grow_simple(stat, size_left, params, rand),
    };
    if code.len() > 0 && code.len() <= size_left {
        proof {
            lemma_single_statement(code@);
        }
        code
    } else {
        Vec::new()
    }
}

/// The shape of a random individual: the fixed prefix, up to two grown
/// statements of at most `max_size` tokens each, and the fixed suffix.
pub open spec fn random_individual(program: Seq<Token>, params: &Params) -> bool {
    exists|first: Seq<Token>, second: Seq<Token>|
        {
            &&& program == #[trigger] (params.prefix@ + first + second) + params.suffix@
            &&& (first.len() == 0 || sound_statement(first, params) && first.len()
                <= params.max_size)
            &&& (second.len() == 0 || sound_statement(second, params) && second.len()
                <= params.max_size)
        }
}

/// The shape of a random individual both of whose statements were grown.
pub open spec fn full_individual(program: Seq<Token>, params: &Params) -> bool {
    exists|first: Seq<Token>, second: Seq<Token>|
        {
            &&& program == #[trigger] (params.prefix@ + first + second) + params.suffix@
            &&& sound_statement(first, params)
            &&& sound_statement(second, params)
            &&& first.len() == simple_length(first[0]->Stat_0)
            &&& second.len() == simple_length(second[0]->Stat_0)
        }
}

/// A random individual: the fixed prefix, two grown statements and the
/// fixed suffix. A statement that could not be grown adds nothing. Where
/// growth is certain, both statements are there.
#[verifier::rlimit(30)]
pub fn create_random_indiv(params: &Params, rand: &mut StdRng) -> (program: Program)
    requires
        params.wf(),
    ensures
        well_formed(program@),
        registers_within(program@, params.memsize as nat),
        random_individual(program@, params),
        certain_growth(params, params.max_size) ==> full_individual(program@, params),
{
    let mut program: Program = Vec::new();
    append_all(&mut program, &params.prefix);
    let first = grow_stat(params.max_size, params, rand);
    append_all(&mut program, &first);
    let second = grow_stat(params.max_size, params, rand);
    append_all(&mut program, &second);
    append_all(&mut program, &params.suffix);
    proof {
        let memsize = params.memsize as nat;
        assert(Seq::<Token>::empty() + params.prefix@ =~= params.prefix@);
        lemma_well_formed_concat(params.prefix@, first@);
        lemma_well_formed_concat(params.prefix@ + first@, second@);
        lemma_well_formed_concat(params.prefix@ + first@ + second@, params.suffix@);
        lemma_registers_concat(params.prefix@, first@, memsize);
        lemma_registers_concat(params.prefix@ + first@, second@, memsize);
        lemma_registers_concat(params.prefix@ + first@ + second@, params.suffix@, memsize);
    }
    program
}

} // verus!
