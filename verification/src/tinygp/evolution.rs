//! The genetic operators and selection.

use vstd::prelude::*;
use rand::rngs::StdRng;
use crate::params::{Case, Params, Fitness, total_weight, expr_weights, lemma_total_weight_prefix};
use super::common::{
    Expr,
    Stat,
    Token,
    Program,
    Number,
    node_end,
    same_variant,
    variant_eq,
    get_node_end,
    append_range,
    append_all,
    lemma_node_end_bounds,
};
use super::grammar::{
    Expect,
    step,
    parse,
    well_formed,
    registers_within,
    lemma_parse_concat,
    lemma_parse_first,
    lemma_parse_single,
    lemma_parse_split,
    lemma_parse_extend,
    lemma_expression_anywhere,
    lemma_statements_anywhere,
    lemma_registers_concat,
    lemma_registers_subrange,
};
use super::structure::{
    done,
    lemma_expression_extent,
    lemma_statement_extent,
    lemma_node_end_of_well_formed,
    lemma_single_statement,
};
use super::growing::{grow_stat, sound_statement, draw_token, drawn_as};
use super::random::{
    random_index,
    random_number,
    random_bool,
    random_candidate,
    weighted_index,
    weighted_table,
};
use super::execution::{Runtime, start, zeroed, block_effect, execute};
use super::fitness_funcs::{FitnessFunc, bounded, accumulate};

verus! {

/// The score of a program on one case, run from the given registers.
pub open spec fn case_score(
    program: Seq<Token>,
    memory: Seq<Number>,
    case: Case,
    fitness_func: FitnessFunc,
) -> Fitness {
    let m = block_effect(program, 0, start(memory, case.0@)).0;
    fitness_func.score_of(case.1@, m.output, m)
}

/// The sum of the scores of a program on the first `k` cases, the case of
/// each number run from the registers of the same number.
pub open spec fn total_score_from(
    program: Seq<Token>,
    memories: Seq<Seq<Number>>,
    cases: Seq<Case>,
    fitness_func: FitnessFunc,
    k: nat,
) -> Fitness
    decreases k,
{
    if k == 0 {
        0i64
    } else {
        bounded(
            total_score_from(program, memories, cases, fitness_func, (k - 1) as nat) + case_score(
                program,
                memories[k - 1],
                cases[k - 1],
                fitness_func,
            ),
        )
    }
}

/// The sum of the scores of a program on the first `k` cases, each run
/// from zeroed registers.
pub open spec fn total_score(
    program: Seq<Token>,
    memsize: nat,
    cases: Seq<Case>,
    fitness_func: FitnessFunc,
    k: nat,
) -> Fitness {
    total_score_from(
        program,
        Seq::new(cases.len(), |i: int| zeroed(memsize)),
        cases,
        fitness_func,
        k,
    )
}

/// Registers as a run may find them: zeroed or, when the parameters ask for
/// random registers, filled with numbers from the range of literals.
pub open spec fn initial_memory(memory: Seq<Number>, params: &Params) -> bool {
    if params.random_initial_memory {
        &&& memory.len() == params.memsize
        &&& forall|i: int|
            0 <= i < memory.len() ==> params.growing.min_const <= #[trigger] memory[i]
                < params.growing.max_const
    } else {
        memory == zeroed(params.memsize as nat)
    }
}

/// `fitness` is the sum of the scores of a program on the cases, each case
/// run from registers as a run may find them.
pub open spec fn ranked(
    program: Seq<Token>,
    fitness: Fitness,
    params: &Params,
    cases: Seq<Case>,
    fitness_func: FitnessFunc,
) -> bool {
    exists|memories: Seq<Seq<Number>>|
        {
            &&& memories.len() == cases.len()
            &&& forall|i: int|
                0 <= i < memories.len() ==> initial_memory(#[trigger] memories[i], params)
            &&& fitness == #[trigger] total_score_from(
                program,
                memories,
                cases,
                fitness_func,
                cases.len(),
            )
        }
}

/// The total depends only on the registers of the cases it covers.
proof fn lemma_total_score_from_prefix(
    program: Seq<Token>,
    memories: Seq<Seq<Number>>,
    longer: Seq<Seq<Number>>,
    cases: Seq<Case>,
    fitness_func: FitnessFunc,
    k: nat,
)
    requires
        k <= memories.len() <= longer.len(),
        forall|i: int| 0 <= i < memories.len() ==> memories[i] == longer[i],
    ensures
        total_score_from(program, memories, cases, fitness_func, k) == total_score_from(
            program,
            longer,
            cases,
            fitness_func,
            k,
        ),
    decreases k,
{
    if k > 0 {
        lemma_total_score_from_prefix(
            program,
            memories,
            longer,
            cases,
            fitness_func,
            (k - 1) as nat,
        );
    }
}

/// Whether the strategy can score every case.
pub open spec fn scorable(cases: Seq<Case>, fitness_func: FitnessFunc) -> bool {
    forall|i: int| 0 <= i < cases.len() ==> fitness_func.accepts(#[trigger] cases[i].1@)
}

/// Decides whether the strategy can score every case.
pub fn is_scorable(cases: &Vec<Case>, fitness_func: FitnessFunc) -> (ok: bool)
    ensures
        ok == scorable(cases@, fitness_func),
{
    match fitness_func {
        FitnessFunc::FitExactReading | FitnessFunc::FitArithmeticSeries => {
            return true;
        },
        _ => {},
    }
    let mut i: usize = 0;
    while i < cases.len()
        invariant
            i <= cases.len(),
            forall|expected: Seq<Number>|
                #[trigger] fitness_func.accepts(expected) == (expected.len() > 0),
            forall|k: int| 0 <= k < i ==> fitness_func.accepts(#[trigger] cases[k].1@),
        decreases cases.len() - i,
    {
        if cases[i].1.len() == 0 {
            return false;
        }
        i += 1;
    }
    true
}

/// A copy of a sequence of numbers.
pub fn copy_numbers(numbers: &Vec<Number>) -> (copy: Vec<Number>)
    ensures
        copy@ == numbers@,
{
    let mut copy: Vec<Number> = Vec::new();
    let mut i: usize = 0;
    while i < numbers.len()
        invariant
            i <= numbers.len(),
            copy@ == numbers@.subrange(0, i as int),
        decreases numbers.len() - i,
    {
        copy.push(numbers[i]);
        i += 1;
        assert(copy@ =~= numbers@.subrange(0, i as int));
    }
    assert(numbers@.subrange(0, i as int) =~= numbers@);
    copy
}

/// Registers filled with random numbers from the range of literals.
fn random_memory(params: &Params, rand: &mut StdRng) -> (memory: Vec<Number>)
    requires
        params.growing.min_const < params.growing.max_const,
    ensures
        memory.len() == params.memsize,
        forall|i: int|
            0 <= i < memory.len() ==> params.growing.min_const <= #[trigger] memory[i]
                < params.growing.max_const,
{
    let mut memory: Vec<Number> = Vec::new();
    while memory.len() < params.memsize
        invariant
            params.growing.min_const < params.growing.max_const,
            memory.len() <= params.memsize,
            forall|i: int|
                0 <= i < memory.len() ==> params.growing.min_const <= #[trigger] memory[i]
                    < params.growing.max_const,
        decreases params.memsize - memory.len(),
    {
        memory.push(random_number(rand, params.growing.min_const, params.growing.max_const));
    }
    memory
}

/// Runs a program on every case and sums the scores.
///
/// Each case runs in a runtime of its own, on the case's inputs, with
/// registers that hold zero or, when the parameters ask for it, random
/// numbers from the range of literals.
pub fn run_and_rank(
    program: &Program,
    params: &Params,
    cases: &Vec<Case>,
    fitness_func: FitnessFunc,
    rand: &mut StdRng,
) -> (fitness: Fitness)
    requires
        scorable(cases@, fitness_func),
        params.random_initial_memory ==> params.growing.min_const < params.growing.max_const,
    ensures
        ranked(program@, fitness, params, cases@, fitness_func),
        !params.random_initial_memory ==> fitness == total_score(
            program@,
            params.memsize as nat,
            cases@,
            fitness_func,
            cases.len() as nat,
        ),
{
    let mut fitness: Fitness = 0;
    let mut i: usize = 0;
    let ghost mut memories: Seq<Seq<Number>> = Seq::empty();
    while i < cases.len()
        invariant
            i <= cases.len(),
            scorable(cases@, fitness_func),
            params.random_initial_memory ==> params.growing.min_const < params.growing.max_const,
            memories.len() == i,
            forall|k: int| 0 <= k < i ==> initial_memory(#[trigger] memories[k], params),
            fitness == total_score_from(program@, memories, cases@, fitness_func, i as nat),
        decreases cases.len() - i,
    {
        let inputs = copy_numbers(&cases[i].0);
        let mut runtime = if params.random_initial_memory {
            Runtime::with_memory(random_memory(params, rand), inputs)
        } else {
            Runtime::new(params.memsize, inputs)
        };
        proof {
            let longer = memories.push(runtime@.memory);
            lemma_total_score_from_prefix(
                program@,
                memories,
                longer,
                cases@,
                fitness_func,
                i as nat,
            );
            memories = longer;
        }
        let _ = execute(program, &mut runtime);
        let score = fitness_func.score(&cases[i].1, &runtime.output, &runtime);
        fitness = accumulate(fitness, score);
        i += 1;
    }
    proof {
        if !params.random_initial_memory {
            let zeros = Seq::new(cases.len() as nat, |i: int| zeroed(params.memsize as nat));
            assert(memories =~= zeros);
        }
    }
    fitness
}

/// Tokens at which crossover never cuts: those that open or divide a block.
pub open spec fn is_anchor(t: Token) -> bool {
    t == Token::Stat(Stat::IF) || t == Token::Stat(Stat::WHILE) || t == Token::ELSE
}

/// Whether the subtree under a token `donor` may take the place of the
/// subtree under `cut`: both are of the same kind and `cut` is no anchor.
pub open spec fn compatible(cut: Token, donor: Token) -> bool {
    same_variant(cut, donor) && !is_anchor(cut)
}

/// The father with the node at `a` replaced by the mother's node at `b`.
pub open spec fn spliced(father: Seq<Token>, a: int, mother: Seq<Token>, b: int) -> Seq<Token> {
    father.subrange(0, a) + mother.subrange(b, node_end(mother, b).unwrap()) + father.subrange(
        node_end(father, a).unwrap(),
        father.len() as int,
    )
}

/// Whether crossover may cut at a token of this kind.
fn is_cut_point(t: &Token) -> (r: bool)
    ensures
        r == !is_anchor(*t),
{
    match t {
        Token::Stat(Stat::IF) | Token::Stat(Stat::WHILE) | Token::ELSE => false,
        _ => true,
    }
}

/// The indices of the mother at which a donor subtree for a cut at a token
/// `cut` starts, in increasing order.
pub fn compatible_starts(cut: &Token, mother: &Program) -> (starts: Vec<usize>)
    ensures
        forall|j: int|
            0 <= j < starts.len() ==> #[trigger] starts[j] < mother.len() && compatible(
                *cut,
                mother[starts[j] as int],
            ),
        forall|i: int|
            0 <= i < mother.len() && compatible(*cut, #[trigger] mother[i]) ==> starts@.contains(
                i as usize,
            ),
        forall|j: int, k: int| 0 <= j < k < starts.len() ==> starts[j] < starts[k],
{
    let mut starts: Vec<usize> = Vec::new();
    if !is_cut_point(cut) {
        return starts;
    }
    let mut i: usize = 0;
    while i < mother.len()
        invariant
            i <= mother.len(),
            !is_anchor(*cut),
            forall|j: int|
                0 <= j < starts.len() ==> #[trigger] starts[j] < i && compatible(
                    *cut,
                    mother[starts[j] as int],
                ),
            forall|k: int|
                0 <= k < i && compatible(*cut, #[trigger] mother[k]) ==> starts@.contains(
                    k as usize,
                ),
            forall|j: int, k: int| 0 <= j < k < starts.len() ==> starts[j] < starts[k],
        decreases mother.len() - i,
    {
        if variant_eq(cut, &mother[i]) {
            let ghost before = starts@;
            starts.push(i);
            assert forall|k: int|
                0 <= k < i + 1 && compatible(*cut, #[trigger] mother[k]) implies starts@.contains(
                k as usize,
            ) by {
                if k < i {
                    let j = choose|j: int| 0 <= j < before.len() && before[j] == k as usize;
                    assert(starts@[j] == k as usize);
                } else {
                    assert(starts@[starts.len() - 1] == i);
                }
            }
        }
        i += 1;
    }
    starts
}

/// The state of the recognizer before position `a` of a well-formed
/// program, from which the rest of the program leads to the end.
proof fn lemma_state_before(p: Seq<Token>, a: int) -> (s: Seq<Expect>)
    requires
        well_formed(p),
        0 <= a < p.len(),
    ensures
        parse(done(), p.subrange(0, a)) == Some(s),
        parse(s, p.subrange(a, p.len() as int)) == Some(done()),
        step(s, p[a]).is_some(),
        s.len() > 0,
{
    let n = p.len() as int;
    lemma_parse_split(done(), p, a);
    let s = parse(done(), p.subrange(0, a)).unwrap();
    assert(p.subrange(a, n) =~= seq![p[a]] + p.subrange(a + 1, n));
    lemma_parse_first(s, p[a], p.subrange(a + 1, n));
    s
}

/// A program stays well formed when a part of it is replaced by tokens that
/// lead the recognizer to the same state.
proof fn lemma_replace_part(
    p: Seq<Token>,
    a: int,
    e: int,
    donor: Seq<Token>,
    s: Seq<Expect>,
    after: Seq<Expect>,
)
    requires
        0 <= a <= e <= p.len(),
        parse(done(), p.subrange(0, a)) == Some(s),
        parse(s, donor) == Some(after),
        parse(after, p.subrange(e, p.len() as int)) == Some(done()),
    ensures
        well_formed(p.subrange(0, a) + donor + p.subrange(e, p.len() as int)),
{
    let head = p.subrange(0, a);
    let tail = p.subrange(e, p.len() as int);
    lemma_parse_concat(done(), head, donor);
    lemma_parse_concat(done(), head + donor, tail);
}

/// An expression of the father replaced by an expression of the mother.
#[verifier::rlimit(30)]
proof fn lemma_spliced_expression(father: Seq<Token>, a: int, mother: Seq<Token>, b: int)
    requires
        well_formed(father),
        well_formed(mother),
        0 <= a < father.len(),
        0 <= b < mother.len(),
        father[a] is Expr,
        mother[b] is Expr,
    ensures
        node_end(father, a).is_some(),
        node_end(mother, b).is_some(),
        well_formed(spliced(father, a, mother, b)),
{
    let s = lemma_state_before(father, a);
    let t = lemma_state_before(mother, b);
    lemma_expression_extent(father, a, s);
    lemma_expression_extent(mother, b, t);
    let donor = mother.subrange(b, node_end(mother, b).unwrap());
    assert(s =~= s.drop_last().push(Expect::Expression));
    lemma_expression_anywhere(s.drop_last(), donor);
    lemma_replace_part(father, a, node_end(father, a).unwrap(), donor, s, s.drop_last());
}

/// A statement of the father replaced by a statement of the mother.
#[verifier::rlimit(30)]
proof fn lemma_spliced_statement(father: Seq<Token>, a: int, mother: Seq<Token>, b: int)
    requires
        well_formed(father),
        well_formed(mother),
        0 <= a < father.len(),
        0 <= b < mother.len(),
        father[a] is Stat,
        mother[b] is Stat,
    ensures
        node_end(father, a).is_some(),
        node_end(mother, b).is_some(),
        well_formed(spliced(father, a, mother, b)),
{
    let s = lemma_state_before(father, a);
    let t = lemma_state_before(mother, b);
    lemma_statement_extent(father, a, s);
    lemma_statement_extent(mother, b, t);
    let donor = mother.subrange(b, node_end(mother, b).unwrap());
    assert(s =~= s.drop_last().push(s.last()));
    lemma_statements_anywhere(s.drop_last(), s.last(), donor);
    lemma_replace_part(father, a, node_end(father, a).unwrap(), donor, s, s);
}

/// A register or an `END` of the father replaced by one of the mother.
#[verifier::rlimit(30)]
proof fn lemma_spliced_token(father: Seq<Token>, a: int, mother: Seq<Token>, b: int)
    requires
        well_formed(father),
        well_formed(mother),
        0 <= a < father.len(),
        0 <= b < mother.len(),
        father[a] is Reg && mother[b] is Reg || father[a] == Token::END && mother[b] == Token::END,
    ensures
        node_end(father, a) == Some(a + 1),
        node_end(mother, b) == Some(b + 1),
        well_formed(spliced(father, a, mother, b)),
{
    let n = father.len() as int;
    let s = lemma_state_before(father, a);
    let donor = mother.subrange(b, b + 1);
    assert(donor =~= seq![mother[b]]);
    lemma_parse_single(s, mother[b]);
    assert(father.subrange(a, n) =~= seq![father[a]] + father.subrange(a + 1, n));
    lemma_parse_first(s, father[a], father.subrange(a + 1, n));
    lemma_replace_part(father, a, a + 1, donor, s, step(s, father[a]).unwrap());
}

/// Replacing a node of a well-formed father by a compatible node of a
/// well-formed mother leaves a well-formed program.
pub proof fn lemma_spliced_well_formed(father: Seq<Token>, a: int, mother: Seq<Token>, b: int)
    requires
        well_formed(father),
        well_formed(mother),
        0 <= a < father.len(),
        0 <= b < mother.len(),
        compatible(father[a], mother[b]),
    ensures
        node_end(father, a).is_some(),
        node_end(mother, b).is_some(),
        well_formed(spliced(father, a, mother, b)),
{
    match father[a] {
        Token::Expr(_) => lemma_spliced_expression(father, a, mother, b),
        Token::Stat(_) => lemma_spliced_statement(father, a, mother, b),
        _ => lemma_spliced_token(father, a, mother, b),
    }
}

/// Replaces the node of the father at `father_start` by the node of the
/// mother at `mother_start`.
pub fn graft(
    father: &Program,
    father_start: usize,
    mother: &Program,
    mother_start: usize,
) -> (offspring: Program)
    requires
        node_end(father@, father_start as int).is_some(),
        node_end(mother@, mother_start as int).is_some(),
    ensures
        offspring@ == spliced(father@, father_start as int, mother@, mother_start as int),
        offspring.len() == father_start + (node_end(mother@, mother_start as int).unwrap()
            - mother_start) + (father.len() - node_end(father@, father_start as int).unwrap()),
{
    let father_end = get_node_end(father, father_start);
    let mother_end = get_node_end(mother, mother_start);
    let mut offspring: Program = Vec::new();
    append_range(&mut offspring, father, 0, father_start);
    append_range(&mut offspring, mother, mother_start, mother_end);
    append_range(&mut offspring, father, father_end, father.len());
    assert(Seq::<Token>::empty() + father@.subrange(0, father_start as int) =~= father@.subrange(
        0,
        father_start as int,
    ));
    offspring
}

/// A copy of a program.
pub fn copy_program(program: &Program) -> (copy: Program)
    ensures
        copy@ == program@,
{
    let mut copy: Program = Vec::new();
    append_all(&mut copy, program);
    assert(Seq::<Token>::empty() + program@ =~= program@);
    copy
}

/// Whether the mother holds a node that may take the place of the father's
/// node at `a`.
pub open spec fn has_donor(father: Seq<Token>, a: int, mother: Seq<Token>) -> bool {
    exists|b: int| 0 <= b < mother.len() && compatible(father[a], #[trigger] mother[b])
}

/// What crossover yields for a cut at position `a` of the father: the
/// father with that node replaced by a compatible node of the mother, or
/// the father itself when the mother holds no such node.
pub open spec fn crossed_at(
    father: Seq<Token>,
    a: int,
    mother: Seq<Token>,
    offspring: Seq<Token>,
) -> bool {
    if has_donor(father, a, mother) {
        exists|b: int|
            {
                &&& 0 <= b < mother.len()
                &&& compatible(father[a], mother[b])
                &&& offspring == #[trigger] spliced(father, a, mother, b)
                &&& offspring.len() == a + (node_end(mother, b).unwrap() - b) + (father.len()
                    - node_end(father, a).unwrap())
            }
    } else {
        offspring == father
    }
}

/// What crossover yields: the other parent when one is empty, and else what
/// a cut at some position of the father yields.
pub open spec fn crossed(father: Seq<Token>, mother: Seq<Token>, offspring: Seq<Token>) -> bool {
    if father.len() == 0 {
        offspring == mother
    } else if mother.len() == 0 {
        offspring == father
    } else {
        exists|a: int| 0 <= a < father.len() && #[trigger] crossed_at(father, a, mother, offspring)
    }
}

/// Wherever a node of the mother may take the place of a node of the
/// father, both nodes have an end.
pub open spec fn can_cross(father: Seq<Token>, mother: Seq<Token>) -> bool {
    forall|a: int, b: int|
        0 <= a < father.len() && 0 <= b < mother.len() && compatible(
            #[trigger] father[a],
            #[trigger] mother[b],
        ) ==> node_end(father, a).is_some() && node_end(mother, b).is_some()
}

/// Well-formed parents can be crossed.
pub proof fn lemma_well_formed_can_cross(father: Seq<Token>, mother: Seq<Token>)
    requires
        well_formed(father),
        well_formed(mother),
    ensures
        can_cross(father, mother),
{
    assert forall|a: int, b: int|
        0 <= a < father.len() && 0 <= b < mother.len() && compatible(
            #[trigger] father[a],
            #[trigger] mother[b],
        ) implies node_end(father, a).is_some() && node_end(mother, b).is_some() by {
        lemma_node_end_of_well_formed(father, a);
        lemma_node_end_of_well_formed(mother, b);
    }
}

/// Recombines two parents.
///
/// A node of the father is picked at random, then a node of the mother among
/// those compatible with it, and the mother's node takes the place of the
/// father's. When the mother has no compatible node the offspring is the
/// father; when one parent is empty the offspring is the other. Well-formed
/// parents have well-formed offspring.
#[verifier::rlimit(30)]
pub fn crossover(father: &Program, mother: &Program, rand: &mut StdRng) -> (offspring: Program)
    requires
        can_cross(father@, mother@),
    ensures
        crossed(father@, mother@, offspring@),
        well_formed(father@) && well_formed(mother@) ==> well_formed(offspring@),
        forall|memsize: nat|
            registers_within(father@, memsize) && registers_within(mother@, memsize)
                ==> #[trigger] registers_within(offspring@, memsize),
        father.len() == 0 ==> offspring@ == mother@,
        mother.len() == 0 ==> offspring@ == father@,
        father.len() > 0 && (forall|a: int|
            0 <= a < father.len() ==> #[trigger] has_donor(father@, a, mother@)) ==> exists|
            a: int,
            b: int,
        |
            {
                &&& 0 <= a < father.len()
                &&& 0 <= b < mother.len()
                &&& compatible(father[a], mother[b])
                &&& offspring@ == #[trigger] spliced(father@, a, mother@, b)
            },
        father.len() > 0 && (forall|a: int|
            0 <= a < father.len() ==> !#[trigger] has_donor(father@, a, mother@)) ==> offspring@
            == father@,
{
    if father.len() == 0 {
        return copy_program(mother);
    }
    if mother.len() == 0 {
        assert(!has_donor(father@, 0, mother@));
        return copy_program(father);
    }
    let father_start = random_index(rand, father.len());
    let father_kind = father[father_start];
    let candidates = compatible_starts(&father_kind, mother);
    let ghost a = father_start as int;
    let mother_start = match random_candidate(rand, &candidates) {
        Some(i) => i,
        None => {
            let offspring = copy_program(father);
            proof {
                assert(!has_donor(father@, a, mother@)) by {
                    if has_donor(father@, a, mother@) {
                        let b = choose|b: int|
                            0 <= b < mother.len() && compatible(father[a], #[trigger] mother[b]);
                        assert(candidates@.contains(b as usize));
                    }
                }
                assert(crossed_at(father@, a, mother@, offspring@));
            }
            return offspring;
        },
    };
    let ghost b = mother_start as int;
    proof {
        let j = choose|j: int| 0 <= j < candidates.len() && candidates[j] == mother_start;
        assert(candidates[j] < mother.len());
        assert(compatible(father[a], mother[b]));
        if well_formed(father@) && well_formed(mother@) {
            lemma_spliced_well_formed(father@, a, mother@, b);
        }
    }
    let offspring = graft(father, father_start, mother, mother_start);
    proof {
        let fe = node_end(father@, a).unwrap();
        let me = node_end(mother@, b).unwrap();
        lemma_node_end_bounds(father@, a);
        lemma_node_end_bounds(mother@, b);
        assert forall|memsize: nat|
            registers_within(father@, memsize) && registers_within(
                mother@,
                memsize,
            ) implies #[trigger] registers_within(offspring@, memsize) by {
            lemma_registers_subrange(father@, 0, a, memsize);
            lemma_registers_subrange(mother@, b, me, memsize);
            lemma_registers_subrange(father@, fe, father.len() as int, memsize);
            lemma_registers_concat(father@.subrange(0, a), mother@.subrange(b, me), memsize);
            lemma_registers_concat(
                father@.subrange(0, a) + mother@.subrange(b, me),
                father@.subrange(fe, father.len() as int),
                memsize,
            );
        }
        assert(has_donor(father@, a, mother@));
        assert(crossed_at(father@, a, mother@, offspring@));
    }
    offspring
}

/// The table's weights with every operator that does not take `arity`
/// operands weighted zero.
pub open spec fn arity_weights(table: Seq<(Expr, u32)>, arity: nat) -> Seq<u32> {
    Seq::new(
        table.len(),
        |i: int|
            if table[i].0.arity() == arity {
                table[i].1
            } else {
                0u32
            },
    )
}

/// A table restricted to one arity weighs no more than the whole table.
proof fn lemma_arity_weights_total(table: Seq<(Expr, u32)>, arity: nat)
    ensures
        total_weight(arity_weights(table, arity)) <= total_weight(expr_weights(table)),
    decreases table.len(),
{
    if table.len() > 0 {
        lemma_arity_weights_total(table.drop_last(), arity);
        assert(arity_weights(table, arity).drop_last() =~= arity_weights(
            table.drop_last(),
            arity,
        ));
        assert(expr_weights(table).drop_last() =~= expr_weights(table.drop_last()));
    }
}

/// The weights of the operators that take `arity` operands, zero for the
/// others, together with their sum.
fn arity_weights_of(table: &Vec<(Expr, u32)>, arity: usize) -> (r: (Vec<u32>, u32))
    requires
        total_weight(expr_weights(table@)) <= u32::MAX,
    ensures
        r.0@ == arity_weights(table@, arity as nat),
        r.1 == total_weight(r.0@),
{
    let mut weights: Vec<u32> = Vec::new();
    let mut total: u32 = 0;
    let mut i: usize = 0;
    proof {
        lemma_arity_weights_total(table@, arity as nat);
    }
    while i < table.len()
        invariant
            i <= table.len(),
            weights@ == arity_weights(table@, arity as nat).subrange(0, i as int),
            total == total_weight(weights@),
            total_weight(arity_weights(table@, arity as nat)) <= u32::MAX,
        decreases table.len() - i,
    {
        let weight = if table[i].0.argnum() == arity {
            table[i].1
        } else {
            0
        };
        proof {
            let all = arity_weights(table@, arity as nat);
            lemma_total_weight_prefix(all, i + 1);
            assert(all.subrange(0, i + 1).drop_last() =~= all.subrange(0, i as int));
        }
        weights.push(weight);
        total = total + weight;
        i += 1;
        assert(weights@ =~= arity_weights(table@, arity as nat).subrange(0, i as int));
    }
    assert(arity_weights(table@, arity as nat).subrange(0, i as int) =~= arity_weights(
        table@,
        arity as nat,
    ));
    (weights, total)
}

/// What may take the place of an operator `source` under mutation: the
/// operator itself, a leaf for a leaf, or an operator of the same arity.
pub open spec fn mutated_from(source: Expr, t: Token, params: &Params) -> bool {
    ||| t == Token::Expr(source)
    ||| source.arity() == 0 && (t matches Token::Reg(n) && n < params.memsize)
    ||| source.arity() == 0 && (t matches Token::Expr(Expr::Num(v)) && params.growing.min_const
        <= v < params.growing.max_const)
    ||| source.arity() > 0 && (t matches Token::Expr(op) && op.arity() == source.arity())
}

/// The token comes from an entry of the table that has a positive weight
/// and takes as many operands as `source`.
pub open spec fn drawn_for_arity(source: Expr, t: Token, params: &Params) -> bool {
    exists|i: int|
        {
            &&& 0 <= i < params.growing.d_expr.len()
            &&& (#[trigger] params.growing.d_expr[i]).1 > 0
            &&& params.growing.d_expr[i].0.arity() == source.arity()
            &&& drawn_as(params.growing.d_expr[i].0, t, params)
        }
}

/// Draws a replacement for an expression token.
///
/// The replacement is drawn from the weighted table among the operators
/// that take as many operands as `source`, so the operands that follow stay
/// in place. A drawn literal or register placeholder becomes a random
/// literal or a random register. When the table offers nothing of that
/// arity the token stays as it is.
pub fn mutate_expression(source: Expr, params: &Params, rand: &mut StdRng) -> (replacement: Token)
    requires
        params.wf(),
    ensures
        mutated_from(source, replacement, params),
        total_weight(arity_weights(params.growing.d_expr@, source.arity())) == 0 ==> replacement
            == Token::Expr(source),
        total_weight(arity_weights(params.growing.d_expr@, source.arity())) > 0
            ==> drawn_for_arity(source, replacement, params),
{
    let (weights, total) = arity_weights_of(&params.growing.d_expr, source.argnum());
    if total == 0 {
        return Token::Expr(source);
    }
    let drawn = weighted_index(rand, &weighted_table(&weights));
    let candidate: Expr = params.growing.d_expr[drawn].0;
    let replacement = draw_token(candidate, params, rand);
    proof {
        assert(arity_weights(params.growing.d_expr@, source.arity())[drawn as int] > 0);
        assert(params.growing.d_expr[drawn as int].1 > 0);
        assert(drawn_as(params.growing.d_expr[drawn as int].0, replacement, params));
    }
    replacement
}

/// Tokens that the recognizer cannot tell apart where `t` is accepted.
pub open spec fn interchangeable(t: Token, other: Token) -> bool {
    ||| other == t
    ||| t is Reg && other is Reg
    ||| t matches Token::Expr(Expr::Num(_)) && (other is Reg || other matches Token::Expr(
        Expr::Num(_),
    ))
    ||| (t matches Token::Expr(e) && other matches Token::Expr(o) && e.arity() == o.arity()
        && e.arity() > 0)
}

/// Where a token is accepted, an interchangeable token is accepted with the
/// same effect.
proof fn lemma_same_step(s: Seq<Expect>, t: Token, other: Token)
    requires
        step(s, t).is_some(),
        interchangeable(t, other),
    ensures
        step(s, other) == step(s, t),
{
}

/// Copying a token of the parent, or an interchangeable one, keeps the
/// child in step with the parent.
proof fn lemma_child_follows(child: Seq<Token>, parent: Seq<Token>, i: int, replacement: Token)
    requires
        well_formed(parent),
        0 <= i < parent.len(),
        parse(done(), child) == parse(done(), parent.subrange(0, i)),
        interchangeable(parent[i], replacement),
    ensures
        parse(done(), child.push(replacement)).is_some(),
        parse(done(), child.push(replacement)) == parse(done(), parent.subrange(0, i + 1)),
{
    lemma_parse_extend(done(), parent, i);
    lemma_parse_split(done(), parent, i + 1);
    let s = parse(done(), child).unwrap();
    lemma_same_step(s, parent[i], replacement);
    assert(child.push(replacement).drop_last() =~= child);
}

/// Well-formed statements put in place of a statement of the parent keep
/// the child in step with the parent.
proof fn lemma_child_regrown(child: Seq<Token>, parent: Seq<Token>, i: int, grown: Seq<Token>)
    requires
        well_formed(parent),
        0 <= i < parent.len(),
        parent[i] is Stat,
        parse(done(), child) == parse(done(), parent.subrange(0, i)),
        well_formed(grown),
    ensures
        node_end(parent, i).is_some(),
        i < node_end(parent, i).unwrap() <= parent.len(),
        parse(done(), child + grown).is_some(),
        parse(done(), child + grown) == parse(done(), child),
        parse(done(), child) == parse(done(), parent.subrange(0, node_end(parent, i).unwrap())),
{
    let s = lemma_state_before(parent, i);
    lemma_statement_extent(parent, i, s);
    let end = node_end(parent, i).unwrap();
    let replaced = parent.subrange(i, end);
    assert(s =~= s.drop_last().push(s.last()));
    lemma_statements_anywhere(s.drop_last(), s.last(), grown);
    lemma_statements_anywhere(s.drop_last(), s.last(), replaced);
    lemma_parse_concat(done(), child, grown);
    assert(parent.subrange(0, end) =~= parent.subrange(0, i) + replaced);
    lemma_parse_concat(done(), parent.subrange(0, i), replaced);
}

/// What mutation puts in the place of an expression token or a register
/// when it changes the token. An expression token gives way to a draw from
/// the table entries of its arity, and stays where the table offers none; a
/// register gives way to any existing register.
pub open spec fn replaces(old: Token, new: Token, params: &Params) -> bool {
    match old {
        Token::Expr(e) => if total_weight(arity_weights(params.growing.d_expr@, e.arity())) > 0 {
            drawn_for_arity(e, new, params)
        } else {
            new == old
        },
        Token::Reg(_) => new matches Token::Reg(n) && n < params.memsize,
        _ => false,
    }
}

/// What mutation may put in the place of a statement: up to two grown
/// statements, one after the other.
pub open spec fn regrown(code: Seq<Token>, params: &Params) -> bool {
    exists|first: Seq<Token>, second: Seq<Token>|
        {
            &&& code == #[trigger] (first + second)
            &&& (first.len() == 0 || sound_statement(first, params))
            &&& (second.len() == 0 || sound_statement(second, params))
        }
}

/// `child` is a mutation of the first `i` tokens of `parent`: it arises
/// from them token by token, where each token is kept or replaced, or a
/// statement is replaced with all that is under it.
pub open spec fn mutant_of(parent: Seq<Token>, i: int, child: Seq<Token>, params: &Params) -> bool
    decreases i,
{
    if i <= 0 {
        child.len() == 0
    } else {
        ||| {
            &&& child.len() > 0
            &&& (child.last() == parent[i - 1] || replaces(parent[i - 1], child.last(), params))
            &&& mutant_of(parent, i - 1, child.drop_last(), params)
        }
        ||| exists|s: int, k: int|
            #![trigger node_end(parent, s), child.subrange(0, k)]
            {
                &&& 0 <= s < i
                &&& 0 <= k <= child.len()
                &&& parent[s] is Stat
                &&& node_end(parent, s) == Some(i)
                &&& regrown(child.subrange(k, child.len() as int), params)
                &&& mutant_of(parent, s, child.subrange(0, k), params)
            }
    }
}

/// What mutation puts in the place of a token that is no statement
/// operator when it changes the token: a redrawn expression token or
/// register, and `ELSE` or `END` as it was.
pub open spec fn redrawn(old: Token, new: Token, params: &Params) -> bool {
    match old {
        Token::ELSE | Token::END => new == old,
        _ => replaces(old, new, params),
    }
}

/// `child` is a mutation of the first `i` tokens of `parent` that changed
/// every token it met: every statement was replaced with all that is under
/// it, and every other token was redrawn.
pub open spec fn remade_of(parent: Seq<Token>, i: int, child: Seq<Token>, params: &Params) -> bool
    decreases i,
{
    if i <= 0 {
        child.len() == 0
    } else {
        ||| {
            &&& child.len() > 0
            &&& redrawn(parent[i - 1], child.last(), params)
            &&& remade_of(parent, i - 1, child.drop_last(), params)
        }
        ||| exists|s: int, k: int|
            #![trigger node_end(parent, s), child.subrange(0, k)]
            {
                &&& 0 <= s < i
                &&& 0 <= k <= child.len()
                &&& parent[s] is Stat
                &&& node_end(parent, s) == Some(i)
                &&& regrown(child.subrange(k, child.len() as int), params)
                &&& remade_of(parent, s, child.subrange(0, k), params)
            }
    }
}

/// Redrawing one more token extends a mutation that changes every token.
proof fn lemma_remade_token(
    parent: Seq<Token>,
    i: int,
    child: Seq<Token>,
    replacement: Token,
    params: &Params,
)
    requires
        0 <= i < parent.len(),
        remade_of(parent, i, child, params),
        redrawn(parent[i], replacement, params),
    ensures
        remade_of(parent, i + 1, child.push(replacement), params),
{
    assert(child.push(replacement).drop_last() =~= child);
}

/// Replacing one more statement extends a mutation that changes every
/// token.
proof fn lemma_remade_statement(
    parent: Seq<Token>,
    i: int,
    child: Seq<Token>,
    inserted: Seq<Token>,
    regrowth: Seq<Token>,
    params: &Params,
)
    requires
        0 <= i < parent.len(),
        parent[i] is Stat,
        node_end(parent, i).is_some(),
        i < node_end(parent, i).unwrap(),
        remade_of(parent, i, child, params),
        inserted.len() == 0 || sound_statement(inserted, params),
        regrowth.len() == 0 || sound_statement(regrowth, params),
    ensures
        remade_of(parent, node_end(parent, i).unwrap(), child + inserted + regrowth, params),
{
    let whole = child + inserted + regrowth;
    let k = child.len() as int;
    assert(whole.subrange(k, whole.len() as int) =~= inserted + regrowth);
    assert(whole.subrange(0, k) =~= child);
    assert(regrown(whole.subrange(k, whole.len() as int), params)) by {
        assert(whole.subrange(k, whole.len() as int) == inserted + regrowth);
    }
    assert(remade_of(parent, i, whole.subrange(0, k), params));
}

/// Keeping or replacing one more token extends a mutation.
proof fn lemma_mutant_token(
    parent: Seq<Token>,
    i: int,
    child: Seq<Token>,
    replacement: Token,
    params: &Params,
)
    requires
        0 <= i < parent.len(),
        mutant_of(parent, i, child, params),
        replacement == parent[i] || replaces(parent[i], replacement, params),
    ensures
        mutant_of(parent, i + 1, child.push(replacement), params),
{
    assert(child.push(replacement).drop_last() =~= child);
}

/// Replacing one more statement extends a mutation.
proof fn lemma_mutant_statement(
    parent: Seq<Token>,
    i: int,
    child: Seq<Token>,
    inserted: Seq<Token>,
    regrowth: Seq<Token>,
    params: &Params,
)
    requires
        0 <= i < parent.len(),
        parent[i] is Stat,
        node_end(parent, i).is_some(),
        i < node_end(parent, i).unwrap(),
        mutant_of(parent, i, child, params),
        inserted.len() == 0 || sound_statement(inserted, params),
        regrowth.len() == 0 || sound_statement(regrowth, params),
    ensures
        mutant_of(parent, node_end(parent, i).unwrap(), child + inserted + regrowth, params),
{
    let end = node_end(parent, i).unwrap();
    let whole = child + inserted + regrowth;
    let k = child.len() as int;
    assert(whole.subrange(k, whole.len() as int) =~= inserted + regrowth);
    assert(whole.subrange(0, k) =~= child);
    assert(regrown(whole.subrange(k, whole.len() as int), params)) by {
        assert(whole.subrange(k, whole.len() as int) == inserted + regrowth);
    }
    assert(mutant_of(parent, i, whole.subrange(0, k), params));
}

/// Draws what takes the place of a token that is no statement operator:
/// for an expression token what [`mutate_expression`] draws, for a register
/// a random existing register, and for `ELSE` and `END` the token itself.
fn mutate_token(current: Token, params: &Params, rand: &mut StdRng) -> (replacement: Token)
    requires
        params.wf(),
        !(current is Stat),
    ensures
        redrawn(current, replacement, params),
        current matches Token::Expr(e) ==> mutated_from(e, replacement, params),
        current is Reg ==> (replacement matches Token::Reg(n) && n < params.memsize),
        current == Token::ELSE || current == Token::END ==> replacement == current,
{
    match current {
        Token::Expr(e) => mutate_expression(e, params, rand),
        Token::Reg(_) => Token::Reg(random_index(rand, params.memsize)),
        _ => current,
    }
}

/// What one step of mutation adds to the child and where it goes on, at
/// position `i` of the parent and for the decision `changed`.
///
/// A token that is not changed is copied. A changed statement operator
/// gives way, with all that is under it, to regrown code, and the step goes
/// on after the statement. Any other changed token gives way to one redrawn
/// token.
pub open spec fn stepped(
    parent: Seq<Token>,
    i: int,
    changed: bool,
    added: Seq<Token>,
    next: int,
    params: &Params,
) -> bool {
    if !changed {
        added == seq![parent[i]] && next == i + 1
    } else if parent[i] is Stat {
        regrown(added, params) && node_end(parent, i) == Some(next)
    } else {
        added.len() == 1 && redrawn(parent[i], added[0], params) && next == i + 1
    }
}

/// The code after the first `from` tokens.
pub open spec fn added_to(code: Seq<Token>, from: int) -> Seq<Token> {
    code.subrange(from, code.len() as int)
}

/// Appends what takes the place of a changed statement: with probability
/// `p_insertion` a grown statement, and then another.
#[verifier::rlimit(30)]
fn regrow(budget: usize, child: &mut Program, params: &Params, rand: &mut StdRng)
    requires
        params.wf(),
    ensures
        old(child).len() <= final(child).len(),
        final(child)@.subrange(0, old(child).len() as int) == old(child)@,
        regrown(added_to(final(child)@, old(child).len() as int), params),
{
    let ghost before = child@;
    let ghost mut inserted = Seq::<Token>::empty();
    if random_bool(rand, params.growing.p_insertion) {
        let insertion = grow_stat(budget, params, rand);
        append_all(child, &insertion);
        proof {
            inserted = insertion@;
        }
    }
    let regrowth = grow_stat(budget, params, rand);
    append_all(child, &regrowth);
    proof {
        assert(child@ =~= before + (inserted + regrowth@));
        assert(added_to(child@, before.len() as int) =~= inserted + regrowth@);
        assert(child@.subrange(0, before.len() as int) =~= before);
    }
}

/// Appends one token.
fn append_token(child: &mut Program, t: Token)
    ensures
        old(child).len() + 1 == final(child).len(),
        final(child)@.subrange(0, old(child).len() as int) == old(child)@,
        added_to(final(child)@, old(child).len() as int) == seq![t],
{
    let ghost before = child@;
    child.push(t);
    proof {
        assert(added_to(child@, before.len() as int) =~= seq![t]);
        assert(child@.subrange(0, before.len() as int) =~= before);
    }
}

/// Makes one step of mutation at position `i` of the parent, for the
/// decision `changed`: appends to the child what the step yields and
/// returns the position at which mutation goes on.
#[verifier::rlimit(30)]
pub fn mutate_at(
    parent: &Program,
    i: usize,
    changed: bool,
    budget: usize,
    child: &mut Program,
    params: &Params,
    rand: &mut StdRng,
) -> (next: usize)
    requires
        params.wf(),
        i < parent.len(),
        parent[i as int] is Stat ==> node_end(parent@, i as int).is_some(),
    ensures
        old(child).len() <= final(child).len(),
        final(child)@.subrange(0, old(child).len() as int) == old(child)@,
        stepped(
            parent@,
            i as int,
            changed,
            added_to(final(child)@, old(child).len() as int),
            next as int,
            params,
        ),
        i < next <= parent.len(),
{
    let current = parent[i];
    if !changed {
        append_token(child, current);
        return i + 1;
    }
    match current {
        Token::Stat(_) => {
            regrow(budget, child, params, rand);
            proof {
                lemma_node_end_bounds(parent@, i as int);
            }
            get_node_end(parent, i)
        },
        _ => {
            let replacement = mutate_token(current, params, rand);
            append_token(child, replacement);
            i + 1
        },
    }
}

/// A redrawn token is read as the token it replaces, and names an existing
/// register if it names one that the old token did not name.
proof fn lemma_redrawn_fits(old: Token, new: Token, params: &Params)
    requires
        redrawn(old, new, params),
        !(old matches Token::Expr(Expr::Reg(_))),
    ensures
        interchangeable(old, new),
        new == old || (new matches Token::Reg(n) ==> n < params.memsize),
{
    match old {
        Token::Expr(e) => {
            if total_weight(arity_weights(params.growing.d_expr@, e.arity())) > 0 {
                let k = choose|k: int|
                    {
                        &&& 0 <= k < params.growing.d_expr.len()
                        &&& (#[trigger] params.growing.d_expr[k]).1 > 0
                        &&& params.growing.d_expr[k].0.arity() == e.arity()
                        &&& drawn_as(params.growing.d_expr[k].0, new, params)
                    };
                assert(drawn_as(params.growing.d_expr[k].0, new, params));
            }
        },
        _ => {},
    }
}

/// Mutates a program token by token.
///
/// Each token is changed with probability `p_mut_per_node`, and
/// [`mutate_at`] makes the step. An expression token is replaced as
/// [`mutate_expression`] says and a register by a random register. A
/// statement is replaced, together with everything under it, by a freshly
/// grown statement, with probability `p_insertion` preceded by another.
/// `ELSE` and `END` are never changed. At a probability of one every token
/// met is changed in this way; at zero the child is the parent.
#[verifier::rlimit(30)]
pub fn mutation(parent: &Program, params: &Params, rand: &mut StdRng) -> (child: Program)
    requires
        params.wf(),
        well_formed(parent@),
        registers_within(parent@, params.memsize as nat),
    ensures
        well_formed(child@),
        registers_within(child@, params.memsize as nat),
        mutant_of(parent@, parent.len() as int, child@, params),
        params.p_mut_per_node.numerator == 0 ==> child@ == parent@,
        params.p_mut_per_node.numerator == params.p_mut_per_node.denominator ==> remade_of(
            parent@,
            parent.len() as int,
            child@,
            params,
        ),
{
    let mut child: Program = Vec::new();
    let budget = if params.max_size > parent.len() {
        params.max_size - parent.len()
    } else {
        0
    };
    let ghost memsize = params.memsize as nat;
    let mut i: usize = 0;
    assert(parent@.subrange(0, 0) =~= Seq::<Token>::empty());
    while i < parent.len()
        invariant
            i <= parent.len(),
            params.wf(),
            well_formed(parent@),
            registers_within(parent@, memsize),
            memsize == params.memsize,
            parse(done(), child@).is_some(),
            parse(done(), child@) == parse(done(), parent@.subrange(0, i as int)),
            registers_within(child@, memsize),
            mutant_of(parent@, i as int, child@, params),
            params.p_mut_per_node.numerator == 0 ==> child@ == parent@.subrange(0, i as int),
            params.p_mut_per_node.numerator == params.p_mut_per_node.denominator ==> remade_of(
                parent@,
                i as int,
                child@,
                params,
            ),
        decreases parent.len() - i,
    {
        let ghost before = child@;
        let changed = random_bool(rand, params.p_mut_per_node);
        proof {
            lemma_node_end_of_well_formed(parent@, i as int);
        }
        let next = mutate_at(parent, i, changed, budget, &mut child, params, rand);
        proof {
            let added = added_to(child@, before.len() as int);
            assert(child@ =~= before + added);
            if changed && parent[i as int] is Stat {
                lemma_step_regrown(parent@, i as int, before, added, params);
            } else {
                assert(added =~= seq![added[0]]);
                assert(before + added =~= before.push(added[0]));
                lemma_step_token(parent@, i as int, changed, before, added[0], params);
            }
        }
        i = next;
    }
    assert(parent@.subrange(0, i as int) =~= parent@);
    child
}

/// A step that regrows a statement keeps the child in step with the
/// parent.
#[verifier::rlimit(30)]
proof fn lemma_step_regrown(
    parent: Seq<Token>,
    i: int,
    before: Seq<Token>,
    added: Seq<Token>,
    params: &Params,
)
    requires
        well_formed(parent),
        0 <= i < parent.len(),
        parent[i] is Stat,
        parse(done(), before).is_some(),
        parse(done(), before) == parse(done(), parent.subrange(0, i)),
        registers_within(before, params.memsize as nat),
        mutant_of(parent, i, before, params),
        regrown(added, params),
    ensures
        node_end(parent, i).is_some(),
        i < node_end(parent, i).unwrap() <= parent.len(),
        parse(done(), before + added).is_some(),
        parse(done(), before + added) == parse(
            done(),
            parent.subrange(0, node_end(parent, i).unwrap()),
        ),
        registers_within(before + added, params.memsize as nat),
        mutant_of(parent, node_end(parent, i).unwrap(), before + added, params),
        remade_of(parent, i, before, params) ==> remade_of(
            parent,
            node_end(parent, i).unwrap(),
            before + added,
            params,
        ),
{
    let memsize = params.memsize as nat;
    let (first, second) = choose|first: Seq<Token>, second: Seq<Token>|
        {
            &&& added == #[trigger] (first + second)
            &&& (first.len() == 0 || sound_statement(first, params))
            &&& (second.len() == 0 || sound_statement(second, params))
        };
    assert(well_formed(first) && registers_within(first, memsize)) by {
        if first.len() > 0 {
            lemma_single_statement(first);
        }
    }
    assert(well_formed(second) && registers_within(second, memsize)) by {
        if second.len() > 0 {
            lemma_single_statement(second);
        }
    }
    lemma_child_regrown(before, parent, i, first);
    lemma_child_regrown(before + first, parent, i, second);
    lemma_registers_concat(before, first, memsize);
    lemma_registers_concat(before + first, second, memsize);
    assert(before + added =~= before + first + second);
    lemma_mutant_statement(parent, i, before, first, second, params);
    if remade_of(parent, i, before, params) {
        lemma_remade_statement(parent, i, before, first, second, params);
    }
}

/// A step that copies or redraws one token keeps the child in step with
/// the parent.
#[verifier::rlimit(30)]
proof fn lemma_step_token(
    parent: Seq<Token>,
    i: int,
    changed: bool,
    before: Seq<Token>,
    replacement: Token,
    params: &Params,
)
    requires
        well_formed(parent),
        registers_within(parent, params.memsize as nat),
        0 <= i < parent.len(),
        parse(done(), before).is_some(),
        parse(done(), before) == parse(done(), parent.subrange(0, i)),
        registers_within(before, params.memsize as nat),
        mutant_of(parent, i, before, params),
        if changed {
            redrawn(parent[i], replacement, params)
        } else {
            replacement == parent[i]
        },
    ensures
        parse(done(), before.push(replacement)).is_some(),
        parse(done(), before.push(replacement)) == parse(done(), parent.subrange(0, i + 1)),
        registers_within(before.push(replacement), params.memsize as nat),
        mutant_of(parent, i + 1, before.push(replacement), params),
        !changed && before == parent.subrange(0, i) ==> before.push(replacement)
            == parent.subrange(0, i + 1),
        changed && remade_of(parent, i, before, params) ==> remade_of(
            parent,
            i + 1,
            before.push(replacement),
            params,
        ),
{
    let memsize = params.memsize as nat;
    let s = lemma_state_before(parent, i);
    assert(!(parent[i] matches Token::Expr(Expr::Reg(_))));
    if changed {
        lemma_redrawn_fits(parent[i], replacement, params);
    }
    lemma_child_follows(before, parent, i, replacement);
    lemma_registers_concat(before, seq![replacement], memsize);
    assert(before.push(replacement) =~= before + seq![replacement]);
    assert(parent.subrange(0, i + 1) =~= parent.subrange(0, i).push(parent[i]));
    lemma_mutant_token(parent, i, before, replacement, params);
    if changed && remade_of(parent, i, before, params) {
        lemma_remade_token(parent, i, before, replacement, params);
    }
}

/// The index that wins a tournament among the drawn indices: the first of
/// those with the highest fitness.
pub open spec fn winner(fitness: Seq<Fitness>, draws: Seq<usize>) -> usize
    recommends
        draws.len() > 0,
    decreases draws.len(),
{
    if draws.len() <= 1 {
        draws[0]
    } else {
        let best = winner(fitness, draws.drop_last());
        if fitness[draws.last() as int] > fitness[best as int] {
            draws.last()
        } else {
            best
        }
    }
}

/// The index that loses a tournament among the drawn indices: the first of
/// those with the lowest fitness.
pub open spec fn loser(fitness: Seq<Fitness>, draws: Seq<usize>) -> usize
    recommends
        draws.len() > 0,
    decreases draws.len(),
{
    if draws.len() <= 1 {
        draws[0]
    } else {
        let worst = loser(fitness, draws.drop_last());
        if fitness[draws.last() as int] < fitness[worst as int] {
            draws.last()
        } else {
            worst
        }
    }
}

/// Whether `draws` could have been drawn for a tournament of the given size
/// over a population of `n`.
pub open spec fn drawn_for(draws: Seq<usize>, tournament_size: usize, n: nat) -> bool {
    &&& draws.len() == tournament_size + 1
    &&& forall|j: int| 0 <= j < draws.len() ==> #[trigger] draws[j] < n
}

/// `slot` may win a tournament: it is the winner among some draws.
pub open spec fn selected(fitness: Seq<Fitness>, tournament_size: usize, slot: int) -> bool {
    &&& 0 <= slot < fitness.len()
    &&& exists|draws: Seq<usize>|
        #[trigger] drawn_for(draws, tournament_size, fitness.len()) && slot == winner(
            fitness,
            draws,
        )
}

/// `slot` may lose a negative tournament: it is the loser among some draws.
pub open spec fn rejected(fitness: Seq<Fitness>, tournament_size: usize, slot: int) -> bool {
    &&& 0 <= slot < fitness.len()
    &&& exists|draws: Seq<usize>|
        #[trigger] drawn_for(draws, tournament_size, fitness.len()) && slot == loser(
            fitness,
            draws,
        )
}

/// What is kept of a crossover: the offspring unless it exceeds the size
/// limit, and else one of the parents.
pub open spec fn kept(
    offspring: Seq<Token>,
    father: Seq<Token>,
    mother: Seq<Token>,
    max_size: usize,
    first: bool,
) -> Seq<Token> {
    if offspring.len() <= max_size {
        offspring
    } else if first {
        father
    } else {
        mother
    }
}

/// Keeps the offspring of a crossover unless it exceeds the size limit,
/// and else clones the father if `first` and the mother if not.
pub fn keep_or_clone(
    offspring: Program,
    father: &Program,
    mother: &Program,
    max_size: usize,
    first: bool,
) -> (child: Program)
    ensures
        child@ == kept(offspring@, father@, mother@, max_size, first),
{
    if offspring.len() <= max_size {
        offspring
    } else if first {
        copy_program(father)
    } else {
        copy_program(mother)
    }
}

/// Picks the best among the drawn indices.
pub fn best_of(fitness: &Vec<Fitness>, draws: &Vec<usize>) -> (best: usize)
    requires
        draws.len() > 0,
        forall|j: int| 0 <= j < draws.len() ==> #[trigger] draws[j] < fitness.len(),
    ensures
        best == winner(fitness@, draws@),
        best < fitness.len(),
        draws@.contains(best),
        forall|j: int|
            0 <= j < draws.len() ==> fitness[#[trigger] draws[j] as int] <= fitness[best as int],
{
    let mut best = draws[0];
    let mut best_fitness = fitness[best];
    let mut i: usize = 1;
    assert(draws@.subrange(0, 1).len() == 1);
    while i < draws.len()
        invariant
            1 <= i <= draws.len(),
            forall|j: int| 0 <= j < draws.len() ==> #[trigger] draws[j] < fitness.len(),
            best == winner(fitness@, draws@.subrange(0, i as int)),
            best < fitness.len(),
            best_fitness == fitness[best as int],
            exists|j: int| 0 <= j < i && draws[j] == best,
            forall|j: int| 0 <= j < i ==> fitness[#[trigger] draws[j] as int] <= best_fitness,
        decreases draws.len() - i,
    {
        let competitor = draws[i];
        assert(draws@.subrange(0, i + 1).drop_last() =~= draws@.subrange(0, i as int));
        if fitness[competitor] > best_fitness {
            best_fitness = fitness[competitor];
            best = competitor;
        }
        i += 1;
    }
    assert(draws@.subrange(0, i as int) =~= draws@);
    best
}

/// Picks the worst among the drawn indices.
pub fn worst_of(fitness: &Vec<Fitness>, draws: &Vec<usize>) -> (worst: usize)
    requires
        draws.len() > 0,
        forall|j: int| 0 <= j < draws.len() ==> #[trigger] draws[j] < fitness.len(),
    ensures
        worst == loser(fitness@, draws@),
        worst < fitness.len(),
        draws@.contains(worst),
        forall|j: int|
            0 <= j < draws.len() ==> fitness[#[trigger] draws[j] as int] >= fitness[worst as int],
{
    let mut worst = draws[0];
    let mut worst_fitness = fitness[worst];
    let mut i: usize = 1;
    assert(draws@.subrange(0, 1).len() == 1);
    while i < draws.len()
        invariant
            1 <= i <= draws.len(),
            forall|j: int| 0 <= j < draws.len() ==> #[trigger] draws[j] < fitness.len(),
            worst == loser(fitness@, draws@.subrange(0, i as int)),
            worst < fitness.len(),
            worst_fitness == fitness[worst as int],
            exists|j: int| 0 <= j < i && draws[j] == worst,
            forall|j: int| 0 <= j < i ==> fitness[#[trigger] draws[j] as int] >= worst_fitness,
        decreases draws.len() - i,
    {
        let competitor = draws[i];
        assert(draws@.subrange(0, i + 1).drop_last() =~= draws@.subrange(0, i as int));
        if fitness[competitor] < worst_fitness {
            worst_fitness = fitness[competitor];
            worst = competitor;
        }
        i += 1;
    }
    assert(draws@.subrange(0, i as int) =~= draws@);
    worst
}

/// Draws the competitors of one tournament: a first index and
/// `tournament_size` more, with replacement.
fn draw_competitors(n: usize, tournament_size: usize, rand: &mut StdRng) -> (draws: Vec<usize>)
    requires
        n > 0,
    ensures
        drawn_for(draws@, tournament_size, n as nat),
{
    let mut draws: Vec<usize> = Vec::new();
    draws.push(random_index(rand, n));
    let mut round: usize = 0;
    while round < tournament_size
        invariant
            round <= tournament_size,
            n > 0,
            draws.len() == round + 1,
            forall|j: int| 0 <= j < draws.len() ==> #[trigger] draws[j] < n,
        decreases tournament_size - round,
    {
        draws.push(random_index(rand, n));
        round += 1;
    }
    draws
}

/// Selects a parent: the fittest of `tournament_size + 1` individuals drawn
/// at random, with replacement.
pub fn tournament(
    fitness: &Vec<Fitness>,
    tournament_size: usize,
    rand: &mut StdRng,
) -> (best: usize)
    requires
        fitness.len() > 0,
    ensures
        best < fitness.len(),
        selected(fitness@, tournament_size, best as int),
{
    let draws = draw_competitors(fitness.len(), tournament_size, rand);
    best_of(fitness, &draws)
}

/// Selects a slot to overwrite: the least fit of `tournament_size + 1`
/// individuals drawn at random, with replacement.
pub fn negative_tournament(
    fitness: &Vec<Fitness>,
    tournament_size: usize,
    rand: &mut StdRng,
) -> (worst: usize)
    requires
        fitness.len() > 0,
    ensures
        worst < fitness.len(),
        rejected(fitness@, tournament_size, worst as int),
{
    let draws = draw_competitors(fitness.len(), tournament_size, rand);
    worst_of(fitness, &draws)
}

} // verus!
