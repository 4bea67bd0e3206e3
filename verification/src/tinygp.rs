//! The evolutionary engine and its building blocks.

pub mod common;
pub mod grammar;
pub mod structure;
pub mod execution;
pub mod safety;
pub mod random;
pub mod growing;
pub mod fitness_funcs;
pub mod evolution;

use vstd::prelude::*;
use rand::rngs::StdRng;
use crate::params::{Case, Fitness, Params, Probability};
use common::{Program, Token};
use grammar::{well_formed, registers_within, is_well_formed, has_registers_within};
use evolution::{
    lemma_well_formed_can_cross,
    copy_program,
    crossed,
    crossover,
    keep_or_clone,
    kept,
    mutant_of,
    mutation,
    tournament,
    negative_tournament,
    ranked,
    rejected,
    run_and_rank,
    scorable,
    selected,
    total_score,
};
use fitness_funcs::{FitnessFunc, normalize_fitness};
use growing::{create_random_indiv, random_individual};
use random::{seeded, random_bool};

verus! {

/// What is known of a population after a generation.
#[derive(Debug, Clone, Copy, PartialEq, Eq, Structural)]
pub struct Report {
    /// The number of generations evolved so far.
    pub generation: u64,
    /// The slot of the first individual of the best fitness.
    pub best: usize,
    /// The best fitness.
    pub best_fitness: Fitness,
    /// The sum of all fitness divided by the number of individuals, rounded
    /// toward zero.
    pub avg_fitness: Fitness,
    /// The number of tokens in the population divided by the number of
    /// individuals, rounded down.
    pub avg_size: usize,
}

/// A population under steady-state evolution.
pub struct TinyGP {
    pub rand: StdRng,
    pub params: Params,
    pub cases: Vec<Case>,
    /// The number of generations evolved so far.
    pub generation: u64,
    pub population: Vec<Program>,
    /// The fitness of each individual, slot by slot.
    pub fitness: Vec<Fitness>,
    /// The fitness by which individuals are selected, refreshed once per
    /// generation.
    pub fitness_normalized: Vec<Fitness>,
    /// One report for the initial population and one per generation.
    pub reports: Vec<Report>,
}

/// Every individual is well formed and names only existing registers.
pub open spec fn all_valid(population: Seq<Program>, memsize: nat) -> bool {
    forall|i: int|
        0 <= i < population.len() ==> well_formed((#[trigger] population[i])@) && registers_within(
            population[i]@,
            memsize,
        )
}

/// Every individual has the shape of a random individual.
pub open spec fn all_random(population: Seq<Program>, params: &Params) -> bool {
    forall|i: int|
        0 <= i < population.len() ==> random_individual((#[trigger] population[i])@, params)
}

/// Every fitness is the total score of the individual in the same slot.
pub open spec fn all_scored(
    population: Seq<Program>,
    fitness: Seq<Fitness>,
    params: &Params,
    cases: Seq<Case>,
    fitness_func: FitnessFunc,
) -> bool {
    forall|i: int|
        0 <= i < population.len() ==> #[trigger] fitness[i] == total_score(
            population[i]@,
            params.memsize as nat,
            cases,
            fitness_func,
            cases.len(),
        )
}

/// Every fitness is a sum of the scores of the individual in the same slot,
/// each case run from registers as a run may find them.
pub open spec fn all_ranked(
    population: Seq<Program>,
    fitness: Seq<Fitness>,
    params: &Params,
    cases: Seq<Case>,
    fitness_func: FitnessFunc,
) -> bool {
    forall|i: int|
        0 <= i < population.len() ==> ranked(
            (#[trigger] population[i])@,
            fitness[i],
            params,
            cases,
            fitness_func,
        )
}

/// One step of a generation: a child and its score overwrite a slot.
pub ghost struct Replacement {
    pub slot: int,
    pub child: Program,
    pub score: Fitness,
}

/// The population after the replacements were made in order.
pub open spec fn overwritten(population: Seq<Program>, steps: Seq<Replacement>) -> Seq<Program>
    decreases steps.len(),
{
    if steps.len() == 0 {
        population
    } else {
        overwritten(population, steps.drop_last()).update(steps.last().slot, steps.last().child)
    }
}

/// The fitness after the replacements were made in order.
pub open spec fn rescored(fitness: Seq<Fitness>, steps: Seq<Replacement>) -> Seq<Fitness>
    decreases steps.len(),
{
    if steps.len() == 0 {
        fitness
    } else {
        rescored(fitness, steps.drop_last()).update(steps.last().slot, steps.last().score)
    }
}

/// The child comes from a crossover of two selected parents: it is their
/// offspring, or one of them where the offspring exceeds the size limit.
pub open spec fn bred_by_crossover(
    child: Seq<Token>,
    population: Seq<Program>,
    normalized: Seq<Fitness>,
    params: &Params,
) -> bool {
    exists|f: int, m: int, offspring: Seq<Token>, first: bool|
        #![trigger kept(offspring, population[f]@, population[m]@, params.max_size, first)]
        {
            &&& selected(normalized, params.tournament_size, f)
            &&& selected(normalized, params.tournament_size, m)
            &&& crossed(population[f]@, population[m]@, offspring)
            &&& child == kept(offspring, population[f]@, population[m]@, params.max_size, first)
        }
}

/// The child is a mutation of a selected parent.
pub open spec fn bred_by_mutation(
    child: Seq<Token>,
    population: Seq<Program>,
    normalized: Seq<Fitness>,
    params: &Params,
) -> bool {
    exists|p: int|
        #![trigger population[p]]
        {
            &&& selected(normalized, params.tournament_size, p)
            &&& mutant_of(population[p]@, population[p]@.len() as int, child, params)
        }
}

/// The child was bred from the population, with parents selected by the
/// given fitness: it is valid, and it comes from a crossover or a mutation.
pub open spec fn bred(
    child: Seq<Token>,
    population: Seq<Program>,
    normalized: Seq<Fitness>,
    params: &Params,
) -> bool {
    &&& well_formed(child)
    &&& registers_within(child, params.memsize as nat)
    &&& (bred_by_crossover(child, population, normalized, params) || bred_by_mutation(
        child,
        population,
        normalized,
        params,
    ))
}

/// A step of a generation as the engine makes it: the child is bred from
/// the population as it stands, its score is a sum of its case scores, and
/// the slot is the loser of a negative tournament.
pub open spec fn step_made(
    before: Seq<Program>,
    normalized: Seq<Fitness>,
    step: Replacement,
    params: &Params,
    cases: Seq<Case>,
    fitness_func: FitnessFunc,
) -> bool {
    &&& rejected(normalized, params.tournament_size, step.slot)
    &&& bred(step.child@, before, normalized, params)
    &&& ranked(step.child@, step.score, params, cases, fitness_func)
}

/// Every step was made on the population that the steps before it left.
pub open spec fn steps_made(
    population: Seq<Program>,
    normalized: Seq<Fitness>,
    steps: Seq<Replacement>,
    params: &Params,
    cases: Seq<Case>,
    fitness_func: FitnessFunc,
) -> bool {
    forall|k: int|
        #![trigger steps[k]]
        0 <= k < steps.len() ==> step_made(
            overwritten(population, steps.subrange(0, k)),
            normalized,
            steps[k],
            params,
            cases,
            fitness_func,
        )
}

/// One generation leads from the first population and fitness to the
/// second: as many steps as the population size says were made in order.
pub open spec fn generation_made(
    population: Seq<Program>,
    fitness: Seq<Fitness>,
    normalized: Seq<Fitness>,
    next_population: Seq<Program>,
    next_fitness: Seq<Fitness>,
    params: &Params,
    cases: Seq<Case>,
    fitness_func: FitnessFunc,
) -> bool {
    exists|steps: Seq<Replacement>|
        {
            &&& steps.len() == params.popsize
            &&& next_population == #[trigger] overwritten(population, steps)
            &&& next_fitness == rescored(fitness, steps)
            &&& steps_made(population, normalized, steps, params, cases, fitness_func)
        }
}

/// One more step extends the steps made.
proof fn lemma_step_made(
    population: Seq<Program>,
    fitness: Seq<Fitness>,
    normalized: Seq<Fitness>,
    steps: Seq<Replacement>,
    step: Replacement,
    params: &Params,
    cases: Seq<Case>,
    fitness_func: FitnessFunc,
)
    requires
        steps_made(population, normalized, steps, params, cases, fitness_func),
        step_made(overwritten(population, steps), normalized, step, params, cases, fitness_func),
    ensures
        steps_made(population, normalized, steps.push(step), params, cases, fitness_func),
        overwritten(population, steps.push(step)) == overwritten(population, steps).update(
            step.slot,
            step.child,
        ),
        rescored(fitness, steps.push(step)) == rescored(fitness, steps).update(
            step.slot,
            step.score,
        ),
{
    let longer = steps.push(step);
    assert(longer.drop_last() =~= steps);
    assert forall|k: int| #![trigger longer[k]] 0 <= k < longer.len() implies step_made(
        overwritten(population, longer.subrange(0, k)),
        normalized,
        longer[k],
        params,
        cases,
        fitness_func,
    ) by {
        if k < steps.len() {
            assert(longer.subrange(0, k) =~= steps.subrange(0, k));
            assert(longer[k] == steps[k]);
        } else {
            assert(longer.subrange(0, k) =~= steps);
        }
    }
}

/// The number of tokens in the first `k` individuals.
pub open spec fn total_size(population: Seq<Program>, k: nat) -> nat
    decreases k,
{
    if k == 0 {
        0
    } else {
        total_size(population, (k - 1) as nat) + population[k - 1]@.len()
    }
}

/// The sum of the first `k` fitness values.
pub open spec fn total_fitness(fitness: Seq<Fitness>, k: nat) -> int
    decreases k,
{
    if k == 0 {
        0
    } else {
        total_fitness(fitness, (k - 1) as nat) + fitness[k - 1]
    }
}

/// `slot` holds the first individual of the best fitness.
pub open spec fn is_best(fitness: Seq<Fitness>, slot: int) -> bool {
    &&& 0 <= slot < fitness.len()
    &&& forall|i: int| 0 <= i < fitness.len() ==> #[trigger] fitness[i] <= fitness[slot]
    &&& forall|i: int| 0 <= i < slot ==> #[trigger] fitness[i] < fitness[slot]
}

/// What a report says of a population: the generation, the first best
/// individual and the averages.
pub open spec fn reported(
    population: Seq<Program>,
    fitness: Seq<Fitness>,
    generation: int,
    report: Report,
) -> bool {
    &&& report.generation == generation
    &&& is_best(fitness, report.best as int)
    &&& report.best_fitness == fitness[report.best as int]
    &&& report.avg_size == total_size(population, population.len()) / population.len()
    &&& report.avg_fitness == crate::tinygp::execution::quotient(
        total_fitness(fitness, fitness.len()),
        fitness.len() as int,
    )
}

/// The best fitness is below the goal.
pub open spec fn unsolved(fitness: Seq<Fitness>, acceptable_error: Fitness) -> bool {
    exists|best: int| #[trigger] is_best(fitness, best) && fitness[best] < acceptable_error
}

/// A population with its fitness.
pub ghost struct Snapshot {
    pub population: Seq<Program>,
    pub fitness: Seq<Fitness>,
}

/// The fitness by which parents are selected in the generation that starts
/// from the state of the given number: the fitness the run found for the
/// first, and the fitness of the state itself after that.
pub open spec fn selecting(states: Seq<Snapshot>, normalized: Seq<Fitness>, j: int) -> Seq<
    Fitness,
> {
    if j == 0 {
        normalized
    } else {
        states[j].fitness
    }
}

/// The states a run passed through, one per generation boundary: each has
/// its report, and each but the last was short of the goal and led to the
/// next by one generation.
pub open spec fn run_made(
    states: Seq<Snapshot>,
    normalized: Seq<Fitness>,
    reports: Seq<Report>,
    generation: int,
    params: &Params,
    cases: Seq<Case>,
    fitness_func: FitnessFunc,
) -> bool {
    &&& states.len() == reports.len()
    &&& forall|j: int|
        #![trigger states[j]]
        0 <= j < states.len() ==> reported(
            states[j].population,
            states[j].fitness,
            generation + j,
            reports[j],
        )
    &&& forall|j: int|
        #![trigger states[j]]
        0 <= j < states.len() - 1 ==> unsolved(states[j].fitness, params.acceptable_error)
            && generation_made(
            states[j].population,
            states[j].fitness,
            selecting(states, normalized, j),
            states[j + 1].population,
            states[j + 1].fitness,
            params,
            cases,
            fitness_func,
        )
}

/// One more generation extends a run.
proof fn lemma_run_made(
    states: Seq<Snapshot>,
    normalized: Seq<Fitness>,
    reports: Seq<Report>,
    generation: int,
    next: Snapshot,
    report: Report,
    params: &Params,
    cases: Seq<Case>,
    fitness_func: FitnessFunc,
)
    requires
        states.len() > 0,
        run_made(states, normalized, reports, generation, params, cases, fitness_func),
        unsolved(states.last().fitness, params.acceptable_error),
        generation_made(
            states.last().population,
            states.last().fitness,
            selecting(states, normalized, states.len() - 1),
            next.population,
            next.fitness,
            params,
            cases,
            fitness_func,
        ),
        reported(next.population, next.fitness, generation + states.len(), report),
    ensures
        run_made(
            states.push(next),
            normalized,
            reports.push(report),
            generation,
            params,
            cases,
            fitness_func,
        ),
{
    let longer = states.push(next);
    let more = reports.push(report);
    assert forall|j: int| #![trigger longer[j]] 0 <= j < longer.len() implies reported(
        longer[j].population,
        longer[j].fitness,
        generation + j,
        more[j],
    ) by {
        if j < states.len() {
            assert(longer[j] == states[j]);
        }
    }
    assert forall|j: int| #![trigger longer[j]] 0 <= j < longer.len() - 1 implies unsolved(
        longer[j].fitness,
        params.acceptable_error,
    ) && generation_made(
        longer[j].population,
        longer[j].fitness,
        selecting(longer, normalized, j),
        longer[j + 1].population,
        longer[j + 1].fitness,
        params,
        cases,
        fitness_func,
    ) by {
        assert(longer[j] == states[j]);
        if j < states.len() - 1 {
            assert(longer[j + 1] == states[j + 1]);
        }
    }
}

/// Only one slot holds the first individual of the best fitness.
pub proof fn lemma_best_unique(fitness: Seq<Fitness>, a: int, b: int)
    requires
        is_best(fitness, a),
        is_best(fitness, b),
    ensures
        a == b,
{
    if a < b {
        assert(fitness[a] < fitness[b]);
    }
    if b < a {
        assert(fitness[b] < fitness[a]);
    }
}

/// Grows a population of `popsize` random individuals and scores each.
pub fn random_population(
    params: &Params,
    cases: &Vec<Case>,
    rand: &mut StdRng,
    fitness_func: FitnessFunc,
) -> (grown: (Vec<Program>, Vec<Fitness>))
    requires
        params.wf(),
        scorable(cases@, fitness_func),
    ensures
        grown.0.len() == params.popsize,
        grown.1.len() == params.popsize,
        all_valid(grown.0@, params.memsize as nat),
        all_random(grown.0@, params),
        all_ranked(grown.0@, grown.1@, params, cases@, fitness_func),
        !params.random_initial_memory ==> all_scored(
            grown.0@,
            grown.1@,
            params,
            cases@,
            fitness_func,
        ),
{
    let mut population: Vec<Program> = Vec::new();
    let mut fitness: Vec<Fitness> = Vec::new();
    while population.len() < params.popsize
        invariant
            params.wf(),
            scorable(cases@, fitness_func),
            population.len() == fitness.len(),
            population.len() <= params.popsize,
            all_valid(population@, params.memsize as nat),
            all_random(population@, params),
            all_ranked(population@, fitness@, params, cases@, fitness_func),
            !params.random_initial_memory ==> all_scored(
                population@,
                fitness@,
                params,
                cases@,
                fitness_func,
            ),
        decreases params.popsize - population.len(),
    {
        let individual = create_random_indiv(params, rand);
        let score = run_and_rank(&individual, params, cases, fitness_func, rand);
        population.push(individual);
        fitness.push(score);
    }
    (population, fitness)
}

/// Scores every individual of a population.
pub fn rank_population(
    population: &Vec<Program>,
    params: &Params,
    cases: &Vec<Case>,
    fitness_func: FitnessFunc,
    rand: &mut StdRng,
) -> (fitness: Vec<Fitness>)
    requires
        scorable(cases@, fitness_func),
        params.random_initial_memory ==> params.growing.min_const < params.growing.max_const,
    ensures
        fitness.len() == population.len(),
        all_ranked(population@, fitness@, params, cases@, fitness_func),
        !params.random_initial_memory ==> all_scored(
            population@,
            fitness@,
            params,
            cases@,
            fitness_func,
        ),
{
    let mut fitness: Vec<Fitness> = Vec::new();
    while fitness.len() < population.len()
        invariant
            scorable(cases@, fitness_func),
            params.random_initial_memory ==> params.growing.min_const < params.growing.max_const,
            fitness.len() <= population.len(),
            forall|i: int|
                0 <= i < fitness.len() ==> ranked(
                    (#[trigger] population[i])@,
                    fitness[i],
                    params,
                    cases@,
                    fitness_func,
                ),
            !params.random_initial_memory ==> forall|i: int|
                0 <= i < fitness.len() ==> #[trigger] fitness[i] == total_score(
                    population[i]@,
                    params.memsize as nat,
                    cases@,
                    fitness_func,
                    cases.len() as nat,
                ),
        decreases population.len() - fitness.len(),
    {
        let score = run_and_rank(&population[fitness.len()], params, cases, fitness_func, rand);
        fitness.push(score);
    }
    fitness
}

/// Decides whether every individual is well formed and names only existing
/// registers.
pub fn is_valid_population(population: &Vec<Program>, memsize: usize) -> (ok: bool)
    ensures
        ok == all_valid(population@, memsize as nat),
{
    let mut i: usize = 0;
    while i < population.len()
        invariant
            i <= population.len(),
            forall|k: int|
                0 <= k < i ==> well_formed((#[trigger] population[k])@) && registers_within(
                    population[k]@,
                    memsize as nat,
                ),
        decreases population.len() - i,
    {
        if !is_well_formed(&population[i]) || !has_registers_within(&population[i], memsize) {
            return false;
        }
        i += 1;
    }
    true
}

impl TinyGP {
    /// What holds of an engine between any two of its operations: the
    /// parameters are valid, the population is not empty, every individual
    /// is well formed over the registers, and there is one fitness per
    /// individual.
    pub open spec fn inv(&self) -> bool {
        &&& self.params.wf()
        &&& self.population.len() > 0
        &&& self.fitness.len() == self.population.len()
        &&& self.fitness_normalized.len() == self.population.len()
        &&& all_valid(self.population@, self.params.memsize as nat)
    }

    /// Every fitness is the total score, under `fitness_func`, of the
    /// individual in the same slot.
    pub open spec fn scored_by(&self, fitness_func: FitnessFunc) -> bool {
        all_scored(self.population@, self.fitness@, &self.params, self.cases@, fitness_func)
    }

    /// An engine over a freshly grown population, with a generator seeded
    /// by `seed`.
    pub fn new(
        params: Params,
        cases: Vec<Case>,
        seed: u64,
        fitness_func: FitnessFunc,
    ) -> (tgp: TinyGP)
        requires
            params.wf(),
            scorable(cases@, fitness_func),
        ensures
            tgp.inv(),
            tgp.population.len() == params.popsize,
            all_random(tgp.population@, &tgp.params),
            tgp.generation == 0,
            tgp.reports.len() == 0,
            tgp.cases@ == cases@,
            tgp.params == (Params { seed, ..params }),
            tgp.fitness_normalized@ == tgp.fitness@,
            tgp.ranked_by(fitness_func),
            !params.random_initial_memory ==> tgp.scored_by(fitness_func),
    {
        let mut rand = seeded(seed);
        let mut params = params;
        params.seed = seed;
        let (population, fitness) = random_population(&params, &cases, &mut rand, fitness_func);
        let fitness_normalized = normalize_fitness(&fitness, &population);
        TinyGP {
            rand,
            fitness,
            fitness_normalized,
            population,
            params,
            cases,
            generation: 0,
            reports: Vec::new(),
        }
    }

    /// An engine over a given population, with a generator seeded by
    /// `seed`. The result is `None` when the population is empty or holds an
    /// individual that is malformed or names a register that does not exist.
    pub fn from_population(
        params: Params,
        cases: Vec<Case>,
        seed: u64,
        fitness_func: FitnessFunc,
        population: Vec<Program>,
    ) -> (loaded: Option<TinyGP>)
        requires
            params.wf(),
            scorable(cases@, fitness_func),
        ensures
            loaded.is_some() <==> population.len() > 0 && all_valid(
                population@,
                params.memsize as nat,
            ),
            loaded matches Some(tgp) ==> {
                &&& tgp.inv()
                &&& tgp.population@ == population@
                &&& tgp.generation == 0
                &&& tgp.reports.len() == 0
                &&& tgp.cases@ == cases@
                &&& tgp.params == (Params { seed, ..params })
                &&& tgp.fitness_normalized@ == tgp.fitness@
                &&& tgp.ranked_by(fitness_func)
                &&& (!params.random_initial_memory ==> tgp.scored_by(fitness_func))
            },
    {
        if population.len() == 0 || !is_valid_population(&population, params.memsize) {
            return None;
        }
        let mut rand = seeded(seed);
        let mut params = params;
        params.seed = seed;
        let fitness = rank_population(&population, &params, &cases, fitness_func, &mut rand);
        let fitness_normalized = normalize_fitness(&fitness, &population);
        Some(
            TinyGP {
                rand,
                fitness,
                fitness_normalized,
                population,
                params,
                cases,
                generation: 0,
                reports: Vec::new(),
            },
        )
    }

    /// Every fitness is a sum of the scores, under `fitness_func`, of the
    /// individual in the same slot, each case run from registers as a run
    /// may find them.
    pub open spec fn ranked_by(&self, fitness_func: FitnessFunc) -> bool {
        all_ranked(self.population@, self.fitness@, &self.params, self.cases@, fitness_func)
    }

    /// Breeds one child: by crossover of two selected parents, or by
    /// mutation of one. A crossover child that exceeds the size limit is
    /// dropped for a copy of one of its parents.
    #[verifier::rlimit(30)]
    fn breed(&mut self) -> (child: Program)
        requires
            old(self).inv(),
        ensures
            final(self).params == old(self).params,
            final(self).cases == old(self).cases,
            final(self).generation == old(self).generation,
            final(self).population == old(self).population,
            final(self).fitness == old(self).fitness,
            final(self).fitness_normalized == old(self).fitness_normalized,
            final(self).reports == old(self).reports,
            bred(
                child@,
                old(self).population@,
                old(self).fitness_normalized@,
                &old(self).params,
            ),
    {
        let ghost memsize = self.params.memsize as nat;
        let ghost population = self.population@;
        let ghost normalized = self.fitness_normalized@;
        if random_bool(&mut self.rand, self.params.p_crossover) {
            let father_id = tournament(
                &self.fitness_normalized,
                self.params.tournament_size,
                &mut self.rand,
            );
            let mother_id = tournament(
                &self.fitness_normalized,
                self.params.tournament_size,
                &mut self.rand,
            );
            let ghost father = population[father_id as int]@;
            let ghost mother = population[mother_id as int]@;
            proof {
                assert(well_formed(father));
                assert(well_formed(mother));
                lemma_well_formed_can_cross(father, mother);
            }
            let mby_overgrown = crossover(
                &self.population[father_id],
                &self.population[mother_id],
                &mut self.rand,
            );
            let ghost offspring = mby_overgrown@;
            assert(registers_within(offspring, memsize));
            let first = if mby_overgrown.len() <= self.params.max_size {
                true
            } else {
                random_bool(&mut self.rand, Probability { numerator: 1, denominator: 2 })
            };
            let child = keep_or_clone(
                mby_overgrown,
                &self.population[father_id],
                &self.population[mother_id],
                self.params.max_size,
                first,
            );
            proof {
                assert(child@ == kept(
                    offspring,
                    population[father_id as int]@,
                    population[mother_id as int]@,
                    self.params.max_size,
                    first,
                ));
                assert(bred_by_crossover(child@, population, normalized, &self.params));
            }
            child
        } else {
            let parent_id = tournament(
                &self.fitness_normalized,
                self.params.tournament_size,
                &mut self.rand,
            );
            assert(well_formed(population[parent_id as int]@));
            let child = mutation(&self.population[parent_id], &self.params, &mut self.rand);
            assert(bred_by_mutation(child@, population, normalized, &self.params));
            child
        }
    }

    /// Puts a child and its score into a slot.
    pub fn replace(&mut self, slot: usize, child: Program, score: Fitness)
        requires
            slot < old(self).population.len(),
            slot < old(self).fitness.len(),
        ensures
            final(self).population@ == old(self).population@.update(slot as int, child),
            final(self).fitness@ == old(self).fitness@.update(slot as int, score),
            final(self).rand == old(self).rand,
            final(self).params == old(self).params,
            final(self).cases == old(self).cases,
            final(self).generation == old(self).generation,
            final(self).fitness_normalized == old(self).fitness_normalized,
            final(self).reports == old(self).reports,
    {
        self.fitness[slot] = score;
        self.population[slot] = child;
    }

    /// Evolves the population by one generation.
    ///
    /// As many children are bred as the parameters' population size says.
    /// Each child is scored and overwrites the loser of a negative
    /// tournament at once. Parents are selected by the fitness the
    /// population had when the generation began.
    #[verifier::rlimit(30)]
    pub fn evolve_generation(&mut self, fitness_func: FitnessFunc)
        requires
            old(self).inv(),
            scorable(old(self).cases@, fitness_func),
        ensures
            final(self).inv(),
            final(self).params == old(self).params,
            final(self).cases == old(self).cases,
            final(self).reports == old(self).reports,
            final(self).population.len() == old(self).population.len(),
            generation_made(
                old(self).population@,
                old(self).fitness@,
                old(self).fitness_normalized@,
                final(self).population@,
                final(self).fitness@,
                &old(self).params,
                old(self).cases@,
                fitness_func,
            ),
            final(self).generation == if old(self).generation < u64::MAX {
                (old(self).generation + 1) as u64
            } else {
                u64::MAX
            },
            final(self).fitness_normalized@ == final(self).fitness@,
            old(self).ranked_by(fitness_func) ==> final(self).ranked_by(fitness_func),
            !old(self).params.random_initial_memory && old(self).scored_by(fitness_func)
                ==> final(self).scored_by(fitness_func),
    {
        let mut made: usize = 0;
        let ghost mut steps: Seq<Replacement> = Seq::empty();
        while made < self.params.popsize
            invariant
                self.inv(),
                scorable(self.cases@, fitness_func),
                self.params == old(self).params,
                self.cases == old(self).cases,
                self.reports == old(self).reports,
                self.generation == old(self).generation,
                self.fitness_normalized == old(self).fitness_normalized,
                self.population.len() == old(self).population.len(),
                made <= self.params.popsize,
                steps.len() == made,
                self.population@ == overwritten(old(self).population@, steps),
                self.fitness@ == rescored(old(self).fitness@, steps),
                steps_made(
                    old(self).population@,
                    old(self).fitness_normalized@,
                    steps,
                    &self.params,
                    self.cases@,
                    fitness_func,
                ),
                old(self).ranked_by(fitness_func) ==> self.ranked_by(fitness_func),
                !old(self).params.random_initial_memory && old(self).scored_by(fitness_func)
                    ==> self.scored_by(fitness_func),
            decreases self.params.popsize - made,
        {
            let child_program = self.breed();
            let child_index = negative_tournament(
                &self.fitness_normalized,
                self.params.tournament_size,
                &mut self.rand,
            );
            let score = run_and_rank(
                &child_program,
                &self.params,
                &self.cases,
                fitness_func,
                &mut self.rand,
            );
            proof {
                let step = Replacement {
                    slot: child_index as int,
                    child: child_program,
                    score,
                };
                lemma_step_made(
                    old(self).population@,
                    old(self).fitness@,
                    old(self).fitness_normalized@,
                    steps,
                    step,
                    &self.params,
                    self.cases@,
                    fitness_func,
                );
                steps = steps.push(step);
            }
            self.replace(child_index, child_program, score);
            made += 1;
        }
        self.fitness_normalized = normalize_fitness(&self.fitness, &self.population);
        if self.generation < u64::MAX {
            self.generation += 1;
        }
    }

    /// Evolves the population until its best fitness reaches the acceptable
    /// error or `generations` generations have passed, whichever comes
    /// first. Returns a copy of the best individual and its fitness. A
    /// report is recorded for the population as it was found and after
    /// each generation.
    #[verifier::rlimit(30)]
    pub fn evolve(&mut self, generations: usize, fitness_func: FitnessFunc) -> (found: (
        Program,
        Fitness,
    ))
        requires
            old(self).inv(),
            scorable(old(self).cases@, fitness_func),
        ensures
            final(self).inv(),
            final(self).params == old(self).params,
            final(self).cases == old(self).cases,
            final(self).population.len() == old(self).population.len(),
            exists|best: int|
                {
                    &&& #[trigger] is_best(final(self).fitness@, best)
                    &&& found.0@ == final(self).population[best]@
                    &&& found.1 == final(self).fitness[best]
                },
            well_formed(found.0@),
            registers_within(found.0@, old(self).params.memsize as nat),
            final(self).generation - old(self).generation <= generations,
            generations == 0 ==> final(self).population == old(self).population
                && final(self).fitness == old(self).fitness,
            found.1 >= old(self).params.acceptable_error || final(self).generation - old(
                self,
            ).generation == generations || final(self).generation == u64::MAX,
            forall|best: int|
                #[trigger] is_best(old(self).fitness@, best) && old(self).fitness[best] >= old(
                    self,
                ).params.acceptable_error ==> final(self).generation == old(self).generation
                    && final(self).population == old(self).population && final(self).fitness
                    == old(self).fitness,
            final(self).reports.len() == old(self).reports.len() + 1 + (final(self).generation
                - old(self).generation),
            final(self).reports@.subrange(0, old(self).reports.len() as int) == old(
                self,
            ).reports@,
            reported(
                final(self).population@,
                final(self).fitness@,
                final(self).generation as int,
                final(self).reports@.last(),
            ),
            exists|states: Seq<Snapshot>|
                {
                    &&& states.len() == 1 + (final(self).generation - old(self).generation)
                    &&& states[0] == (Snapshot {
                        population: old(self).population@,
                        fitness: old(self).fitness@,
                    })
                    &&& states.last() == (Snapshot {
                        population: final(self).population@,
                        fitness: final(self).fitness@,
                    })
                    &&& #[trigger] run_made(
                        states,
                        old(self).fitness_normalized@,
                        final(self).reports@.subrange(
                            old(self).reports.len() as int,
                            final(self).reports.len() as int,
                        ),
                        old(self).generation as int,
                        &old(self).params,
                        old(self).cases@,
                        fitness_func,
                    )
                },
            old(self).ranked_by(fitness_func) ==> final(self).ranked_by(fitness_func),
            !old(self).params.random_initial_memory && old(self).scored_by(fitness_func)
                ==> final(self).scored_by(fitness_func),
    {
        let mut left = generations;
        let mut report = self.stats();
        self.reports.push(report);
        let ghost first = report;
        let ghost n0 = old(self).reports.len() as int;
        let ghost mut states: Seq<Snapshot> = seq![
            Snapshot { population: self.population@, fitness: self.fitness@ },
        ];
        proof {
            assert(self.reports@.subrange(0, n0) =~= old(self).reports@);
            assert(self.reports@.subrange(n0, n0 + 1) =~= seq![report]);
        }
        proof {
            assert forall|best: int| #[trigger] is_best(old(self).fitness@, best) implies best
                == first.best by {
                lemma_best_unique(old(self).fitness@, best, first.best as int);
            }
        }
        while !self.params.reaches_goal(report.best_fitness) && left > 0 && self.generation
            < u64::MAX
            invariant
                self.inv(),
                scorable(self.cases@, fitness_func),
                self.params == old(self).params,
                self.cases == old(self).cases,
                self.population.len() == old(self).population.len(),
                left <= generations,
                self.generation - old(self).generation == generations - left,
                first.best_fitness == old(self).fitness[first.best as int],
                left == generations ==> report == first && self.generation == old(self).generation
                    && self.population == old(self).population && self.fitness == old(
                    self,
                ).fitness,
                first.best_fitness >= self.params.acceptable_error ==> left == generations,
                is_best(self.fitness@, report.best as int),
                report.best_fitness == self.fitness[report.best as int],
                self.reports.len() == old(self).reports.len() + 1 + (self.generation - old(
                    self,
                ).generation),
                n0 == old(self).reports.len(),
                self.reports@.subrange(0, n0) == old(self).reports@,
                self.reports@.last() == report,
                reported(self.population@, self.fitness@, self.generation as int, report),
                states.len() == 1 + (self.generation - old(self).generation),
                states[0] == (Snapshot {
                    population: old(self).population@,
                    fitness: old(self).fitness@,
                }),
                states.last() == (Snapshot {
                    population: self.population@,
                    fitness: self.fitness@,
                }),
                self.fitness_normalized@ == selecting(
                    states,
                    old(self).fitness_normalized@,
                    states.len() - 1,
                ),
                run_made(
                    states,
                    old(self).fitness_normalized@,
                    self.reports@.subrange(n0, self.reports.len() as int),
                    old(self).generation as int,
                    &self.params,
                    self.cases@,
                    fitness_func,
                ),
                old(self).ranked_by(fitness_func) ==> self.ranked_by(fitness_func),
                !old(self).params.random_initial_memory && old(self).scored_by(fitness_func)
                    ==> self.scored_by(fitness_func),
            decreases left,
        {
            left -= 1;
            let ghost tail = self.reports@.subrange(n0, self.reports.len() as int);
            let ghost before = self.reports@;
            self.evolve_generation(fitness_func);
            report = self.stats();
            self.reports.push(report);
            proof {
                let next = Snapshot { population: self.population@, fitness: self.fitness@ };
                lemma_run_made(
                    states,
                    old(self).fitness_normalized@,
                    tail,
                    old(self).generation as int,
                    next,
                    report,
                    &self.params,
                    self.cases@,
                    fitness_func,
                );
                states = states.push(next);
                assert(self.reports@.subrange(n0, self.reports.len() as int) =~= tail.push(
                    report,
                ));
                assert(self.reports@.subrange(0, n0) =~= before.subrange(0, n0));
            }
        }
        let best = copy_program(&self.population[report.best]);
        assert(well_formed(self.population@[report.best as int]@));
        (best, report.best_fitness)
    }

    /// Finds the best individual and the averages of the population.
    pub fn stats(&self) -> (report: Report)
        requires
            self.population.len() > 0,
            self.fitness.len() == self.population.len(),
        ensures
            reported(self.population@, self.fitness@, self.generation as int, report),
    {
        let popsize = self.population.len();
        let mut best: usize = 0;
        let mut best_fitness: Fitness = self.fitness[0];
        let mut node_count: u128 = 0;
        let mut sum: i128 = 0;
        let mut i: usize = 0;
        while i < popsize
            invariant
                i <= popsize,
                popsize == self.population.len(),
                popsize == self.fitness.len(),
                0 <= best < popsize,
                best_fitness == self.fitness[best as int],
                best <= i,
                forall|k: int| 0 <= k < i ==> #[trigger] self.fitness[k] <= best_fitness,
                forall|k: int| 0 <= k < best ==> #[trigger] self.fitness[k] < best_fitness,
                node_count == total_size(self.population@, i as nat),
                node_count <= i * usize::MAX,
                sum == total_fitness(self.fitness@, i as nat),
                i * i64::MIN <= sum <= i * i64::MAX,
            decreases popsize - i,
        {
            assert(i * usize::MAX + usize::MAX <= u64::MAX * u64::MAX) by (nonlinear_arith)
                requires
                    i < u64::MAX,
                    usize::MAX <= u64::MAX,
            ;
            assert((i + 1) * usize::MAX == i * usize::MAX + usize::MAX) by (nonlinear_arith);
            assert((i + 1) * i64::MIN == i * i64::MIN + i64::MIN) by (nonlinear_arith);
            assert((i + 1) * i64::MAX == i * i64::MAX + i64::MAX) by (nonlinear_arith);
            assert(i * i64::MAX <= u64::MAX * i64::MAX && i * i64::MIN >= u64::MAX * i64::MIN)
                by (nonlinear_arith)
                requires
                    0 <= i <= u64::MAX,
            ;
            node_count = node_count + self.population[i].len() as u128;
            sum = sum + self.fitness[i] as i128;
            if self.fitness[i] > best_fitness {
                best = i;
                best_fitness = self.fitness[i];
            }
            i += 1;
        }
        proof {
            let n = popsize as int;
            let most = n * usize::MAX;
            vstd::arithmetic::div_mod::lemma_div_is_ordered(node_count as int, most, n);
            vstd::arithmetic::div_mod::lemma_div_multiples_vanish(usize::MAX as int, n);
            vstd::arithmetic::div_mod::lemma_div_pos_is_pos(node_count as int, n);
        }
        let avg_size = (node_count / (popsize as u128)) as usize;
        let avg_fitness = average(sum, popsize);
        Report { generation: self.generation, best, best_fitness, avg_fitness, avg_size }
    }
}

/// The quotient of a sum of `count` fitness values by `count`, rounded
/// toward zero.
fn average(sum: i128, count: usize) -> (avg: Fitness)
    requires
        count > 0,
        count * i64::MIN <= sum <= count * i64::MAX,
    ensures
        avg == crate::tinygp::execution::quotient(sum as int, count as int),
{
    let divisor = count as i128;
    match sum.checked_div(divisor) {
        Some(q) => {
            proof {
                let n = count as int;
                let s = sum as int;
                let a: int = if s >= 0 { s } else { -s };
                vstd::arithmetic::div_mod::lemma_fundamental_div_mod(a, n);
                vstd::arithmetic::div_mod::lemma_mod_bound(a, n);
                vstd::arithmetic::div_mod::lemma_div_pos_is_pos(a, n);
                let k = a / n;
                assert(k <= 0x8000_0000_0000_0000) by (nonlinear_arith)
                    requires
                        a == n * k + a % n,
                        0 <= a % n,
                        n >= 1,
                        a <= n * 0x8000_0000_0000_0000,
                        k >= 0,
                ;
                if s >= 0 {
                    assert(k <= 0x7fff_ffff_ffff_ffff) by (nonlinear_arith)
                        requires
                            a == n * k + a % n,
                            0 <= a % n,
                            n >= 1,
                            a <= n * 0x7fff_ffff_ffff_ffff,
                            k >= 0,
                    ;
                }
            }
            q as i64
        },
        None => vstd::pervasive::unreached(),
    }
}

} // verus!
