//! Problems that ask for loops and comparisons: an arithmetic series, sums
//! over a range and the smallest of several inputs.

use vstd::prelude::*;
use crate::params::{
    views,
    Case,
    Params,
    ParamsView,
    GrowingParams,
    GrowingView,
    read_inputs,
    reads,
    expr_table,
    stat_table,
};
use crate::tinygp::common::Number;
use crate::tinygp::evolution::scorable;
use crate::tinygp::fitness_funcs::FitnessFunc;
use super::{Benchmark, push_case, expr_weighted, stat_weighted};

verus! {

/// The cases of the series problem, ten to a part.
pub open spec fn series_cases(part: nat) -> Seq<(Seq<Number>, Seq<Number>)> {
    if part == 0 {
        seq![
            (seq![-12i32, 66i32, 15i32], seq![-12i32, 3i32, 18i32, 33i32, 48i32, 63i32]),
            (seq![38i32, -1i32, -15i32], seq![38i32, 23i32, 8i32]),
            (seq![51i32, 55i32, 12i32], seq![51i32]),
            (seq![-2i32, 5i32, 4i32], seq![-2i32, 2i32]),
            (
                seq![12i32, 28i32, 1i32],
                seq![
                    12i32, 13i32, 14i32, 15i32, 16i32, 17i32, 18i32, 19i32, 20i32, 21i32, 22i32,
                    23i32, 24i32, 25i32, 26i32, 27i32,
                ],
            ),
            (seq![-90i32, -91i32, -3i32], seq![-90i32]),
            (
                seq![-82i32, 68i32, 12i32],
                seq![
                    -82i32, -70i32, -58i32, -46i32, -34i32, -22i32, -10i32, 2i32, 14i32, 26i32,
                    38i32, 50i32, 62i32,
                ],
            ),
            (seq![-16i32, -59i32, -13i32], seq![-16i32, -29i32, -42i32, -55i32]),
            (seq![81i32, 7i32, -18i32], seq![81i32, 63i32, 45i32, 27i32, 9i32]),
            (seq![76i32, 76i32, 2i32], seq![]),
        ]
    } else if part == 1 {
        seq![
            (
                seq![-20i32, 74i32, 10i32],
                seq![-20i32, -10i32, 0i32, 10i32, 20i32, 30i32, 40i32, 50i32, 60i32, 70i32],
            ),
            (
                seq![12i32, -75i32, -6i32],
                seq![
                    12i32, 6i32, 0i32, -6i32, -12i32, -18i32, -24i32, -30i32, -36i32, -42i32,
                    -48i32, -54i32, -60i32, -66i32, -72i32,
                ],
            ),
            (seq![-81i32, -41i32, 18i32], seq![-81i32, -63i32, -45i32]),
            (seq![84i32, 34i32, -11i32], seq![84i32, 73i32, 62i32, 51i32, 40i32]),
            (seq![4i32, -84i32, -17i32], seq![4i32, -13i32, -30i32, -47i32, -64i32, -81i32]),
            (seq![22i32, 89i32, 16i32], seq![22i32, 38i32, 54i32, 70i32, 86i32]),
            (seq![37i32, 3i32, -10i32], seq![37i32, 27i32, 17i32, 7i32]),
            (seq![93i32, 55i32, -17i32], seq![93i32, 76i32, 59i32]),
            (seq![-78i32, -1i32, 20i32], seq![-78i32, -58i32, -38i32, -18i32]),
            (seq![-38i32, -68i32, -11i32], seq![-38i32, -49i32, -60i32]),
        ]
    } else if part == 2 {
        seq![
            (seq![-34i32, -87i32, -10i32], seq![-34i32, -44i32, -54i32, -64i32, -74i32, -84i32]),
            (seq![26i32, -20i32, -16i32], seq![26i32, 10i32, -6i32]),
            (seq![47i32, -19i32, -10i32], seq![47i32, 37i32, 27i32, 17i32, 7i32, -3i32, -13i32]),
            (
                seq![-25i32, 78i32, 9i32],
                seq![
                    -25i32, -16i32, -7i32, 2i32, 11i32, 20i32, 29i32, 38i32, 47i32, 56i32, 65i32,
                    74i32,
                ],
            ),
            (
                seq![53i32, -1i32, -3i32],
                seq![
                    53i32, 50i32, 47i32, 44i32, 41i32, 38i32, 35i32, 32i32, 29i32, 26i32, 23i32,
                    20i32, 17i32, 14i32, 11i32, 8i32, 5i32, 2i32,
                ],
            ),
            (seq![18i32, 76i32, 11i32], seq![18i32, 29i32, 40i32, 51i32, 62i32, 73i32]),
            (seq![86i32, 98i32, 7i32], seq![86i32, 93i32]),
            (
                seq![-56i32, 20i32, 7i32],
                seq![
                    -56i32, -49i32, -42i32, -35i32, -28i32, -21i32, -14i32, -7i32, 0i32, 7i32,
                    14i32,
                ],
            ),
            (seq![94i32, 95i32, 13i32], seq![94i32]),
            (seq![63i32, 64i32, 1i32], seq![63i32]),
        ]
    } else if part == 3 {
        seq![
            (
                seq![-33i32, 97i32, 3i32],
                seq![
                    -33i32, -30i32, -27i32, -24i32, -21i32, -18i32, -15i32, -12i32, -9i32, -6i32,
                    -3i32, 0i32, 3i32, 6i32, 9i32, 12i32, 15i32, 18i32, 21i32, 24i32, 27i32, 30i32,
                    33i32, 36i32, 39i32, 42i32, 45i32, 48i32, 51i32, 54i32, 57i32, 60i32, 63i32,
                    66i32, 69i32, 72i32, 75i32, 78i32, 81i32, 84i32, 87i32, 90i32, 93i32, 96i32,
                ],
            ),
            (
                seq![73i32, -23i32, -3i32],
                seq![
                    73i32, 70i32, 67i32, 64i32, 61i32, 58i32, 55i32, 52i32, 49i32, 46i32, 43i32,
                    40i32, 37i32, 34i32, 31i32, 28i32, 25i32, 22i32, 19i32, 16i32, 13i32, 10i32,
                    7i32, 4i32, 1i32, -2i32, -5i32, -8i32, -11i32, -14i32, -17i32, -20i32,
                ],
            ),
            (seq![-14i32, -16i32, -15i32], seq![-14i32]),
            (seq![51i32, 77i32, 10i32], seq![51i32, 61i32, 71i32]),
            (
                seq![49i32, -18i32, -1i32],
                seq![
                    49i32, 48i32, 47i32, 46i32, 45i32, 44i32, 43i32, 42i32, 41i32, 40i32, 39i32,
                    38i32, 37i32, 36i32, 35i32, 34i32, 33i32, 32i32, 31i32, 30i32, 29i32, 28i32,
                    27i32, 26i32, 25i32, 24i32, 23i32, 22i32, 21i32, 20i32, 19i32, 18i32, 17i32,
                    16i32, 15i32, 14i32, 13i32, 12i32, 11i32, 10i32, 9i32, 8i32, 7i32, 6i32, 5i32,
                    4i32, 3i32, 2i32, 1i32, 0i32, -1i32, -2i32, -3i32, -4i32, -5i32, -6i32, -7i32,
                    -8i32, -9i32, -10i32, -11i32, -12i32, -13i32, -14i32, -15i32, -16i32, -17i32,
                ],
            ),
            (seq![-23i32, 25i32, 20i32], seq![-23i32, -3i32, 17i32]),
            (
                seq![-5i32, 38i32, 4i32],
                seq![-5i32, -1i32, 3i32, 7i32, 11i32, 15i32, 19i32, 23i32, 27i32, 31i32, 35i32],
            ),
            (
                seq![-71i32, -88i32, -1i32],
                seq![
                    -71i32, -72i32, -73i32, -74i32, -75i32, -76i32, -77i32, -78i32, -79i32, -80i32,
                    -81i32, -82i32, -83i32, -84i32, -85i32, -86i32, -87i32,
                ],
            ),
            (seq![-26i32, -61i32, -13i32], seq![-26i32, -39i32, -52i32]),
            (
                seq![43i32, 71i32, 1i32],
                seq![
                    43i32, 44i32, 45i32, 46i32, 47i32, 48i32, 49i32, 50i32, 51i32, 52i32, 53i32,
                    54i32, 55i32, 56i32, 57i32, 58i32, 59i32, 60i32, 61i32, 62i32, 63i32, 64i32,
                    65i32, 66i32, 67i32, 68i32, 69i32, 70i32,
                ],
            ),
        ]
    } else if part == 4 {
        seq![
            (seq![-11i32, -71i32, -19i32], seq![-11i32, -30i32, -49i32, -68i32]),
            (seq![-77i32, -66i32, 4i32], seq![-77i32, -73i32, -69i32]),
            (seq![31i32, 66i32, 16i32], seq![31i32, 47i32, 63i32]),
            (seq![-47i32, -68i32, -5i32], seq![-47i32, -52i32, -57i32, -62i32, -67i32]),
            (
                seq![32i32, 85i32, 1i32],
                seq![
                    32i32, 33i32, 34i32, 35i32, 36i32, 37i32, 38i32, 39i32, 40i32, 41i32, 42i32,
                    43i32, 44i32, 45i32, 46i32, 47i32, 48i32, 49i32, 50i32, 51i32, 52i32, 53i32,
                    54i32, 55i32, 56i32, 57i32, 58i32, 59i32, 60i32, 61i32, 62i32, 63i32, 64i32,
                    65i32, 66i32, 67i32, 68i32, 69i32, 70i32, 71i32, 72i32, 73i32, 74i32, 75i32,
                    76i32, 77i32, 78i32, 79i32, 80i32, 81i32, 82i32, 83i32, 84i32,
                ],
            ),
            (seq![45i32, 26i32, -4i32], seq![45i32, 41i32, 37i32, 33i32, 29i32]),
            (
                seq![-84i32, 22i32, 8i32],
                seq![
                    -84i32, -76i32, -68i32, -60i32, -52i32, -44i32, -36i32, -28i32, -20i32, -12i32,
                    -4i32, 4i32, 12i32, 20i32,
                ],
            ),
            (seq![34i32, 44i32, 12i32], seq![34i32]),
            (seq![-65i32, -60i32, 7i32], seq![-65i32]),
            (seq![38i32, 57i32, 15i32], seq![38i32, 53i32]),
        ]
    } else {
        Seq::empty()
    }
}

/// The first `count` parts of the table, joined.
pub open spec fn series_parts(count: nat) -> Seq<(Seq<Number>, Seq<Number>)>
    decreases count,
{
    if count == 0 {
        Seq::empty()
    } else {
        series_parts((count - 1) as nat) + series_cases((count - 1) as nat)
    }
}

/// The whole table.
pub open spec fn series_table() -> Seq<(Seq<Number>, Seq<Number>)> {
    series_parts(5)
}

/// Adds one part of the series cases.
fn add_series_cases(cases: &mut Vec<Case>, part: usize)
    requires
        part < 5,
        scorable(old(cases)@, FitnessFunc::FitArithmeticSeries),
    ensures
        views(final(cases)@) == views(old(cases)@) + series_cases(part as nat),
        scorable(final(cases)@, FitnessFunc::FitArithmeticSeries),
{
    let ghost before = views(cases@);
    match part {
        0 => {
            push_case(cases, vec![-12, 66, 15], vec![-12, 3, 18, 33, 48, 63]);
            push_case(cases, vec![38, -1, -15], vec![38, 23, 8]);
            push_case(cases, vec![51, 55, 12], vec![51]);
            push_case(cases, vec![-2, 5, 4], vec![-2, 2]);
            push_case(
                cases,
                vec![12, 28, 1],
                vec![12, 13, 14, 15, 16, 17, 18, 19, 20, 21, 22, 23, 24, 25, 26, 27],
            );
            push_case(cases, vec![-90, -91, -3], vec![-90]);
            push_case(
                cases,
                vec![-82, 68, 12],
                vec![-82, -70, -58, -46, -34, -22, -10, 2, 14, 26, 38, 50, 62],
            );
            push_case(cases, vec![-16, -59, -13], vec![-16, -29, -42, -55]);
            push_case(cases, vec![81, 7, -18], vec![81, 63, 45, 27, 9]);
            push_case(cases, vec![76, 76, 2], vec![]);
        },
        1 => {
            push_case(cases, vec![-20, 74, 10], vec![-20, -10, 0, 10, 20, 30, 40, 50, 60, 70]);
            push_case(
                cases,
                vec![12, -75, -6],
                vec![12, 6, 0, -6, -12, -18, -24, -30, -36, -42, -48, -54, -60, -66, -72],
            );
            push_case(cases, vec![-81, -41, 18], vec![-81, -63, -45]);
            push_case(cases, vec![84, 34, -11], vec![84, 73, 62, 51, 40]);
            push_case(cases, vec![4, -84, -17], vec![4, -13, -30, -47, -64, -81]);
            push_case(cases, vec![22, 89, 16], vec![22, 38, 54, 70, 86]);
            push_case(cases, vec![37, 3, -10], vec![37, 27, 17, 7]);
            push_case(cases, vec![93, 55, -17], vec![93, 76, 59]);
            push_case(cases, vec![-78, -1, 20], vec![-78, -58, -38, -18]);
            push_case(cases, vec![-38, -68, -11], vec![-38, -49, -60]);
        },
        2 => {
            push_case(cases, vec![-34, -87, -10], vec![-34, -44, -54, -64, -74, -84]);
            push_case(cases, vec![26, -20, -16], vec![26, 10, -6]);
            push_case(cases, vec![47, -19, -10], vec![47, 37, 27, 17, 7, -3, -13]);
            push_case(
                cases,
                vec![-25, 78, 9],
                vec![-25, -16, -7, 2, 11, 20, 29, 38, 47, 56, 65, 74],
            );
            push_case(
                cases,
                vec![53, -1, -3],
                vec![53, 50, 47, 44, 41, 38, 35, 32, 29, 26, 23, 20, 17, 14, 11, 8, 5, 2],
            );
            push_case(cases, vec![18, 76, 11], vec![18, 29, 40, 51, 62, 73]);
            push_case(cases, vec![86, 98, 7], vec![86, 93]);
            push_case(
                cases,
                vec![-56, 20, 7],
                vec![-56, -49, -42, -35, -28, -21, -14, -7, 0, 7, 14],
            );
            push_case(cases, vec![94, 95, 13], vec![94]);
            push_case(cases, vec![63, 64, 1], vec![63]);
        },
        3 => {
            push_case(
                cases,
                vec![-33, 97, 3],
                vec![
                    -33, -30, -27, -24, -21, -18, -15, -12, -9, -6, -3, 0, 3, 6, 9, 12, 15, 18, 21,
                    24, 27, 30, 33, 36, 39, 42, 45, 48, 51, 54, 57, 60, 63, 66, 69, 72, 75, 78, 81,
                    84, 87, 90, 93, 96,
                ],
            );
            push_case(
                cases,
                vec![73, -23, -3],
                vec![
                    73, 70, 67, 64, 61, 58, 55, 52, 49, 46, 43, 40, 37, 34, 31, 28, 25, 22, 19, 16,
                    13, 10, 7, 4, 1, -2, -5, -8, -11, -14, -17, -20,
                ],
            );
            push_case(cases, vec![-14, -16, -15], vec![-14]);
            push_case(cases, vec![51, 77, 10], vec![51, 61, 71]);
            push_case(
                cases,
                vec![49, -18, -1],
                vec![
                    49, 48, 47, 46, 45, 44, 43, 42, 41, 40, 39, 38, 37, 36, 35, 34, 33, 32, 31, 30,
                    29, 28, 27, 26, 25, 24, 23, 22, 21, 20, 19, 18, 17, 16, 15, 14, 13, 12, 11, 10,
                    9, 8, 7, 6, 5, 4, 3, 2, 1, 0, -1, -2, -3, -4, -5, -6, -7, -8, -9, -10, -11,
                    -12, -13, -14, -15, -16, -17,
                ],
            );
            push_case(cases, vec![-23, 25, 20], vec![-23, -3, 17]);
            push_case(cases, vec![-5, 38, 4], vec![-5, -1, 3, 7, 11, 15, 19, 23, 27, 31, 35]);
            push_case(
                cases,
                vec![-71, -88, -1],
                vec![
                    -71, -72, -73, -74, -75, -76, -77, -78, -79, -80, -81, -82, -83, -84, -85, -86,
                    -87,
                ],
            );
            push_case(cases, vec![-26, -61, -13], vec![-26, -39, -52]);
            push_case(
                cases,
                vec![43, 71, 1],
                vec![
                    43, 44, 45, 46, 47, 48, 49, 50, 51, 52, 53, 54, 55, 56, 57, 58, 59, 60, 61, 62,
                    63, 64, 65, 66, 67, 68, 69, 70,
                ],
            );
        },
        _ => {
            push_case(cases, vec![-11, -71, -19], vec![-11, -30, -49, -68]);
            push_case(cases, vec![-77, -66, 4], vec![-77, -73, -69]);
            push_case(cases, vec![31, 66, 16], vec![31, 47, 63]);
            push_case(cases, vec![-47, -68, -5], vec![-47, -52, -57, -62, -67]);
            push_case(
                cases,
                vec![32, 85, 1],
                vec![
                    32, 33, 34, 35, 36, 37, 38, 39, 40, 41, 42, 43, 44, 45, 46, 47, 48, 49, 50, 51,
                    52, 53, 54, 55, 56, 57, 58, 59, 60, 61, 62, 63, 64, 65, 66, 67, 68, 69, 70, 71,
                    72, 73, 74, 75, 76, 77, 78, 79, 80, 81, 82, 83, 84,
                ],
            );
            push_case(cases, vec![45, 26, -4], vec![45, 41, 37, 33, 29]);
            push_case(
                cases,
                vec![-84, 22, 8],
                vec![-84, -76, -68, -60, -52, -44, -36, -28, -20, -12, -4, 4, 12, 20],
            );
            push_case(cases, vec![34, 44, 12], vec![34]);
            push_case(cases, vec![-65, -60, 7], vec![-65]);
            push_case(cases, vec![38, 57, 15], vec![38, 53]);
        },
    }
    assert(views(cases@) =~~= before + series_cases(part as nat));
}

/// Given a start, an end and a step, the program should write the
/// arithmetic series from the start up to the end.
pub fn bench_final_1() -> (bench: Benchmark)
    ensures
        bench.wf(),
        bench.name@ == "final_1"@,
        bench.fitness_func == FitnessFunc::FitArithmeticSeries,
        bench.params@ == (ParamsView {
            popsize: 5000,
            max_size: 200,
            memsize: 20,
            prefix: reads(3),
            suffix: Seq::empty(),
            growing: GrowingView {
                d_expr: expr_weighted(1, 0, 0, 0, 0, 1, 1, 0, 0, 0, 1, 1),
                d_stat: stat_weighted(1, 0, 1, 1, 1),
                ..GrowingParams::standard_view()
            },
            ..Params::standard_view()
        }),
        views(bench.cases@) == series_table(),
{
    let mut params = Params::standard();
    params.popsize = 5000;
    params.max_size = 200;
    params.memsize = 20;
    params.prefix = read_inputs(3);
    params.suffix = Vec::new();
    params.growing.d_expr = expr_table(1, 0, 0, 0, 0, 1, 1, 0, 0, 0, 1, 1);
    params.growing.d_stat = stat_table(1, 0, 1, 1, 1);
    let mut cases: Vec<Case> = Vec::new();
    assert(views(cases@) =~= Seq::empty());
    let mut part: usize = 0;
    while part < 5
        invariant
            part <= 5,
            views(cases@) == series_parts(part as nat),
            scorable(cases@, FitnessFunc::FitArithmeticSeries),
        decreases 5 - part,
    {
        add_series_cases(&mut cases, part);
        part += 1;
    }
    Benchmark { name: "final_1", params, cases, fitness_func: FitnessFunc::FitArithmeticSeries }
}

/// The sum of the squares of the integers from 1 to `to`.
pub open spec fn squares_up_to(to: nat) -> nat
    decreases to,
{
    if to == 0 {
        0
    } else {
        squares_up_to((to - 1) as nat) + to * to
    }
}

/// The sum of the integers from 1 to `to`.
pub open spec fn integers_up_to(to: nat) -> nat
    decreases to,
{
    if to == 0 {
        0
    } else {
        integers_up_to((to - 1) as nat) + to
    }
}

/// The sum of the integers up to `to` is half of `to * (to + 1)`.
pub proof fn lemma_integers_up_to(to: nat)
    ensures
        2 * integers_up_to(to) == to * (to + 1),
    decreases to,
{
    if to > 0 {
        let before = (to - 1) as nat;
        lemma_integers_up_to(before);
        assert(before * (before + 1) + 2 * to == to * (to + 1)) by (nonlinear_arith)
            requires
                before + 1 == to,
        ;
    } else {
        assert(to * (to + 1) == 0) by (nonlinear_arith)
            requires
                to == 0,
        ;
    }
}

/// The sum of the squares of the integers up to `to` is a sixth of
/// `to * (to + 1) * (2 * to + 1)`.
pub proof fn lemma_squares_up_to(to: nat)
    ensures
        6 * squares_up_to(to) == to * (to + 1) * (2 * to + 1),
    decreases to,
{
    if to > 0 {
        let before = (to - 1) as nat;
        lemma_squares_up_to(before);
        assert(before * (before + 1) * (2 * before + 1) + 6 * (to * to) == to * (to + 1) * (2
            * to + 1)) by (nonlinear_arith)
            requires
                before + 1 == to,
        ;
    } else {
        assert(to * (to + 1) * (2 * to + 1) == 0) by (nonlinear_arith)
            requires
                to == 0,
        ;
    }
}

/// The sum of the squares of the integers from 1 to `to`; zero when `to` is
/// not positive.
pub fn sum_of_squares(to: i32) -> (sum: i32)
    requires
        to <= 1860,
    ensures
        sum == squares_up_to(
            if to > 0 {
                to as nat
            } else {
                0
            },
        ),
{
    let mut sum: i32 = 0;
    let mut i: i32 = 1;
    while i <= to
        invariant
            1 <= i,
            to >= 1 ==> i <= to + 1,
            to < 1 ==> i == 1,
            to <= 1860,
            sum == squares_up_to((i - 1) as nat),
        decreases to + 1 - i,
    {
        proof {
            lemma_squares_up_to(i as nat);
            assert(i * (i + 1) * (2 * i + 1) <= 1860 * 1861 * 3721) by (nonlinear_arith)
                requires
                    1 <= i <= 1860,
            ;
            assert(i * i <= 1860 * 1860) by (nonlinear_arith)
                requires
                    1 <= i <= 1860,
            ;
        }
        sum += i * i;
        i += 1;
    }
    sum
}

/// The sum of the integers from 1 to `to`; zero when `to` is not positive.
pub fn sum(to: i32) -> (sum: i32)
    requires
        to <= 65535,
    ensures
        sum == integers_up_to(
            if to > 0 {
                to as nat
            } else {
                0
            },
        ),
{
    let mut sum: i32 = 0;
    let mut i: i32 = 1;
    while i <= to
        invariant
            1 <= i,
            to >= 1 ==> i <= to + 1,
            to < 1 ==> i == 1,
            to <= 65535,
            sum == integers_up_to((i - 1) as nat),
        decreases to + 1 - i,
    {
        proof {
            lemma_integers_up_to(i as nat);
            assert(i * (i + 1) <= 65535 * 65536) by (nonlinear_arith)
                requires
                    1 <= i <= 65535,
            ;
        }
        sum += i;
        i += 1;
    }
    sum
}

/// Whether the cases ask, for each `n` from 1 to their number, for the value
/// of `target` at `n`.
pub open spec fn tabulates(cases: Seq<Case>, target: spec_fn(nat) -> nat) -> bool {
    forall|i: int|
        0 <= i < cases.len() ==> (#[trigger] cases[i]).0@ == seq![(i + 1) as i32] && cases[i].1@
            == seq![target((i + 1) as nat) as i32]
}

/// The program should read a number `n` and write the sum of the integers
/// from 1 to `n`.
pub fn bench_sum() -> (bench: Benchmark)
    ensures
        bench.wf(),
        bench.name@ == "final_2_sum"@,
        bench.fitness_func == FitnessFunc::DiffFirstPromoteSingle,
        bench.params@ == (ParamsView {
            popsize: 2000,
            max_size: 100,
            memsize: 15,
            ..Params::standard_view()
        }),
        bench.cases.len() == 10,
        tabulates(bench.cases@, |n: nat| integers_up_to(n)),
{
    let mut params = Params::standard();
    params.popsize = 2000;
    params.max_size = 100;
    params.memsize = 15;
    let mut cases: Vec<Case> = Vec::new();
    let mut n: i32 = 1;
    while n <= 10
        invariant
            1 <= n <= 11,
            cases.len() == n - 1,
            tabulates(cases@, |n: nat| integers_up_to(n)),
            scorable(cases@, FitnessFunc::DiffFirstPromoteSingle),
        decreases 11 - n,
    {
        let inputs: Vec<Number> = vec![n];
        let outputs: Vec<Number> = vec![sum(n)];
        assert(inputs@ =~= seq![n]);
        assert(outputs@ =~= seq![integers_up_to(n as nat) as i32]);
        push_case(&mut cases, inputs, outputs);
        n += 1;
    }
    Benchmark {
        name: "final_2_sum",
        params,
        cases,
        fitness_func: FitnessFunc::DiffFirstPromoteSingle,
    }
}

/// The program should read a number `n` and write its square.
pub fn bench_square() -> (bench: Benchmark)
    ensures
        bench.wf(),
        bench.name@ == "final_2_square"@,
        bench.fitness_func == FitnessFunc::DiffFirstPromoteSingle,
        bench.params@ == (ParamsView {
            popsize: 2000,
            max_size: 100,
            memsize: 1,
            ..Params::standard_view()
        }),
        bench.cases.len() == 10,
        tabulates(bench.cases@, |n: nat| n * n),
{
    let mut params = Params::standard();
    params.popsize = 2000;
    params.max_size = 100;
    params.memsize = 1;
    let mut cases: Vec<Case> = Vec::new();
    let mut n: i32 = 1;
    while n <= 10
        invariant
            1 <= n <= 11,
            cases.len() == n - 1,
            tabulates(cases@, |n: nat| n * n),
            scorable(cases@, FitnessFunc::DiffFirstPromoteSingle),
        decreases 11 - n,
    {
        assert(n * n <= 100) by (nonlinear_arith)
            requires
                1 <= n <= 10,
        ;
        let inputs: Vec<Number> = vec![n];
        let outputs: Vec<Number> = vec![n * n];
        assert(inputs@ =~= seq![n]);
        assert(outputs@ =~= seq![((n as nat) * (n as nat)) as i32]);
        push_case(&mut cases, inputs, outputs);
        n += 1;
    }
    Benchmark {
        name: "final_2_square",
        params,
        cases,
        fitness_func: FitnessFunc::DiffFirstPromoteSingle,
    }
}

/// The program should read a number `n` and write the sum of the squares of
/// the integers from 1 to `n`.
pub fn bench_final_2() -> (bench: Benchmark)
    ensures
        bench.wf(),
        bench.name@ == "final_2"@,
        bench.fitness_func == FitnessFunc::DiffFirstPromoteSingle,
        bench.params@ == (ParamsView {
            popsize: 5000,
            max_size: 200,
            memsize: 15,
            ..Params::standard_view()
        }),
        bench.cases.len() == 10,
        tabulates(bench.cases@, |n: nat| squares_up_to(n)),
{
    let mut params = Params::standard();
    params.popsize = 5000;
    params.max_size = 200;
    params.memsize = 15;
    let mut cases: Vec<Case> = Vec::new();
    let mut n: i32 = 1;
    while n <= 10
        invariant
            1 <= n <= 11,
            cases.len() == n - 1,
            tabulates(cases@, |n: nat| squares_up_to(n)),
            scorable(cases@, FitnessFunc::DiffFirstPromoteSingle),
        decreases 11 - n,
    {
        let inputs: Vec<Number> = vec![n];
        let outputs: Vec<Number> = vec![sum_of_squares(n)];
        assert(inputs@ =~= seq![n]);
        assert(outputs@ =~= seq![squares_up_to(n as nat) as i32]);
        push_case(&mut cases, inputs, outputs);
        n += 1;
    }
    Benchmark { name: "final_2", params, cases, fitness_func: FitnessFunc::DiffFirstPromoteSingle }
}

/// The cases of the smallest-of-four problem, ten to a part.
pub open spec fn smallest_cases(part: nat) -> Seq<(Seq<Number>, Seq<Number>)> {
    if part == 0 {
        seq![
            (seq![-36i32, -62i32, -94i32, 17i32], seq![-94i32]),
            (seq![74i32, 4i32, 58i32, -27i32], seq![-27i32]),
            (seq![90i32, 93i32, 52i32, 13i32], seq![13i32]),
            (seq![-39i32, 25i32, -60i32, -82i32], seq![-82i32]),
            (seq![-22i32, 83i32, -55i32, 55i32], seq![-55i32]),
            (seq![49i32, -51i32, 51i32, -62i32], seq![-62i32]),
            (seq![-97i32, -24i32, 57i32, 9i32], seq![-97i32]),
            (seq![-96i32, -2i32, 53i32, 65i32], seq![-96i32]),
            (seq![-18i32, 80i32, -62i32, -96i32], seq![-96i32]),
            (seq![77i32, -18i32, 81i32, -91i32], seq![-91i32]),
        ]
    } else if part == 1 {
        seq![
            (seq![53i32, 21i32, 48i32, -45i32], seq![-45i32]),
            (seq![-96i32, 10i32, 6i32, 21i32], seq![-96i32]),
            (seq![-54i32, -41i32, -71i32, -99i32], seq![-99i32]),
            (seq![-96i32, -98i32, -69i32, 20i32], seq![-98i32]),
            (seq![97i32, -5i32, 81i32, 18i32], seq![-5i32]),
            (seq![-82i32, -78i32, -24i32, -55i32], seq![-82i32]),
            (seq![42i32, -51i32, -77i32, 53i32], seq![-77i32]),
            (seq![98i32, 57i32, -51i32, 94i32], seq![-51i32]),
            (seq![-47i32, -38i32, -15i32, -42i32], seq![-47i32]),
            (seq![89i32, 95i32, 53i32, 48i32], seq![48i32]),
        ]
    } else if part == 2 {
        seq![
            (seq![11i32, -18i32, 84i32, -45i32], seq![-45i32]),
            (seq![-6i32, -16i32, -18i32, 61i32], seq![-18i32]),
            (seq![-1i32, 28i32, 27i32, 49i32], seq![-1i32]),
            (seq![63i32, 39i32, -50i32, -82i32], seq![-82i32]),
            (seq![32i32, -46i32, -100i32, -18i32], seq![-100i32]),
            (seq![58i32, 99i32, -51i32, 52i32], seq![-51i32]),
            (seq![-9i32, -5i32, -49i32, 43i32], seq![-49i32]),
            (seq![-93i32, 31i32, -45i32, 75i32], seq![-93i32]),
            (seq![-16i32, 69i32, 59i32, -60i32], seq![-60i32]),
            (seq![-83i32, -29i32, 29i32, -8i32], seq![-83i32]),
        ]
    } else if part == 3 {
        seq![
            (seq![-63i32, -60i32, -24i32, 87i32], seq![-63i32]),
            (seq![-48i32, -71i32, -81i32, -25i32], seq![-81i32]),
            (seq![-29i32, 71i32, 68i32, 67i32], seq![-29i32]),
            (seq![22i32, -85i32, 44i32, -77i32], seq![-85i32]),
            (seq![20i32, 90i32, 32i32, 77i32], seq![20i32]),
            (seq![87i32, 13i32, -94i32, 59i32], seq![-94i32]),
            (seq![-32i32, 30i32, -37i32, 35i32], seq![-37i32]),
            (seq![-87i32, 18i32, 30i32, 87i32], seq![-87i32]),
            (seq![-63i32, 85i32, -46i32, -41i32], seq![-63i32]),
            (seq![52i32, -23i32, 24i32, -61i32], seq![-61i32]),
        ]
    } else if part == 4 {
        seq![
            (seq![-86i32, 76i32, 78i32, 44i32], seq![-86i32]),
            (seq![-92i32, 20i32, 49i32, -15i32], seq![-92i32]),
            (seq![37i32, -25i32, -68i32, 96i32], seq![-68i32]),
            (seq![-40i32, 43i32, -39i32, -45i32], seq![-45i32]),
            (seq![30i32, -13i32, -80i32, 93i32], seq![-80i32]),
            (seq![-13i32, 62i32, 83i32, -42i32], seq![-42i32]),
            (seq![31i32, -53i32, -65i32, 80i32], seq![-65i32]),
            (seq![-61i32, -65i32, 41i32, 17i32], seq![-65i32]),
            (seq![-73i32, -77i32, -98i32, 81i32], seq![-98i32]),
            (seq![74i32, 38i32, 46i32, -13i32], seq![-13i32]),
        ]
    } else if part == 5 {
        seq![
            (seq![-68i32, 28i32, -41i32, 0i32], seq![-68i32]),
            (seq![6i32, -64i32, -18i32, 24i32], seq![-64i32]),
            (seq![-78i32, -66i32, -41i32, -58i32], seq![-78i32]),
            (seq![-96i32, -95i32, 25i32, 4i32], seq![-96i32]),
            (seq![35i32, -61i32, -35i32, 22i32], seq![-61i32]),
            (seq![-94i32, -92i32, 40i32, 49i32], seq![-94i32]),
            (seq![-49i32, 27i32, 97i32, 59i32], seq![-49i32]),
            (seq![-55i32, -69i32, 51i32, 27i32], seq![-69i32]),
            (seq![-2i32, 73i32, 98i32, -40i32], seq![-40i32]),
            (seq![85i32, 86i32, 90i32, -54i32], seq![-54i32]),
        ]
    } else if part == 6 {
        seq![
            (seq![48i32, 99i32, -33i32, -8i32], seq![-33i32]),
            (seq![-67i32, -41i32, -9i32, -59i32], seq![-67i32]),
            (seq![-95i32, 50i32, -11i32, -65i32], seq![-95i32]),
            (seq![43i32, 61i32, -8i32, -10i32], seq![-10i32]),
            (seq![39i32, -7i32, 44i32, -83i32], seq![-83i32]),
            (seq![-53i32, -23i32, -43i32, -36i32], seq![-53i32]),
            (seq![-17i32, -29i32, -77i32, 41i32], seq![-77i32]),
            (seq![9i32, -83i32, 54i32, 1i32], seq![-83i32]),
            (seq![63i32, -35i32, -95i32, 10i32], seq![-95i32]),
            (seq![-67i32, -10i32, 79i32, 80i32], seq![-67i32]),
        ]
    } else if part == 7 {
        seq![
            (seq![-1i32, 50i32, 36i32, 27i32], seq![-1i32]),
            (seq![-51i32, 60i32, -60i32, -97i32], seq![-97i32]),
            (seq![62i32, 61i32, 71i32, 46i32], seq![46i32]),
            (seq![98i32, -33i32, 84i32, -13i32], seq![-33i32]),
            (seq![80i32, -68i32, 22i32, -49i32], seq![-68i32]),
            (seq![61i32, 23i32, -55i32, -21i32], seq![-55i32]),
            (seq![-74i32, 32i32, 2i32, 44i32], seq![-74i32]),
            (seq![0i32, -86i32, 28i32, 87i32], seq![-86i32]),
            (seq![-92i32, -20i32, -63i32, -14i32], seq![-92i32]),
            (seq![39i32, 92i32, -18i32, -44i32], seq![-44i32]),
        ]
    } else if part == 8 {
        seq![
            (seq![18i32, 70i32, -81i32, -100i32], seq![-100i32]),
            (seq![-11i32, -27i32, 40i32, 4i32], seq![-27i32]),
            (seq![-24i32, 76i32, 11i32, -96i32], seq![-96i32]),
            (seq![-91i32, -49i32, -41i32, 46i32], seq![-91i32]),
            (seq![67i32, 44i32, 5i32, -16i32], seq![-16i32]),
            (seq![66i32, 7i32, 31i32, 78i32], seq![7i32]),
            (seq![34i32, 62i32, 27i32, -40i32], seq![-40i32]),
            (seq![-49i32, -6i32, -39i32, -86i32], seq![-86i32]),
            (seq![27i32, -21i32, 20i32, 82i32], seq![-21i32]),
            (seq![-43i32, 64i32, 52i32, -62i32], seq![-62i32]),
        ]
    } else if part == 9 {
        seq![
            (seq![-65i32, -46i32, 77i32, -86i32], seq![-86i32]),
            (seq![83i32, -34i32, -31i32, -51i32], seq![-51i32]),
            (seq![-33i32, 98i32, 19i32, -29i32], seq![-33i32]),
            (seq![94i32, 0i32, 91i32, -61i32], seq![-61i32]),
            (seq![90i32, 28i32, -18i32, 52i32], seq![-18i32]),
            (seq![46i32, -31i32, -29i32, 98i32], seq![-31i32]),
            (seq![40i32, -8i32, 76i32, 31i32], seq![-8i32]),
            (seq![-25i32, -69i32, -2i32, -62i32], seq![-69i32]),
            (seq![-54i32, 39i32, -10i32, 12i32], seq![-54i32]),
            (seq![-85i32, 66i32, -97i32, -27i32], seq![-97i32]),
        ]
    } else {
        Seq::empty()
    }
}

/// The first `count` parts of the table, joined.
pub open spec fn smallest_parts(count: nat) -> Seq<(Seq<Number>, Seq<Number>)>
    decreases count,
{
    if count == 0 {
        Seq::empty()
    } else {
        smallest_parts((count - 1) as nat) + smallest_cases((count - 1) as nat)
    }
}

/// The whole table.
pub open spec fn smallest_table() -> Seq<(Seq<Number>, Seq<Number>)> {
    smallest_parts(10)
}

/// Adds one part of the smallest-of-four cases.
fn add_smallest_cases(cases: &mut Vec<Case>, part: usize)
    requires
        part < 10,
        scorable(old(cases)@, FitnessFunc::DiffFirstPromoteSingle),
    ensures
        views(final(cases)@) == views(old(cases)@) + smallest_cases(part as nat),
        scorable(final(cases)@, FitnessFunc::DiffFirstPromoteSingle),
{
    let ghost before = views(cases@);
    match part {
        0 => {
            push_case(cases, vec![-36, -62, -94, 17], vec![-94]);
            push_case(cases, vec![74, 4, 58, -27], vec![-27]);
            push_case(cases, vec![90, 93, 52, 13], vec![13]);
            push_case(cases, vec![-39, 25, -60, -82], vec![-82]);
            push_case(cases, vec![-22, 83, -55, 55], vec![-55]);
            push_case(cases, vec![49, -51, 51, -62], vec![-62]);
            push_case(cases, vec![-97, -24, 57, 9], vec![-97]);
            push_case(cases, vec![-96, -2, 53, 65], vec![-96]);
            push_case(cases, vec![-18, 80, -62, -96], vec![-96]);
            push_case(cases, vec![77, -18, 81, -91], vec![-91]);
        },
        1 => {
            push_case(cases, vec![53, 21, 48, -45], vec![-45]);
            push_case(cases, vec![-96, 10, 6, 21], vec![-96]);
            push_case(cases, vec![-54, -41, -71, -99], vec![-99]);
            push_case(cases, vec![-96, -98, -69, 20], vec![-98]);
            push_case(cases, vec![97, -5, 81, 18], vec![-5]);
            push_case(cases, vec![-82, -78, -24, -55], vec![-82]);
            push_case(cases, vec![42, -51, -77, 53], vec![-77]);
            push_case(cases, vec![98, 57, -51, 94], vec![-51]);
            push_case(cases, vec![-47, -38, -15, -42], vec![-47]);
            push_case(cases, vec![89, 95, 53, 48], vec![48]);
        },
        2 => {
            push_case(cases, vec![11, -18, 84, -45], vec![-45]);
            push_case(cases, vec![-6, -16, -18, 61], vec![-18]);
            push_case(cases, vec![-1, 28, 27, 49], vec![-1]);
            push_case(cases, vec![63, 39, -50, -82], vec![-82]);
            push_case(cases, vec![32, -46, -100, -18], vec![-100]);
            push_case(cases, vec![58, 99, -51, 52], vec![-51]);
            push_case(cases, vec![-9, -5, -49, 43], vec![-49]);
            push_case(cases, vec![-93, 31, -45, 75], vec![-93]);
            push_case(cases, vec![-16, 69, 59, -60], vec![-60]);
            push_case(cases, vec![-83, -29, 29, -8], vec![-83]);
        },
        3 => {
            push_case(cases, vec![-63, -60, -24, 87], vec![-63]);
            push_case(cases, vec![-48, -71, -81, -25], vec![-81]);
            push_case(cases, vec![-29, 71, 68, 67], vec![-29]);
            push_case(cases, vec![22, -85, 44, -77], vec![-85]);
            push_case(cases, vec![20, 90, 32, 77], vec![20]);
            push_case(cases, vec![87, 13, -94, 59], vec![-94]);
            push_case(cases, vec![-32, 30, -37, 35], vec![-37]);
            push_case(cases, vec![-87, 18, 30, 87], vec![-87]);
            push_case(cases, vec![-63, 85, -46, -41], vec![-63]);
            push_case(cases, vec![52, -23, 24, -61], vec![-61]);
        },
        4 => {
            push_case(cases, vec![-86, 76, 78, 44], vec![-86]);
            push_case(cases, vec![-92, 20, 49, -15], vec![-92]);
            push_case(cases, vec![37, -25, -68, 96], vec![-68]);
            push_case(cases, vec![-40, 43, -39, -45], vec![-45]);
            push_case(cases, vec![30, -13, -80, 93], vec![-80]);
            push_case(cases, vec![-13, 62, 83, -42], vec![-42]);
            push_case(cases, vec![31, -53, -65, 80], vec![-65]);
            push_case(cases, vec![-61, -65, 41, 17], vec![-65]);
            push_case(cases, vec![-73, -77, -98, 81], vec![-98]);
            push_case(cases, vec![74, 38, 46, -13], vec![-13]);
        },
        5 => {
            push_case(cases, vec![-68, 28, -41, 0], vec![-68]);
            push_case(cases, vec![6, -64, -18, 24], vec![-64]);
            push_case(cases, vec![-78, -66, -41, -58], vec![-78]);
            push_case(cases, vec![-96, -95, 25, 4], vec![-96]);
            push_case(cases, vec![35, -61, -35, 22], vec![-61]);
            push_case(cases, vec![-94, -92, 40, 49], vec![-94]);
            push_case(cases, vec![-49, 27, 97, 59], vec![-49]);
            push_case(cases, vec![-55, -69, 51, 27], vec![-69]);
            push_case(cases, vec![-2, 73, 98, -40], vec![-40]);
            push_case(cases, vec![85, 86, 90, -54], vec![-54]);
        },
        6 => {
            push_case(cases, vec![48, 99, -33, -8], vec![-33]);
            push_case(cases, vec![-67, -41, -9, -59], vec![-67]);
            push_case(cases, vec![-95, 50, -11, -65], vec![-95]);
            push_case(cases, vec![43, 61, -8, -10], vec![-10]);
            push_case(cases, vec![39, -7, 44, -83], vec![-83]);
            push_case(cases, vec![-53, -23, -43, -36], vec![-53]);
            push_case(cases, vec![-17, -29, -77, 41], vec![-77]);
            push_case(cases, vec![9, -83, 54, 1], vec![-83]);
            push_case(cases, vec![63, -35, -95, 10], vec![-95]);
            push_case(cases, vec![-67, -10, 79, 80], vec![-67]);
        },
        7 => {
            push_case(cases, vec![-1, 50, 36, 27], vec![-1]);
            push_case(cases, vec![-51, 60, -60, -97], vec![-97]);
            push_case(cases, vec![62, 61, 71, 46], vec![46]);
            push_case(cases, vec![98, -33, 84, -13], vec![-33]);
            push_case(cases, vec![80, -68, 22, -49], vec![-68]);
            push_case(cases, vec![61, 23, -55, -21], vec![-55]);
            push_case(cases, vec![-74, 32, 2, 44], vec![-74]);
            push_case(cases, vec![0, -86, 28, 87], vec![-86]);
            push_case(cases, vec![-92, -20, -63, -14], vec![-92]);
            push_case(cases, vec![39, 92, -18, -44], vec![-44]);
        },
        8 => {
            push_case(cases, vec![18, 70, -81, -100], vec![-100]);
            push_case(cases, vec![-11, -27, 40, 4], vec![-27]);
            push_case(cases, vec![-24, 76, 11, -96], vec![-96]);
            push_case(cases, vec![-91, -49, -41, 46], vec![-91]);
            push_case(cases, vec![67, 44, 5, -16], vec![-16]);
            push_case(cases, vec![66, 7, 31, 78], vec![7]);
            push_case(cases, vec![34, 62, 27, -40], vec![-40]);
            push_case(cases, vec![-49, -6, -39, -86], vec![-86]);
            push_case(cases, vec![27, -21, 20, 82], vec![-21]);
            push_case(cases, vec![-43, 64, 52, -62], vec![-62]);
        },
        _ => {
            push_case(cases, vec![-65, -46, 77, -86], vec![-86]);
            push_case(cases, vec![83, -34, -31, -51], vec![-51]);
            push_case(cases, vec![-33, 98, 19, -29], vec![-33]);
            push_case(cases, vec![94, 0, 91, -61], vec![-61]);
            push_case(cases, vec![90, 28, -18, 52], vec![-18]);
            push_case(cases, vec![46, -31, -29, 98], vec![-31]);
            push_case(cases, vec![40, -8, 76, 31], vec![-8]);
            push_case(cases, vec![-25, -69, -2, -62], vec![-69]);
            push_case(cases, vec![-54, 39, -10, 12], vec![-54]);
            push_case(cases, vec![-85, 66, -97, -27], vec![-97]);
        },
    }
    assert(views(cases@) =~~= before + smallest_cases(part as nat));
}

/// The program should write the smallest of four numbers.
pub fn bench_final_3() -> (bench: Benchmark)
    ensures
        bench.wf(),
        bench.name@ == "final_3"@,
        bench.fitness_func == FitnessFunc::DiffFirstPromoteSingle,
        bench.params@ == (ParamsView {
            popsize: 5000,
            max_size: 200,
            memsize: 4,
            acceptable_error: -50i64,
            prefix: reads(4),
            suffix: Seq::empty(),
            ..Params::standard_view()
        }),
        views(bench.cases@) == smallest_table(),
{
    let mut params = Params::standard();
    params.popsize = 5000;
    params.max_size = 200;
    params.memsize = 4;
    params.acceptable_error = -50;
    params.prefix = read_inputs(4);
    params.suffix = Vec::new();
    let mut cases: Vec<Case> = Vec::new();
    assert(views(cases@) =~= Seq::empty());
    let mut part: usize = 0;
    while part < 10
        invariant
            part <= 10,
            views(cases@) == smallest_parts(part as nat),
            scorable(cases@, FitnessFunc::DiffFirstPromoteSingle),
        decreases 10 - part,
    {
        add_smallest_cases(&mut cases, part);
        part += 1;
    }
    Benchmark { name: "final_3", params, cases, fitness_func: FitnessFunc::DiffFirstPromoteSingle }
}
} // verus!
