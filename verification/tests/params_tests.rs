use genlang::params::Params;
use genlang::problem::{find_separator, read_case, read_numbers, ProblemError};
use genlang::tinygp::evolution::is_scorable;
use genlang::tinygp::fitness_funcs::FitnessFunc;

fn words(line: &str) -> Vec<String> {
    line.split_whitespace().map(String::from).collect()
}

#[test]
fn test_read_params() {
    let (_param, cases) = match Params::from_string(
        "2 | 3
2 2 | 4
1 3 | 4
10 20 | 30
"
        .to_owned(),
    ) {
        Ok(p) => p,
        Err(_) => panic!("Read problem failed"),
    };

    assert_eq!(cases.len(), 3);
    cases.iter().for_each(|(inputs, targets)| {
        assert_eq!(inputs.len(), 2);
        assert_eq!(targets.len(), 1);
    });
}

#[test]
fn problem_text_gives_register_count_and_cases() {
    let (params, cases) =
        Params::from_string("7 => 2\n-1 +2 3 => 4 5\n\t=> 9  \nignored\n".to_owned()).unwrap();
    assert_eq!(params.memsize, 7);
    assert_eq!(params.seed, 5);
    assert_eq!(params.popsize, Params::default().popsize);
    assert_eq!(params.prefix, Params::default().prefix);
    assert_eq!(cases, vec![(vec![-1, 2, 3], vec![4, 5]), (vec![], vec![9])]);
}

#[test]
fn problem_text_without_cases() {
    let (params, cases) = Params::from_string("3 | 0".to_owned()).unwrap();
    assert_eq!(params.memsize, 3);
    assert!(cases.is_empty());
}

#[test]
fn later_separators_are_no_numbers() {
    assert_eq!(
        Params::from_string("1 | 1\n1 | 2 | 3".to_owned()).err(),
        Some(ProblemError::Number(0))
    );
}

#[test]
fn bad_headers_are_rejected() {
    for text in ["", "\n1 | 1", "3", "3 |", "x | 1\n1 | 1", "3 | y", "-3 | 1\n1 | 1", "3 | 1.5"] {
        let problem = Params::from_string(text.to_owned());
        assert_eq!(problem.err(), Some(ProblemError::Header), "{text:?}");
    }
}

#[test]
fn bad_cases_are_rejected() {
    assert_eq!(
        Params::from_string("2 | 2\n1 | 1".to_owned()).err(),
        Some(ProblemError::MissingCase(1))
    );
    assert_eq!(
        Params::from_string("2 | 1".to_owned()).err(),
        Some(ProblemError::MissingCase(0))
    );
    assert_eq!(
        Params::from_string("2 | 2\n1 | 1\n1 2 3".to_owned()).err(),
        Some(ProblemError::MissingSeparator(1))
    );
    assert_eq!(
        Params::from_string("2 | 2\n1 | 1\n".to_owned()).err(),
        Some(ProblemError::MissingSeparator(1))
    );
    assert_eq!(
        Params::from_string("2 | 2\n1 x | 1\n1 | 2".to_owned()).err(),
        Some(ProblemError::Number(0))
    );
    assert_eq!(
        Params::from_string("2 | 2\n1 | 1\n1 | 99999999999".to_owned()).err(),
        Some(ProblemError::Number(1))
    );
    assert_eq!(
        Params::from_string("2 | 1\n1 | 1.0".to_owned()).err(),
        Some(ProblemError::Number(0))
    );
}

#[test]
fn cases_are_read_word_by_word() {
    let separator = "|".to_owned();
    assert_eq!(find_separator(&words("1 2 | 3 | 4"), &separator), Some(2));
    assert_eq!(find_separator(&words("| 3"), &separator), Some(0));
    assert_eq!(find_separator(&words("1 2 3"), &separator), None);
    assert_eq!(find_separator(&words(""), &separator), None);
    assert_eq!(read_numbers(&words("4 -5 x 6"), 0, 2), Some(vec![4, -5]));
    assert_eq!(read_numbers(&words("4 -5 x 6"), 3, 4), Some(vec![6]));
    assert_eq!(read_numbers(&words("4 -5 x 6"), 1, 3), None);
    assert_eq!(read_numbers(&words("4 -5 x 6"), 2, 2), Some(vec![]));
    assert_eq!(read_case(&words("1 2 | 3"), &separator, 4), Ok((vec![1, 2], vec![3])));
    assert_eq!(read_case(&words("|"), &separator, 4), Ok((vec![], vec![])));
    assert_eq!(read_case(&words("1 2 3"), &separator, 4), Err(ProblemError::MissingSeparator(4)));
    assert_eq!(read_case(&words("1 | z"), &separator, 4), Err(ProblemError::Number(4)));
}

#[test]
fn scorable_cases() {
    let with_empty = vec![(vec![1], vec![1]), (vec![2], vec![])];
    let full = vec![(vec![1], vec![1]), (vec![], vec![2])];
    for strategy in [
        FitnessFunc::DiffFirst,
        FitnessFunc::DiffBest,
        FitnessFunc::DiffOnly,
        FitnessFunc::DiffFirstPromoteSingle,
        FitnessFunc::DiffFirstPromoteReading,
        FitnessFunc::FitBool,
    ] {
        assert!(!is_scorable(&with_empty, strategy));
        assert!(is_scorable(&full, strategy));
        assert!(is_scorable(&vec![], strategy));
    }
    for strategy in [FitnessFunc::FitExactReading, FitnessFunc::FitArithmeticSeries] {
        assert!(is_scorable(&with_empty, strategy));
        assert!(is_scorable(&full, strategy));
    }
}

#[test]
fn lines_are_split_at_line_feeds() {
    // the header is the first line even when the text starts with it alone
    assert_eq!(Params::from_string("4 | 0\n".to_owned()).map(|p| p.1.len()), Ok(0));
    // an empty second line is a line, and it lacks the separator
    assert_eq!(
        Params::from_string("4 | 1\n\n1 | 1".to_owned()).err(),
        Some(ProblemError::MissingSeparator(0))
    );
    // a carriage return before the line feed is a blank
    let (_, cases) = Params::from_string("4 | 1\r\n1 | 2\r\n".to_owned()).unwrap();
    assert_eq!(cases, vec![(vec![1], vec![2])]);
}
