//! Problem descriptions as text.
//!
//! A description starts with a header line of three words: the number of
//! registers, a separator and the number of cases. One line per case
//! follows: the inputs, the separator and the expected outputs, as numbers
//! separated by blanks.

use vstd::prelude::*;
use crate::params::{views, Case, Params, ParamsView};
use crate::tinygp::common::Number;

verus! {

/// The position of the first line feed of a text, or its length when it
/// holds none.
pub open spec fn first_feed(text: Seq<char>) -> int
    decreases text.len(),
{
    if text.len() == 0 || text[0] == '\n' {
        0
    } else {
        1 + first_feed(text.drop_first())
    }
}

/// The lines of a text: the parts between its line feeds, in order. A text
/// without a line feed is one line, and a text that ends in a line feed
/// ends with an empty line.
pub open spec fn lines_of(text: Seq<char>) -> Seq<Seq<char>>
    decreases text.len(),
{
    let end = first_feed(text);
    if 0 <= end < text.len() {
        seq![text.subrange(0, end)] + lines_of(text.subrange(end + 1, text.len() as int))
    } else {
        seq![text]
    }
}

/// The words of a line: what `str::split_whitespace` yields.
pub uninterp spec fn words_of(line: Seq<char>) -> Seq<Seq<char>>;

/// The count a word spells: what `str::parse::<usize>` yields, `None` for
/// an error.
pub uninterp spec fn count_of(word: Seq<char>) -> Option<usize>;

/// The number a word spells: what `str::parse::<i32>` yields, `None` for an
/// error.
pub uninterp spec fn number_of(word: Seq<char>) -> Option<Number>;

/// The texts of a list of strings.
pub open spec fn texts(strings: Seq<String>) -> Seq<Seq<char>> {
    Seq::new(strings.len(), |i: int| strings[i]@)
}

/// `str::split` at line feeds: the parts of the text between its line feeds,
/// in order; as many as there are line feeds, and one.
#[verifier::external_body]
fn split_lines(text: &str) -> (lines: Vec<String>)
    ensures
        texts(lines@) == lines_of(text@),
{
    text.split('\n').map(String::from).collect()
}

/// `str::split_whitespace`: the words of the line, in order.
#[verifier::external_body]
fn split_words(line: &str) -> (words: Vec<String>)
    ensures
        texts(words@) == words_of(line@),
{
    line.split_whitespace().map(String::from).collect()
}

/// `str::parse::<usize>`: the count the word spells, if it spells one.
#[verifier::external_body]
fn parse_count(word: &str) -> (count: Option<usize>)
    ensures
        count == count_of(word@),
{
    word.parse::<usize>().ok()
}

/// `str::parse::<i32>`: the number the word spells, if it spells one.
#[verifier::external_body]
fn parse_number(word: &str) -> (number: Option<Number>)
    ensures
        number == number_of(word@),
{
    word.parse::<Number>().ok()
}

/// Why a text is not a problem description.
#[derive(Debug, Clone, Copy, PartialEq, Eq, Structural)]
pub enum ProblemError {
    /// The first line does not start with a register count, a separator
    /// and a case count.
    Header,
    /// The text ends before the case of this number.
    MissingCase(usize),
    /// The case of this number lacks the separator.
    MissingSeparator(usize),
    /// The case of this number holds a word that is no number.
    Number(usize),
}

/// The numbers the words spell, or `None` when one of them spells none.
pub open spec fn numbers_of(words: Seq<Seq<char>>) -> Option<Seq<Number>>
    decreases words.len(),
{
    if words.len() == 0 {
        Some(Seq::empty())
    } else {
        match (numbers_of(words.drop_last()), number_of(words.last())) {
            (Some(numbers), Some(number)) => Some(numbers.push(number)),
            _ => None,
        }
    }
}

/// The position of the first word equal to the separator among the first
/// `k` words, or `None` when there is none.
pub open spec fn separator_in(words: Seq<Seq<char>>, separator: Seq<char>, k: int) -> Option<int>
    decreases k,
{
    if k <= 0 {
        None
    } else {
        match separator_in(words, separator, k - 1) {
            Some(at) => Some(at),
            None => if words[k - 1] == separator {
                Some(k - 1)
            } else {
                None
            },
        }
    }
}

/// The case a line describes: the numbers before the first separator are
/// the inputs, those after it the expected outputs.
pub open spec fn case_of(words: Seq<Seq<char>>, separator: Seq<char>, index: usize) -> Result<
    (Seq<Number>, Seq<Number>),
    ProblemError,
> {
    match separator_in(words, separator, words.len() as int) {
        None => Err(ProblemError::MissingSeparator(index)),
        Some(at) => match (
            numbers_of(words.subrange(0, at)),
            numbers_of(words.subrange(at + 1, words.len() as int)),
        ) {
            (Some(inputs), Some(outputs)) => Ok((inputs, outputs)),
            _ => Err(ProblemError::Number(index)),
        },
    }
}

/// The first `k` cases a text describes, one per line after the header, or
/// the first error met.
pub open spec fn cases_of(lines: Seq<Seq<char>>, separator: Seq<char>, k: nat) -> Result<
    Seq<(Seq<Number>, Seq<Number>)>,
    ProblemError,
>
    decreases k,
{
    if k == 0 {
        Ok(Seq::empty())
    } else {
        match cases_of(lines, separator, (k - 1) as nat) {
            Err(e) => Err(e),
            Ok(cases) => if k >= lines.len() {
                Err(ProblemError::MissingCase((k - 1) as usize))
            } else {
                match case_of(words_of(lines[k as int]), separator, (k - 1) as usize) {
                    Err(e) => Err(e),
                    Ok(case) => Ok(cases.push(case)),
                }
            },
        }
    }
}

/// The problem a text describes: the register count of its header and the
/// cases of the lines after it.
///
/// The header is the first line and starts with three words: the register
/// count, the separator and the number of cases. Each case is a line of numbers
/// with the separator between inputs and expected outputs.
pub open spec fn problem_of(text: Seq<char>) -> Result<
    (usize, Seq<(Seq<Number>, Seq<Number>)>),
    ProblemError,
> {
    let lines = lines_of(text);
    if lines.len() == 0 {
        Err(ProblemError::Header)
    } else {
        let header = words_of(lines[0]);
        if header.len() < 3 {
            Err(ProblemError::Header)
        } else {
            match (count_of(header[0]), count_of(header[2])) {
                (Some(memsize), Some(count)) => match cases_of(lines, header[1], count as nat) {
                    Ok(cases) => Ok((memsize, cases)),
                    Err(e) => Err(e),
                },
                _ => Err(ProblemError::Header),
            }
        }
    }
}

/// Reads the numbers the words from `from` up to `to` spell.
pub fn read_numbers(words: &Vec<String>, from: usize, to: usize) -> (numbers: Option<Vec<Number>>)
    requires
        from <= to <= words.len(),
    ensures
        match numbers {
            Some(numbers) => numbers_of(texts(words@).subrange(from as int, to as int)) == Some(
                numbers@,
            ),
            None => numbers_of(texts(words@).subrange(from as int, to as int)).is_none(),
        },
{
    let mut numbers: Vec<Number> = Vec::new();
    let mut i: usize = from;
    let ghost all = texts(words@);
    assert(all.subrange(from as int, from as int) =~= Seq::<Seq<char>>::empty());
    while i < to
        invariant
            from <= i <= to <= words.len(),
            all == texts(words@),
            numbers_of(all.subrange(from as int, i as int)) == Some(numbers@),
        decreases to - i,
    {
        proof {
            assert(all.subrange(from as int, i + 1).drop_last() =~= all.subrange(
                from as int,
                i as int,
            ));
            assert(all.subrange(from as int, i + 1).last() == words[i as int]@);
        }
        match parse_number(words[i].as_str()) {
            Some(number) => {
                numbers.push(number);
            },
            None => {
                proof {
                    let part = all.subrange(from as int, to as int);
                    assert(part.subrange(0, i + 1 - from) =~= all.subrange(from as int, i + 1));
                    lemma_numbers_prefix(part, i + 1 - from);
                }
                return None;
            },
        }
        i += 1;
    }
    assert(i == to);
    Some(numbers)
}

/// When a prefix of the words holds a word that is no number, so do the
/// words.
proof fn lemma_numbers_prefix(words: Seq<Seq<char>>, k: int)
    requires
        0 <= k <= words.len(),
        numbers_of(words.subrange(0, k)).is_none(),
    ensures
        numbers_of(words).is_none(),
    decreases words.len() - k,
{
    if k < words.len() {
        assert(words.subrange(0, k + 1).drop_last() =~= words.subrange(0, k));
        lemma_numbers_prefix(words, k + 1);
    } else {
        assert(words.subrange(0, k) =~= words);
    }
}

/// Finds the first word equal to the separator.
pub fn find_separator(words: &Vec<String>, separator: &String) -> (found: Option<usize>)
    ensures
        match found {
            Some(at) => separator_in(texts(words@), separator@, words.len() as int) == Some(
                at as int,
            ) && at < words.len(),
            None => separator_in(texts(words@), separator@, words.len() as int).is_none(),
        },
{
    let mut i: usize = 0;
    while i < words.len()
        invariant
            i <= words.len(),
            separator_in(texts(words@), separator@, i as int).is_none(),
        decreases words.len() - i,
    {
        if words[i] == *separator {
            proof {
                lemma_separator_found(texts(words@), separator@, i + 1, words.len() as int);
            }
            return Some(i);
        }
        i += 1;
    }
    None
}

/// A separator found among the first `k` words is the one found among more.
proof fn lemma_separator_found(words: Seq<Seq<char>>, separator: Seq<char>, k: int, n: int)
    requires
        0 <= k <= n,
        separator_in(words, separator, k).is_some(),
    ensures
        separator_in(words, separator, n) == separator_in(words, separator, k),
    decreases n - k,
{
    if k < n {
        lemma_separator_found(words, separator, k, n - 1);
    }
}

/// Reads the case that the words of one line describe.
pub fn read_case(words: &Vec<String>, separator: &String, index: usize) -> (case: Result<
    Case,
    ProblemError,
>)
    ensures
        match case {
            Ok(case) => case_of(texts(words@), separator@, index) == Ok::<
                (Seq<Number>, Seq<Number>),
                ProblemError,
            >((case.0@, case.1@)),
            Err(e) => case_of(texts(words@), separator@, index) == Err::<
                (Seq<Number>, Seq<Number>),
                ProblemError,
            >(e),
        },
{
    let at = match find_separator(words, separator) {
        Some(at) => at,
        None => {
            return Err(ProblemError::MissingSeparator(index));
        },
    };
    let inputs = read_numbers(words, 0, at);
    let outputs = read_numbers(words, at + 1, words.len());
    match (inputs, outputs) {
        (Some(inputs), Some(outputs)) => Ok((inputs, outputs)),
        _ => Err(ProblemError::Number(index)),
    }
}

impl Params {
    /// Reads a problem description: the standard parameters with the
    /// register count of the header and the seed 5, and the cases.
    pub fn from_string(data: String) -> (problem: Result<(Params, Vec<Case>), ProblemError>)
        ensures
            match problem {
                Ok((params, cases)) => problem_of(data@) == Ok::<
                    (usize, Seq<(Seq<Number>, Seq<Number>)>),
                    ProblemError,
                >((params.memsize, views(cases@))) && params@ == (ParamsView {
                    seed: 5,
                    memsize: params.memsize,
                    ..Params::standard_view()
                }),
                Err(e) => problem_of(data@) == Err::<
                    (usize, Seq<(Seq<Number>, Seq<Number>)>),
                    ProblemError,
                >(e),
            },
    {
        let lines = split_lines(data.as_str());
        if lines.len() == 0 {
            return Err(ProblemError::Header);
        }
        let header = split_words(lines[0].as_str());
        if header.len() < 3 {
            return Err(ProblemError::Header);
        }
        let (memsize, num_cases) = match (
            parse_count(header[0].as_str()),
            parse_count(header[2].as_str()),
        ) {
            (Some(memsize), Some(num_cases)) => (memsize, num_cases),
            _ => {
                return Err(ProblemError::Header);
            },
        };
        let mut cases: Vec<Case> = Vec::new();
        let mut i: usize = 0;
        let ghost all = lines_of(data@);
        let ghost separator = header[1]@;
        proof {
            assert(views(cases@) =~= Seq::empty());
            assert(texts(header@)[0] == header[0]@);
            assert(texts(header@)[1] == header[1]@);
            assert(texts(header@)[2] == header[2]@);
            assert(texts(lines@)[0] == lines[0]@);
        }
        while i < num_cases
            invariant
                i <= num_cases,
                all == lines_of(data@),
                texts(lines@) == all,
                header.len() >= 3,
                separator == header[1]@,
                problem_of(data@) == match cases_of(all, separator, num_cases as nat) {
                    Ok(cases) => Ok::<(usize, Seq<(Seq<Number>, Seq<Number>)>), ProblemError>(
                        (memsize, cases),
                    ),
                    Err(e) => Err(e),
                },
                cases_of(all, separator, i as nat) == Ok::<
                    Seq<(Seq<Number>, Seq<Number>)>,
                    ProblemError,
                >(views(cases@)),
            decreases num_cases - i,
        {
            if i + 1 >= lines.len() {
                proof {
                    lemma_cases_error(all, separator, (i + 1) as nat, num_cases as nat);
                }
                return Err(ProblemError::MissingCase(i));
            }
            let words = split_words(lines[i + 1].as_str());
            assert(texts(lines@)[i + 1] == lines[i + 1]@);
            let ghost before = views(cases@);
            match read_case(&words, &header[1], i) {
                Ok(case) => {
                    cases.push(case);
                    assert(views(cases@) =~= before.push((case.0@, case.1@)));
                },
                Err(e) => {
                    proof {
                        lemma_cases_error(all, separator, (i + 1) as nat, num_cases as nat);
                    }
                    return Err(e);
                },
            }
            i += 1;
        }
        let mut params = Params::standard();
        params.seed = 5;
        params.memsize = memsize;
        Ok((params, cases))
    }
}

/// An error among the first `k` cases is the error of the whole text.
proof fn lemma_cases_error(lines: Seq<Seq<char>>, separator: Seq<char>, k: nat, n: nat)
    requires
        k <= n,
        cases_of(lines, separator, k).is_err(),
    ensures
        cases_of(lines, separator, n) == cases_of(lines, separator, k),
    decreases n - k,
{
    if k < n {
        lemma_cases_error(lines, separator, k, (n - 1) as nat);
    }
}

} // verus!
