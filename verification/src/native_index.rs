//! Comparing the native derived indexes with what graph and changes project.

use crate::text;
use vstd::prelude::*;

verus! {

/// A native derived table.
#[derive(Clone, Copy, Debug, PartialEq, Eq, Structural)]
pub enum NativeIndex {
    PathClaims,
    Tree,
    RevTree,
    Inodes,
    RevInodes,
    Directories,
    Conflicts,
}

impl NativeIndex {
    /// Place in the order of tables.
    pub open spec fn rank(self) -> int {
        match self {
            NativeIndex::PathClaims => 0,
            NativeIndex::Tree => 1,
            NativeIndex::RevTree => 2,
            NativeIndex::Inodes => 3,
            NativeIndex::RevInodes => 4,
            NativeIndex::Directories => 5,
            NativeIndex::Conflicts => 6,
        }
    }

    /// The text of [`NativeIndex::as_str`].
    pub open spec fn text(self) -> Seq<char> {
        match self {
            NativeIndex::PathClaims => "PATH_CLAIMS"@,
            NativeIndex::Tree => "TREE"@,
            NativeIndex::RevTree => "REV_TREE"@,
            NativeIndex::Inodes => "INODES"@,
            NativeIndex::RevInodes => "REV_INODES"@,
            NativeIndex::Directories => "DIRECTORIES"@,
            NativeIndex::Conflicts => "CONFLICTS"@,
        }
    }

    /// Names the table.
    pub fn as_str(self) -> (name: &'static str)
        ensures
            name@ == self.text(),
    {
        match self {
            NativeIndex::PathClaims => "PATH_CLAIMS",
            NativeIndex::Tree => "TREE",
            NativeIndex::RevTree => "REV_TREE",
            NativeIndex::Inodes => "INODES",
            NativeIndex::RevInodes => "REV_INODES",
            NativeIndex::Directories => "DIRECTORIES",
            NativeIndex::Conflicts => "CONFLICTS",
        }
    }

    fn order(self) -> (rank: u8)
        ensures
            rank as int == self.rank(),
    {
        match self {
            NativeIndex::PathClaims => 0,
            NativeIndex::Tree => 1,
            NativeIndex::RevTree => 2,
            NativeIndex::Inodes => 3,
            NativeIndex::RevInodes => 4,
            NativeIndex::Directories => 5,
            NativeIndex::Conflicts => 6,
        }
    }
}

/// Kind of mismatch between an authoritative projection and its stored cache.
#[derive(Clone, Copy, Debug, PartialEq, Eq, Structural)]
pub enum NativeIndexProblemKind {
    Missing,
    Stale,
    Mismatched,
    Malformed,
    Unrepairable,
}

impl NativeIndexProblemKind {
    /// Place in the order of kinds.
    pub open spec fn rank(self) -> int {
        match self {
            NativeIndexProblemKind::Missing => 0,
            NativeIndexProblemKind::Stale => 1,
            NativeIndexProblemKind::Mismatched => 2,
            NativeIndexProblemKind::Malformed => 3,
            NativeIndexProblemKind::Unrepairable => 4,
        }
    }

    /// The text of [`NativeIndexProblemKind::as_str`].
    pub open spec fn text(self) -> Seq<char> {
        match self {
            NativeIndexProblemKind::Missing => "missing"@,
            NativeIndexProblemKind::Stale => "stale"@,
            NativeIndexProblemKind::Mismatched => "mismatched"@,
            NativeIndexProblemKind::Malformed => "malformed"@,
            NativeIndexProblemKind::Unrepairable => "unrepairable"@,
        }
    }

    /// Names the kind.
    pub fn as_str(self) -> (name: &'static str)
        ensures
            name@ == self.text(),
    {
        match self {
            NativeIndexProblemKind::Missing => "missing",
            NativeIndexProblemKind::Stale => "stale",
            NativeIndexProblemKind::Mismatched => "mismatched",
            NativeIndexProblemKind::Malformed => "malformed",
            NativeIndexProblemKind::Unrepairable => "unrepairable",
        }
    }

    fn order(self) -> (rank: u8)
        ensures
            rank as int == self.rank(),
    {
        match self {
            NativeIndexProblemKind::Missing => 0,
            NativeIndexProblemKind::Stale => 1,
            NativeIndexProblemKind::Mismatched => 2,
            NativeIndexProblemKind::Malformed => 3,
            NativeIndexProblemKind::Unrepairable => 4,
        }
    }
}

/// One deterministic native-index diagnostic.
#[derive(Debug)]
pub struct NativeIndexProblem {
    pub index: NativeIndex,
    pub kind: NativeIndexProblemKind,
    pub key: String,
    pub expected: Option<String>,
    pub actual: Option<String>,
}

/// What a [`NativeIndexProblem`] says.
pub ghost struct ProblemModel {
    pub index: NativeIndex,
    pub kind: NativeIndexProblemKind,
    pub key: Seq<char>,
    pub expected: Option<Seq<char>>,
    pub actual: Option<Seq<char>>,
}

impl View for NativeIndexProblem {
    type V = ProblemModel;

    open spec fn view(&self) -> ProblemModel {
        ProblemModel {
            index: self.index,
            kind: self.kind,
            key: self.key@,
            expected: text::opt_text(self.expected),
            actual: text::opt_text(self.actual),
        }
    }
}

/// What problems say.
pub open spec fn problem_models(problems: Seq<NativeIndexProblem>) -> Seq<ProblemModel> {
    problems.map_values(|p: NativeIndexProblem| p@)
}

impl NativeIndexProblem {
    /// The text of [`NativeIndexProblem::message`].
    pub open spec fn text(self) -> Seq<char> {
        self.index.text() + " "@ + self.kind.text() + " row '"@ + self.key@ + "'"@ + (
        match self.expected {
            Some(value) => " expected="@ + value@,
            None => Seq::empty(),
        }) + (match self.actual {
            Some(value) => " actual="@ + value@,
            None => Seq::empty(),
        })
    }

    /// Describes the problem.
    pub fn message(&self) -> (message: String)
        ensures
            message@ == self.text(),
    {
        let mut message: String = self.index.as_str().to_owned();
        message.append(" ");
        message.append(self.kind.as_str());
        message.append(" row '");
        message.append(self.key.as_str());
        message.append("'");
        if let Some(value) = &self.expected {
            message.append(" expected=");
            message.append(value.as_str());
        }
        if let Some(value) = &self.actual {
            message.append(" actual=");
            message.append(value.as_str());
        }
        assert(message@ =~= self.text());
        message
    }

    fn dup(&self) -> (copy: NativeIndexProblem)
        ensures
            copy@ == self@,
    {
        NativeIndexProblem {
            index: self.index,
            kind: self.kind,
            key: self.key.clone(),
            expected: text::dup_opt(&self.expected),
            actual: text::dup_opt(&self.actual),
        }
    }
}

/// Read-only comparison of native derived indexes with graph/change authority.
#[derive(Debug)]
pub struct NativeIndexReport {
    pub expected_rows: usize,
    pub actual_rows: usize,
    pub problems: Vec<NativeIndexProblem>,
}

impl NativeIndexReport {
    pub fn is_healthy(&self) -> (healthy: bool)
        ensures
            healthy == (self.problems@.len() == 0),
    {
        self.problems.len() == 0
    }
}

/// Outcome of an all-or-nothing native-index repair.
#[derive(Clone, Copy, Debug, PartialEq, Eq, Structural)]
pub struct NativeIndexRepairOutcome {
    pub problems_repaired: usize,
    pub rows_written: usize,
    pub already_healthy: bool,
}

/// Order of optional texts; none comes first.
pub open spec fn opt_before(a: Option<Seq<char>>, b: Option<Seq<char>>) -> bool {
    match (a, b) {
        (None, Some(_)) => true,
        (Some(x), Some(y)) => text::before(x, y),
        _ => false,
    }
}

/// Order of problems: table, kind, key, expected value, actual value.
pub open spec fn problem_before(a: ProblemModel, b: ProblemModel) -> bool {
    if a.index.rank() != b.index.rank() {
        a.index.rank() < b.index.rank()
    } else if a.kind.rank() != b.kind.rank() {
        a.kind.rank() < b.kind.rank()
    } else if a.key != b.key {
        text::before(a.key, b.key)
    } else if a.expected != b.expected {
        opt_before(a.expected, b.expected)
    } else {
        opt_before(a.actual, b.actual)
    }
}

fn is_opt_before(a: &Option<String>, b: &Option<String>) -> (answer: bool)
    ensures
        answer == opt_before(text::opt_text(*a), text::opt_text(*b)),
{
    match (a, b) {
        (None, Some(_)) => true,
        (Some(x), Some(y)) => text::is_before(x.as_str(), y.as_str()),
        _ => false,
    }
}

fn is_problem_before(a: &NativeIndexProblem, b: &NativeIndexProblem) -> (answer: bool)
    ensures
        answer == problem_before(a@, b@),
{
    if a.index.order() != b.index.order() {
        a.index.order() < b.index.order()
    } else if a.kind.order() != b.kind.order() {
        a.kind.order() < b.kind.order()
    } else if !text::same(a.key.as_str(), b.key.as_str()) {
        text::is_before(a.key.as_str(), b.key.as_str())
    } else if !text::same_opt(&a.expected, &b.expected) {
        is_opt_before(&a.expected, &b.expected)
    } else {
        is_opt_before(&a.actual, &b.actual)
    }
}

/// Where a problem goes among ordered ones, from the `i`-th on.
pub open spec fn problem_place(list: Seq<ProblemModel>, problem: ProblemModel, i: int) -> int
    decreases list.len() - i,
{
    if i < 0 || i >= list.len() {
        list.len() as int
    } else if problem_before(problem, list[i]) {
        i
    } else {
        problem_place(list, problem, i + 1)
    }
}

/// The first `n` problems in order.
pub open spec fn ordered_problems(list: Seq<ProblemModel>, n: int) -> Seq<ProblemModel>
    decreases n,
{
    if n <= 0 {
        Seq::empty()
    } else {
        let rest = ordered_problems(list, n - 1);
        rest.insert(problem_place(rest, list[n - 1], 0), list[n - 1])
    }
}

/// Puts problems in order.
pub fn order_problems(list: &Vec<NativeIndexProblem>) -> (ordered: Vec<NativeIndexProblem>)
    ensures
        problem_models(ordered@) == ordered_problems(problem_models(list@), list@.len() as int),
        ordered@.len() == list@.len(),
{
    let ghost models = problem_models(list@);
    let mut ordered: Vec<NativeIndexProblem> = Vec::new();
    let mut k: usize = 0;
    proof {
        assert(problem_models(ordered@) =~= Seq::empty());
    }
    while k < list.len()
        invariant
            k <= list.len(),
            models == problem_models(list@),
            problem_models(ordered@) == ordered_problems(models, k as int),
            ordered@.len() == k,
        decreases list.len() - k,
    {
        let ghost before = problem_models(ordered@);
        assert(models[k as int] == list@[k as int]@);
        let mut at: usize = 0;
        while at < ordered.len() && !is_problem_before(&list[k], &ordered[at])
            invariant
                at <= ordered.len(),
                k < list.len(),
                before == problem_models(ordered@),
                models[k as int] == list@[k as int]@,
                problem_place(before, models[k as int], 0) == problem_place(
                    before,
                    models[k as int],
                    at as int,
                ),
            decreases ordered.len() - at,
        {
            assert(before[at as int] == ordered@[at as int]@);
            at = at + 1;
        }
        proof {
            if at < ordered@.len() {
                assert(before[at as int] == ordered@[at as int]@);
            }
        }
        assert(problem_place(before, models[k as int], 0) == at);
        let problem: NativeIndexProblem = list[k].dup();
        ordered.insert(at, problem);
        assert(problem_models(ordered@) =~= before.insert(at as int, models[k as int]));
        k = k + 1;
    }
    ordered
}

/// Rows of a table, rendered: keys with values.
pub open spec fn row_models(rows: Seq<(String, String)>) -> Seq<(Seq<char>, Seq<char>)> {
    rows.map_values(|r: (String, String)| (r.0@, r.1@))
}

/// What is wrong with an expected row.
pub open spec fn expected_problem(
    index: NativeIndex,
    row: (Seq<char>, Seq<char>),
    actual: Seq<(Seq<char>, Seq<char>)>,
) -> Option<ProblemModel> {
    match crate::pristine::first_value(actual, row.0) {
        None => Some(
            ProblemModel {
                index,
                kind: NativeIndexProblemKind::Missing,
                key: row.0,
                expected: Some(row.1),
                actual: None,
            },
        ),
        Some(value) => if value != row.1 {
            Some(
                ProblemModel {
                    index,
                    kind: NativeIndexProblemKind::Mismatched,
                    key: row.0,
                    expected: Some(row.1),
                    actual: Some(value),
                },
            )
        } else {
            None
        },
    }
}

/// What is wrong with the first `n` expected rows.
pub open spec fn expected_problems(
    index: NativeIndex,
    expected: Seq<(Seq<char>, Seq<char>)>,
    actual: Seq<(Seq<char>, Seq<char>)>,
    n: int,
) -> Seq<ProblemModel>
    decreases n,
{
    if n <= 0 {
        Seq::empty()
    } else {
        let rest = expected_problems(index, expected, actual, n - 1);
        match expected_problem(index, expected[n - 1], actual) {
            Some(problem) => rest.push(problem),
            None => rest,
        }
    }
}

/// The first `n` stored rows that nothing expects.
pub open spec fn stale_problems(
    index: NativeIndex,
    expected: Seq<(Seq<char>, Seq<char>)>,
    actual: Seq<(Seq<char>, Seq<char>)>,
    n: int,
) -> Seq<ProblemModel>
    decreases n,
{
    if n <= 0 {
        Seq::empty()
    } else {
        let rest = stale_problems(index, expected, actual, n - 1);
        let row = actual[n - 1];
        if crate::pristine::first_value(expected, row.0) is None {
            rest.push(
                ProblemModel {
                    index,
                    kind: NativeIndexProblemKind::Stale,
                    key: row.0,
                    expected: None,
                    actual: Some(row.1),
                },
            )
        } else {
            rest
        }
    }
}

/// What is wrong with a table: it cannot be read, or rows are missing,
/// different or stale.
pub open spec fn table_problems(
    index: NativeIndex,
    expected: Seq<(Seq<char>, Seq<char>)>,
    actual: Result<Seq<(Seq<char>, Seq<char>)>, Seq<char>>,
) -> Seq<ProblemModel> {
    match actual {
        Err(message) => seq![
            ProblemModel {
                index,
                kind: NativeIndexProblemKind::Malformed,
                key: "<table>"@,
                expected: None,
                actual: Some(message),
            },
        ],
        Ok(rows) => expected_problems(index, expected, rows, expected.len() as int)
            + stale_problems(index, expected, rows, rows.len() as int),
    }
}

/// What a table that was read, or could not be, says.
pub open spec fn table_model(table: Result<Vec<(String, String)>, String>) -> Result<
    Seq<(Seq<char>, Seq<char>)>,
    Seq<char>,
> {
    match table {
        Ok(rows) => Ok(row_models(rows@)),
        Err(message) => Err(message@),
    }
}

fn find_row(rows: &Vec<(String, String)>, key: &str) -> (found: Option<usize>)
    ensures
        match found {
            Some(i) => i < rows@.len() && crate::pristine::first_value(row_models(rows@), key@)
                == Some(rows@[i as int].1@),
            None => crate::pristine::first_value(row_models(rows@), key@) is None,
        },
{
    let ghost pairs = row_models(rows@);
    let mut i: usize = 0;
    proof {
        assert(pairs.skip(0) =~= pairs);
    }
    while i < rows.len()
        invariant
            i <= rows.len(),
            pairs == row_models(rows@),
            crate::pristine::first_value(pairs, key@) == crate::pristine::first_value(
                pairs.skip(i as int),
                key@,
            ),
        decreases rows.len() - i,
    {
        assert(pairs.skip(i as int).drop_first() =~= pairs.skip(i + 1));
        assert(pairs.skip(i as int)[0] == pairs[i as int]);
        if text::same(rows[i].0.as_str(), key) {
            return Some(i);
        }
        i = i + 1;
    }
    None
}

/// Adds what is wrong with a table to `problems`.
pub fn compare_table(
    index: NativeIndex,
    expected: &Vec<(String, String)>,
    actual: &Result<Vec<(String, String)>, String>,
    problems: &mut Vec<NativeIndexProblem>,
)
    ensures
        problem_models(final(problems)@) == problem_models(old(problems)@) + table_problems(
            index,
            row_models(expected@),
            table_model(*actual),
        ),
{
    let ghost start = problem_models(problems@);
    let ghost wanted = row_models(expected@);
    let rows: &Vec<(String, String)> = match actual {
        Err(message) => {
            let problem = NativeIndexProblem {
                index,
                kind: NativeIndexProblemKind::Malformed,
                key: "<table>".to_owned(),
                expected: None,
                actual: Some(message.clone()),
            };
            let ghost model = problem@;
            problems.push(problem);
            assert(problem_models(problems@) =~= start + seq![model]);
            return;
        },
        Ok(rows) => rows,
    };
    let ghost stored = row_models(rows@);
    let mut n: usize = 0;
    proof {
        assert(start + Seq::<ProblemModel>::empty() =~= start);
    }
    while n < expected.len()
        invariant
            n <= expected.len(),
            wanted == row_models(expected@),
            stored == row_models(rows@),
            problem_models(problems@) == start + expected_problems(
                index,
                wanted,
                stored,
                n as int,
            ),
        decreases expected.len() - n,
    {
        let ghost before = problem_models(problems@);
        let ghost sofar = expected_problems(index, wanted, stored, n as int);
        assert(wanted[n as int] == (expected@[n as int].0@, expected@[n as int].1@));
        match find_row(rows, expected[n].0.as_str()) {
            None => {
                let problem = NativeIndexProblem {
                    index,
                    kind: NativeIndexProblemKind::Missing,
                    key: expected[n].0.clone(),
                    expected: Some(expected[n].1.clone()),
                    actual: None,
                };
                let ghost model = problem@;
                problems.push(problem);
                assert(problem_models(problems@) =~= before.push(model));
                assert(before.push(model) =~= start + sofar.push(model));
            },
            Some(i) => {
                if !text::same(rows[i].1.as_str(), expected[n].1.as_str()) {
                    let problem = NativeIndexProblem {
                        index,
                        kind: NativeIndexProblemKind::Mismatched,
                        key: expected[n].0.clone(),
                        expected: Some(expected[n].1.clone()),
                        actual: Some(rows[i].1.clone()),
                    };
                    let ghost model = problem@;
                    problems.push(problem);
                    assert(problem_models(problems@) =~= before.push(model));
                    assert(before.push(model) =~= start + sofar.push(model));
                }
            },
        }
        n = n + 1;
    }
    let ghost middle = problem_models(problems@);
    let mut k: usize = 0;
    proof {
        assert(middle + Seq::<ProblemModel>::empty() =~= middle);
    }
    while k < rows.len()
        invariant
            k <= rows.len(),
            wanted == row_models(expected@),
            stored == row_models(rows@),
            problem_models(problems@) == middle + stale_problems(
                index,
                wanted,
                stored,
                k as int,
            ),
        decreases rows.len() - k,
    {
        let ghost before = problem_models(problems@);
        let ghost sofar = stale_problems(index, wanted, stored, k as int);
        assert(stored[k as int] == (rows@[k as int].0@, rows@[k as int].1@));
        if find_row(expected, rows[k].0.as_str()).is_none() {
            let problem = NativeIndexProblem {
                index,
                kind: NativeIndexProblemKind::Stale,
                key: rows[k].0.clone(),
                expected: None,
                actual: Some(rows[k].1.clone()),
            };
            let ghost model = problem@;
            problems.push(problem);
            assert(problem_models(problems@) =~= before.push(model));
            assert(before.push(model) =~= middle + sofar.push(model));
        }
        k = k + 1;
    }
    assert(problem_models(problems@) =~= start + (expected_problems(
        index,
        wanted,
        stored,
        wanted.len() as int,
    ) + stale_problems(index, wanted, stored, stored.len() as int)));
}

proof fn expected_problems_none(
    index: NativeIndex,
    expected: Seq<(Seq<char>, Seq<char>)>,
    actual: Seq<(Seq<char>, Seq<char>)>,
    n: int,
)
    requires
        0 <= n <= expected.len(),
    ensures
        expected_problems(index, expected, actual, n).len() == 0 <==> forall|k: int|
            0 <= k < n ==> crate::pristine::first_value(actual, (#[trigger] expected[k]).0) == Some(
                expected[k].1,
            ),
    decreases n,
{
    if n > 0 {
        expected_problems_none(index, expected, actual, n - 1);
        if expected_problem(index, expected[n - 1], actual) is Some {
            assert(!(crate::pristine::first_value(actual, expected[n - 1].0) == Some(
                expected[n - 1].1,
            )));
        }
    }
}

proof fn stale_problems_none(
    index: NativeIndex,
    expected: Seq<(Seq<char>, Seq<char>)>,
    actual: Seq<(Seq<char>, Seq<char>)>,
    n: int,
)
    requires
        0 <= n <= actual.len(),
    ensures
        stale_problems(index, expected, actual, n).len() == 0 <==> forall|k: int|
            0 <= k < n ==> crate::pristine::first_value(expected, (#[trigger] actual[k]).0) is Some,
    decreases n,
{
    if n > 0 {
        stale_problems_none(index, expected, actual, n - 1);
        if crate::pristine::first_value(expected, actual[n - 1].0) is None {
            assert(!(crate::pristine::first_value(expected, actual[n - 1].0) is Some));
        }
    }
}

/// A table has no problem exactly when it could be read, holds every expected
/// row with its value, and holds no other key.
pub proof fn healthy_table_is_the_expected_one(
    index: NativeIndex,
    expected: Seq<(Seq<char>, Seq<char>)>,
    actual: Result<Seq<(Seq<char>, Seq<char>)>, Seq<char>>,
)
    ensures
        table_problems(index, expected, actual).len() == 0 <==> match actual {
            Err(_) => false,
            Ok(rows) => {
                &&& forall|k: int|
                    0 <= k < expected.len() ==> crate::pristine::first_value(
                        rows,
                        (#[trigger] expected[k]).0,
                    ) == Some(expected[k].1)
                &&& forall|k: int|
                    0 <= k < rows.len() ==> crate::pristine::first_value(
                        expected,
                        (#[trigger] rows[k]).0,
                    ) is Some
            },
        },
{
    if let Ok(rows) = actual {
        expected_problems_none(index, expected, rows, expected.len() as int);
        stale_problems_none(index, expected, rows, rows.len() as int);
    }
}

} // verus!
