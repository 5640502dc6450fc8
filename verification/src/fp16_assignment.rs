//! Which face of one picture is which face of another: an assignment of as much
//! overlap as possible.
use crate::float_bits::{is_less64, less64, rank64, ranks_below64};
use std::collections::HashMap;
use vstd::prelude::*;

verus! {

pub const MAX_FACES: usize = 16;

/// A partial assignment: what the rows from some row on are assigned, the sum
/// of their scores by its bits, and how many are assigned at all.
#[derive(Debug)]
pub struct Assignment {
    pub score: u64,
    pub count: usize,
    pub choices: Vec<Option<usize>>,
}

/// The mathematical form of an assignment.
#[verifier::ext_equal]
pub struct Chosen {
    pub score: u64,
    pub count: nat,
    pub choices: Seq<Option<usize>>,
}

impl View for Assignment {
    type V = Chosen;

    open spec fn view(&self) -> Chosen {
        Chosen { score: self.score, count: self.count as nat, choices: self.choices@ }
    }
}

/// Scores of rows and columns, by their bits.
pub open spec fn rows(matrix: Seq<Vec<u64>>) -> Seq<Seq<u64>> {
    matrix.map_values(|row: Vec<u64>| row@)
}

/// What stands for a choice where choices are compared: no choice comes last.
pub open spec fn choice_key(choice: Option<usize>) -> int {
    match choice {
        Some(right) => right as int,
        None => usize::MAX as int,
    }
}

/// Whether choices come before others: by the first that differs.
pub open spec fn choices_less(left: Seq<Option<usize>>, right: Seq<Option<usize>>) -> bool
    decreases left.len(),
{
    if right.len() == 0 {
        false
    } else if left.len() == 0 {
        true
    } else if choice_key(left[0]) != choice_key(right[0]) {
        choice_key(left[0]) < choice_key(right[0])
    } else {
        choices_less(left.skip(1), right.skip(1))
    }
}

/// Whether one assignment is better than another: by its score, then by how many
/// are assigned, then by its choices.
pub open spec fn better(left: Chosen, right: Chosen) -> bool {
    if rank64(left.score) != rank64(right.score) {
        rank64(left.score) > rank64(right.score)
    } else {
        left.count > right.count || (left.count == right.count && choices_less(
            left.choices,
            right.choices,
        ))
    }
}

/// Whether a column is taken.
pub open spec fn is_taken(mask: u32, right: int) -> bool {
    mask & (1u32 << (right as u32)) != 0
}

/// The columns taken, with one more.
pub open spec fn taking(mask: u32, right: int) -> u32 {
    mask | (1u32 << (right as u32))
}

/// Whether a row may be assigned a column: the column is free, and the score is
/// not below the floor.
pub open spec fn may_take(row: Seq<u64>, floor: u64, mask: u32, right: int) -> bool {
    !is_taken(mask, right) && !less64(row[right], floor)
}

/// An assignment with one more row in front.
pub open spec fn in_front(
    tail: Chosen,
    choice: Option<usize>,
    score: u64,
    sum: spec_fn(u64, u64) -> u64,
) -> Chosen {
    match choice {
        Some(_) => Chosen {
            score: sum(tail.score, score),
            count: tail.count + 1,
            choices: seq![choice] + tail.choices,
        },
        None => Chosen { choices: seq![choice] + tail.choices, ..tail },
    }
}

/// The best assignment of the rows from `at` on to the columns that are free.
pub open spec fn best(
    matrix: Seq<Seq<u64>>,
    floor: u64,
    sum: spec_fn(u64, u64) -> u64,
    at: int,
    mask: u32,
) -> Chosen
    decreases matrix.len() - at, matrix[at].len() + 1,
{
    if at < 0 || at >= matrix.len() {
        Chosen { score: 0, count: 0, choices: Seq::empty() }
    } else {
        best_of(
            matrix,
            floor,
            sum,
            at,
            mask,
            0,
            in_front(best(matrix, floor, sum, at + 1, mask), None, 0, sum),
        )
    }
}

/// The best of `so_far` and what assigning the row `at` a column from `right` on
/// gives. An earlier assignment stays where a later one is not better.
pub open spec fn best_of(
    matrix: Seq<Seq<u64>>,
    floor: u64,
    sum: spec_fn(u64, u64) -> u64,
    at: int,
    mask: u32,
    right: int,
    so_far: Chosen,
) -> Chosen
    decreases matrix.len() - at, matrix[at].len() - right,
{
    if at < 0 || at >= matrix.len() || right < 0 || right >= matrix[at].len() {
        so_far
    } else if !may_take(matrix[at], floor, mask, right) {
        best_of(matrix, floor, sum, at, mask, right + 1, so_far)
    } else {
        let candidate = in_front(
            best(matrix, floor, sum, at + 1, taking(mask, right)),
            Some(right as usize),
            matrix[at][right],
            sum,
        );
        best_of(
            matrix,
            floor,
            sum,
            at,
            mask,
            right + 1,
            if better(candidate, so_far) {
                candidate
            } else {
                so_far
            },
        )
    }
}

/// `plus` is a function that adds as `sum` says.
pub open spec fn adds<F: Fn(u64, u64) -> u64>(plus: F, sum: spec_fn(u64, u64) -> u64) -> bool {
    forall|left: u64, right: u64, total: u64| #[trigger]
        call_ensures(plus, (left, right), total) ==> total == sum(left, right)
}

/// How many rows are assigned.
pub open spec fn assigned(choices: Seq<Option<usize>>) -> nat
    decreases choices.len(),
{
    if choices.len() == 0 {
        0
    } else {
        assigned(choices.skip(1)) + if choices[0] is Some {
            1nat
        } else {
            0
        }
    }
}

/// Choices for the rows from `at` on: every row has one, a column that is chosen
/// exists, was free and scores no less than the floor, and none is chosen twice.
pub open spec fn is_matching(
    matrix: Seq<Seq<u64>>,
    floor: u64,
    at: int,
    mask: u32,
    choices: Seq<Option<usize>>,
) -> bool {
    &&& choices.len() == matrix.len() - at
    &&& forall|k: int|
        0 <= k < choices.len() && (#[trigger] choices[k]) is Some ==> choices[k]->0 < matrix[at
            + k].len() && may_take(matrix[at + k], floor, mask, choices[k]->0 as int)
    &&& forall|k: int, m: int|
        0 <= k < m < choices.len() && (#[trigger] choices[k]) is Some && (#[trigger] choices[m])
            is Some ==> choices[k] != choices[m]
}

/// A valid assignment of the rows from `at` on.
pub open spec fn is_valid(
    matrix: Seq<Seq<u64>>,
    floor: u64,
    at: int,
    mask: u32,
    chosen: Chosen,
) -> bool {
    is_matching(matrix, floor, at, mask, chosen.choices) && chosen.count == assigned(chosen.choices)
}

/// Scores are given for at most as many rows and columns as there may be faces,
/// and every row has as many columns.
pub open spec fn is_rectangular(matrix: Seq<Seq<u64>>, columns: nat) -> bool {
    matrix.len() <= MAX_FACES && columns <= MAX_FACES && forall|i: int|
        0 <= i < matrix.len() ==> (#[trigger] matrix[i]).len() == columns
}

proof fn taken_columns(mask: u32, right: int, other: int)
    requires
        0 <= right < 16,
        0 <= other < 16,
    ensures
        is_taken(taking(mask, right), right),
        is_taken(mask, other) ==> is_taken(taking(mask, right), other),
{
    let a = right as u32;
    let b = other as u32;
    assert((mask | (1u32 << a)) & (1u32 << a) != 0) by (bit_vector)
        requires
            a < 16,
    ;
    assert(mask & (1u32 << b) != 0 ==> (mask | (1u32 << a)) & (1u32 << b) != 0) by (bit_vector)
        requires
            a < 16,
            b < 16,
    ;
}

proof fn matching_in_front(
    matrix: Seq<Seq<u64>>,
    columns: nat,
    floor: u64,
    at: int,
    mask: u32,
    tail: Seq<Option<usize>>,
    choice: Option<usize>,
)
    requires
        is_rectangular(matrix, columns),
        0 <= at < matrix.len(),
        match choice {
            Some(right) => right < columns && may_take(matrix[at], floor, mask, right as int)
                && is_matching(matrix, floor, at + 1, taking(mask, right as int), tail),
            None => is_matching(matrix, floor, at + 1, mask, tail),
        },
    ensures
        is_matching(matrix, floor, at, mask, seq![choice] + tail),
        assigned(seq![choice] + tail) == assigned(tail) + if choice is Some {
            1nat
        } else {
            0
        },
{
    let all = seq![choice] + tail;
    assert(all.skip(1) =~= tail);
    assert forall|k: int| 0 <= k < all.len() && (#[trigger] all[k]) is Some implies all[k]->0
        < matrix[at + k].len() && may_take(matrix[at + k], floor, mask, all[k]->0 as int) by {
        if k > 0 {
            assert(all[k] == tail[k - 1]);
            assert(matrix[at + 1 + (k - 1)] == matrix[at + k]);
            assert(matrix[at + k].len() == columns);
            match choice {
                Some(right) => {
                    taken_columns(mask, right as int, tail[k - 1]->0 as int);
                },
                None => {},
            }
        } else {
            assert(matrix[at].len() == columns);
        }
    }
    assert forall|k: int, m: int|
        0 <= k < m < all.len() && (#[trigger] all[k]) is Some && (#[trigger] all[m])
            is Some implies all[k] != all[m] by {
        assert(all[m] == tail[m - 1]);
        if k > 0 {
            assert(all[k] == tail[k - 1]);
        } else {
            match choice {
                Some(right) => {
                    assert(matrix[at + 1 + (m - 1)].len() == columns);
                    taken_columns(mask, right as int, right as int);
                },
                None => {},
            }
        }
    }
}

fn copy_choices(choices: &Vec<Option<usize>>) -> (copy: Vec<Option<usize>>)
    ensures
        copy@ == choices@,
{
    let mut copy: Vec<Option<usize>> = Vec::new();
    let mut index: usize = 0;
    while index < choices.len()
        invariant
            index <= choices@.len(),
            copy@ == choices@.take(index as int),
        decreases choices.len() - index,
    {
        copy.push(choices[index]);
        index = index + 1;
        assert(copy@ =~= choices@.take(index as int));
    }
    assert(copy@ =~= choices@);
    copy
}

fn copy_assignment(assignment: &Assignment) -> (copy: Assignment)
    ensures
        copy@ == assignment@,
{
    Assignment {
        score: assignment.score,
        count: assignment.count,
        choices: copy_choices(&assignment.choices),
    }
}

fn choice_number(choice: Option<usize>) -> (number: usize)
    ensures
        number == choice_key(choice),
{
    match choice {
        Some(right) => right,
        None => usize::MAX,
    }
}

fn choices_come_before(left: &Vec<Option<usize>>, right: &Vec<Option<usize>>) -> (before: bool)
    ensures
        before == choices_less(left@, right@),
{
    let mut index: usize = 0;
    assert(left@.skip(0) =~= left@);
    assert(right@.skip(0) =~= right@);
    loop
        invariant
            index <= left@.len(),
            index <= right@.len(),
            choices_less(left@, right@) == choices_less(
                left@.skip(index as int),
                right@.skip(index as int),
            ),
        decreases left@.len() - index,
    {
        if index == right.len() {
            return false;
        }
        if index == left.len() {
            return true;
        }
        assert(left@.skip(index as int).skip(1) =~= left@.skip(index + 1));
        assert(right@.skip(index as int).skip(1) =~= right@.skip(index + 1));
        let a: usize = choice_number(left[index]);
        let b: usize = choice_number(right[index]);
        if a != b {
            return a < b;
        }
        index = index + 1;
    }
}

/// Whether one assignment is better than another.
pub fn assignment_better(left: &Assignment, right: &Assignment) -> (is_better: bool)
    ensures
        is_better == better(left@, right@),
{
    if ranks_below64(right.score, left.score) {
        return true;
    }
    if ranks_below64(left.score, right.score) {
        return false;
    }
    left.count > right.count || (left.count == right.count && choices_come_before(
        &left.choices,
        &right.choices,
    ))
}

fn prepend(choices: Vec<Option<usize>>, choice: Option<usize>) -> (all: Vec<Option<usize>>)
    ensures
        all@ == seq![choice] + choices@,
{
    let mut all = choices;
    all.insert(0, choice);
    assert(all@ =~= seq![choice] + choices@);
    all
}

/// What is remembered of the search is right: by number of the row and columns
/// taken.
spec fn remembers<F: Fn(u64, u64) -> u64>(
    memo: Map<u64, Assignment>,
    matrix: Seq<Seq<u64>>,
    floor: u64,
    plus: F,
) -> bool {
    &&& forall|key: u64| #[trigger]
        memo.contains_key(key) ==> is_valid(
            matrix,
            floor,
            (key / 0x1_0000_0000) as int,
            (key % 0x1_0000_0000) as u32,
            memo[key]@,
        )
    &&& forall|key: u64, sum: spec_fn(u64, u64) -> u64|
        #![trigger memo.contains_key(key), adds(plus, sum)]
        memo.contains_key(key) && adds(plus, sum) ==> memo[key]@ == best(
            matrix,
            floor,
            sum,
            (key / 0x1_0000_0000) as int,
            (key % 0x1_0000_0000) as u32,
        )
}

#[verifier::rlimit(60)]
fn solve<F: Fn(u64, u64) -> u64>(
    at: usize,
    mask: u32,
    matrix: &Vec<Vec<u64>>,
    floor: u64,
    plus: &F,
    memo: &mut HashMap<u64, Assignment>,
    Ghost(columns): Ghost<nat>,
) -> (assignment: Assignment)
    requires
        at <= matrix@.len(),
        is_rectangular(rows(matrix@), columns),
        forall|left: u64, right: u64| #[trigger] call_requires(*plus, (left, right)),
        remembers(old(memo)@, rows(matrix@), floor, *plus),
    ensures
        is_valid(rows(matrix@), floor, at as int, mask, assignment@),
        forall|sum: spec_fn(u64, u64) -> u64| #[trigger]
            adds(*plus, sum) ==> assignment@ == best(rows(matrix@), floor, sum, at as int, mask),
        remembers(final(memo)@, rows(matrix@), floor, *plus),
    decreases matrix@.len() - at,
{
    broadcast use vstd::std_specs::hash::group_hash_axioms;

    let ghost all = rows(matrix@);
    assert(all.len() == matrix@.len());
    if at == matrix.len() {
        let assignment = Assignment { score: 0, count: 0, choices: Vec::new() };
        proof {
            assert(assignment@.choices =~= Seq::empty());
            assert forall|sum: spec_fn(u64, u64) -> u64| #[trigger]
                adds(*plus, sum) implies assignment@ == best(all, floor, sum, at as int, mask) by {
                assert(assignment@ =~= best(all, floor, sum, at as int, mask));
            }
        }
        return assignment;
    }
    let key: u64 = at as u64 * 0x1_0000_0000 + mask as u64;
    assert(key / 0x1_0000_0000 == at);
    assert(key % 0x1_0000_0000 == mask);
    match memo.get(&key) {
        Some(known) => {
            return copy_assignment(known);
        },
        None => {},
    }
    assert(all[at as int] == matrix@[at as int]@);
    assert(all[at as int].len() == columns);
    let skipped = solve(at + 1, mask, matrix, floor, plus, memo, Ghost(columns));
    proof {
        matching_in_front(all, columns, floor, at as int, mask, skipped.choices@, None);
    }
    let ghost skipped_view = skipped@;
    let mut found = Assignment {
        score: skipped.score,
        count: skipped.count,
        choices: prepend(skipped.choices, None),
    };
    let ghost first = found@;
    proof {
        assert forall|sum: spec_fn(u64, u64) -> u64| #[trigger] adds(*plus, sum) implies found@
            == in_front(best(all, floor, sum, at + 1, mask), None, 0, sum) by {
            assert(found@ =~= in_front(skipped_view, None, 0, sum));
        }
    }
    let mut right: usize = 0;
    while right < matrix[at].len()
        invariant
            at < matrix@.len(),
            all == rows(matrix@),
            all.len() == matrix@.len(),
            all[at as int] == matrix@[at as int]@,
            all[at as int].len() == columns,
            right <= columns,
            is_rectangular(all, columns),
            forall|left: u64, right: u64| #[trigger] call_requires(*plus, (left, right)),
            remembers(memo@, all, floor, *plus),
            is_valid(all, floor, at as int, mask, found@),
            forall|sum: spec_fn(u64, u64) -> u64| #[trigger]
                adds(*plus, sum) ==> best(all, floor, sum, at as int, mask) == best_of(
                    all,
                    floor,
                    sum,
                    at as int,
                    mask,
                    right as int,
                    found@,
                ),
        decreases columns - right,
    {
        let score: u64 = matrix[at][right];
        let bit: u32 = 1u32 << (right as u32);
        if mask & bit != 0 || is_less64(score, floor) {
            right = right + 1;
            continue;
        }
        let ghost before = found@;
        let tail = solve(at + 1, mask | bit, matrix, floor, plus, memo, Ghost(columns));
        proof {
            matching_in_front(
                all,
                columns,
                floor,
                at as int,
                mask,
                tail.choices@,
                Some(right),
            );
            assigned_at_most(tail.choices@);
        }
        let ghost tail_view = tail@;
        let total: u64 = plus(tail.score, score);
        let candidate = Assignment {
            score: total,
            count: tail.count + 1,
            choices: prepend(tail.choices, Some(right)),
        };
        proof {
            assert forall|sum: spec_fn(u64, u64) -> u64| #[trigger]
                adds(*plus, sum) implies candidate@ == in_front(
                best(all, floor, sum, at + 1, taking(mask, right as int)),
                Some(right),
                all[at as int][right as int],
                sum,
            ) by {
                assert(total == sum(tail_view.score, score));
                assert(candidate@ =~= in_front(tail_view, Some(right), score, sum));
            }
        }
        if assignment_better(&candidate, &found) {
            found = candidate;
        }
        right = right + 1;
    }
    memo.insert(key, copy_assignment(&found));
    found
}

proof fn assigned_at_most(choices: Seq<Option<usize>>)
    ensures
        assigned(choices) <= choices.len(),
    decreases choices.len(),
{
    if choices.len() > 0 {
        assigned_at_most(choices.skip(1));
    }
}

/// A face of the left picture, the face of the right picture that it is, and how
/// much they overlap, by its bits.
#[derive(Clone, Copy, Debug, PartialEq, Eq, Structural)]
pub struct FaceMatch {
    pub left: usize,
    pub right: usize,
    pub iou: u64,
}

/// The matches that the choices of the rows from `at` on make.
pub open spec fn matches_from(
    matrix: Seq<Seq<u64>>,
    choices: Seq<Option<usize>>,
    at: int,
) -> Seq<FaceMatch>
    decreases choices.len() - at,
{
    if at < 0 || at >= choices.len() {
        Seq::empty()
    } else {
        let rest = matches_from(matrix, choices, at + 1);
        match choices[at] {
            Some(right) => seq![
                FaceMatch { left: at as usize, right, iou: matrix[at][right as int] },
            ] + rest,
            None => rest,
        }
    }
}

/// The matches of the best assignment. Pictures with no faces, or with more than
/// there may be, have none.
pub open spec fn best_matches(
    matrix: Seq<Seq<u64>>,
    floor: u64,
    sum: spec_fn(u64, u64) -> u64,
) -> Seq<FaceMatch> {
    if matrix.len() == 0 || matrix[0].len() == 0 || matrix[0].len() > MAX_FACES || matrix.len()
        > MAX_FACES {
        Seq::empty()
    } else {
        matches_from(matrix, best(matrix, floor, sum, 0, 0).choices, 0)
    }
}

/// No face is matched twice, matches are in the order of the left faces, and
/// each overlaps as its row and column say and no less than the floor.
pub open spec fn are_matches(
    matrix: Seq<Seq<u64>>,
    columns: nat,
    floor: u64,
    matches: Seq<FaceMatch>,
) -> bool {
    &&& forall|i: int|
        0 <= i < matches.len() ==> (#[trigger] matches[i]).left < matrix.len() && matches[i].right
            < columns && matches[i].iou == matrix[matches[i].left as int][matches[i].right as int]
            && !less64(matches[i].iou, floor)
    &&& forall|i: int, j: int|
        0 <= i < j < matches.len() ==> (#[trigger] matches[i]).left < (#[trigger] matches[j]).left
            && matches[i].right != matches[j].right
}

proof fn matchings_make_matches(
    matrix: Seq<Seq<u64>>,
    columns: nat,
    floor: u64,
    choices: Seq<Option<usize>>,
    at: int,
)
    requires
        is_rectangular(matrix, columns),
        is_matching(matrix, floor, 0, 0, choices),
        0 <= at <= choices.len(),
    ensures
        are_matches(matrix, columns, floor, matches_from(matrix, choices, at)),
        forall|i: int|
            0 <= i < matches_from(matrix, choices, at).len() ==> {
                let found = #[trigger] matches_from(matrix, choices, at)[i];
                found.left >= at && choices[found.left as int] == Some(found.right)
            },
    decreases choices.len() - at,
{
    if at < choices.len() {
        matchings_make_matches(matrix, columns, floor, choices, at + 1);
        let rest = matches_from(matrix, choices, at + 1);
        let all = matches_from(matrix, choices, at);
        match choices[at] {
            Some(right) => {
                assert(matrix[0 + at].len() == columns);
                assert forall|i: int| 0 <= i < all.len() implies {
                    let found = #[trigger] all[i];
                    found.left >= at && choices[found.left as int] == Some(found.right)
                } by {
                    if i > 0 {
                        assert(all[i] == rest[i - 1]);
                    }
                }
                assert forall|i: int, j: int| 0 <= i < j < all.len() implies (#[trigger] all[i]).left
                    < (#[trigger] all[j]).left && all[i].right != all[j].right by {
                    assert(all[j] == rest[j - 1]);
                    if i > 0 {
                        assert(all[i] == rest[i - 1]);
                    } else {
                        assert(choices[at] is Some && choices[rest[j - 1].left as int] is Some);
                    }
                }
                assert forall|i: int| 0 <= i < all.len() implies (#[trigger] all[i]).left
                    < matrix.len() && all[i].right < columns && all[i].iou
                    == matrix[all[i].left as int][all[i].right as int] && !less64(
                    all[i].iou,
                    floor,
                ) by {
                    if i > 0 {
                        assert(all[i] == rest[i - 1]);
                    }
                }
            },
            None => {},
        }
    }
}

/// Different numbers below a bound are no more than the bound.
proof fn distinct_numbers_are_bounded(numbers: Seq<int>, bound: int)
    requires
        bound >= 0,
        forall|i: int| 0 <= i < numbers.len() ==> 0 <= #[trigger] numbers[i] < bound,
        numbers.no_duplicates(),
    ensures
        numbers.len() <= bound,
{
    let range = vstd::set_lib::set_int_range(0, bound);
    vstd::set_lib::lemma_int_range(0, bound);
    numbers.unique_seq_to_set();
    assert(numbers.to_set().subset_of(range));
    vstd::set_lib::lemma_len_subset(numbers.to_set(), range);
}

/// There are no more matches than faces on either side.
pub proof fn matches_are_bounded(
    matrix: Seq<Seq<u64>>,
    columns: nat,
    floor: u64,
    matches: Seq<FaceMatch>,
)
    requires
        are_matches(matrix, columns, floor, matches),
    ensures
        matches.len() <= matrix.len(),
        matches.len() <= columns,
{
    let lefts = matches.map_values(|found: FaceMatch| found.left as int);
    let rights = matches.map_values(|found: FaceMatch| found.right as int);
    assert forall|i: int, j: int|
        0 <= i < matches.len() && 0 <= j < matches.len() && i != j implies lefts[i] != lefts[j]
        && rights[i] != rights[j] by {
        if i < j {
            assert(matches[i].left < matches[j].left);
        } else {
            assert(matches[j].left < matches[i].left);
        }
    }
    distinct_numbers_are_bounded(lefts, matrix.len() as int);
    distinct_numbers_are_bounded(rights, columns as int);
}

/// The matches of the best assignment, given how much every left face overlaps
/// every right one. `plus` adds two overlaps.
pub fn global_assignment_matrix<F: Fn(u64, u64) -> u64>(
    matrix: &Vec<Vec<u64>>,
    floor: u64,
    plus: &F,
) -> (matches: Vec<FaceMatch>)
    requires
        forall|i: int|
            0 <= i < matrix@.len() ==> (#[trigger] matrix@[i])@.len() == matrix@[0]@.len(),
        forall|left: u64, right: u64| #[trigger] call_requires(*plus, (left, right)),
    ensures
        forall|sum: spec_fn(u64, u64) -> u64| #[trigger]
            adds(*plus, sum) ==> matches@ == best_matches(rows(matrix@), floor, sum),
        are_matches(
            rows(matrix@),
            if matrix@.len() == 0 {
                0
            } else {
                matrix@[0]@.len()
            },
            floor,
            matches@,
        ),
{
    let ghost all = rows(matrix@);
    assert(all.len() == matrix@.len());
    let mut matches: Vec<FaceMatch> = Vec::new();
    if matrix.len() == 0 {
        return matches;
    }
    assert(all[0] == matrix@[0]@);
    let columns: usize = matrix[0].len();
    if columns == 0 || columns > MAX_FACES || matrix.len() > MAX_FACES {
        return matches;
    }
    assert(is_rectangular(all, columns as nat)) by {
        assert forall|i: int| 0 <= i < all.len() implies (#[trigger] all[i]).len() == columns by {
            assert(all[i] == matrix@[i]@);
        }
    }
    let mut memo: HashMap<u64, Assignment> = HashMap::new();
    let assignment = solve(0, 0, matrix, floor, plus, &mut memo, Ghost(columns as nat));
    let choices = assignment.choices;
    proof {
        matchings_make_matches(all, columns as nat, floor, choices@, 0);
        assert forall|k: int| 0 <= k < choices@.len() && choices@[k] is Some implies (
        #[trigger] choices@[k])->0 < columns by {
            assert(all[0 + k].len() == columns);
        }
    }
    let mut index: usize = 0;
    let ghost wanted = matches_from(all, choices@, 0);
    assert(matches@ + wanted =~= wanted);
    while index < choices.len()
        invariant
            index <= choices@.len(),
            all == rows(matrix@),
            choices@.len() == matrix@.len(),
            all.len() == matrix@.len(),
            forall|i: int| 0 <= i < all.len() ==> (#[trigger] all[i]).len() == columns,
            forall|k: int|
                0 <= k < choices@.len() && choices@[k] is Some ==> (#[trigger] choices@[k])->0
                    < columns,
            matches@ + matches_from(all, choices@, index as int) == wanted,
        decreases choices.len() - index,
    {
        let ghost before = matches@;
        let ghost rest = matches_from(all, choices@, index + 1);
        assert(all[index as int] == matrix@[index as int]@);
        match choices[index] {
            Some(right) => {
                let iou: u64 = matrix[index][right];
                let found = FaceMatch { left: index, right, iou };
                matches.push(found);
                assert(matches@ + rest =~= before + (seq![found] + rest));
            },
            None => {},
        }
        index = index + 1;
    }
    assert(matches@ + Seq::<FaceMatch>::empty() =~= matches@);
    matches
}

/// The score of choices for the rows from `at` on, added up as the search does.
pub open spec fn score_of(
    matrix: Seq<Seq<u64>>,
    sum: spec_fn(u64, u64) -> u64,
    at: int,
    choices: Seq<Option<usize>>,
) -> u64
    decreases choices.len(),
{
    if choices.len() == 0 {
        0
    } else {
        let rest = score_of(matrix, sum, at + 1, choices.skip(1));
        match choices[0] {
            Some(right) => sum(rest, matrix[at][right as int]),
            None => rest,
        }
    }
}

/// Adding the same to a larger number never gives less.
pub open spec fn is_monotone(sum: spec_fn(u64, u64) -> u64) -> bool {
    forall|less: u64, more: u64, added: u64|
        rank64(less) <= rank64(more) ==> rank64(#[trigger] sum(less, added)) <= rank64(
            #[trigger] sum(more, added),
        )
}

proof fn columns_stay_free(mask: u32, right: int, other: int)
    requires
        0 <= right < 16,
        0 <= other < 16,
        right != other,
        !is_taken(mask, other),
    ensures
        !is_taken(taking(mask, right), other),
{
    let a = right as u32;
    let b = other as u32;
    assert(mask & (1u32 << b) == 0 && a != b ==> (mask | (1u32 << a)) & (1u32 << b) == 0)
        by (bit_vector)
        requires
            a < 16,
            b < 16,
    ;
}

proof fn search_never_gets_worse(
    matrix: Seq<Seq<u64>>,
    floor: u64,
    sum: spec_fn(u64, u64) -> u64,
    at: int,
    mask: u32,
    right: int,
    so_far: Chosen,
    wanted: int,
)
    requires
        0 <= at < matrix.len(),
        0 <= right <= matrix[at].len(),
    ensures
        rank64(so_far.score) <= rank64(
            best_of(matrix, floor, sum, at, mask, right, so_far).score,
        ),
        right <= wanted < matrix[at].len() && may_take(matrix[at], floor, mask, wanted) ==> rank64(
            sum(best(matrix, floor, sum, at + 1, taking(mask, wanted)).score, matrix[at][wanted]),
        ) <= rank64(best_of(matrix, floor, sum, at, mask, right, so_far).score),
    decreases matrix[at].len() - right,
{
    if right < matrix[at].len() {
        if !may_take(matrix[at], floor, mask, right) {
            search_never_gets_worse(matrix, floor, sum, at, mask, right + 1, so_far, wanted);
        } else {
            let candidate = in_front(
                best(matrix, floor, sum, at + 1, taking(mask, right)),
                Some(right as usize),
                matrix[at][right],
                sum,
            );
            let next = if better(candidate, so_far) {
                candidate
            } else {
                so_far
            };
            search_never_gets_worse(matrix, floor, sum, at, mask, right + 1, next, wanted);
        }
    }
}

proof fn best_scores_most(
    matrix: Seq<Seq<u64>>,
    columns: nat,
    floor: u64,
    sum: spec_fn(u64, u64) -> u64,
    at: int,
    mask: u32,
    choices: Seq<Option<usize>>,
)
    requires
        is_rectangular(matrix, columns),
        is_monotone(sum),
        0 <= at <= matrix.len(),
        is_matching(matrix, floor, at, mask, choices),
    ensures
        rank64(score_of(matrix, sum, at, choices)) <= rank64(
            best(matrix, floor, sum, at, mask).score,
        ),
    decreases choices.len(),
{
    if choices.len() > 0 {
        let tail = choices.skip(1);
        let start = in_front(best(matrix, floor, sum, at + 1, mask), None, 0, sum);
        assert(matrix[at].len() == columns);
        assert forall|k: int| 0 <= k < tail.len() && (#[trigger] tail[k]) is Some implies tail[k]->0
            < matrix[at + 1 + k].len() && may_take(
            matrix[at + 1 + k],
            floor,
            mask,
            tail[k]->0 as int,
        ) by {
            assert(tail[k] == choices[k + 1]);
            assert(matrix[at + (k + 1)] == matrix[at + 1 + k]);
        }
        assert forall|k: int, m: int|
            0 <= k < m < tail.len() && (#[trigger] tail[k]) is Some && (#[trigger] tail[m])
                is Some implies tail[k] != tail[m] by {
            assert(tail[k] == choices[k + 1] && tail[m] == choices[m + 1]);
        }
        match choices[0] {
            None => {
                assert(is_matching(matrix, floor, at + 1, mask, tail));
                best_scores_most(matrix, columns, floor, sum, at + 1, mask, tail);
                search_never_gets_worse(matrix, floor, sum, at, mask, 0, start, 0);
            },
            Some(right) => {
                let taken = taking(mask, right as int);
                assert(choices[0] is Some);
                assert(matrix[at + 0].len() == columns);
                assert forall|k: int|
                    0 <= k < tail.len() && (#[trigger] tail[k]) is Some implies tail[k]->0 < matrix[
                at + 1 + k].len() && may_take(
                    matrix[at + 1 + k],
                    floor,
                    taken,
                    tail[k]->0 as int,
                ) by {
                    assert(tail[k] == choices[k + 1]);
                    assert(choices[0] != choices[k + 1]);
                    assert(matrix[at + 1 + k].len() == columns);
                    columns_stay_free(mask, right as int, tail[k]->0 as int);
                }
                assert(is_matching(matrix, floor, at + 1, taken, tail));
                best_scores_most(matrix, columns, floor, sum, at + 1, taken, tail);
                let rest = score_of(matrix, sum, at + 1, tail);
                let most = best(matrix, floor, sum, at + 1, taken).score;
                let added = matrix[at][right as int];
                assert(rank64(sum(rest, added)) <= rank64(sum(most, added)));
                search_never_gets_worse(matrix, floor, sum, at, mask, 0, start, right as int);
            },
        }
    }
}

/// Wherever adding the same to a larger number never gives less, no matching of
/// faces at or above the floor scores more than the one that is found.
pub proof fn assignment_scores_most(
    matrix: Seq<Seq<u64>>,
    columns: nat,
    floor: u64,
    sum: spec_fn(u64, u64) -> u64,
    choices: Seq<Option<usize>>,
)
    requires
        is_rectangular(matrix, columns),
        is_monotone(sum),
        is_matching(matrix, floor, 0, 0, choices),
    ensures
        rank64(score_of(matrix, sum, 0, choices)) <= rank64(best(matrix, floor, sum, 0, 0).score),
{
    best_scores_most(matrix, columns, floor, sum, 0, 0, choices);
}

proof fn score_in_front(
    matrix: Seq<Seq<u64>>,
    sum: spec_fn(u64, u64) -> u64,
    at: int,
    tail: Chosen,
    choice: Option<usize>,
)
    requires
        score_of(matrix, sum, at + 1, tail.choices) == tail.score,
    ensures
        match choice {
            Some(right) => score_of(
                matrix,
                sum,
                at,
                in_front(tail, choice, matrix[at][right as int], sum).choices,
            ) == in_front(tail, choice, matrix[at][right as int], sum).score,
            None => score_of(matrix, sum, at, in_front(tail, choice, 0, sum).choices) == in_front(
                tail,
                choice,
                0,
                sum,
            ).score,
        },
{
    let all = seq![choice] + tail.choices;
    assert(all.skip(1) =~= tail.choices);
    assert(all[0] == choice);
}

proof fn best_scores_itself(
    matrix: Seq<Seq<u64>>,
    columns: nat,
    floor: u64,
    sum: spec_fn(u64, u64) -> u64,
    at: int,
    mask: u32,
)
    requires
        is_rectangular(matrix, columns),
        0 <= at <= matrix.len(),
    ensures
        is_matching(matrix, floor, at, mask, best(matrix, floor, sum, at, mask).choices),
        score_of(matrix, sum, at, best(matrix, floor, sum, at, mask).choices) == best(
            matrix,
            floor,
            sum,
            at,
            mask,
        ).score,
    decreases matrix.len() - at, matrix[at].len() + 1,
{
    if at < matrix.len() {
        let tail = best(matrix, floor, sum, at + 1, mask);
        best_scores_itself(matrix, columns, floor, sum, at + 1, mask);
        matching_in_front(matrix, columns, floor, at, mask, tail.choices, None);
        score_in_front(matrix, sum, at, tail, None);
        search_scores_itself(
            matrix,
            columns,
            floor,
            sum,
            at,
            mask,
            0,
            in_front(tail, None, 0, sum),
        );
    }
}

proof fn search_scores_itself(
    matrix: Seq<Seq<u64>>,
    columns: nat,
    floor: u64,
    sum: spec_fn(u64, u64) -> u64,
    at: int,
    mask: u32,
    right: int,
    so_far: Chosen,
)
    requires
        is_rectangular(matrix, columns),
        0 <= at < matrix.len(),
        0 <= right <= matrix[at].len(),
        is_matching(matrix, floor, at, mask, so_far.choices),
        score_of(matrix, sum, at, so_far.choices) == so_far.score,
    ensures
        is_matching(
            matrix,
            floor,
            at,
            mask,
            best_of(matrix, floor, sum, at, mask, right, so_far).choices,
        ),
        score_of(
            matrix,
            sum,
            at,
            best_of(matrix, floor, sum, at, mask, right, so_far).choices,
        ) == best_of(matrix, floor, sum, at, mask, right, so_far).score,
    decreases matrix.len() - at, matrix[at].len() - right,
{
    assert(matrix[at].len() == columns);
    if right < columns {
        let next = if may_take(matrix[at], floor, mask, right) {
            let choice = Some(right as usize);
            let tail = best(matrix, floor, sum, at + 1, taking(mask, right));
            best_scores_itself(matrix, columns, floor, sum, at + 1, taking(mask, right));
            matching_in_front(matrix, columns, floor, at, mask, tail.choices, choice);
            score_in_front(matrix, sum, at, tail, choice);
            let candidate = in_front(tail, choice, matrix[at][right], sum);
            if better(candidate, so_far) {
                candidate
            } else {
                so_far
            }
        } else {
            so_far
        };
        search_scores_itself(matrix, columns, floor, sum, at, mask, right + 1, next);
    }
}

/// The matching that is found is one, and its score is what its own choices add
/// up to: together with [`assignment_scores_most`], it scores the most.
pub proof fn assignment_scores_its_choices(
    matrix: Seq<Seq<u64>>,
    columns: nat,
    floor: u64,
    sum: spec_fn(u64, u64) -> u64,
)
    requires
        is_rectangular(matrix, columns),
    ensures
        is_matching(matrix, floor, 0, 0, best(matrix, floor, sum, 0, 0).choices),
        score_of(matrix, sum, 0, best(matrix, floor, sum, 0, 0).choices) == best(
            matrix,
            floor,
            sum,
            0,
            0,
        ).score,
{
    best_scores_itself(matrix, columns, floor, sum, 0, 0);
}

/// The overlaps of matches, added up from the last to the first.
pub open spec fn total_overlap(matches: Seq<FaceMatch>, sum: spec_fn(u64, u64) -> u64) -> u64
    decreases matches.len(),
{
    if matches.len() == 0 {
        0
    } else {
        sum(total_overlap(matches.skip(1), sum), matches[0].iou)
    }
}

proof fn choices_add_up_to_their_matches(
    matrix: Seq<Seq<u64>>,
    sum: spec_fn(u64, u64) -> u64,
    choices: Seq<Option<usize>>,
    at: int,
)
    requires
        0 <= at <= choices.len(),
    ensures
        total_overlap(matches_from(matrix, choices, at), sum) == score_of(
            matrix,
            sum,
            at,
            choices.skip(at),
        ),
    decreases choices.len() - at,
{
    if at < choices.len() {
        choices_add_up_to_their_matches(matrix, sum, choices, at + 1);
        let rest = matches_from(matrix, choices, at + 1);
        assert(choices.skip(at).skip(1) =~= choices.skip(at + 1));
        match choices[at] {
            Some(_) => {
                assert(matches_from(matrix, choices, at).skip(1) =~= rest);
            },
            None => {},
        }
    }
}

/// What matches choose for a left face.
spec fn choice_for(matches: Seq<FaceMatch>, left: int) -> Option<usize> {
    if exists|i: int| 0 <= i < matches.len() && (#[trigger] matches[i]).left == left {
        let i = choose|i: int| 0 <= i < matches.len() && (#[trigger] matches[i]).left == left;
        Some(matches[i].right)
    } else {
        None
    }
}

/// What matches choose for the left faces from `at` on.
spec fn choices_for(matches: Seq<FaceMatch>, count: nat, at: int) -> Seq<Option<usize>> {
    Seq::new((count - at) as nat, |k: int| choice_for(matches, at + k))
}

proof fn matches_choose_themselves(
    matrix: Seq<Seq<u64>>,
    columns: nat,
    floor: u64,
    matches: Seq<FaceMatch>,
    i: int,
)
    requires
        are_matches(matrix, columns, floor, matches),
        0 <= i < matches.len(),
    ensures
        choice_for(matches, matches[i].left as int) == Some(matches[i].right),
{
    let left = matches[i].left as int;
    let j = choose|j: int| 0 <= j < matches.len() && (#[trigger] matches[j]).left == left;
    assert(matches[i].left == left);
    if i < j {
        assert(matches[i].left < matches[j].left);
    } else if j < i {
        assert(matches[j].left < matches[i].left);
    }
}

proof fn matches_add_up_to_their_choices(
    matrix: Seq<Seq<u64>>,
    columns: nat,
    floor: u64,
    sum: spec_fn(u64, u64) -> u64,
    matches: Seq<FaceMatch>,
    at: int,
)
    requires
        are_matches(matrix, columns, floor, matches),
        0 <= at <= matrix.len(),
        forall|i: int| 0 <= i < matches.len() ==> (#[trigger] matches[i]).left >= at,
    ensures
        total_overlap(matches, sum) == score_of(
            matrix,
            sum,
            at,
            choices_for(matches, matrix.len(), at),
        ),
    decreases matrix.len() - at,
{
    let choices = choices_for(matches, matrix.len(), at);
    if at < matrix.len() {
        let rest = if matches.len() > 0 && matches[0].left == at {
            matches.skip(1)
        } else {
            matches
        };
        assert forall|i: int| 0 <= i < rest.len() implies (#[trigger] rest[i]).left >= at + 1 by {
            if matches.len() > 0 {
                if matches[0].left == at {
                    assert(rest[i] == matches[i + 1]);
                    assert(matches[0].left < matches[i + 1].left);
                } else if i > 0 {
                    assert(matches[0].left < matches[i].left);
                }
            }
        }
        assert(are_matches(matrix, columns, floor, rest)) by {
            if matches.len() > 0 && matches[0].left == at {
                assert forall|i: int| 0 <= i < rest.len() implies (#[trigger] rest[i])
                    == matches[i + 1] by {}
            }
        }
        matches_add_up_to_their_choices(matrix, columns, floor, sum, rest, at + 1);
        assert(choices.skip(1) =~= choices_for(rest, matrix.len(), at + 1)) by {
            assert forall|k: int| 0 <= k < choices.len() - 1 implies choice_for(
                matches,
                at + 1 + k,
            ) == #[trigger] choice_for(rest, at + 1 + k) by {
                let left = at + 1 + k;
                if exists|i: int| 0 <= i < matches.len() && (#[trigger] matches[i]).left == left {
                    let i = choose|i: int|
                        0 <= i < matches.len() && (#[trigger] matches[i]).left == left;
                    matches_choose_themselves(matrix, columns, floor, matches, i);
                    if matches[0].left == at {
                        assert(rest[i - 1] == matches[i]);
                        matches_choose_themselves(matrix, columns, floor, rest, i - 1);
                    }
                } else {
                    if exists|i: int| 0 <= i < rest.len() && (#[trigger] rest[i]).left == left {
                        let i = choose|i: int|
                            0 <= i < rest.len() && (#[trigger] rest[i]).left == left;
                        if matches[0].left == at {
                            assert(matches[i + 1] == rest[i]);
                        }
                    }
                }
            }
            assert forall|k: int| 0 <= k < choices.len() - 1 implies (#[trigger] choices.skip(
                1,
            )[k]) == choices_for(rest, matrix.len(), at + 1)[k] by {
                assert(choices.skip(1)[k] == choice_for(matches, at + (k + 1)));
                assert(at + (k + 1) == at + 1 + k);
                assert(choices_for(rest, matrix.len(), at + 1)[k] == choice_for(rest, at + 1 + k));
            }
        }
        assert(choices[0] == choice_for(matches, at + 0));
        if matches.len() > 0 && matches[0].left == at {
            matches_choose_themselves(matrix, columns, floor, matches, 0);
            assert(choices[0] == Some(matches[0].right));
        } else {
            assert(choices[0] is None) by {
                if exists|i: int| 0 <= i < matches.len() && (#[trigger] matches[i]).left == at {
                    let i = choose|i: int|
                        0 <= i < matches.len() && (#[trigger] matches[i]).left == at;
                    assert(i > 0 ==> matches[0].left < matches[i].left);
                }
            }
        }
    } else {
        assert(matches.len() == 0) by {
            if matches.len() > 0 {
                assert(matches[0].left < matrix.len());
            }
        }
    }
}

proof fn no_column_is_taken(right: int)
    requires
        0 <= right < 16,
    ensures
        !is_taken(0, right),
{
    let b = right as u32;
    assert(0u32 & (1u32 << b) == 0) by (bit_vector);
}

/// The matches of the best assignment are matches, whatever the number of faces.
pub proof fn best_matches_are_matches(
    matrix: Seq<Seq<u64>>,
    columns: nat,
    floor: u64,
    sum: spec_fn(u64, u64) -> u64,
)
    requires
        forall|i: int| 0 <= i < matrix.len() ==> (#[trigger] matrix[i]).len() == columns,
    ensures
        are_matches(matrix, columns, floor, best_matches(matrix, floor, sum)),
{
    if 0 < matrix.len() <= MAX_FACES && 0 < columns <= MAX_FACES {
        let found = best(matrix, floor, sum, 0, 0).choices;
        assert(matrix[0].len() == columns);
        assignment_scores_its_choices(matrix, columns, floor, sum);
        matchings_make_matches(matrix, columns, floor, found, 0);
    }
}

/// Of all ways to match faces, each at most once and with at least the floor of
/// overlap, the one that is found has the most overlap in total, wherever adding
/// the same to a larger number never gives less.
pub proof fn no_matches_overlap_more(
    matrix: Seq<Seq<u64>>,
    columns: nat,
    floor: u64,
    sum: spec_fn(u64, u64) -> u64,
    matches: Seq<FaceMatch>,
)
    requires
        is_rectangular(matrix, columns),
        matrix.len() > 0,
        columns > 0,
        is_monotone(sum),
        are_matches(matrix, columns, floor, matches),
    ensures
        are_matches(matrix, columns, floor, best_matches(matrix, floor, sum)),
        rank64(total_overlap(matches, sum)) <= rank64(
            total_overlap(best_matches(matrix, floor, sum), sum),
        ),
{
    let found = best(matrix, floor, sum, 0, 0).choices;
    assert(matrix[0].len() == columns);
    assignment_scores_its_choices(matrix, columns, floor, sum);
    matchings_make_matches(matrix, columns, floor, found, 0);
    choices_add_up_to_their_matches(matrix, sum, found, 0);
    assert(found.skip(0) =~= found);
    let choices = choices_for(matches, matrix.len(), 0);
    matches_add_up_to_their_choices(matrix, columns, floor, sum, matches, 0);
    assert forall|k: int| 0 <= k < choices.len() && (#[trigger] choices[k]) is Some implies exists|
        i: int,
    |
        0 <= i < matches.len() && (#[trigger] matches[i]).left == k && choices[k] == Some(
            matches[i].right,
        ) by {
        assert(choices[k] == choice_for(matches, 0 + k));
    }
    assert forall|k: int| 0 <= k < choices.len() && (#[trigger] choices[k]) is Some implies
        choices[k]->0 < matrix[0 + k].len() && may_take(
        matrix[0 + k],
        floor,
        0,
        choices[k]->0 as int,
    ) by {
        let i = choose|i: int|
            0 <= i < matches.len() && (#[trigger] matches[i]).left == k && choices[k] == Some(
                matches[i].right,
            );
        assert(matrix[k].len() == columns);
        no_column_is_taken(choices[k]->0 as int);
    }
    assert forall|k: int, m: int|
        0 <= k < m < choices.len() && (#[trigger] choices[k]) is Some && (#[trigger] choices[m])
            is Some implies choices[k] != choices[m] by {
        let i = choose|i: int|
            0 <= i < matches.len() && (#[trigger] matches[i]).left == k && choices[k] == Some(
                matches[i].right,
            );
        let j = choose|j: int|
            0 <= j < matches.len() && (#[trigger] matches[j]).left == m && choices[m] == Some(
                matches[j].right,
            );
        if i < j {
            assert(matches[i].right != matches[j].right);
        } else {
            assert(matches[j].left <= matches[i].left);
        }
    }
    assert(is_matching(matrix, floor, 0, 0, choices));
    assignment_scores_most(matrix, columns, floor, sum, choices);
}

} // verus!
