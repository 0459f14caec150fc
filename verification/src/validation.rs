//! The clue validator: compares a declared, ordered clue list against the
//! number sequence the numbering engine expects.
//!
//! Three checks run in strict order and the first failure wins: strict
//! monotonicity of the declared numbers, equal lengths, and pairwise
//! positional equality.  A misordered list is reported even when the lengths
//! also differ.

use vstd::prelude::*;

verus! {

#[derive(Debug, Clone, Copy, PartialEq, Eq, Structural)]
pub enum ClueError {
    MismatchedClueCount { expected: usize, actual: usize },
    MisorderedClues,
    MissingClue(u16),
    ExtraClue(u16),
}

/// The declared numbers of a clue list, in order.
pub open spec fn clue_numbers(actual: Seq<(u16, String)>) -> Seq<u16> {
    actual.map_values(|p: (u16, String)| p.0)
}

/// Adjacent entries strictly increase.
pub open spec fn strictly_increasing(s: Seq<u16>) -> bool {
    forall|i: int| 0 < i < s.len() ==> s[i - 1] < #[trigger] s[i]
}

/// The first index where the two sequences differ (their common length if
/// they agree throughout).
pub open spec fn first_diff(a: Seq<u16>, b: Seq<u16>) -> int
    decreases a.len(),
{
    if a.len() == 0 || b.len() == 0 {
        0
    } else if a[0] != b[0] {
        0
    } else {
        1 + first_diff(a.drop_first(), b.drop_first())
    }
}

/// What the validator reports for a given expected/declared pair.
pub open spec fn spec_validate_clues(expected: Seq<u16>, nums: Seq<u16>) -> Result<
    (),
    ClueError,
> {
    if !strictly_increasing(nums) {
        Err(ClueError::MisorderedClues)
    } else if expected.len() != nums.len() {
        Err(
            ClueError::MismatchedClueCount {
                expected: expected.len() as usize,
                actual: nums.len() as usize,
            },
        )
    } else if exists|i: int| 0 <= i < nums.len() && expected[i] != nums[i] {
        let i = first_diff(expected, nums);
        if expected[i] < nums[i] {
            Err(ClueError::MissingClue(expected[i]))
        } else {
            Err(ClueError::ExtraClue(nums[i]))
        }
    } else {
        Ok(())
    }
}

proof fn lemma_first_diff_at(a: Seq<u16>, b: Seq<u16>, j: int)
    requires
        0 <= j < a.len(),
        j < b.len(),
        forall|k: int| 0 <= k < j ==> a[k] == b[k],
        a[j] != b[j],
    ensures
        first_diff(a, b) == j,
    decreases j,
{
    if j > 0 {
        lemma_first_diff_at(a.drop_first(), b.drop_first(), j - 1);
    }
}

/// Runs the three checks of the validation discipline, first failure wins.
pub fn validate_clues(expected: &Vec<u16>, actual: &Vec<(u16, String)>) -> (r: Result<
    (),
    ClueError,
>)
    ensures
        r == spec_validate_clues(expected@, clue_numbers(actual@)),
{
    let ghost nums = clue_numbers(actual@);
    proof {
        assert(nums.len() == actual@.len());
    }
    let mut i: usize = 1;
    while i < actual.len()
        invariant
            nums == clue_numbers(actual@),
            1 <= i,
            i <= actual@.len() || actual@.len() == 0,
            forall|k: int| 0 < k < i && k < nums.len() ==> nums[k - 1] < #[trigger] nums[k],
        decreases actual@.len() - i,
    {
        if actual[i - 1].0 >= actual[i].0 {
            proof {
                assert(nums[i as int] == actual@[i as int].0);
                assert(nums[i as int - 1] == actual@[i as int - 1].0);
                assert(!strictly_increasing(nums));
            }
            return Err(ClueError::MisorderedClues);
        }
        i = i + 1;
    }
    proof {
        assert(strictly_increasing(nums));
    }
    if expected.len() != actual.len() {
        return Err(
            ClueError::MismatchedClueCount { expected: expected.len(), actual: actual.len() },
        );
    }
    let mut j: usize = 0;
    while j < expected.len()
        invariant
            nums == clue_numbers(actual@),
            strictly_increasing(nums),
            expected@.len() == actual@.len(),
            0 <= j <= expected@.len(),
            forall|k: int| 0 <= k < j ==> expected@[k] == nums[k],
        decreases expected@.len() - j,
    {
        let exp = expected[j];
        let act = actual[j].0;
        proof {
            assert(nums[j as int] == actual@[j as int].0);
        }
        if exp != act {
            proof {
                lemma_first_diff_at(expected@, nums, j as int);
                assert(expected@[j as int] != nums[j as int]);
            }
            if exp < act {
                return Err(ClueError::MissingClue(exp));
            } else {
                return Err(ClueError::ExtraClue(act));
            }
        }
        j = j + 1;
    }
    Ok(())
}

} // verus!
