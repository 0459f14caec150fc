//! Crossword puzzle model with verified numbering, validation and codecs.
//!
//! A `Crossword` holds a rectangular grid of cells (letters, rebus entries,
//! empty fill or walls) together with two ordered clue lists and four
//! free-text metadata strings.  The numbering engine derives the canonical
//! clue numbers from the wall layout alone; the validator compares declared
//! clue lists against that numbering; the codecs turn a validated crossword
//! into the legacy fixed-layout binary format or the open JSON-based format.

use vstd::prelude::*;

pub mod checksum;
pub mod generate_ipuz;
pub mod generate_puz;
pub mod multi_error;
pub mod numbering;
pub mod parse_grid;
pub mod validation;

use crate::multi_error::{MultiError, Section};
use crate::numbering::{spec_across_nums, spec_down_nums};
use crate::validation::{clue_numbers, spec_validate_clues, validate_clues, ClueError};

verus! {

/// One logical cell of the grid.
///
/// A decoded single-character string always becomes `Char`, never `Rebus`;
/// a `Rebus` carries a string of at least two characters.
#[derive(Debug, Clone, PartialEq, Eq)]
pub enum CrosswordCell {
    Empty,
    Char(char),
    Rebus(String),
    Wall,
}

impl CrosswordCell {
    /// The empty-cell sentinel.
    pub fn empty() -> (r: Self)
        ensures
            r == CrosswordCell::Empty,
    {
        CrosswordCell::Empty
    }

    pub fn is_wall(&self) -> (r: bool)
        ensures
            r == cell_is_wall(*self),
    {
        matches!(self, CrosswordCell::Wall)
    }
}

pub open spec fn cell_is_wall(c: CrosswordCell) -> bool {
    c is Wall
}

/// A rebus cell keeps at least two characters of fill.
pub open spec fn cell_wf(c: CrosswordCell) -> bool {
    match c {
        CrosswordCell::Rebus(s) => s@.len() >= 2,
        _ => true,
    }
}

/// An in-memory crossword.  Immutable once validated: every codec borrows it
/// and recomputes its derived views per call.
#[derive(Debug, Clone, PartialEq, Eq)]
pub struct Crossword {
    pub width: u8,
    pub height: u8,
    /// Row-major, exactly `width * height` cells when well-formed.
    pub grid: Vec<CrosswordCell>,
    pub across_clues: Vec<(u16, String)>,
    pub down_clues: Vec<(u16, String)>,
    pub title: String,
    pub author: String,
    pub copyright: String,
    pub notes: String,
}

/// Simple data struct for the crossword object.
/// Can be converted into a `Crossword`.
pub struct CrosswordArgs {
    pub width: u8,
    pub height: u8,
    pub grid: Vec<CrosswordCell>,
    pub across_clues: Vec<(u16, String)>,
    pub down_clues: Vec<(u16, String)>,
    pub title: String,
    pub author: String,
    pub copyright: String,
    pub notes: String,
}

pub open spec fn crossword_of_args(args: CrosswordArgs) -> Crossword {
    Crossword {
        width: args.width,
        height: args.height,
        grid: args.grid,
        across_clues: args.across_clues,
        down_clues: args.down_clues,
        title: args.title,
        author: args.author,
        copyright: args.copyright,
        notes: args.notes,
    }
}

impl From<CrosswordArgs> for Crossword {
    fn from(args: CrosswordArgs) -> (r: Crossword) {
        Crossword {
            width: args.width,
            height: args.height,
            grid: args.grid,
            across_clues: args.across_clues,
            down_clues: args.down_clues,
            title: args.title,
            author: args.author,
            copyright: args.copyright,
            notes: args.notes,
        }
    }
}

impl vstd::std_specs::convert::FromSpecImpl<CrosswordArgs> for Crossword {
    open spec fn obeys_from_spec() -> bool {
        true
    }

    open spec fn from_spec(args: CrosswordArgs) -> Crossword {
        crossword_of_args(args)
    }
}

impl Crossword {
    /// Structural well-formedness: dimensions in 1..=255 and a grid of
    /// exactly `width * height` cells.
    pub open spec fn wf(&self) -> bool {
        &&& self.width >= 1
        &&& self.height >= 1
        &&& self.grid@.len() == self.width as int * self.height as int
    }

    /// Every cell individually well-formed (rebus strings of length >= 2).
    pub open spec fn cells_wf(&self) -> bool {
        forall|i: int| 0 <= i < self.grid@.len() ==> cell_wf(#[trigger] self.grid@[i])
    }
}

/// The distinct rebus strings among the first `n` cells, in first-seen order.
pub open spec fn rebus_table_upto(cells: Seq<CrosswordCell>, n: int) -> Seq<Seq<char>>
    decreases n,
{
    if n <= 0 {
        Seq::empty()
    } else {
        let pre = rebus_table_upto(cells, n - 1);
        match cells[n - 1] {
            CrosswordCell::Rebus(s) => if pre.contains(s@) {
                pre
            } else {
                pre.push(s@)
            },
            _ => pre,
        }
    }
}

/// The distinct rebus strings of a grid, in first-seen order.
pub open spec fn spec_rebus_table(cells: Seq<CrosswordCell>) -> Seq<Seq<char>> {
    rebus_table_upto(cells, cells.len() as int)
}

fn contains_string(table: &Vec<String>, s: &String) -> (r: bool)
    ensures
        r == table@.map_values(|t: String| t@).contains(s@),
{
    let ghost views = table@.map_values(|t: String| t@);
    let mut i: usize = 0;
    while i < table.len()
        invariant
            views == table@.map_values(|t: String| t@),
            0 <= i <= table@.len(),
            forall|k: int| 0 <= k < i ==> views[k] != s@,
        decreases table@.len() - i,
    {
        if table[i] == *s {
            proof {
                assert(views[i as int] == table@[i as int]@);
            }
            return true;
        }
        proof {
            assert(views[i as int] == table@[i as int]@);
        }
        i = i + 1;
    }
    proof {
        assert(forall|k: int| 0 <= k < views.len() ==> views[k] != s@);
    }
    false
}

/// Collect the distinct rebus strings of a grid, in first-seen order.
pub fn rebus_table(cells: &Vec<CrosswordCell>) -> (r: Vec<String>)
    ensures
        r@.map_values(|t: String| t@) == spec_rebus_table(cells@),
{
    let mut table: Vec<String> = Vec::new();
    let mut idx: usize = 0;
    while idx < cells.len()
        invariant
            0 <= idx <= cells@.len(),
            table@.map_values(|t: String| t@) == rebus_table_upto(cells@, idx as int),
        decreases cells@.len() - idx,
    {
        if let CrosswordCell::Rebus(s) = &cells[idx] {
            if !contains_string(&table, s) {
                let ghost pre = table@.map_values(|t: String| t@);
                table.push(s.clone());
                proof {
                    assert(table@.map_values(|t: String| t@) =~= pre.push(s@));
                }
            }
        }
        idx = idx + 1;
    }
    table
}

/// Content errors reported by `Crossword::validate`.
#[derive(Debug, Clone, Copy, PartialEq, Eq, Structural)]
pub enum ValidationError {
    MismatchedClueCount { expected: usize, actual: usize },
    MisorderedClues,
    MissingClue(u16),
    ExtraClue(u16),
    TooManyRebuses(usize),
    InvalidGridSize { width: u8, height: u8, actual: usize },
}

pub open spec fn clue_error_to_validation(e: ClueError) -> ValidationError {
    match e {
        ClueError::MismatchedClueCount { expected, actual } => ValidationError::MismatchedClueCount {
            expected,
            actual,
        },
        ClueError::MisorderedClues => ValidationError::MisorderedClues,
        ClueError::MissingClue(n) => ValidationError::MissingClue(n),
        ClueError::ExtraClue(n) => ValidationError::ExtraClue(n),
    }
}

impl Crossword {
    /// The full error report `validate` derives for a crossword: either the
    /// single catastrophic grid-size error, or the aggregated rebus-count
    /// and clue-list findings.
    pub open spec fn spec_validate_errors(&self) -> Map<Section, ValidationError> {
        if !self.wf() {
            Map::empty().insert(
                Section::Grid,
                ValidationError::InvalidGridSize {
                    width: self.width,
                    height: self.height,
                    actual: self.grid@.len() as usize,
                },
            )
        } else {
            let m = Map::<Section, ValidationError>::empty();
            let m = if spec_rebus_table(self.grid@).len() > 99 {
                m.insert(
                    Section::Grid,
                    ValidationError::TooManyRebuses(spec_rebus_table(self.grid@).len() as usize),
                )
            } else {
                m
            };
            let m = match spec_validate_clues(
                spec_across_nums(self.grid@, self.width as int),
                clue_numbers(self.across_clues@),
            ) {
                Ok(_) => m,
                Err(e) => m.insert(Section::AcrossClues, clue_error_to_validation(e)),
            };
            let m = match spec_validate_clues(
                spec_down_nums(self.grid@, self.width as int),
                clue_numbers(self.down_clues@),
            ) {
                Ok(_) => m,
                Err(e) => m.insert(Section::DownClues, clue_error_to_validation(e)),
            };
            m
        }
    }

    /// Validate unvalidated construction input into a usable `Crossword`, or
    /// report every structural problem in one pass.  The grid-size check is
    /// catastrophic and short-circuits: every later check indexes the grid
    /// by the declared dimensions.
    pub fn validate(args: CrosswordArgs) -> (r: Result<Crossword, MultiError<ValidationError>>)
        ensures
            match r {
                Ok(c) => {
                    &&& c == crossword_of_args(args)
                    &&& c.spec_validate_errors() == Map::<Section, ValidationError>::empty()
                },
                Err(m) => {
                    &&& m@ == crossword_of_args(args).spec_validate_errors()
                    &&& m@ != Map::<Section, ValidationError>::empty()
                },
            },
    {
        let c = Crossword::from(args);
        proof {
            assert(c.width as int * c.height as int <= 65025) by (nonlinear_arith)
                requires
                    c.width <= 255,
                    c.height <= 255,
            ;
        }
        let expected_len = (c.width as usize) * (c.height as usize);
        if c.width == 0 || c.height == 0 || c.grid.len() != expected_len {
            let mut m: MultiError<ValidationError> = MultiError::new();
            let e = ValidationError::InvalidGridSize {
                width: c.width,
                height: c.height,
                actual: c.grid.len(),
            };
            m.push(Section::Grid, e);
            proof {
                assert(!c.wf());
                assert(m@.contains_key(Section::Grid));
            }
            return Err(m);
        }
        let mut issues: MultiError<ValidationError> = MultiError::new();
        let table = rebus_table(&c.grid);
        if table.len() > 99 {
            proof {
                assert(table@.map_values(|t: String| t@).len() == table@.len());
            }
            issues.push(Section::Grid, ValidationError::TooManyRebuses(table.len()));
        }
        let (across, down) = c.expected_grid_nums();
        if let Err(e) = validate_clues(&across, &c.across_clues) {
            issues.push(Section::AcrossClues, clue_error_exec(e));
        }
        if let Err(e) = validate_clues(&down, &c.down_clues) {
            issues.push(Section::DownClues, clue_error_exec(e));
        }
        proof {
            assert(issues@ =~= c.spec_validate_errors());
        }
        if issues.is_empty() {
            Ok(c)
        } else {
            proof {
                assert(issues@ != Map::<Section, ValidationError>::empty());
            }
            Err(issues)
        }
    }
}

fn clue_error_exec(e: ClueError) -> (r: ValidationError)
    ensures
        r == clue_error_to_validation(e),
{
    match e {
        ClueError::MismatchedClueCount { expected, actual } => ValidationError::MismatchedClueCount {
            expected,
            actual,
        },
        ClueError::MisorderedClues => ValidationError::MisorderedClues,
        ClueError::MissingClue(n) => ValidationError::MissingClue(n),
        ClueError::ExtraClue(n) => ValidationError::ExtraClue(n),
    }
}

} // verus!
