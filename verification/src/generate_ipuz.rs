//! The JSON codec: maps a `Crossword` to and from the open JSON-based
//! puzzle structure.
//!
//! `IPuzRaw` mirrors the JSON document as plain values: dimensions, a
//! configurable block marker and no-label marker, a grid of labeled cells, a
//! grid of solution entries and two ordered clue lists.  Loading validates
//! with full aggregation: the size checks short-circuit (all later row and
//! column arithmetic depends on them), every other finding is collected
//! into one report.

use vstd::prelude::*;

use crate::multi_error::{MultiError, Section};
use crate::numbering::{spec_numbered_cell, NumberedCell};
use crate::validation::{clue_numbers, spec_validate_clues, validate_clues, ClueError};
use crate::{cell_is_wall, Crossword, CrosswordCell};

verus! {

/// The permissive JSON "string or integer" field, discriminated by the
/// caller rather than by reflection.
#[derive(Debug)]
pub enum StringOrNum {
    Str(String),
    Num(i32),
}

/// Value equality of two string-or-integer fields: same case, same
/// content.
pub open spec fn sorn_eq(a: StringOrNum, b: StringOrNum) -> bool {
    match (a, b) {
        (StringOrNum::Str(x), StringOrNum::Str(y)) => x@ == y@,
        (StringOrNum::Num(x), StringOrNum::Num(y)) => x == y,
        _ => false,
    }
}

impl PartialEq for StringOrNum {
    fn eq(&self, other: &Self) -> (r: bool) {
        match (self, other) {
            (StringOrNum::Str(x), StringOrNum::Str(y)) => *x == *y,
            (StringOrNum::Num(x), StringOrNum::Num(y)) => *x == *y,
            _ => false,
        }
    }
}

impl vstd::std_specs::cmp::PartialEqSpecImpl for StringOrNum {
    open spec fn obeys_eq_spec() -> bool {
        true
    }

    open spec fn eq_spec(&self, other: &Self) -> bool {
        sorn_eq(*self, *other)
    }
}

impl Clone for StringOrNum {
    fn clone(&self) -> (r: Self)
        ensures
            r == *self,
    {
        match self {
            StringOrNum::Str(s) => StringOrNum::Str(s.clone()),
            StringOrNum::Num(n) => StringOrNum::Num(*n),
        }
    }
}

/// The default block marker: the string "#".
pub fn default_block() -> (r: StringOrNum)
    ensures
        r matches StringOrNum::Str(s) && s@ == "#"@,
{
    StringOrNum::Str(String::from_str("#"))
}

/// The default no-label marker: the integer 0.
pub fn default_empty() -> (r: StringOrNum)
    ensures
        r == StringOrNum::Num(0),
{
    StringOrNum::Num(0)
}

/// A malformed label entry.
#[derive(Debug, Clone, PartialEq)]
pub enum LabeledCellError {
    /// String labels are unsupported.
    Str(String),
    /// A numeric label outside the numbering width.
    Num(i32),
}

/// One entry of the JSON puzzle grid: either a bare value or an object
/// carrying the value under its "cell" key.
#[derive(Debug, PartialEq)]
pub enum LabeledCell {
    Raw(StringOrNum),
    Cell { cell: StringOrNum },
}

/// What a label entry resolves to.
#[derive(Debug, Clone, Copy, PartialEq, Eq, Structural)]
pub enum LabeledCellValue {
    Block,
    Empty,
    Number(u16),
}

/// The label a numbered cell is expected to carry.
pub open spec fn value_of_numbered(nc: NumberedCell) -> LabeledCellValue {
    match nc {
        NumberedCell::Wall => LabeledCellValue::Block,
        NumberedCell::Empty => LabeledCellValue::Empty,
        NumberedCell::Numbered { number, .. } => LabeledCellValue::Number(number),
    }
}

pub open spec fn labeled_sorn(c: LabeledCell) -> StringOrNum {
    match c {
        LabeledCell::Raw(sorn) => sorn,
        LabeledCell::Cell { cell } => cell,
    }
}

/// How a label entry resolves against the two markers: the block marker,
/// the no-label marker, or a number within the numbering width; string
/// labels and out-of-range numbers are malformed.
pub open spec fn spec_to_value(c: LabeledCell, block: StringOrNum, empty: StringOrNum) -> Result<
    LabeledCellValue,
    LabeledCellError,
> {
    let sorn = labeled_sorn(c);
    if sorn_eq(sorn, block) {
        Ok(LabeledCellValue::Block)
    } else if sorn_eq(sorn, empty) {
        Ok(LabeledCellValue::Empty)
    } else {
        match sorn {
            StringOrNum::Str(s) => Err(LabeledCellError::Str(s)),
            StringOrNum::Num(n) => if 0 <= n <= 0xFFFF {
                Ok(LabeledCellValue::Number(n as u16))
            } else {
                Err(LabeledCellError::Num(n))
            },
        }
    }
}

impl LabeledCell {
    /// A numbered cell entry.
    pub fn cell(num: i32) -> (r: Self)
        ensures
            r == (LabeledCell::Cell { cell: StringOrNum::Num(num) }),
    {
        LabeledCell::Cell { cell: StringOrNum::Num(num) }
    }

    /// Resolve this entry against the block and no-label markers.
    pub fn to_value(&self, block: &StringOrNum, empty: &StringOrNum) -> (r: Result<
        LabeledCellValue,
        LabeledCellError,
    >)
        ensures
            r == spec_to_value(*self, *block, *empty),
    {
        let sorn: &StringOrNum = match self {
            LabeledCell::Raw(sorn) => sorn,
            LabeledCell::Cell { cell } => cell,
        };
        if *sorn == *block {
            Ok(LabeledCellValue::Block)
        } else if *sorn == *empty {
            Ok(LabeledCellValue::Empty)
        } else {
            match sorn {
                StringOrNum::Str(s) => Err(LabeledCellError::Str(s.clone())),
                StringOrNum::Num(n) => {
                    if 0 <= *n && *n <= 0xFFFF {
                        Ok(LabeledCellValue::Number(*n as u16))
                    } else {
                        Err(LabeledCellError::Num(*n))
                    }
                },
            }
        }
    }
}

/// A failure to load a crossword from the JSON structure.
#[derive(Debug, Clone, PartialEq)]
pub enum DeserializeError {
    MismatchedClueCount { expected: usize, actual: usize },
    MisorderedClues,
    MissingClue(u16),
    ExtraClue(u16),
    InvalidHeight { height: usize, actual: usize },
    InvalidWidth { row: usize, width: usize, actual: usize },
    InvalidSolutionItem { row: usize, col: usize, block: StringOrNum, actual: StringOrNum },
    InvalidNumbering { row: usize, col: usize, expected: LabeledCellValue, actual: LabeledCellValue },
    LabeledCellError { row: usize, col: usize, error: LabeledCellError },
}

pub open spec fn clue_to_deserialize(e: ClueError) -> DeserializeError {
    match e {
        ClueError::MismatchedClueCount { expected, actual } => DeserializeError::MismatchedClueCount {
            expected,
            actual,
        },
        ClueError::MisorderedClues => DeserializeError::MisorderedClues,
        ClueError::MissingClue(n) => DeserializeError::MissingClue(n),
        ClueError::ExtraClue(n) => DeserializeError::ExtraClue(n),
    }
}

impl From<ClueError> for DeserializeError {
    fn from(e: ClueError) -> (r: DeserializeError) {
        match e {
            ClueError::MismatchedClueCount { expected, actual } => {
                DeserializeError::MismatchedClueCount { expected, actual }
            },
            ClueError::MisorderedClues => DeserializeError::MisorderedClues,
            ClueError::MissingClue(n) => DeserializeError::MissingClue(n),
            ClueError::ExtraClue(n) => DeserializeError::ExtraClue(n),
        }
    }
}

impl vstd::std_specs::convert::FromSpecImpl<ClueError> for DeserializeError {
    open spec fn obeys_from_spec() -> bool {
        true
    }

    open spec fn from_spec(e: ClueError) -> DeserializeError {
        clue_to_deserialize(e)
    }
}

/// The declared grid dimensions of the JSON document.
#[derive(Debug, Clone, Copy, PartialEq, Eq, Structural)]
pub struct Dimensions {
    pub width: u8,
    pub height: u8,
}

/// The first row whose length differs from `w` (the row count if none).
pub open spec fn first_bad_row<T>(rows: Seq<Seq<T>>, w: int) -> int
    decreases rows.len(),
{
    if rows.len() == 0 {
        0
    } else if rows[0].len() != w {
        0
    } else {
        1 + first_bad_row(rows.drop_first(), w)
    }
}

/// What the size check reports: exactly `height` rows of exactly `width`
/// entries each, the row count checked first.
pub open spec fn spec_validate_dimensions<T>(dim: Dimensions, rows: Seq<Seq<T>>) -> Result<
    (),
    DeserializeError,
> {
    if rows.len() != dim.height {
        Err(
            DeserializeError::InvalidHeight {
                height: dim.height as usize,
                actual: rows.len() as usize,
            },
        )
    } else if exists|r: int| 0 <= r < rows.len() && (#[trigger] rows[r]).len() != dim.width {
        let r = first_bad_row(rows, dim.width as int);
        Err(
            DeserializeError::InvalidWidth {
                row: r as usize,
                width: dim.width as usize,
                actual: rows[r].len() as usize,
            },
        )
    } else {
        Ok(())
    }
}

proof fn lemma_first_bad_row_at<T>(rows: Seq<Seq<T>>, w: int, r: int)
    requires
        0 <= r < rows.len(),
        forall|k: int| 0 <= k < r ==> (#[trigger] rows[k]).len() == w,
        rows[r].len() != w,
    ensures
        first_bad_row(rows, w) == r,
    decreases r,
{
    if r > 0 {
        lemma_first_bad_row_at(rows.drop_first(), w, r - 1);
    }
}

/// Check that a grid has exactly the declared number of rows, each of
/// exactly the declared width.
pub fn validate_dimensions<T>(dim: Dimensions, rows: &Vec<Vec<T>>) -> (r: Result<
    (),
    DeserializeError,
>)
    ensures
        r == spec_validate_dimensions(dim, rows@.map_values(|v: Vec<T>| v@)),
{
    let ghost rv = rows@.map_values(|v: Vec<T>| v@);
    if rows.len() != dim.height as usize {
        return Err(
            DeserializeError::InvalidHeight { height: dim.height as usize, actual: rows.len() },
        );
    }
    let mut r: usize = 0;
    while r < rows.len()
        invariant
            rv == rows@.map_values(|v: Vec<T>| v@),
            rv.len() == dim.height as int,
            0 <= r <= rows@.len(),
            forall|k: int| 0 <= k < r ==> (#[trigger] rv[k]).len() == dim.width as int,
        decreases rows@.len() - r,
    {
        proof {
            assert(rv[r as int] == rows@[r as int]@);
        }
        if rows[r].len() != dim.width as usize {
            proof {
                lemma_first_bad_row_at(rv, dim.width as int, r as int);
            }
            return Err(
                DeserializeError::InvalidWidth {
                    row: r,
                    width: dim.width as usize,
                    actual: rows[r].len(),
                },
            );
        }
        r = r + 1;
    }
    Ok(())
}

impl Clone for LabeledCell {
    fn clone(&self) -> (r: Self)
        ensures
            r == *self,
    {
        match self {
            LabeledCell::Raw(sorn) => LabeledCell::Raw(sorn.clone()),
            LabeledCell::Cell { cell } => LabeledCell::Cell { cell: cell.clone() },
        }
    }
}

/// The rows of a grid laid out row-major as one sequence.
pub open spec fn flatten_rows<T>(rows: Seq<Seq<T>>) -> Seq<T>
    decreases rows.len(),
{
    if rows.len() == 0 {
        Seq::empty()
    } else {
        flatten_rows(rows.drop_last()) + rows.last()
    }
}

proof fn lemma_flatten_rows_len<T>(rows: Seq<Seq<T>>, w: int)
    requires
        w >= 0,
        forall|r: int| 0 <= r < rows.len() ==> (#[trigger] rows[r]).len() == w,
    ensures
        flatten_rows(rows).len() == rows.len() * w,
    decreases rows.len(),
{
    if rows.len() > 0 {
        lemma_flatten_rows_len(rows.drop_last(), w);
        assert((rows.len() - 1) * w + w == rows.len() * w) by (nonlinear_arith);
    }
}

proof fn lemma_flatten_rows_index<T>(rows: Seq<Seq<T>>, w: int, r: int, c: int)
    requires
        w >= 0,
        forall|k: int| 0 <= k < rows.len() ==> (#[trigger] rows[k]).len() == w,
        0 <= r < rows.len(),
        0 <= c < w,
    ensures
        0 <= r * w + c < flatten_rows(rows).len(),
        flatten_rows(rows)[r * w + c] == rows[r][c],
    decreases rows.len(),
{
    lemma_flatten_rows_len(rows, w);
    lemma_flatten_rows_len(rows.drop_last(), w);
    assert(0 <= r * w + c < rows.len() * w) by (nonlinear_arith)
        requires
            0 <= r < rows.len(),
            0 <= c < w,
    ;
    if r == rows.len() - 1 {
        assert(r * w + c - flatten_rows(rows.drop_last()).len() == c) by (nonlinear_arith)
            requires
                flatten_rows(rows.drop_last()).len() == (rows.len() - 1) * w,
                r == rows.len() - 1,
        ;
    } else {
        lemma_flatten_rows_index(rows.drop_last(), w, r, c);
        assert(r * w + c < (rows.len() - 1) * w) by (nonlinear_arith)
            requires
                0 <= r < rows.len() - 1,
                0 <= c < w,
        ;
    }
}

fn flatten_solution(rows: &Vec<Vec<StringOrNum>>) -> (r: Vec<StringOrNum>)
    ensures
        r@ == flatten_rows(rows@.map_values(|v: Vec<StringOrNum>| v@)),
{
    let ghost rv = rows@.map_values(|v: Vec<StringOrNum>| v@);
    let mut out: Vec<StringOrNum> = Vec::new();
    let mut i: usize = 0;
    while i < rows.len()
        invariant
            rv == rows@.map_values(|v: Vec<StringOrNum>| v@),
            0 <= i <= rows@.len(),
            out@ == flatten_rows(rv.take(i as int)),
        decreases rows@.len() - i,
    {
        let ghost base = out@;
        let mut j: usize = 0;
        while j < rows[i].len()
            invariant
                rv == rows@.map_values(|v: Vec<StringOrNum>| v@),
                0 <= i < rows@.len(),
                0 <= j <= rows@[i as int]@.len(),
                out@ == base + rv[i as int].take(j as int),
            decreases rows@[i as int]@.len() - j,
        {
            let e = rows[i][j].clone();
            out.push(e);
            proof {
                assert(out@ =~= base + rv[i as int].take(j + 1));
            }
            j = j + 1;
        }
        proof {
            assert(rv.take(i + 1).drop_last() =~= rv.take(i as int));
            assert(rv.take(i + 1).last() == rv[i as int]);
            assert(rv[i as int].take(rv[i as int].len() as int) =~= rv[i as int]);
            assert(out@ =~= flatten_rows(rv.take(i + 1)));
        }
        i = i + 1;
    }
    proof {
        assert(rv.take(rv.len() as int) =~= rv);
    }
    out
}

fn flatten_labels(rows: &Vec<Vec<LabeledCell>>) -> (r: Vec<LabeledCell>)
    ensures
        r@ == flatten_rows(rows@.map_values(|v: Vec<LabeledCell>| v@)),
{
    let ghost rv = rows@.map_values(|v: Vec<LabeledCell>| v@);
    let mut out: Vec<LabeledCell> = Vec::new();
    let mut i: usize = 0;
    while i < rows.len()
        invariant
            rv == rows@.map_values(|v: Vec<LabeledCell>| v@),
            0 <= i <= rows@.len(),
            out@ == flatten_rows(rv.take(i as int)),
        decreases rows@.len() - i,
    {
        let ghost base = out@;
        let mut j: usize = 0;
        while j < rows[i].len()
            invariant
                rv == rows@.map_values(|v: Vec<LabeledCell>| v@),
                0 <= i < rows@.len(),
                0 <= j <= rows@[i as int]@.len(),
                out@ == base + rv[i as int].take(j as int),
            decreases rows@[i as int]@.len() - j,
        {
            let e = rows[i][j].clone();
            out.push(e);
            proof {
                assert(out@ =~= base + rv[i as int].take(j + 1));
            }
            j = j + 1;
        }
        proof {
            assert(rv.take(i + 1).drop_last() =~= rv.take(i as int));
            assert(rv.take(i + 1).last() == rv[i as int]);
            assert(rv[i as int].take(rv[i as int].len() as int) =~= rv[i as int]);
            assert(out@ =~= flatten_rows(rv.take(i + 1)));
        }
        i = i + 1;
    }
    proof {
        assert(rv.take(rv.len() as int) =~= rv);
    }
    out
}

/// How one solution entry decodes: the block marker is a wall; a string is
/// the empty sentinel, one character, or a rebus by its character count; an
/// integer that is not the block marker is malformed.
pub open spec fn spec_decode_entry(e: StringOrNum, block: StringOrNum) -> Option<CrosswordCell> {
    if sorn_eq(e, block) {
        Some(CrosswordCell::Wall)
    } else {
        match e {
            StringOrNum::Str(s) => Some(
                if s@.len() == 0 {
                    CrosswordCell::Empty
                } else if s@.len() == 1 {
                    CrosswordCell::Char(s@[0])
                } else {
                    CrosswordCell::Rebus(s)
                },
            ),
            StringOrNum::Num(_) => None,
        }
    }
}

pub open spec fn all_entries_ok(entries: Seq<StringOrNum>, block: StringOrNum) -> bool {
    forall|i: int|
        0 <= i < entries.len() ==> spec_decode_entry(#[trigger] entries[i], block) is Some
}

pub open spec fn spec_decoded_cells(entries: Seq<StringOrNum>, block: StringOrNum) -> Seq<
    CrosswordCell,
> {
    entries.map_values(|e: StringOrNum| spec_decode_entry(e, block)->0)
}

/// The first entry that fails to decode (the length if none does).
pub open spec fn first_bad_entry(entries: Seq<StringOrNum>, block: StringOrNum) -> int
    decreases entries.len(),
{
    if entries.len() == 0 {
        0
    } else if spec_decode_entry(entries[0], block) is None {
        0
    } else {
        1 + first_bad_entry(entries.drop_first(), block)
    }
}

proof fn lemma_first_bad_entry_at(entries: Seq<StringOrNum>, block: StringOrNum, i: int)
    requires
        0 <= i < entries.len(),
        forall|k: int|
            0 <= k < i ==> spec_decode_entry(#[trigger] entries[k], block) is Some,
        spec_decode_entry(entries[i], block) is None,
    ensures
        first_bad_entry(entries, block) == i,
    decreases i,
{
    if i > 0 {
        lemma_first_bad_entry_at(entries.drop_first(), block, i - 1);
    }
}

/// Decode every solution entry into a cell, or report the position of the
/// first entry that is neither the block marker nor a string.
fn decode_cells(entries: &Vec<StringOrNum>, block: &StringOrNum) -> (r: Result<
    Vec<CrosswordCell>,
    usize,
>)
    ensures
        match r {
            Ok(cells) => all_entries_ok(entries@, *block) && cells@ == spec_decoded_cells(
                entries@,
                *block,
            ),
            Err(i) => {
                &&& !all_entries_ok(entries@, *block)
                &&& i < entries@.len()
                &&& i as int == first_bad_entry(entries@, *block)
            },
        },
{
    let mut cells: Vec<CrosswordCell> = Vec::new();
    let mut i: usize = 0;
    while i < entries.len()
        invariant
            0 <= i <= entries@.len(),
            forall|k: int|
                0 <= k < i ==> spec_decode_entry(#[trigger] entries@[k], *block) is Some,
            cells@ == spec_decoded_cells(entries@, *block).take(i as int),
        decreases entries@.len() - i,
    {
        let entry = &entries[i];
        let cell: CrosswordCell = if *entry == *block {
            CrosswordCell::Wall
        } else {
            match entry {
                StringOrNum::Str(s) => {
                    let n = s.as_str().unicode_len();
                    if n == 0 {
                        CrosswordCell::Empty
                    } else if n == 1 {
                        CrosswordCell::Char(s.as_str().get_char(0))
                    } else {
                        CrosswordCell::Rebus(s.clone())
                    }
                },
                StringOrNum::Num(_) => {
                    proof {
                        lemma_first_bad_entry_at(entries@, *block, i as int);
                    }
                    return Err(i);
                },
            }
        };
        cells.push(cell);
        proof {
            assert(cells@ =~= spec_decoded_cells(entries@, *block).take(i + 1));
        }
        i = i + 1;
    }
    proof {
        assert(spec_decoded_cells(entries@, *block).take(entries@.len() as int)
            =~= spec_decoded_cells(entries@, *block));
    }
    Ok(cells)
}

/// The first numbering disagreement between the declared labels and the
/// classification the numbering engine derives, scanning row-major.
pub open spec fn puzzle_issue_from(
    labels: Seq<LabeledCell>,
    numbered: Seq<NumberedCell>,
    w: int,
    block: StringOrNum,
    empty: StringOrNum,
    i: int,
) -> Option<DeserializeError>
    decreases labels.len() - i,
{
    if i < 0 || i >= labels.len() {
        None
    } else {
        match spec_to_value(labels[i], block, empty) {
            Err(e) => Some(
                DeserializeError::LabeledCellError {
                    row: (i / w) as usize,
                    col: (i % w) as usize,
                    error: e,
                },
            ),
            Ok(v) => {
                let expected = value_of_numbered(numbered[i]);
                if v != expected {
                    Some(
                        DeserializeError::InvalidNumbering {
                            row: (i / w) as usize,
                            col: (i % w) as usize,
                            expected,
                            actual: v,
                        },
                    )
                } else {
                    puzzle_issue_from(labels, numbered, w, block, empty, i + 1)
                }
            },
        }
    }
}

pub open spec fn spec_puzzle_issue(
    labels: Seq<LabeledCell>,
    numbered: Seq<NumberedCell>,
    w: int,
    block: StringOrNum,
    empty: StringOrNum,
) -> Option<DeserializeError> {
    puzzle_issue_from(labels, numbered, w, block, empty, 0)
}

fn puzzle_issue(
    labels: &Vec<LabeledCell>,
    numbered: &Vec<NumberedCell>,
    w: usize,
    block: &StringOrNum,
    empty: &StringOrNum,
) -> (r: Option<DeserializeError>)
    requires
        numbered@.len() == labels@.len(),
        w >= 1 || labels@.len() == 0,
    ensures
        r == spec_puzzle_issue(labels@, numbered@, w as int, *block, *empty),
{
    let mut i: usize = 0;
    while i < labels.len()
        invariant
            numbered@.len() == labels@.len(),
            w >= 1 || labels@.len() == 0,
            0 <= i <= labels@.len(),
            spec_puzzle_issue(labels@, numbered@, w as int, *block, *empty) == puzzle_issue_from(
                labels@,
                numbered@,
                w as int,
                *block,
                *empty,
                i as int,
            ),
        decreases labels@.len() - i,
    {
        match labels[i].to_value(block, empty) {
            Err(e) => {
                return Some(
                    DeserializeError::LabeledCellError { row: i / w, col: i % w, error: e },
                );
            },
            Ok(v) => {
                let expected = match numbered[i] {
                    NumberedCell::Wall => LabeledCellValue::Block,
                    NumberedCell::Empty => LabeledCellValue::Empty,
                    NumberedCell::Numbered { number, .. } => LabeledCellValue::Number(number),
                };
                if v != expected {
                    return Some(
                        DeserializeError::InvalidNumbering {
                            row: i / w,
                            col: i % w,
                            expected,
                            actual: v,
                        },
                    );
                }
            },
        }
        i = i + 1;
    }
    None
}

/// The JSON puzzle document as plain values, not yet validated.  The serde
/// layer that reads and writes the actual bytes mirrors this structure.
pub struct IPuzRaw {
    pub title: String,
    pub copyright: String,
    pub author: String,
    pub notes: String,
    pub dimensions: Dimensions,
    pub block: StringOrNum,
    pub empty: StringOrNum,
    pub puzzle: Vec<Vec<LabeledCell>>,
    pub solution: Vec<Vec<StringOrNum>>,
    pub across: Vec<(u16, String)>,
    pub down: Vec<(u16, String)>,
}

impl IPuzRaw {
    pub open spec fn puzzle_view(&self) -> Seq<Seq<LabeledCell>> {
        self.puzzle@.map_values(|v: Vec<LabeledCell>| v@)
    }

    pub open spec fn solution_view(&self) -> Seq<Seq<StringOrNum>> {
        self.solution@.map_values(|v: Vec<StringOrNum>| v@)
    }

    /// The cells the solution grid decodes to (meaningful when every entry
    /// decodes).
    pub open spec fn spec_cells(&self) -> Seq<CrosswordCell> {
        spec_decoded_cells(flatten_rows(self.solution_view()), self.block)
    }

    pub open spec fn spec_numbered(&self) -> Seq<NumberedCell> {
        Seq::new(
            self.spec_cells().len(),
            |i: int| spec_numbered_cell(self.spec_cells(), self.dimensions.width as int, i),
        )
    }

    /// The full error report loading this document produces: the
    /// short-circuiting size findings, or the aggregated findings of every
    /// later check.  Loading succeeds exactly when this map is empty.
    pub open spec fn spec_errors(&self) -> Map<Section, DeserializeError> {
        let dim_p = spec_validate_dimensions(self.dimensions, self.puzzle_view());
        let dim_s = spec_validate_dimensions(self.dimensions, self.solution_view());
        if dim_p is Err || dim_s is Err {
            let m = Map::<Section, DeserializeError>::empty();
            let m = if dim_p is Err {
                m.insert(Section::Puzzle, dim_p->Err_0)
            } else {
                m
            };
            if dim_s is Err {
                m.insert(Section::Solution, dim_s->Err_0)
            } else {
                m
            }
        } else {
            let entries = flatten_rows(self.solution_view());
            if !all_entries_ok(entries, self.block) {
                let i = first_bad_entry(entries, self.block);
                let w = self.dimensions.width as int;
                Map::<Section, DeserializeError>::empty().insert(
                    Section::Solution,
                    DeserializeError::InvalidSolutionItem {
                        row: (i / w) as usize,
                        col: (i % w) as usize,
                        block: self.block,
                        actual: entries[i],
                    },
                )
            } else {
                let cells = self.spec_cells();
                let w = self.dimensions.width as int;
                let m = Map::<Section, DeserializeError>::empty();
                let m = match spec_puzzle_issue(
                    flatten_rows(self.puzzle_view()),
                    self.spec_numbered(),
                    w,
                    self.block,
                    self.empty,
                ) {
                    Some(e) => m.insert(Section::Puzzle, e),
                    None => m,
                };
                let m = match spec_validate_clues(
                    crate::numbering::spec_across_nums(cells, w),
                    clue_numbers(self.across@),
                ) {
                    Err(e) => m.insert(Section::CluesAcross, clue_to_deserialize(e)),
                    Ok(_) => m,
                };
                match spec_validate_clues(
                    crate::numbering::spec_down_nums(cells, w),
                    clue_numbers(self.down@),
                ) {
                    Err(e) => m.insert(Section::CluesDown, clue_to_deserialize(e)),
                    Ok(_) => m,
                }
            }
        }
    }
}

impl Crossword {
    /// Load a crossword from the JSON document structure, validating with
    /// full aggregation.  Succeeds exactly when the document's error report
    /// is empty; the result then carries the document's texts, clues and
    /// decoded cells unchanged.
    pub fn from_ipuz(raw: IPuzRaw) -> (r: Result<Crossword, MultiError<DeserializeError>>)
        ensures
            match r {
                Ok(c) => {
                    &&& raw.spec_errors() == Map::<Section, DeserializeError>::empty()
                    &&& c.width == raw.dimensions.width
                    &&& c.height == raw.dimensions.height
                    &&& c.grid@ == raw.spec_cells()
                    &&& c.across_clues == raw.across
                    &&& c.down_clues == raw.down
                    &&& c.title == raw.title
                    &&& c.author == raw.author
                    &&& c.copyright == raw.copyright
                    &&& c.notes == raw.notes
                },
                Err(m) => {
                    &&& m@ == raw.spec_errors()
                    &&& m@ != Map::<Section, DeserializeError>::empty()
                },
            },
    {
        let ghost raw0 = raw;
        let IPuzRaw {
            title,
            copyright,
            author,
            notes,
            dimensions,
            block,
            empty,
            puzzle,
            solution,
            across,
            down,
        } = raw;
        let mut issues: MultiError<DeserializeError> = MultiError::new();
        if let Err(e) = validate_dimensions(dimensions, &puzzle) {
            issues.push(Section::Puzzle, e);
            proof {
                assert(issues@.dom().contains(Section::Puzzle));
                assert(issues@ != Map::<Section, DeserializeError>::empty());
            }
        }
        if let Err(e) = validate_dimensions(dimensions, &solution) {
            issues.push(Section::Solution, e);
            proof {
                assert(issues@.dom().contains(Section::Solution));
                assert(issues@ != Map::<Section, DeserializeError>::empty());
            }
        }
        // Short-circuit: everything below indexes the grids by the declared
        // dimensions.
        if !issues.is_empty() {
            proof {
                assert(issues@ =~= raw0.spec_errors());
                if spec_validate_dimensions(dimensions, raw0.puzzle_view()) is Err {
                    assert(issues@.dom().contains(Section::Puzzle));
                } else {
                    assert(issues@.dom().contains(Section::Solution));
                }
            }
            return Err(issues);
        }
        let w = dimensions.width as usize;
        let h = dimensions.height as usize;
        let flat_sol = flatten_solution(&solution);
        let flat_puz = flatten_labels(&puzzle);
        proof {
            let sv = raw0.solution_view();
            let pv = raw0.puzzle_view();
            assert(raw0.solution == solution && raw0.puzzle == puzzle);
            assert(spec_validate_dimensions(dimensions, sv) is Ok);
            assert(spec_validate_dimensions(dimensions, pv) is Ok);
            assert forall|r: int| 0 <= r < sv.len() implies (#[trigger] sv[r]).len()
                == dimensions.width as int by {
                if sv[r].len() != dimensions.width as int {
                    assert(spec_validate_dimensions(dimensions, sv) is Err);
                }
            }
            assert forall|r: int| 0 <= r < pv.len() implies (#[trigger] pv[r]).len()
                == dimensions.width as int by {
                if pv[r].len() != dimensions.width as int {
                    assert(spec_validate_dimensions(dimensions, pv) is Err);
                }
            }
            lemma_flatten_rows_len(sv, w as int);
            lemma_flatten_rows_len(pv, w as int);
        }
        let cells = match decode_cells(&flat_sol, &block) {
            Ok(cells) => cells,
            Err(i) => {
                proof {
                    assert(w >= 1) by (nonlinear_arith)
                        requires
                            i < flat_sol@.len(),
                            flat_sol@.len() == (h as int) * (w as int),
                            w >= 0,
                    ;
                }
                let e = DeserializeError::InvalidSolutionItem {
                    row: i / w,
                    col: i % w,
                    block: block.clone(),
                    actual: flat_sol[i].clone(),
                };
                issues.push(Section::Solution, e);
                proof {
                    assert(issues@ =~= raw0.spec_errors());
                    assert(issues@.dom().contains(Section::Solution));
                }
                return Err(issues);
            },
        };
        let grid_view = crate::numbering::Grid {
            width: dimensions.width,
            height: dimensions.height,
            grid: &cells,
        };
        proof {
            assert(grid_view.wf());
        }
        let numbered = grid_view.numbered_cells();
        proof {
            assert(numbered@ =~= raw0.spec_numbered());
            assert(flat_puz@.len() == 0 || w >= 1) by (nonlinear_arith)
                requires
                    flat_puz@.len() == (h as int) * (w as int),
                    w >= 0,
            ;
        }
        if let Some(e) = puzzle_issue(&flat_puz, &numbered, w, &block, &empty) {
            issues.push(Section::Puzzle, e);
        }
        let (exp_across, exp_down) = grid_view.expected_grid_nums();
        if let Err(e) = validate_clues(&exp_across, &across) {
            issues.push(Section::CluesAcross, DeserializeError::from(e));
        }
        if let Err(e) = validate_clues(&exp_down, &down) {
            issues.push(Section::CluesDown, DeserializeError::from(e));
        }
        proof {
            assert(issues@ =~= raw0.spec_errors());
        }
        if issues.is_empty() {
            Ok(
                Crossword {
                    width: dimensions.width,
                    height: dimensions.height,
                    grid: cells,
                    across_clues: across,
                    down_clues: down,
                    title,
                    author,
                    copyright,
                    notes,
                },
            )
        } else {
            Err(issues)
        }
    }
}

/// A label entry carries exactly the given resolved value, under the
/// default markers.
pub open spec fn labeled_matches(l: LabeledCell, v: LabeledCellValue) -> bool {
    match v {
        LabeledCellValue::Block => l matches LabeledCell::Raw(StringOrNum::Str(s)) && s@ == "#"@,
        LabeledCellValue::Empty => l == (LabeledCell::Cell { cell: StringOrNum::Num(0) }),
        LabeledCellValue::Number(n) => l == (LabeledCell::Cell {
            cell: StringOrNum::Num(n as i32),
        }),
    }
}

/// A solution entry carries exactly the given cell's content, under the
/// default block marker.
pub open spec fn solution_entry_matches(e: StringOrNum, c: CrosswordCell) -> bool {
    match c {
        CrosswordCell::Wall => e matches StringOrNum::Str(s) && s@ == "#"@,
        CrosswordCell::Empty => e matches StringOrNum::Str(s) && s@ == Seq::<char>::empty(),
        CrosswordCell::Char(ch) => e matches StringOrNum::Str(s) && s@ == seq![ch],
        CrosswordCell::Rebus(rs) => e matches StringOrNum::Str(s) && s@ == rs@,
    }
}

/// The JSON document `to_ipuz_raw` derives from a crossword: default
/// markers, the numbering engine's labels, the cells' literal content, and
/// the crossword's clue lists and metadata unchanged.
pub open spec fn is_ipuz_of(raw: IPuzRaw, c: Crossword) -> bool {
    let w = c.width as int;
    let h = c.height as int;
    &&& raw.dimensions.width == c.width
    &&& raw.dimensions.height == c.height
    &&& raw.title == c.title
    &&& raw.author == c.author
    &&& raw.copyright == c.copyright
    &&& raw.notes == c.notes
    &&& raw.block matches StringOrNum::Str(s) && s@ == "#"@
    &&& raw.empty == StringOrNum::Num(0)
    &&& raw.puzzle_view().len() == h
    &&& forall|r: int| 0 <= r < h ==> (#[trigger] raw.puzzle_view()[r]).len() == w
    &&& forall|r: int, cl: int|
        0 <= r < h && 0 <= cl < w ==> labeled_matches(
            #[trigger] raw.puzzle_view()[r][cl],
            value_of_numbered(spec_numbered_cell(c.grid@, w, r * w + cl)),
        )
    &&& raw.solution_view().len() == h
    &&& forall|r: int| 0 <= r < h ==> (#[trigger] raw.solution_view()[r]).len() == w
    &&& forall|r: int, cl: int|
        0 <= r < h && 0 <= cl < w ==> solution_entry_matches(
            #[trigger] raw.solution_view()[r][cl],
            c.grid@[r * w + cl],
        )
    &&& raw.across@ == c.across_clues@
    &&& raw.down@ == c.down_clues@
}

/// Relies on `String::push`: appends exactly the given character to the
/// (empty) string.
#[verifier::external_body]
fn char_to_string(c: char) -> (r: String)
    ensures
        r@ == seq![c],
{
    let mut s = String::new();
    s.push(c);
    s
}

fn clone_clues(clues: &Vec<(u16, String)>) -> (r: Vec<(u16, String)>)
    ensures
        r@ == clues@,
{
    let mut out: Vec<(u16, String)> = Vec::new();
    let mut i: usize = 0;
    while i < clues.len()
        invariant
            0 <= i <= clues@.len(),
            out@ == clues@.take(i as int),
        decreases clues@.len() - i,
    {
        let num = clues[i].0;
        let text = clues[i].1.clone();
        out.push((num, text));
        proof {
            assert(out@ =~= clues@.take(i + 1));
        }
        i = i + 1;
    }
    proof {
        assert(clues@.take(clues@.len() as int) =~= clues@);
    }
    out
}

impl Crossword {
    /// Map a crossword to the JSON document structure: walls become the
    /// default block marker, labels carry the numbering engine's numbers
    /// (or the no-label marker), solution entries carry the literal cell
    /// content, and clues and metadata carry over unchanged.
    pub fn to_ipuz_raw(&self) -> (r: IPuzRaw)
        requires
            self.grid@.len() == self.width as int * self.height as int,
        ensures
            is_ipuz_of(r, *self),
    {
        let w = self.width as usize;
        let h = self.height as usize;
        let grid_view = self.grid();
        let numbered = grid_view.numbered_cells();
        let ghost cells = self.grid@;
        let ghost wi = self.width as int;

        let mut puzzle: Vec<Vec<LabeledCell>> = Vec::new();
        let mut r: usize = 0;
        while r < h
            invariant
                w == self.width as int,
                h == self.height as int,
                cells == self.grid@,
                wi == self.width as int,
                cells.len() == wi * h as int,
                numbered@.len() == cells.len(),
                forall|i: int|
                    0 <= i < numbered@.len() ==> numbered@[i] == spec_numbered_cell(cells, wi, i),
                0 <= r <= h,
                puzzle@.len() == r,
                forall|rr: int| 0 <= rr < r ==> (#[trigger] puzzle@[rr]@).len() == wi,
                forall|rr: int, cl: int|
                    0 <= rr < r && 0 <= cl < wi ==> labeled_matches(
                        #[trigger] puzzle@[rr]@[cl],
                        value_of_numbered(spec_numbered_cell(cells, wi, rr * wi + cl)),
                    ),
            decreases h - r,
        {
            let mut row: Vec<LabeledCell> = Vec::new();
            let mut cl: usize = 0;
            while cl < w
                invariant
                    w == self.width as int,
                    h == self.height as int,
                    cells == self.grid@,
                    wi == self.width as int,
                    cells.len() == wi * h as int,
                    numbered@.len() == cells.len(),
                    forall|i: int|
                        0 <= i < numbered@.len() ==> numbered@[i] == spec_numbered_cell(
                            cells,
                            wi,
                            i,
                        ),
                    0 <= r < h,
                    0 <= cl <= w,
                    row@.len() == cl,
                    forall|k: int|
                        0 <= k < cl ==> labeled_matches(
                            #[trigger] row@[k],
                            value_of_numbered(
                                spec_numbered_cell(cells, wi, r as int * wi + k),
                            ),
                        ),
                decreases w - cl,
            {
                proof {
                    assert(r as int * (w as int) + cl as int >= 0 && (r as int * (w as int) + cl
                        as int) < cells.len() && (r as int * (w as int) + cl as int) <= 65535)
                        by (nonlinear_arith)
                        requires
                            0 <= r < h,
                            0 <= cl < w,
                            w == wi,
                            h <= 255,
                            w <= 255,
                            cells.len() == wi * (h as int),
                    ;
                }
                let idx = r * w + cl;
                let entry = match numbered[idx] {
                    NumberedCell::Wall => LabeledCell::Raw(default_block()),
                    NumberedCell::Empty => LabeledCell::Cell { cell: StringOrNum::Num(0) },
                    NumberedCell::Numbered { number, .. } => LabeledCell::Cell {
                        cell: StringOrNum::Num(number as i32),
                    },
                };
                row.push(entry);
                cl = cl + 1;
            }
            puzzle.push(row);
            proof {
                assert(puzzle@[r as int]@ == row@);
            }
            r = r + 1;
        }

        let mut solution: Vec<Vec<StringOrNum>> = Vec::new();
        let mut r2: usize = 0;
        while r2 < h
            invariant
                w == self.width as int,
                h == self.height as int,
                cells == self.grid@,
                wi == self.width as int,
                cells.len() == wi * h as int,
                0 <= r2 <= h,
                solution@.len() == r2,
                forall|rr: int| 0 <= rr < r2 ==> (#[trigger] solution@[rr]@).len() == wi,
                forall|rr: int, cl: int|
                    0 <= rr < r2 && 0 <= cl < wi ==> solution_entry_matches(
                        #[trigger] solution@[rr]@[cl],
                        cells[rr * wi + cl],
                    ),
            decreases h - r2,
        {
            let mut row: Vec<StringOrNum> = Vec::new();
            let mut cl: usize = 0;
            while cl < w
                invariant
                    w == self.width as int,
                    h == self.height as int,
                    cells == self.grid@,
                    wi == self.width as int,
                    cells.len() == wi * h as int,
                    0 <= r2 < h,
                    0 <= cl <= w,
                    row@.len() == cl,
                    forall|k: int|
                        0 <= k < cl ==> solution_entry_matches(
                            #[trigger] row@[k],
                            cells[r2 as int * wi + k],
                        ),
                decreases w - cl,
            {
                proof {
                    assert(r2 as int * (w as int) + cl as int >= 0 && (r2 as int * (w as int) + cl
                        as int) < cells.len() && (r2 as int * (w as int) + cl as int) <= 65535)
                        by (nonlinear_arith)
                        requires
                            0 <= r2 < h,
                            0 <= cl < w,
                            w == wi,
                            h <= 255,
                            w <= 255,
                            cells.len() == wi * (h as int),
                    ;
                }
                let idx = r2 * w + cl;
                let entry = match &self.grid[idx] {
                    CrosswordCell::Wall => default_block(),
                    CrosswordCell::Empty => StringOrNum::Str(String::new()),
                    CrosswordCell::Char(ch) => StringOrNum::Str(char_to_string(*ch)),
                    CrosswordCell::Rebus(s) => StringOrNum::Str(s.clone()),
                };
                row.push(entry);
                cl = cl + 1;
            }
            solution.push(row);
            proof {
                assert(solution@[r2 as int]@ == row@);
            }
            r2 = r2 + 1;
        }

        let raw = IPuzRaw {
            title: self.title.clone(),
            copyright: self.copyright.clone(),
            author: self.author.clone(),
            notes: self.notes.clone(),
            dimensions: Dimensions { width: self.width, height: self.height },
            block: default_block(),
            empty: default_empty(),
            puzzle,
            solution,
            across: clone_clues(&self.across_clues),
            down: clone_clues(&self.down_clues),
        };
        proof {
            assert forall|rr: int| 0 <= rr < self.height as int implies (#[trigger] raw.puzzle_view()[
                rr
            ]).len() == wi by {
                assert(raw.puzzle_view()[rr] == raw.puzzle@[rr]@);
            }
            assert forall|rr: int, cl: int|
                0 <= rr < self.height as int && 0 <= cl < wi implies labeled_matches(
                #[trigger] raw.puzzle_view()[rr][cl],
                value_of_numbered(spec_numbered_cell(cells, wi, rr * wi + cl)),
            ) by {
                assert(raw.puzzle_view()[rr] == raw.puzzle@[rr]@);
            }
            assert forall|rr: int| 0 <= rr < self.height as int implies (#[trigger] raw.solution_view()[
                rr
            ]).len() == wi by {
                assert(raw.solution_view()[rr] == raw.solution@[rr]@);
            }
            assert forall|rr: int, cl: int|
                0 <= rr < self.height as int && 0 <= cl < wi implies solution_entry_matches(
                #[trigger] raw.solution_view()[rr][cl],
                cells[rr * wi + cl],
            ) by {
                assert(raw.solution_view()[rr] == raw.solution@[rr]@);
            }
        }
        raw
    }
}

/// A JSON string escape, byte for byte: quote and backslash escaped, the
/// common control characters by their short forms, other control
/// characters as "\u00XX" with lowercase hex, everything else as its
/// UTF-8 bytes.
pub open spec fn esc_char_bytes(ch: char) -> Seq<u8> {
    if ch == '"' {
        seq![92u8, 34u8]
    } else if ch == '\\' {
        seq![92u8, 92u8]
    } else if ch == '\u{8}' {
        seq![92u8, 98u8]
    } else if ch == '\t' {
        seq![92u8, 116u8]
    } else if ch == '\n' {
        seq![92u8, 110u8]
    } else if ch == '\u{c}' {
        seq![92u8, 102u8]
    } else if ch == '\r' {
        seq![92u8, 114u8]
    } else if (ch as u32) < 0x20 {
        seq![
            92u8,
            117u8,
            48u8,
            48u8,
            hex_digit(ch as u32 as int / 16),
            hex_digit(ch as u32 as int % 16),
        ]
    } else {
        vstd::utf8::encode_scalar(ch as u32)
    }
}

pub open spec fn hex_digit(x: int) -> u8 {
    if x < 10 {
        (48 + x) as u8
    } else {
        (87 + x) as u8
    }
}

pub open spec fn esc_bytes(s: Seq<char>) -> Seq<u8>
    decreases s.len(),
{
    if s.len() == 0 {
        Seq::empty()
    } else {
        esc_bytes(s.drop_last()) + esc_char_bytes(s.last())
    }
}

/// A JSON string: quote, escaped content, quote.
pub open spec fn json_str_bytes(s: Seq<char>) -> Seq<u8> {
    seq![34u8] + esc_bytes(s) + seq![34u8]
}

/// An unsigned decimal number, most significant digit first.
pub open spec fn dec_bytes(n: int) -> Seq<u8>
    decreases n,
{
    if n < 10 {
        seq![(48 + if n >= 0 {
            n
        } else {
            0
        }) as u8]
    } else {
        dec_bytes(n / 10) + seq![(48 + n % 10) as u8]
    }
}

/// Comma-joined items.
pub open spec fn joined(items: Seq<Seq<u8>>) -> Seq<u8>
    decreases items.len(),
{
    if items.len() == 0 {
        Seq::empty()
    } else {
        joined(items.drop_last()) + (if items.len() > 1 {
            seq![44u8]
        } else {
            Seq::<u8>::empty()
        }) + items.last()
    }
}

/// A JSON array of the given items.
pub open spec fn array_bytes(items: Seq<Seq<u8>>) -> Seq<u8> {
    seq![91u8] + joined(items) + seq![93u8]
}

/// The UTF-8 bytes of a literal fragment.
pub open spec fn lit_bytes(s: &str) -> Seq<u8> {
    vstd::utf8::encode_utf8(s@)
}

/// A label entry: the block marker string for a wall, a "cell" object with
/// the no-label marker 0 or the derived number otherwise.
pub open spec fn puzzle_entry_bytes(nc: NumberedCell) -> Seq<u8> {
    match nc {
        NumberedCell::Wall => lit_bytes("\"#\""),
        NumberedCell::Empty => lit_bytes("{\"cell\":0}"),
        NumberedCell::Numbered { number, .. } => lit_bytes("{\"cell\":") + dec_bytes(number as int)
            + lit_bytes("}"),
    }
}

/// A solution entry: the block marker string for a wall, the literal cell
/// content otherwise (empty string for the empty sentinel).
pub open spec fn solution_entry_bytes(c: CrosswordCell) -> Seq<u8> {
    match c {
        CrosswordCell::Wall => lit_bytes("\"#\""),
        CrosswordCell::Empty => lit_bytes("\"\""),
        CrosswordCell::Char(ch) => json_str_bytes(seq![ch]),
        CrosswordCell::Rebus(s) => json_str_bytes(s@),
    }
}

/// One clue: a two-element array of number and text.
pub open spec fn clue_bytes(clue: (u16, String)) -> Seq<u8> {
    seq![91u8] + dec_bytes(clue.0 as int) + seq![44u8] + json_str_bytes(clue.1@) + seq![93u8]
}

pub open spec fn clue_list_bytes(clues: Seq<(u16, String)>) -> Seq<u8> {
    array_bytes(clues.map_values(|c: (u16, String)| clue_bytes(c)))
}

/// One grid as a JSON array of row arrays, each entry rendered by `f`.
pub open spec fn grid_rows_bytes(entries: Seq<Seq<u8>>, w: int, h: int) -> Seq<u8> {
    array_bytes(
        Seq::new(
            h as nat,
            |r: int| array_bytes(Seq::new(w as nat, |c: int| entries[r * w + c])),
        ),
    )
}

impl Crossword {
    /// The ipuz JSON document for this crossword, byte for byte: the fixed
    /// version and kind, the metadata strings, the dimensions, the default
    /// block and no-label markers, the two grids and the two clue lists.
    pub open spec fn spec_ipuz_json(&self) -> Seq<u8> {
        let w = self.width as int;
        let h = self.height as int;
        lit_bytes(
            "{\"version\":\"http://ipuz.org/v1\",\"kind\":[\"http://ipuz.org/crossword#1\"],\"title\":",
        ) + json_str_bytes(self.title@) + lit_bytes(",\"copyright\":") + json_str_bytes(
            self.copyright@,
        ) + lit_bytes(",\"author\":") + json_str_bytes(self.author@) + lit_bytes(",\"notes\":")
            + json_str_bytes(self.notes@) + lit_bytes(",\"dimensions\":{\"width\":") + dec_bytes(w)
            + lit_bytes(",\"height\":") + dec_bytes(h) + lit_bytes(
            "},\"block\":\"#\",\"empty\":0,\"puzzle\":",
        ) + grid_rows_bytes(
            Seq::new(
                self.grid@.len(),
                |i: int| puzzle_entry_bytes(spec_numbered_cell(self.grid@, w, i)),
            ),
            w,
            h,
        ) + lit_bytes(",\"solution\":") + grid_rows_bytes(
            Seq::new(self.grid@.len(), |i: int| solution_entry_bytes(self.grid@[i])),
            w,
            h,
        ) + lit_bytes(",\"clues\":{\"Across\":") + clue_list_bytes(self.across_clues@) + lit_bytes(
            ",\"Down\":",
        ) + clue_list_bytes(self.down_clues@) + lit_bytes("}}")
    }
}

/// Relies on `char::encode_utf8`: the character's UTF-8 byte sequence.
#[verifier::external_body]
fn char_utf8(c: char) -> (r: Vec<u8>)
    ensures
        r@ == vstd::utf8::encode_scalar(c as u32),
{
    let mut buf = [0u8; 4];
    c.encode_utf8(&mut buf).as_bytes().to_vec()
}

fn push_lit(out: &mut Vec<u8>, s: &str)
    ensures
        final(out)@ == old(out)@ + lit_bytes(s),
{
    crate::generate_puz::push_bytes(out, s.as_bytes());
}

/// Append an unsigned decimal number, most significant digit first.
fn push_dec(out: &mut Vec<u8>, n: u16)
    ensures
        final(out)@ == old(out)@ + dec_bytes(n as int),
    decreases n,
{
    if n >= 10 {
        push_dec(out, n / 10);
    }
    out.push(48 + (n % 10) as u8);
    proof {
        assert(out@ =~= old(out)@ + dec_bytes(n as int));
    }
}

/// Append a JSON string with its quotes and escapes.
fn push_json_string(out: &mut Vec<u8>, s: &str)
    ensures
        final(out)@ == old(out)@ + json_str_bytes(s@),
{
    out.push(34);
    let ghost base = out@;
    let n = s.unicode_len();
    let mut i: usize = 0;
    while i < n
        invariant
            n == s@.len(),
            0 <= i <= n,
            out@ == base + esc_bytes(s@.take(i as int)),
        decreases n - i,
    {
        let c = s.get_char(i);
        if c == '"' {
            out.push(92);
            out.push(34);
        } else if c == '\\' {
            out.push(92);
            out.push(92);
        } else if c == '\u{8}' {
            out.push(92);
            out.push(98);
        } else if c == '\t' {
            out.push(92);
            out.push(116);
        } else if c == '\n' {
            out.push(92);
            out.push(110);
        } else if c == '\u{c}' {
            out.push(92);
            out.push(102);
        } else if c == '\r' {
            out.push(92);
            out.push(114);
        } else if (c as u32) < 0x20 {
            let code = c as u32;
            out.push(92);
            out.push(117);
            out.push(48);
            out.push(48);
            let hi = (code / 16) as u8;
            let lo = (code % 16) as u8;
            out.push(
                if hi < 10 {
                    48 + hi
                } else {
                    87 + hi
                },
            );
            out.push(
                if lo < 10 {
                    48 + lo
                } else {
                    87 + lo
                },
            );
        } else {
            let bytes = char_utf8(c);
            crate::generate_puz::push_bytes(out, bytes.as_slice());
        }
        proof {
            assert(s@.take(i + 1).drop_last() =~= s@.take(i as int));
            assert(s@.take(i + 1).last() == s@[i as int]);
            assert(out@ =~= base + esc_bytes(s@.take(i + 1)));
        }
        i = i + 1;
    }
    proof {
        assert(s@.take(n as int) =~= s@);
    }
    out.push(34);
    proof {
        assert(out@ =~= old(out)@ + json_str_bytes(s@));
    }
}

/// Append one grid as a JSON array of row arrays.
fn push_grid_rows(out: &mut Vec<u8>, entries: &Vec<Vec<u8>>, w: usize, h: usize)
    requires
        entries@.len() == w as int * h as int,
        w <= 255,
        h <= 255,
    ensures
        final(out)@ == old(out)@ + grid_rows_bytes(
            entries@.map_values(|v: Vec<u8>| v@),
            w as int,
            h as int,
        ),
{
    let ghost ev = entries@.map_values(|v: Vec<u8>| v@);
    let ghost rows_seq = Seq::new(
        h as nat,
        |r: int| array_bytes(Seq::new(w as nat, |c: int| ev[r * (w as int) + c])),
    );
    out.push(91);
    let ghost base = out@;
    let mut r: usize = 0;
    while r < h
        invariant
            ev == entries@.map_values(|v: Vec<u8>| v@),
            ev.len() == w as int * h as int,
            w <= 255,
            h <= 255,
            rows_seq == Seq::new(
                h as nat,
                |rr: int| array_bytes(Seq::new(w as nat, |c: int| ev[rr * (w as int) + c])),
            ),
            0 <= r <= h,
            out@ == base + joined(rows_seq.take(r as int)),
        decreases h - r,
    {
        if r > 0 {
            out.push(44);
        }
        out.push(91);
        let ghost rbase = out@;
        let ghost row_items = Seq::new(w as nat, |c: int| ev[r as int * (w as int) + c]);
        let mut c: usize = 0;
        while c < w
            invariant
                ev == entries@.map_values(|v: Vec<u8>| v@),
                ev.len() == w as int * h as int,
                w <= 255,
                h <= 255,
                0 <= r < h,
                row_items == Seq::new(w as nat, |cc: int| ev[r as int * (w as int) + cc]),
                0 <= c <= w,
                out@ == rbase + joined(row_items.take(c as int)),
            decreases w - c,
        {
            proof {
                assert(r as int * (w as int) + c as int >= 0 && (r as int * (w as int) + c
                    as int) < ev.len() && (r as int * (w as int) + c as int) <= 65535)
                    by (nonlinear_arith)
                    requires
                        0 <= r < h,
                        0 <= c < w,
                        h <= 255,
                        w <= 255,
                        ev.len() == w as int * h as int,
                ;
            }
            if c > 0 {
                out.push(44);
            }
            let idx = r * w + c;
            crate::generate_puz::push_bytes(out, entries[idx].as_slice());
            proof {
                assert(row_items.take(c + 1).drop_last() =~= row_items.take(c as int));
                assert(row_items.take(c + 1).last() == ev[r as int * (w as int) + c as int]);
                assert(ev[r as int * (w as int) + c as int] == entries@[idx as int]@);
                assert(out@ =~= rbase + joined(row_items.take(c + 1)));
            }
            c = c + 1;
        }
        out.push(93);
        proof {
            assert(row_items.take(w as int) =~= row_items);
            assert(rows_seq.take(r + 1).drop_last() =~= rows_seq.take(r as int));
            assert(rows_seq.take(r + 1).last() == rows_seq[r as int]);
            assert(rows_seq[r as int] == array_bytes(row_items));
            assert(out@ =~= base + joined(rows_seq.take(r + 1)));
        }
        r = r + 1;
    }
    out.push(93);
    proof {
        assert(rows_seq.take(h as int) =~= rows_seq);
        assert(out@ =~= old(out)@ + grid_rows_bytes(ev, w as int, h as int));
    }
}

/// Append a clue list as a JSON array of [number, text] pairs.
fn push_clue_list(out: &mut Vec<u8>, clues: &Vec<(u16, String)>)
    ensures
        final(out)@ == old(out)@ + clue_list_bytes(clues@),
{
    let ghost items = clues@.map_values(|c: (u16, String)| clue_bytes(c));
    out.push(91);
    let ghost base = out@;
    let mut i: usize = 0;
    while i < clues.len()
        invariant
            items == clues@.map_values(|c: (u16, String)| clue_bytes(c)),
            0 <= i <= clues@.len(),
            out@ == base + joined(items.take(i as int)),
        decreases clues@.len() - i,
    {
        if i > 0 {
            out.push(44);
        }
        out.push(91);
        push_dec(out, clues[i].0);
        out.push(44);
        push_json_string(out, clues[i].1.as_str());
        out.push(93);
        proof {
            assert(items.take(i + 1).drop_last() =~= items.take(i as int));
            assert(items.take(i + 1).last() == items[i as int]);
            assert(items[i as int] == clue_bytes(clues@[i as int]));
            assert(out@ =~= base + joined(items.take(i + 1)));
        }
        i = i + 1;
    }
    out.push(93);
    proof {
        assert(items.take(items.len() as int) =~= items);
        assert(out@ =~= old(out)@ + clue_list_bytes(clues@));
    }
}

impl Crossword {
    /// Serialize this crossword to ipuz JSON bytes, exactly as
    /// `spec_ipuz_json` lays them out.
    pub fn to_ipuz(&self) -> (r: Vec<u8>)
        requires
            self.grid@.len() == self.width as int * self.height as int,
        ensures
            r@ == self.spec_ipuz_json(),
    {
        let w = self.width as usize;
        let h = self.height as usize;
        let ghost wi = self.width as int;
        let ghost cells = self.grid@;
        let grid_view = self.grid();
        let numbered = grid_view.numbered_cells();

        let mut puzzle_entries: Vec<Vec<u8>> = Vec::new();
        let ghost pspec = Seq::new(
            cells.len(),
            |i: int| puzzle_entry_bytes(spec_numbered_cell(cells, wi, i)),
        );
        let mut i: usize = 0;
        while i < numbered.len()
            invariant
                cells == self.grid@,
                wi == self.width as int,
                numbered@.len() == cells.len(),
                forall|k: int|
                    0 <= k < numbered@.len() ==> numbered@[k] == spec_numbered_cell(
                        cells,
                        wi,
                        k,
                    ),
                pspec == Seq::new(
                    cells.len(),
                    |k: int| puzzle_entry_bytes(spec_numbered_cell(cells, wi, k)),
                ),
                0 <= i <= numbered@.len(),
                puzzle_entries@.map_values(|v: Vec<u8>| v@) == pspec.take(i as int),
            decreases numbered@.len() - i,
        {
            let mut e: Vec<u8> = Vec::new();
            match numbered[i] {
                NumberedCell::Wall => push_lit(&mut e, "\"#\""),
                NumberedCell::Empty => push_lit(&mut e, "{\"cell\":0}"),
                NumberedCell::Numbered { number, .. } => {
                    push_lit(&mut e, "{\"cell\":");
                    push_dec(&mut e, number);
                    push_lit(&mut e, "}");
                },
            }
            let ghost prev = puzzle_entries@.map_values(|v: Vec<u8>| v@);
            let ghost evw = e@;
            puzzle_entries.push(e);
            proof {
                assert(evw =~= pspec[i as int]);
                assert(puzzle_entries@.map_values(|v: Vec<u8>| v@) =~= prev.push(evw));
                assert(prev.push(evw) =~= pspec.take(i + 1));
            }
            i = i + 1;
        }
        proof {
            assert(pspec.take(pspec.len() as int) =~= pspec);
        }

        let mut solution_entries: Vec<Vec<u8>> = Vec::new();
        let ghost sspec = Seq::new(cells.len(), |i: int| solution_entry_bytes(cells[i]));
        let mut j: usize = 0;
        while j < self.grid.len()
            invariant
                cells == self.grid@,
                sspec == Seq::new(cells.len(), |k: int| solution_entry_bytes(cells[k])),
                0 <= j <= cells.len(),
                solution_entries@.map_values(|v: Vec<u8>| v@) == sspec.take(j as int),
            decreases cells.len() - j,
        {
            let mut e: Vec<u8> = Vec::new();
            match &self.grid[j] {
                CrosswordCell::Wall => push_lit(&mut e, "\"#\""),
                CrosswordCell::Empty => push_lit(&mut e, "\"\""),
                CrosswordCell::Char(ch) => {
                    let s = char_to_string(*ch);
                    push_json_string(&mut e, s.as_str());
                },
                CrosswordCell::Rebus(s) => push_json_string(&mut e, s.as_str()),
            }
            let ghost prev = solution_entries@.map_values(|v: Vec<u8>| v@);
            let ghost evw = e@;
            solution_entries.push(e);
            proof {
                assert(evw =~= sspec[j as int]);
                assert(solution_entries@.map_values(|v: Vec<u8>| v@) =~= prev.push(evw));
                assert(prev.push(evw) =~= sspec.take(j + 1));
            }
            j = j + 1;
        }
        proof {
            assert(sspec.take(sspec.len() as int) =~= sspec);
        }

        let mut out: Vec<u8> = Vec::new();
        push_lit(
            &mut out,
            "{\"version\":\"http://ipuz.org/v1\",\"kind\":[\"http://ipuz.org/crossword#1\"],\"title\":",
        );
        push_json_string(&mut out, self.title.as_str());
        push_lit(&mut out, ",\"copyright\":");
        push_json_string(&mut out, self.copyright.as_str());
        push_lit(&mut out, ",\"author\":");
        push_json_string(&mut out, self.author.as_str());
        push_lit(&mut out, ",\"notes\":");
        push_json_string(&mut out, self.notes.as_str());
        push_lit(&mut out, ",\"dimensions\":{\"width\":");
        push_dec(&mut out, self.width as u16);
        push_lit(&mut out, ",\"height\":");
        push_dec(&mut out, self.height as u16);
        push_lit(&mut out, "},\"block\":\"#\",\"empty\":0,\"puzzle\":");
        push_grid_rows(&mut out, &puzzle_entries, w, h);
        push_lit(&mut out, ",\"solution\":");
        push_grid_rows(&mut out, &solution_entries, w, h);
        push_lit(&mut out, ",\"clues\":{\"Across\":");
        push_clue_list(&mut out, &self.across_clues);
        push_lit(&mut out, ",\"Down\":");
        push_clue_list(&mut out, &self.down_clues);
        push_lit(&mut out, "}}");
        proof {
            assert(out@ =~= self.spec_ipuz_json());
        }
        out
    }
}

/// The two cells hold the same content (their strings compared by value).
pub open spec fn cell_like(a: CrosswordCell, b: CrosswordCell) -> bool {
    match (a, b) {
        (CrosswordCell::Empty, CrosswordCell::Empty) => true,
        (CrosswordCell::Wall, CrosswordCell::Wall) => true,
        (CrosswordCell::Char(x), CrosswordCell::Char(y)) => x == y,
        (CrosswordCell::Rebus(s), CrosswordCell::Rebus(t)) => s@ == t@,
        _ => false,
    }
}

/// Equal length and pointwise equal wall placement.
pub open spec fn walls_like(a: Seq<CrosswordCell>, b: Seq<CrosswordCell>) -> bool {
    &&& a.len() == b.len()
    &&& forall|i: int|
        0 <= i < a.len() ==> cell_is_wall(#[trigger] a[i]) == cell_is_wall(#[trigger] b[i])
}

proof fn lemma_starts_congruence(
    a: Seq<CrosswordCell>,
    b: Seq<CrosswordCell>,
    w: int,
    h: int,
    i: int,
)
    requires
        walls_like(a, b),
        a.len() == w * h,
        1 <= w,
        0 <= h,
        0 <= i < a.len(),
    ensures
        crate::numbering::starts_across(a, w, i) == crate::numbering::starts_across(b, w, i),
        crate::numbering::starts_down(a, w, i) == crate::numbering::starts_down(b, w, i),
{
    assert(i % w != 0 ==> i >= 1) by (nonlinear_arith)
        requires
            1 <= w,
            0 <= i,
    ;
    assert(i % w != w - 1 ==> i + 1 < a.len()) by (nonlinear_arith)
        requires
            1 <= w,
            0 <= i,
            i < a.len(),
            a.len() == w * h,
    ;
}

/// Numbering depends on the wall placement alone: grids with the same
/// walls get the same per-cell numbers and the same number sequences.
proof fn lemma_numbering_congruence(
    a: Seq<CrosswordCell>,
    b: Seq<CrosswordCell>,
    w: int,
    h: int,
    n: int,
)
    requires
        walls_like(a, b),
        a.len() == w * h,
        1 <= w,
        0 <= h,
        0 <= n <= a.len(),
    ensures
        crate::numbering::start_count(a, w, n) == crate::numbering::start_count(b, w, n),
        crate::numbering::across_nums_upto(a, w, n) == crate::numbering::across_nums_upto(
            b,
            w,
            n,
        ),
        crate::numbering::down_nums_upto(a, w, n) == crate::numbering::down_nums_upto(b, w, n),
    decreases n,
{
    if n > 0 {
        lemma_numbering_congruence(a, b, w, h, n - 1);
        lemma_starts_congruence(a, b, w, h, n - 1);
    }
}

proof fn lemma_to_value_of_matching(
    l: LabeledCell,
    v: LabeledCellValue,
    block: StringOrNum,
    empty: StringOrNum,
)
    requires
        labeled_matches(l, v),
        block matches StringOrNum::Str(s) && s@ == "#"@,
        empty == StringOrNum::Num(0),
        v matches LabeledCellValue::Number(n) ==> n >= 1,
    ensures
        spec_to_value(l, block, empty) == Ok::<LabeledCellValue, LabeledCellError>(v),
{
    reveal_strlit("#");
    match v {
        LabeledCellValue::Block => {},
        LabeledCellValue::Empty => {},
        LabeledCellValue::Number(n) => {
            assert(labeled_sorn(l) == StringOrNum::Num(n as i32));
            assert(!sorn_eq(StringOrNum::Num(n as i32), block));
            assert(!sorn_eq(StringOrNum::Num(n as i32), empty));
            assert((n as i32) as u16 == n);
        },
    }
}

proof fn lemma_puzzle_issue_none(
    labels: Seq<LabeledCell>,
    numbered: Seq<NumberedCell>,
    w: int,
    block: StringOrNum,
    empty: StringOrNum,
    i: int,
)
    requires
        0 <= i,
        numbered.len() == labels.len(),
        forall|k: int|
            i <= k < labels.len() ==> spec_to_value(#[trigger] labels[k], block, empty) == Ok::<
                LabeledCellValue,
                LabeledCellError,
            >(value_of_numbered(numbered[k])),
    ensures
        puzzle_issue_from(labels, numbered, w, block, empty, i) is None,
    decreases labels.len() - i,
{
    if i < labels.len() {
        lemma_puzzle_issue_none(labels, numbered, w, block, empty, i + 1);
    }
}

/// Round trip: for a well-formed crossword whose clue lists match its own
/// numbering and whose fill never equals the block marker "#", loading the
/// document `to_ipuz_raw` derives succeeds with no finding, and yields the
/// same dimensions, cell contents, clues and metadata back.
pub proof fn lemma_ipuz_round_trip(c: Crossword, raw: IPuzRaw)
    requires
        c.wf(),
        c.cells_wf(),
        forall|i: int|
            0 <= i < c.grid@.len() ==> !(#[trigger] c.grid@[i] matches CrosswordCell::Char(ch)
                && ch == '#'),
        spec_validate_clues(
            crate::numbering::spec_across_nums(c.grid@, c.width as int),
            clue_numbers(c.across_clues@),
        ) is Ok,
        spec_validate_clues(
            crate::numbering::spec_down_nums(c.grid@, c.width as int),
            clue_numbers(c.down_clues@),
        ) is Ok,
        is_ipuz_of(raw, c),
    ensures
        raw.spec_errors() == Map::<Section, DeserializeError>::empty(),
        raw.spec_cells().len() == c.grid@.len(),
        forall|i: int| 0 <= i < c.grid@.len() ==> cell_like(#[trigger] raw.spec_cells()[i], c.grid@[i]),
        raw.across@ == c.across_clues@,
        raw.down@ == c.down_clues@,
        raw.title == c.title,
        raw.author == c.author,
        raw.copyright == c.copyright,
        raw.notes == c.notes,
{
    reveal_strlit("#");
    let w = c.width as int;
    let h = c.height as int;
    let sv = raw.solution_view();
    let pv = raw.puzzle_view();

    // Stage 1: the size checks pass.
    assert(spec_validate_dimensions(raw.dimensions, pv) is Ok);
    assert(spec_validate_dimensions(raw.dimensions, sv) is Ok);

    // The flattened grids index back into their rows.
    let entries = flatten_rows(sv);
    let labels = flatten_rows(pv);
    lemma_flatten_rows_len(sv, w);
    lemma_flatten_rows_len(pv, w);
    assert(entries.len() == h * w);
    assert(h * w == w * h) by (nonlinear_arith);
    assert(c.grid@.len() <= 65025) by (nonlinear_arith)
        requires
            c.width <= 255,
            c.height <= 255,
            c.grid@.len() == c.width as int * c.height as int,
    ;
    assert forall|i: int| 0 <= i < entries.len() implies solution_entry_matches(
        #[trigger] entries[i],
        c.grid@[i],
    ) by {
        let r = i / w;
        let cl = i % w;
        assert(0 <= cl < w && 0 <= r < h && r * w + cl == i) by (nonlinear_arith)
            requires
                1 <= w,
                0 <= i < h * w,
                r == i / w,
                cl == i % w,
        ;
        lemma_flatten_rows_index(sv, w, r, cl);
    }
    assert forall|i: int| 0 <= i < labels.len() implies labeled_matches(
        #[trigger] labels[i],
        value_of_numbered(spec_numbered_cell(c.grid@, w, i)),
    ) by {
        let r = i / w;
        let cl = i % w;
        assert(0 <= cl < w && 0 <= r < h && r * w + cl == i) by (nonlinear_arith)
            requires
                1 <= w,
                0 <= i < h * w,
                r == i / w,
                cl == i % w,
        ;
        lemma_flatten_rows_index(pv, w, r, cl);
    }

    // Stage 2: every solution entry decodes, to a cell with the same
    // content as the original.
    assert forall|i: int| 0 <= i < entries.len() implies spec_decode_entry(
        #[trigger] entries[i],
        raw.block,
    ) matches Some(cell) && cell_like(cell, c.grid@[i]) by {
        let e = entries[i];
        let orig = c.grid@[i];
        assert(solution_entry_matches(e, orig));
        match orig {
            CrosswordCell::Wall => {
                assert(sorn_eq(e, raw.block));
            },
            CrosswordCell::Empty => {
                if sorn_eq(e, raw.block) {
                    assert(Seq::<char>::empty() == "#"@);
                    assert(Seq::<char>::empty().len() == ("#"@).len());
                    assert(false);
                }
            },
            CrosswordCell::Char(ch) => {
                assert(ch != '#');
                if sorn_eq(e, raw.block) {
                    assert(seq![ch] == "#"@);
                    assert(seq![ch][0] == ("#"@)[0]);
                    assert(("#"@)[0] == '#');
                    assert(false);
                }
            },
            CrosswordCell::Rebus(rs) => {
                assert(rs@.len() >= 2);
                if sorn_eq(e, raw.block) {
                    assert(rs@ == "#"@);
                    assert(rs@.len() == ("#"@).len());
                    assert(false);
                }
            },
        }
    }
    assert(all_entries_ok(entries, raw.block));
    let cells = raw.spec_cells();
    assert(cells.len() == c.grid@.len());
    assert forall|i: int| 0 <= i < c.grid@.len() implies cell_like(
        #[trigger] cells[i],
        c.grid@[i],
    ) by {
        assert(cells[i] == spec_decode_entry(entries[i], raw.block)->0);
    }

    // Same walls, hence the same numbering.
    assert(walls_like(cells, c.grid@));
    lemma_numbering_congruence(cells, c.grid@, w, h, cells.len() as int);

    // Stage 3: every label agrees with the derived numbering.
    assert forall|k: int| 0 <= k < labels.len() implies spec_to_value(
        #[trigger] labels[k],
        raw.block,
        raw.empty,
    ) == Ok::<LabeledCellValue, LabeledCellError>(value_of_numbered(raw.spec_numbered()[k])) by {
        lemma_numbering_congruence(cells, c.grid@, w, h, k);
        crate::numbering::lemma_start_count_le(c.grid@, w, k);
        assert(raw.spec_numbered()[k] == spec_numbered_cell(cells, w, k));
        assert(spec_numbered_cell(cells, w, k) == spec_numbered_cell(c.grid@, w, k)) by {
            lemma_starts_congruence(cells, c.grid@, w, h, k);
        }
        let v = value_of_numbered(spec_numbered_cell(c.grid@, w, k));
        match v {
            LabeledCellValue::Number(n) => {
                assert(n == crate::numbering::cell_number(c.grid@, w, k));
                assert(1 + crate::numbering::start_count(c.grid@, w, k) <= 0xFFFF);
                assert(n >= 1);
            },
            _ => {},
        }
        lemma_to_value_of_matching(labels[k], v, raw.block, raw.empty);
    }
    lemma_puzzle_issue_none(labels, raw.spec_numbered(), w, raw.block, raw.empty, 0);

    // Stage 4: the clue lists match the numbering, as they did against the
    // original grid.
    assert(crate::numbering::spec_across_nums(cells, w) == crate::numbering::spec_across_nums(
        c.grid@,
        w,
    ));
    assert(crate::numbering::spec_down_nums(cells, w) == crate::numbering::spec_down_nums(
        c.grid@,
        w,
    ));

    assert(raw.spec_errors() =~= Map::<Section, DeserializeError>::empty());
}

} // verus!
