use xword::multi_error::{MultiError, Section};
use xword::numbering::{Grid, NumberedCell};
use xword::validation::{validate_clues, ClueError};
use xword::{Crossword, CrosswordArgs, CrosswordCell, ValidationError};

fn clue_list(entries: &[(u16, &str)]) -> Vec<(u16, String)> {
    entries.iter().map(|(n, t)| (*n, t.to_string())).collect()
}

fn args(width: u8, height: u8, grid: Vec<CrosswordCell>) -> CrosswordArgs {
    CrosswordArgs {
        width,
        height,
        grid,
        across_clues: Vec::new(),
        down_clues: Vec::new(),
        title: String::new(),
        author: String::new(),
        copyright: String::new(),
        notes: String::new(),
    }
}

#[test]
fn one_by_one_grid_has_no_numbers() {
    let cells = vec![CrosswordCell::Char('A')];
    let grid = Grid { width: 1, height: 1, grid: &cells };
    let (across, down) = grid.expected_grid_nums();
    assert!(across.is_empty());
    assert!(down.is_empty());
    assert_eq!(grid.numbered_cells(), vec![NumberedCell::Empty]);
}

#[test]
fn two_by_two_full_grid_numbering() {
    let cells = vec![
        CrosswordCell::Char('A'),
        CrosswordCell::Char('B'),
        CrosswordCell::Char('C'),
        CrosswordCell::Char('D'),
    ];
    let grid = Grid { width: 2, height: 2, grid: &cells };
    let (across, down) = grid.expected_grid_nums();
    assert_eq!(across, vec![1, 3]);
    assert_eq!(down, vec![1, 2]);
    let numbered = grid.numbered_cells();
    assert_eq!(
        numbered[0],
        NumberedCell::Numbered { number: 1, is_across: true, is_down: true }
    );
    assert_eq!(
        numbered[1],
        NumberedCell::Numbered { number: 2, is_across: false, is_down: true }
    );
    assert_eq!(
        numbered[2],
        NumberedCell::Numbered { number: 3, is_across: true, is_down: false }
    );
    assert_eq!(numbered[3], NumberedCell::Empty);
}

#[test]
fn trailing_wall_removes_short_runs() {
    let cells = vec![
        CrosswordCell::Char('A'),
        CrosswordCell::Char('B'),
        CrosswordCell::Char('C'),
        CrosswordCell::Wall,
    ];
    let grid = Grid { width: 2, height: 2, grid: &cells };
    let (across, down) = grid.expected_grid_nums();
    assert_eq!(across, vec![1]);
    assert_eq!(down, vec![1]);
    let numbered = grid.numbered_cells();
    assert_eq!(numbered[1], NumberedCell::Empty);
    assert_eq!(numbered[2], NumberedCell::Empty);
    assert_eq!(numbered[3], NumberedCell::Wall);
}

#[test]
fn numbering_is_deterministic() {
    let cells = vec![
        CrosswordCell::Wall,
        CrosswordCell::Char('B'),
        CrosswordCell::Char('C'),
        CrosswordCell::Char('D'),
        CrosswordCell::Char('E'),
        CrosswordCell::Wall,
    ];
    let grid = Grid { width: 3, height: 2, grid: &cells };
    let first = grid.expected_grid_nums();
    let second = grid.expected_grid_nums();
    assert_eq!(first, second);
    let (across, _) = first;
    for w in across.windows(2) {
        assert!(w[0] < w[1]);
    }
}

#[test]
fn misordered_wins_over_count() {
    let expected = vec![1u16, 2, 3];
    let actual = clue_list(&[(1, "x"), (3, "y"), (2, "z")]);
    assert_eq!(validate_clues(&expected, &actual), Err(ClueError::MisorderedClues));
    // Even with the lengths differing, order is reported first.
    let expected_short = vec![1u16];
    assert_eq!(
        validate_clues(&expected_short, &actual),
        Err(ClueError::MisorderedClues)
    );
}

#[test]
fn mismatched_clue_count() {
    let expected = vec![1u16, 2, 3];
    let actual = clue_list(&[(1, "x"), (2, "y")]);
    assert_eq!(
        validate_clues(&expected, &actual),
        Err(ClueError::MismatchedClueCount { expected: 3, actual: 2 })
    );
}

#[test]
fn missing_and_extra_clue() {
    let expected = vec![1u16, 3];
    let actual = clue_list(&[(1, "x"), (4, "y")]);
    assert_eq!(validate_clues(&expected, &actual), Err(ClueError::MissingClue(3)));
    let actual = clue_list(&[(1, "x"), (2, "y")]);
    assert_eq!(validate_clues(&expected, &actual), Err(ClueError::ExtraClue(2)));
    let actual = clue_list(&[(1, "x"), (3, "y")]);
    assert_eq!(validate_clues(&expected, &actual), Ok(()));
}

#[test]
fn validate_accepts_matching_clues() {
    let mut a = args(
        2,
        2,
        vec![
            CrosswordCell::Char('A'),
            CrosswordCell::Char('B'),
            CrosswordCell::Char('C'),
            CrosswordCell::Wall,
        ],
    );
    a.across_clues = clue_list(&[(1, "first across")]);
    a.down_clues = clue_list(&[(1, "first down")]);
    let c = Crossword::validate(a).expect("validates");
    assert_eq!(c.width, 2);
    assert_eq!(c.height, 2);
    assert_eq!(c.across_clues.len(), 1);
}

#[test]
fn validate_rejects_bad_grid_size() {
    let a = args(2, 2, vec![CrosswordCell::Char('A')]);
    let err = Crossword::validate(a).err().expect("fails");
    let entries = err.into_error_map();
    assert_eq!(entries.len(), 1);
    assert_eq!(entries[0].0, "grid");
    assert_eq!(
        entries[0].1,
        ValidationError::InvalidGridSize { width: 2, height: 2, actual: 1 }
    );
}

#[test]
fn validate_reports_clue_problems_together() {
    let mut a = args(
        2,
        2,
        vec![
            CrosswordCell::Char('A'),
            CrosswordCell::Char('B'),
            CrosswordCell::Char('C'),
            CrosswordCell::Char('D'),
        ],
    );
    // expected across [1,3], down [1,2]
    a.across_clues = clue_list(&[(1, "x")]);
    a.down_clues = clue_list(&[(1, "x"), (5, "y")]);
    let err = Crossword::validate(a).err().expect("fails");
    let entries = err.into_error_map();
    assert_eq!(entries.len(), 2);
    assert_eq!(entries[0].0, "across_clues");
    assert_eq!(
        entries[0].1,
        ValidationError::MismatchedClueCount { expected: 2, actual: 1 }
    );
    assert_eq!(entries[1].0, "down_clues");
    assert_eq!(entries[1].1, ValidationError::MissingClue(2));
}

#[test]
fn validate_reports_misordered_clues() {
    let mut a = args(
        2,
        2,
        vec![
            CrosswordCell::Char('A'),
            CrosswordCell::Char('B'),
            CrosswordCell::Char('C'),
            CrosswordCell::Char('D'),
        ],
    );
    a.across_clues = clue_list(&[(3, "x"), (1, "y")]);
    a.down_clues = clue_list(&[(1, "x"), (2, "y")]);
    let err = Crossword::validate(a).err().expect("fails");
    let entries = err.into_error_map();
    assert_eq!(entries.len(), 1);
    assert_eq!(entries[0].0, "across_clues");
    assert_eq!(entries[0].1, ValidationError::MisorderedClues);
}

fn rebus_row(distinct: usize, total: usize) -> Vec<CrosswordCell> {
    (0..total)
        .map(|i| CrosswordCell::Rebus(format!("R{:02}", i % distinct)))
        .collect()
}

#[test]
fn one_hundred_distinct_rebuses_fail() {
    let mut a = args(100, 1, rebus_row(100, 100));
    a.across_clues = clue_list(&[(1, "long one")]);
    let err = Crossword::validate(a).err().expect("fails");
    let entries = err.into_error_map();
    assert_eq!(entries.len(), 1);
    assert_eq!(entries[0].0, "grid");
    assert_eq!(entries[0].1, ValidationError::TooManyRebuses(100));
}

#[test]
fn ninety_nine_distinct_rebuses_succeed() {
    let mut a = args(100, 1, rebus_row(99, 100));
    a.across_clues = clue_list(&[(1, "long one")]);
    assert!(Crossword::validate(a).is_ok());
}

#[test]
fn multi_error_overwrites_sections() {
    let mut m: MultiError<u32> = MultiError::new();
    assert!(m.is_empty());
    m.push(Section::Grid, 1);
    m.push(Section::Grid, 2);
    m.push(Section::CluesDown, 3);
    assert!(!m.is_empty());
    let entries = m.into_error_map();
    assert_eq!(entries, vec![("grid".to_string(), 2), ("clues.Down".to_string(), 3)]);
}

#[test]
fn multi_error_section_names() {
    let mut m: MultiError<u8> = MultiError::new();
    m.push(Section::Grid, 0);
    m.push(Section::AcrossClues, 0);
    m.push(Section::DownClues, 0);
    m.push(Section::Puzzle, 0);
    m.push(Section::Solution, 0);
    m.push(Section::CluesAcross, 0);
    m.push(Section::CluesDown, 0);
    let names: Vec<String> = m.into_error_map().into_iter().map(|(n, _)| n).collect();
    assert_eq!(
        names,
        vec![
            "grid",
            "across_clues",
            "down_clues",
            "puzzle",
            "solution",
            "clues.Across",
            "clues.Down"
        ]
    );
}

#[test]
fn checksum_known_values() {
    assert_eq!(xword::checksum::cksum_region(b"AB", 0), 32866);
    // Chaining differs from starting fresh.
    let part = xword::checksum::cksum_region(b"A", 0);
    assert_eq!(xword::checksum::cksum_region(b"B", part), 32866);
    assert_eq!(xword::checksum::cksum_region(b"", 0x1234), 0x1234);
}
