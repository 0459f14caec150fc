use xword::generate_puz::{merge_clues, EncodingError, PuzVersion};
use xword::{Crossword, CrosswordCell};

fn clue_list(entries: &[(u16, &str)]) -> Vec<(u16, String)> {
    entries.iter().map(|(n, t)| (*n, t.to_string())).collect()
}

fn crossword(
    width: u8,
    height: u8,
    grid: Vec<CrosswordCell>,
    across: &[(u16, &str)],
    down: &[(u16, &str)],
) -> Crossword {
    Crossword {
        width,
        height,
        grid,
        across_clues: clue_list(across),
        down_clues: clue_list(down),
        title: String::new(),
        author: String::new(),
        copyright: String::new(),
        notes: String::new(),
    }
}

fn letters(s: &str) -> Vec<CrosswordCell> {
    s.chars().map(CrosswordCell::Char).collect()
}

const GOLDEN: [u8; 85] = [
    194, 74, 65, 67, 82, 79, 83, 83, 38, 68, 79, 87, 78, 0, 0, 44, 73, 61, 28, 235, 109, 116, 37,
    76, 49, 46, 50, 0, 0, 0, 0, 0, 0, 0, 0, 0, 0, 0, 0, 0, 0, 0, 0, 0, 2, 2, 4, 0, 0, 0, 0, 0,
    65, 66, 67, 68, 45, 45, 45, 45, 84, 115, 116, 0, 65, 110, 0, 67, 99, 0, 65, 49, 0, 68, 49, 0,
    68, 50, 0, 65, 51, 0, 78, 110, 0,
];

#[test]
fn golden_two_by_two_file() {
    let mut c = crossword(
        2,
        2,
        letters("ABCD"),
        &[(1, "A1"), (3, "A3")],
        &[(1, "D1"), (2, "D2")],
    );
    c.title = "Tst".to_string();
    c.author = "An".to_string();
    c.copyright = "Cc".to_string();
    c.notes = "Nn".to_string();
    let bytes = c.as_puz(PuzVersion::V1_2).expect("encodes");
    assert_eq!(bytes.as_slice(), GOLDEN.as_slice());
    // Reproducible: a second run emits the identical file.
    let again = c.as_puz(PuzVersion::V1_2).expect("encodes");
    assert_eq!(bytes, again);
}

const GOLDEN_REBUS: [u8; 88] = [
    170, 48, 65, 67, 82, 79, 83, 83, 38, 68, 79, 87, 78, 0, 0, 16, 73, 46, 11, 23, 81, 84, 197,
    196, 49, 46, 50, 0, 0, 0, 0, 0, 0, 0, 0, 0, 0, 0, 0, 0, 0, 0, 0, 0, 2, 1, 1, 0, 0, 0, 0, 0,
    88, 65, 45, 45, 0, 0, 0, 67, 49, 0, 0, 71, 82, 66, 83, 2, 0, 0, 128, 1, 0, 0, 82, 84, 66, 76,
    5, 0, 135, 208, 49, 58, 88, 89, 59, 0,
];

#[test]
fn rebus_sections_are_emitted() {
    let c = crossword(
        2,
        1,
        vec![CrosswordCell::Rebus("XY".to_string()), CrosswordCell::Char('A')],
        &[(1, "C1")],
        &[],
    );
    let bytes = c.as_puz(PuzVersion::V1_2).expect("encodes");
    assert_eq!(bytes.as_slice(), GOLDEN_REBUS.as_slice());
}

#[test]
fn no_rebus_no_sections() {
    let c = crossword(2, 1, letters("AB"), &[(1, "C1")], &[]);
    let bytes = c.as_puz(PuzVersion::V1_2).expect("encodes");
    // header + cells + shapes + 4 empty metadata fields + 1 clue
    assert_eq!(bytes.len(), 52 + 2 + 2 + 4 + 3);
}

#[test]
fn clue_count_counts_both_directions() {
    let c = crossword(
        2,
        2,
        vec![
            CrosswordCell::Char('A'),
            CrosswordCell::Char('B'),
            CrosswordCell::Char('C'),
            CrosswordCell::Wall,
        ],
        &[(1, "across one")],
        &[(1, "down one")],
    );
    let bytes = c.as_puz(PuzVersion::V1_2).expect("encodes");
    assert_eq!(bytes[0x2E], 2);
    assert_eq!(bytes[0x2F], 0);
}

#[test]
fn empty_cell_uses_substitute_letter() {
    let c = crossword(
        2,
        1,
        vec![CrosswordCell::Empty, CrosswordCell::Char('B')],
        &[(1, "c")],
        &[],
    );
    let bytes = c.as_puz(PuzVersion::V1_2).expect("encodes");
    assert_eq!(bytes[52], b'A');
    assert_eq!(bytes[53], b'B');
    // shape bytes: both open
    assert_eq!(&bytes[54..56], b"--");
}

#[test]
fn wall_cells_in_solution_and_shape() {
    let c = crossword(
        2,
        2,
        vec![
            CrosswordCell::Char('A'),
            CrosswordCell::Char('B'),
            CrosswordCell::Char('C'),
            CrosswordCell::Wall,
        ],
        &[(1, "a")],
        &[(1, "d")],
    );
    let bytes = c.as_puz(PuzVersion::V1_2).expect("encodes");
    assert_eq!(&bytes[52..56], b"ABC.");
    assert_eq!(&bytes[56..60], b"---.");
}

#[test]
fn legacy_encoding_maps_non_ascii() {
    let mut c = crossword(2, 1, letters("AB"), &[(1, "c")], &[]);
    c.title = "\u{e9}".to_string(); // 'é': one byte 0xE9 in the legacy encoding
    let bytes = c.as_puz(PuzVersion::V1_2).expect("encodes");
    assert_eq!(bytes[52 + 2 + 2], 0xE9);
    assert_eq!(bytes[52 + 2 + 2 + 1], 0);
}

#[test]
fn unrepresentable_title_is_reported() {
    let mut c = crossword(2, 1, letters("AB"), &[(1, "c")], &[]);
    c.title = "\u{2603}".to_string(); // snowman: not in the legacy encoding
    assert_eq!(c.as_puz(PuzVersion::V1_2), Err(EncodingError::Title));
}

#[test]
fn unrepresentable_clue_is_reported() {
    let c = crossword(2, 1, letters("AB"), &[(1, "\u{2603}")], &[]);
    assert_eq!(c.as_puz(PuzVersion::V1_2), Err(EncodingError::Clue(0)));
}

#[test]
fn utf8_version_keeps_unicode() {
    let mut c = crossword(2, 1, letters("AB"), &[(1, "c")], &[]);
    c.title = "\u{e9}".to_string();
    let bytes = c.as_puz(PuzVersion::V2_0).expect("encodes");
    // version tag "2.0\0"
    assert_eq!(&bytes[0x18..0x1C], b"2.0\0");
    // title as UTF-8
    assert_eq!(&bytes[56..58], [0xC3, 0xA9]);
    // The snowman is representable here.
    c.title = "\u{2603}".to_string();
    assert!(c.as_puz(PuzVersion::V2_0).is_ok());
}

#[test]
fn unrepresentable_notes_are_reported() {
    let mut c = crossword(2, 1, letters("AB"), &[(1, "c")], &[]);
    c.notes = "\u{2603}".to_string();
    assert_eq!(c.as_puz(PuzVersion::V1_2), Err(EncodingError::Notes));
}

#[test]
fn oversized_rebus_table_is_rejected() {
    let mut grid: Vec<CrosswordCell> = Vec::new();
    for i in 0..100 {
        let mut s = format!("R{:02}", i % 99);
        s.push_str(&"x".repeat(700));
        grid.push(CrosswordCell::Rebus(s));
    }
    let c = crossword(100, 1, grid, &[(1, "long")], &[]);
    assert_eq!(
        c.as_puz(PuzVersion::V1_2),
        Err(EncodingError::RebusTableTooLarge)
    );
}

#[test]
fn merge_takes_across_first_on_ties() {
    let across = clue_list(&[(1, "a1"), (4, "a4")]);
    let down = clue_list(&[(1, "d1"), (2, "d2"), (4, "d4")]);
    let merged = merge_clues(&across, &down);
    let texts: Vec<&str> = merged.iter().map(|(_, t)| t.as_str()).collect();
    assert_eq!(texts, vec!["a1", "d1", "d2", "a4", "d4"]);
}
