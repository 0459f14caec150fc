use xword::generate_ipuz::{
    default_block, default_empty, DeserializeError, Dimensions, IPuzRaw, LabeledCell,
    LabeledCellError, LabeledCellValue, StringOrNum,
};
use xword::{Crossword, CrosswordCell};

fn clue_list(entries: &[(u16, &str)]) -> Vec<(u16, String)> {
    entries.iter().map(|(n, t)| (*n, t.to_string())).collect()
}

fn crossword(
    width: u8,
    height: u8,
    grid: Vec<CrosswordCell>,
    across: &[(u16, &str)],
    down: &[(u16, &str)],
) -> Crossword {
    Crossword {
        width,
        height,
        grid,
        across_clues: clue_list(across),
        down_clues: clue_list(down),
        title: "A Title".to_string(),
        author: "An Author".to_string(),
        copyright: "A Copyright".to_string(),
        notes: "Some notes".to_string(),
    }
}

fn sample() -> Crossword {
    crossword(
        2,
        2,
        vec![
            CrosswordCell::Char('A'),
            CrosswordCell::Rebus("XY".to_string()),
            CrosswordCell::Char('C'),
            CrosswordCell::Wall,
        ],
        &[(1, "across one")],
        &[(1, "down one")],
    )
}

#[test]
fn round_trip_reproduces_the_crossword() {
    let c = sample();
    let raw = c.to_ipuz_raw();
    let back = Crossword::from_ipuz(raw).expect("loads");
    assert_eq!(back, c);
}

#[test]
fn round_trip_with_empty_cell() {
    let c = crossword(
        2,
        1,
        vec![CrosswordCell::Empty, CrosswordCell::Char('B')],
        &[(1, "c")],
        &[],
    );
    let raw = c.to_ipuz_raw();
    let back = Crossword::from_ipuz(raw).expect("loads");
    assert_eq!(back, c);
}

#[test]
fn raw_document_shape() {
    let c = sample();
    let raw = c.to_ipuz_raw();
    assert_eq!(raw.dimensions, Dimensions { width: 2, height: 2 });
    assert_eq!(raw.block, StringOrNum::Str("#".to_string()));
    assert_eq!(raw.empty, StringOrNum::Num(0));
    assert_eq!(raw.solution.len(), 2);
    assert_eq!(
        raw.solution[0],
        vec![
            StringOrNum::Str("A".to_string()),
            StringOrNum::Str("XY".to_string())
        ]
    );
    assert_eq!(
        raw.solution[1],
        vec![
            StringOrNum::Str("C".to_string()),
            StringOrNum::Str("#".to_string())
        ]
    );
    assert_eq!(
        raw.puzzle[0],
        vec![LabeledCell::cell(1), LabeledCell::Cell { cell: StringOrNum::Num(0) }]
    );
    assert_eq!(
        raw.puzzle[1],
        vec![
            LabeledCell::Cell { cell: StringOrNum::Num(0) },
            LabeledCell::Raw(StringOrNum::Str("#".to_string()))
        ]
    );
}

fn errors_of(raw: IPuzRaw) -> Vec<(String, DeserializeError)> {
    Crossword::from_ipuz(raw).err().expect("fails").into_error_map()
}

#[test]
fn invalid_height_short_circuits() {
    let mut raw = sample().to_ipuz_raw();
    raw.puzzle.pop();
    // A later problem too; it must not be reported.
    raw.across.clear();
    let entries = errors_of(raw);
    assert_eq!(entries.len(), 1);
    assert_eq!(entries[0].0, "puzzle");
    assert_eq!(
        entries[0].1,
        DeserializeError::InvalidHeight { height: 2, actual: 1 }
    );
}

#[test]
fn invalid_width_names_the_row() {
    let mut raw = sample().to_ipuz_raw();
    raw.solution[1].push(StringOrNum::Num(7));
    let entries = errors_of(raw);
    assert_eq!(entries.len(), 1);
    assert_eq!(entries[0].0, "solution");
    assert_eq!(
        entries[0].1,
        DeserializeError::InvalidWidth { row: 1, width: 2, actual: 3 }
    );
}

#[test]
fn invalid_solution_item() {
    let mut raw = sample().to_ipuz_raw();
    raw.solution[0][1] = StringOrNum::Num(9);
    let entries = errors_of(raw);
    assert_eq!(entries.len(), 1);
    assert_eq!(entries[0].0, "solution");
    assert_eq!(
        entries[0].1,
        DeserializeError::InvalidSolutionItem {
            row: 0,
            col: 1,
            block: StringOrNum::Str("#".to_string()),
            actual: StringOrNum::Num(9),
        }
    );
}

#[test]
fn string_label_is_unsupported() {
    let mut raw = sample().to_ipuz_raw();
    raw.puzzle[0][0] = LabeledCell::Raw(StringOrNum::Str("one".to_string()));
    let entries = errors_of(raw);
    assert_eq!(entries.len(), 1);
    assert_eq!(entries[0].0, "puzzle");
    assert_eq!(
        entries[0].1,
        DeserializeError::LabeledCellError {
            row: 0,
            col: 0,
            error: LabeledCellError::Str("one".to_string()),
        }
    );
}

#[test]
fn negative_label_is_out_of_range() {
    let mut raw = sample().to_ipuz_raw();
    raw.puzzle[0][1] = LabeledCell::cell(-4);
    let entries = errors_of(raw);
    assert_eq!(
        entries[0].1,
        DeserializeError::LabeledCellError { row: 0, col: 1, error: LabeledCellError::Num(-4) }
    );
}

#[test]
fn numbering_divergence_is_reported() {
    let mut raw = sample().to_ipuz_raw();
    raw.puzzle[0][0] = LabeledCell::cell(7);
    let entries = errors_of(raw);
    assert_eq!(entries.len(), 1);
    assert_eq!(entries[0].0, "puzzle");
    assert_eq!(
        entries[0].1,
        DeserializeError::InvalidNumbering {
            row: 0,
            col: 0,
            expected: LabeledCellValue::Number(1),
            actual: LabeledCellValue::Number(7),
        }
    );
}

#[test]
fn clue_findings_are_aggregated() {
    let mut raw = sample().to_ipuz_raw();
    raw.across = clue_list(&[(2, "wrong")]);
    raw.down = clue_list(&[(3, "x"), (1, "y")]);
    let entries = errors_of(raw);
    assert_eq!(entries.len(), 2);
    assert_eq!(entries[0].0, "clues.Across");
    assert_eq!(entries[0].1, DeserializeError::MissingClue(1));
    assert_eq!(entries[1].0, "clues.Down");
    assert_eq!(entries[1].1, DeserializeError::MisorderedClues);
}

#[test]
fn missing_clue_from_document() {
    let mut raw = sample().to_ipuz_raw();
    raw.across = clue_list(&[(2, "late")]);
    raw.down = clue_list(&[(1, "ok")]);
    let mut raw2 = sample().to_ipuz_raw();
    raw2.across = clue_list(&[]);
    raw2.down = clue_list(&[(1, "ok")]);
    let entries = errors_of(raw);
    assert_eq!(entries[0].1, DeserializeError::MissingClue(1));
    let entries2 = errors_of(raw2);
    assert_eq!(
        entries2[0].1,
        DeserializeError::MismatchedClueCount { expected: 1, actual: 0 }
    );
}

#[test]
fn extraneous_clue_from_document() {
    let mut raw = sample().to_ipuz_raw();
    raw.across = clue_list(&[(0, "early")]);
    let entries = errors_of(raw);
    assert_eq!(entries[0].0, "clues.Across");
    assert_eq!(entries[0].1, DeserializeError::ExtraClue(0));
}

#[test]
fn to_value_resolves_markers_and_numbers() {
    let block = default_block();
    let empty = default_empty();
    let b = LabeledCell::Raw(StringOrNum::Str("#".to_string()));
    assert_eq!(b.to_value(&block, &empty), Ok(LabeledCellValue::Block));
    let e = LabeledCell::Cell { cell: StringOrNum::Num(0) };
    assert_eq!(e.to_value(&block, &empty), Ok(LabeledCellValue::Empty));
    let n = LabeledCell::cell(12);
    assert_eq!(n.to_value(&block, &empty), Ok(LabeledCellValue::Number(12)));
    let too_big = LabeledCell::cell(70000);
    assert_eq!(
        too_big.to_value(&block, &empty),
        Err(LabeledCellError::Num(70000))
    );
    // A string equal to the *empty* marker resolves as Empty when the
    // marker itself is that string.
    let string_empty = StringOrNum::Str("_".to_string());
    let cell = LabeledCell::Raw(StringOrNum::Str("_".to_string()));
    assert_eq!(cell.to_value(&block, &string_empty), Ok(LabeledCellValue::Empty));
}

#[test]
fn decoded_single_character_is_char_not_rebus() {
    let mut raw = sample().to_ipuz_raw();
    raw.solution[0][1] = StringOrNum::Str("Z".to_string());
    let back = Crossword::from_ipuz(raw).expect("loads");
    assert_eq!(back.grid[1], CrosswordCell::Char('Z'));
}

#[test]
fn json_bytes_match_expected_document() {
    let c = sample();
    let bytes = c.to_ipuz();
    let mut expected = String::new();
    expected.push_str("{\"version\":\"http://ipuz.org/v1\",");
    expected.push_str("\"kind\":[\"http://ipuz.org/crossword#1\"],");
    expected.push_str("\"title\":\"A Title\",");
    expected.push_str("\"copyright\":\"A Copyright\",");
    expected.push_str("\"author\":\"An Author\",");
    expected.push_str("\"notes\":\"Some notes\",");
    expected.push_str("\"dimensions\":{\"width\":2,\"height\":2},");
    expected.push_str("\"block\":\"#\",\"empty\":0,");
    expected.push_str("\"puzzle\":[[{\"cell\":1},{\"cell\":0}],[{\"cell\":0},\"#\"]],");
    expected.push_str("\"solution\":[[\"A\",\"XY\"],[\"C\",\"#\"]],");
    expected.push_str("\"clues\":{\"Across\":[[1,\"across one\"]],\"Down\":[[1,\"down one\"]]}}");
    assert_eq!(String::from_utf8(bytes).unwrap(), expected);
}

#[test]
fn json_escapes_special_characters() {
    let mut c = sample();
    c.title = "a\"b\\c\nd\te\u{1}f".to_string();
    let bytes = c.to_ipuz();
    let text = String::from_utf8(bytes).unwrap();
    assert!(text.contains("\"title\":\"a\\\"b\\\\c\\nd\\te\\u0001f\""));
}

#[test]
fn json_keeps_unicode_as_utf8() {
    let mut c = sample();
    c.title = "h\u{e9}llo".to_string();
    let bytes = c.to_ipuz();
    let needle: &[u8] = &[b'"', b'h', 0xC3, 0xA9, b'l', b'l', b'o', b'"'];
    assert!(bytes.windows(needle.len()).any(|w| w == needle));
}

#[test]
fn json_output_parses_as_json() {
    let c = sample();
    let bytes = c.to_ipuz();
    let value: serde_json::Value = serde_json::from_slice(&bytes).expect("well-formed");
    assert_eq!(
        value.get("solution").unwrap()[0][1].as_str().unwrap(),
        "XY"
    );
    assert_eq!(value.get("dimensions").unwrap()["height"].as_u64().unwrap(), 2);
    assert_eq!(value.get("puzzle").unwrap()[0][0]["cell"].as_u64().unwrap(), 1);
}

#[test]
fn empty_string_decodes_to_empty_cell() {
    let mut raw = sample().to_ipuz_raw();
    raw.solution[0][0] = StringOrNum::Str(String::new());
    let back = Crossword::from_ipuz(raw).expect("loads");
    assert_eq!(back.grid[0], CrosswordCell::Empty);
}
