//! The legacy binary codec: serializes a validated `Crossword` to the
//! byte-exact fixed-layout format.
//!
//! Emission order: a fixed 52-byte header, one solution byte per cell, one
//! shape byte per cell, the null-terminated text fields (title, author,
//! copyright, the merged clue list, notes), then the optional rebus
//! extension sections.  A 4-byte version tag selects the text encoding: the
//! legacy 8-bit Western encoding or UTF-8.

use vstd::prelude::*;
use vstd::utf8::{encode_utf8, is_ascii_chars};

use crate::checksum::{cksum_byte, cksum_region, spec_cksum};
use crate::{cell_is_wall, rebus_table, spec_rebus_table, Crossword, CrosswordCell};

verus! {

/// The 4-byte version tag of the output file; it selects the text encoding
/// for every metadata and clue string.
#[derive(Debug, Clone, Copy, PartialEq, Eq, Structural)]
pub enum PuzVersion {
    /// Version "1.2": the legacy 8-bit Western encoding (windows-1252).
    V1_2,
    /// Version "2.0": UTF-8.
    V2_0,
}

pub open spec fn version_bytes(v: PuzVersion) -> Seq<u8> {
    match v {
        PuzVersion::V1_2 => seq![49u8, 46u8, 50u8, 0u8],
        PuzVersion::V2_0 => seq![50u8, 46u8, 48u8, 0u8],
    }
}

/// An encoding failure, naming the field whose text cannot be represented
/// in the selected output character encoding, or a rebus table whose byte
/// form exceeds the format's 16-bit section length.
#[derive(Debug, Clone, Copy, PartialEq, Eq, Structural)]
pub enum EncodingError {
    Title,
    Author,
    Copyright,
    Notes,
    Clue(usize),
    RebusTableTooLarge,
}

/// What `encoding_rs::WINDOWS_1252.encode` returns for a given text; the
/// result depends on the characters alone.
pub uninterp spec fn win1252_of(s: Seq<char>) -> Seq<u8>;

/// Relies on `encoding_rs::WINDOWS_1252.encode`: the non-streaming WHATWG
/// encode of the whole input, a pure function of the text.  The flag
/// reports whether any character was unmappable (such characters are
/// replaced with decimal numeric character references).  windows-1252 is
/// ASCII-compatible: ASCII input encodes to its own bytes, with no
/// unmappable characters.
#[verifier::external_body]
fn encode_win1252(s: &str) -> (r: (Vec<u8>, bool))
    ensures
        r.0@ == win1252_of(s@),
        is_ascii_chars(s@) ==> !r.1 && r.0@ == s@.map_values(|c: char| c as u8),
{
    let (bytes, _, had_errors) = encoding_rs::WINDOWS_1252.encode(s);
    (bytes.into_owned(), had_errors)
}

/// The bytes a text field contributes to the file under the selected
/// version's encoding.
pub open spec fn enc_of(v: PuzVersion, s: Seq<char>) -> Seq<u8> {
    match v {
        PuzVersion::V1_2 => win1252_of(s),
        PuzVersion::V2_0 => encode_utf8(s),
    }
}

/// Encode one text field; the flag reports an unrepresentable character.
fn encode_text(version: PuzVersion, s: &String) -> (r: (Vec<u8>, bool))
    ensures
        r.0@ == enc_of(version, s@),
        is_ascii_chars(s@) ==> !r.1,
        version is V2_0 ==> !r.1,
{
    match version {
        PuzVersion::V1_2 => encode_win1252(s.as_str()),
        PuzVersion::V2_0 => (s.as_str().as_bytes_vec(), false),
    }
}

/// The solution byte of one cell: '.' for a wall, the first byte of the
/// cell's content otherwise, with 'A' substituted for the empty sentinel.
pub open spec fn spec_solution_byte(c: CrosswordCell) -> u8 {
    match c {
        CrosswordCell::Empty => 65u8,
        CrosswordCell::Char(ch) => ch as u8,
        CrosswordCell::Rebus(s) => encode_utf8(s@)[0],
        CrosswordCell::Wall => 46u8,
    }
}

/// The shape byte of one cell: '.' for a wall, '-' otherwise.
pub open spec fn spec_shape_byte(c: CrosswordCell) -> u8 {
    if cell_is_wall(c) {
        46u8
    } else {
        45u8
    }
}

pub open spec fn spec_solution_bytes(cells: Seq<CrosswordCell>) -> Seq<u8> {
    cells.map_values(|c: CrosswordCell| spec_solution_byte(c))
}

pub open spec fn spec_shape_bytes(cells: Seq<CrosswordCell>) -> Seq<u8> {
    cells.map_values(|c: CrosswordCell| spec_shape_byte(c))
}

proof fn lemma_encode_utf8_nonempty(s: Seq<char>)
    requires
        s.len() >= 1,
    ensures
        encode_utf8(s).len() >= 1,
{
    assert(encode_utf8(s) == vstd::utf8::encode_scalar(s[0] as u32) + encode_utf8(s.drop_first()));
}

fn solution_bytes(cells: &Vec<CrosswordCell>) -> (r: Vec<u8>)
    requires
        forall|i: int| 0 <= i < cells@.len() ==> crate::cell_wf(#[trigger] cells@[i]),
    ensures
        r@ == spec_solution_bytes(cells@),
{
    let mut out: Vec<u8> = Vec::new();
    let mut idx: usize = 0;
    while idx < cells.len()
        invariant
            forall|i: int| 0 <= i < cells@.len() ==> crate::cell_wf(#[trigger] cells@[i]),
            0 <= idx <= cells@.len(),
            out@ == spec_solution_bytes(cells@).take(idx as int),
        decreases cells@.len() - idx,
    {
        let b: u8 = match &cells[idx] {
            CrosswordCell::Empty => 65u8,
            CrosswordCell::Char(ch) => {
                let code = *ch as u32;
                #[verifier::truncate]
                let b = code as u8;
                b
            },
            CrosswordCell::Rebus(s) => {
                proof {
                    lemma_encode_utf8_nonempty(s@);
                }
                let bytes = s.as_str().as_bytes();
                bytes[0]
            },
            CrosswordCell::Wall => 46u8,
        };
        out.push(b);
        proof {
            assert(out@ =~= spec_solution_bytes(cells@).take(idx + 1));
        }
        idx = idx + 1;
    }
    proof {
        assert(spec_solution_bytes(cells@).take(cells@.len() as int) =~= spec_solution_bytes(
            cells@,
        ));
    }
    out
}

fn shape_bytes(cells: &Vec<CrosswordCell>) -> (r: Vec<u8>)
    ensures
        r@ == spec_shape_bytes(cells@),
{
    let mut out: Vec<u8> = Vec::new();
    let mut idx: usize = 0;
    while idx < cells.len()
        invariant
            0 <= idx <= cells@.len(),
            out@ == spec_shape_bytes(cells@).take(idx as int),
        decreases cells@.len() - idx,
    {
        let b: u8 = if cells[idx].is_wall() {
            46u8
        } else {
            45u8
        };
        out.push(b);
        proof {
            assert(out@ =~= spec_shape_bytes(cells@).take(idx + 1));
        }
        idx = idx + 1;
    }
    proof {
        assert(spec_shape_bytes(cells@).take(cells@.len() as int) =~= spec_shape_bytes(cells@));
    }
    out
}

/// The merged clue sequence from position `i` of the across list and `j` of
/// the down list on: ascending by number for pre-sorted inputs, the across
/// entry first on a tie.
pub open spec fn merge_from(
    across: Seq<(u16, String)>,
    down: Seq<(u16, String)>,
    i: int,
    j: int,
) -> Seq<(u16, String)>
    decreases across.len() - i, down.len() - j,
{
    if 0 <= i < across.len() && 0 <= j < down.len() {
        if across[i].0 <= down[j].0 {
            seq![across[i]] + merge_from(across, down, i + 1, j)
        } else {
            seq![down[j]] + merge_from(across, down, i, j + 1)
        }
    } else if 0 <= i < across.len() {
        seq![across[i]] + merge_from(across, down, i + 1, j)
    } else if 0 <= j < down.len() {
        seq![down[j]] + merge_from(across, down, i, j + 1)
    } else {
        Seq::empty()
    }
}

/// The across and down clue lists merged into one ascending-by-number
/// sequence; on a number tie the across entry is taken first.
pub open spec fn spec_merged_clues(
    across: Seq<(u16, String)>,
    down: Seq<(u16, String)>,
) -> Seq<(u16, String)> {
    merge_from(across, down, 0, 0)
}

/// Merge the two pre-sorted clue lists into one, ascending by number,
/// across first on ties.
pub fn merge_clues(across: &Vec<(u16, String)>, down: &Vec<(u16, String)>) -> (r: Vec<
    (u16, String),
>)
    ensures
        r@ == spec_merged_clues(across@, down@),
{
    let mut out: Vec<(u16, String)> = Vec::new();
    let mut i: usize = 0;
    let mut j: usize = 0;
    while i < across.len() || j < down.len()
        invariant
            0 <= i <= across@.len(),
            0 <= j <= down@.len(),
            spec_merged_clues(across@, down@) == out@ + merge_from(
                across@,
                down@,
                i as int,
                j as int,
            ),
        decreases across@.len() - i + down@.len() - j,
    {
        let take_across: bool = if i < across.len() {
            if j < down.len() {
                across[i].0 <= down[j].0
            } else {
                true
            }
        } else {
            false
        };
        if take_across {
            let num = across[i].0;
            let text = across[i].1.clone();
            out.push((num, text));
            proof {
                assert(out@ + merge_from(across@, down@, i + 1, j as int) =~= (out@.drop_last()
                    + (seq![across@[i as int]] + merge_from(across@, down@, i + 1, j as int))));
            }
            i = i + 1;
        } else {
            let num = down[j].0;
            let text = down[j].1.clone();
            out.push((num, text));
            proof {
                assert(out@ + merge_from(across@, down@, i as int, j + 1) =~= (out@.drop_last()
                    + (seq![down@[j as int]] + merge_from(across@, down@, i as int, j + 1))));
            }
            j = j + 1;
        }
    }
    proof {
        assert(out@ + merge_from(across@, down@, i as int, j as int) =~= out@);
    }
    out
}

pub(crate) proof fn lemma_merge_len(a: Seq<(u16, String)>, d: Seq<(u16, String)>, i: int, j: int)
    requires
        0 <= i <= a.len(),
        0 <= j <= d.len(),
    ensures
        merge_from(a, d, i, j).len() == a.len() - i + d.len() - j,
    decreases a.len() - i, d.len() - j,
{
    if i < a.len() && j < d.len() {
        if a[i].0 <= d[j].0 {
            lemma_merge_len(a, d, i + 1, j);
        } else {
            lemma_merge_len(a, d, i, j + 1);
        }
    } else if i < a.len() {
        lemma_merge_len(a, d, i + 1, j);
    } else if j < d.len() {
        lemma_merge_len(a, d, i, j + 1);
    }
}

/// Every merged entry is an entry of one of the two inputs; in particular a
/// merge of ASCII-texted lists has ASCII texts throughout.
proof fn lemma_merge_ascii(a: Seq<(u16, String)>, d: Seq<(u16, String)>, i: int, j: int)
    requires
        0 <= i <= a.len(),
        0 <= j <= d.len(),
        forall|k: int| 0 <= k < a.len() ==> is_ascii_chars(#[trigger] a[k].1@),
        forall|k: int| 0 <= k < d.len() ==> is_ascii_chars(#[trigger] d[k].1@),
    ensures
        forall|k: int|
            0 <= k < merge_from(a, d, i, j).len() ==> is_ascii_chars(
                #[trigger] merge_from(a, d, i, j)[k].1@,
            ),
    decreases a.len() - i, d.len() - j,
{
    let m = merge_from(a, d, i, j);
    if i < a.len() && j < d.len() {
        if a[i].0 <= d[j].0 {
            lemma_merge_ascii(a, d, i + 1, j);
            assert forall|k: int| 0 <= k < m.len() implies is_ascii_chars(m[k].1@) by {
                if k > 0 {
                    assert(m[k] == merge_from(a, d, i + 1, j)[k - 1]);
                }
            }
        } else {
            lemma_merge_ascii(a, d, i, j + 1);
            assert forall|k: int| 0 <= k < m.len() implies is_ascii_chars(m[k].1@) by {
                if k > 0 {
                    assert(m[k] == merge_from(a, d, i, j + 1)[k - 1]);
                }
            }
        }
    } else if i < a.len() {
        lemma_merge_ascii(a, d, i + 1, j);
        assert forall|k: int| 0 <= k < m.len() implies is_ascii_chars(m[k].1@) by {
            if k > 0 {
                assert(m[k] == merge_from(a, d, i + 1, j)[k - 1]);
            }
        }
    } else if j < d.len() {
        lemma_merge_ascii(a, d, i, j + 1);
        assert forall|k: int| 0 <= k < m.len() implies is_ascii_chars(m[k].1@) by {
            if k > 0 {
                assert(m[k] == merge_from(a, d, i, j + 1)[k - 1]);
            }
        }
    }
}

/// The content of a rebus cell (empty for any other cell).
pub open spec fn rebus_content(c: CrosswordCell) -> Seq<char> {
    match c {
        CrosswordCell::Rebus(s) => s@,
        _ => Seq::empty(),
    }
}

/// The first position of `s` in `table` (the table's length if absent).
pub open spec fn first_index(table: Seq<Seq<char>>, s: Seq<char>) -> int
    decreases table.len(),
{
    if table.len() == 0 {
        0
    } else if table[0] == s {
        0
    } else {
        1 + first_index(table.drop_first(), s)
    }
}

proof fn lemma_first_index_at(table: Seq<Seq<char>>, s: Seq<char>, r: int)
    requires
        0 <= r < table.len(),
        forall|k: int| 0 <= k < r ==> table[k] != s,
        table[r] == s,
    ensures
        first_index(table, s) == r,
    decreases r,
{
    if r > 0 {
        lemma_first_index_at(table.drop_first(), s, r - 1);
    }
}

/// A rebus string anywhere among the first `n` cells appears in the rebus
/// table of those cells.
proof fn lemma_rebus_table_contains(cells: Seq<CrosswordCell>, n: int, i: int)
    requires
        0 <= i < n,
        cells[i] is Rebus,
    ensures
        crate::rebus_table_upto(cells, n).contains(rebus_content(cells[i])),
    decreases n,
{
    let pre = crate::rebus_table_upto(cells, n - 1);
    let cur = crate::rebus_table_upto(cells, n);
    if i < n - 1 {
        lemma_rebus_table_contains(cells, n - 1, i);
        let x = rebus_content(cells[i]);
        let k = choose|k: int| 0 <= k < pre.len() && pre[k] == x;
        match cells[n - 1] {
            CrosswordCell::Rebus(s) => {
                if pre.contains(s@) {
                    assert(cur == pre);
                } else {
                    assert(cur == pre.push(s@));
                    assert(cur[k] == pre[k]);
                }
            },
            _ => {
                assert(cur == pre);
            },
        }
        assert(cur[k] == x);
    } else {
        let x = rebus_content(cells[n - 1]);
        match cells[n - 1] {
            CrosswordCell::Rebus(s) => {
                assert(s@ == x);
                if pre.contains(s@) {
                    assert(cur == pre);
                } else {
                    assert(cur == pre.push(s@));
                    assert(cur[pre.len() as int] == x);
                }
            },
            _ => {},
        }
    }
}

/// The per-cell rebus index byte: 0 for a non-rebus cell, else the 1-based
/// position of the cell's string in the rebus table.
pub open spec fn spec_grbs_byte(table: Seq<Seq<char>>, c: CrosswordCell) -> u8 {
    match c {
        CrosswordCell::Rebus(s) => (1 + first_index(table, s@)) as u8,
        _ => 0u8,
    }
}

pub open spec fn spec_grbs_data(cells: Seq<CrosswordCell>, table: Seq<Seq<char>>) -> Seq<u8> {
    cells.map_values(|c: CrosswordCell| spec_grbs_byte(table, c))
}

fn string_index(table: &Vec<String>, s: &String) -> (r: usize)
    requires
        table@.map_values(|t: String| t@).contains(s@),
    ensures
        r < table@.len(),
        r as int == first_index(table@.map_values(|t: String| t@), s@),
        table@[r as int]@ == s@,
{
    let ghost views = table@.map_values(|t: String| t@);
    let mut i: usize = 0;
    while i < table.len()
        invariant
            views == table@.map_values(|t: String| t@),
            views.contains(s@),
            0 <= i <= table@.len(),
            forall|k: int| 0 <= k < i ==> views[k] != s@,
        decreases table@.len() - i,
    {
        proof {
            assert(views[i as int] == table@[i as int]@);
        }
        if table[i] == *s {
            proof {
                lemma_first_index_at(views, s@, i as int);
            }
            return i;
        }
        i = i + 1;
    }
    proof {
        let k = choose|k: int| 0 <= k < views.len() && views[k] == s@;
        assert(false);
    }
    0
}

/// The per-cell rebus index table.
fn grbs_data(cells: &Vec<CrosswordCell>, table: &Vec<String>) -> (r: Vec<u8>)
    requires
        table@.map_values(|t: String| t@) == spec_rebus_table(cells@),
        table@.len() <= 99,
    ensures
        r@ == spec_grbs_data(cells@, spec_rebus_table(cells@)),
{
    let ghost tv = spec_rebus_table(cells@);
    let mut out: Vec<u8> = Vec::new();
    let mut idx: usize = 0;
    while idx < cells.len()
        invariant
            table@.map_values(|t: String| t@) == tv,
            tv == spec_rebus_table(cells@),
            table@.len() <= 99,
            0 <= idx <= cells@.len(),
            out@ == spec_grbs_data(cells@, tv).take(idx as int),
        decreases cells@.len() - idx,
    {
        let b: u8 = match &cells[idx] {
            CrosswordCell::Rebus(s) => {
                proof {
                    lemma_rebus_table_contains(cells@, cells@.len() as int, idx as int);
                }
                let k = string_index(table, s);
                (k + 1) as u8
            },
            _ => 0u8,
        };
        out.push(b);
        proof {
            assert(out@ =~= spec_grbs_data(cells@, tv).take(idx + 1));
        }
        idx = idx + 1;
    }
    proof {
        assert(spec_grbs_data(cells@, tv).take(cells@.len() as int) =~= spec_grbs_data(
            cells@,
            tv,
        ));
    }
    out
}

/// The decimal digits of `n`, for 0 <= n <= 99.
pub open spec fn dec_digits(n: int) -> Seq<u8> {
    if n < 10 {
        seq![(48 + n) as u8]
    } else {
        seq![(48 + n / 10) as u8, (48 + n % 10) as u8]
    }
}

/// The ";"-delimited "index:text;" rebus string table, entries in table
/// order under 1-based indices.
pub open spec fn spec_rtbl_data(enc_table: Seq<Seq<u8>>) -> Seq<u8>
    decreases enc_table.len(),
{
    if enc_table.len() == 0 {
        Seq::empty()
    } else {
        spec_rtbl_data(enc_table.drop_last()) + dec_digits(enc_table.len() as int) + seq![58u8]
            + enc_table.last() + seq![59u8]
    }
}

fn rtbl_data(enc_table: &Vec<Vec<u8>>) -> (r: Vec<u8>)
    requires
        enc_table@.len() <= 99,
    ensures
        r@ == spec_rtbl_data(enc_table@.map_values(|v: Vec<u8>| v@)),
{
    let ghost views = enc_table@.map_values(|v: Vec<u8>| v@);
    let mut out: Vec<u8> = Vec::new();
    let mut i: usize = 0;
    while i < enc_table.len()
        invariant
            views == enc_table@.map_values(|v: Vec<u8>| v@),
            enc_table@.len() <= 99,
            0 <= i <= enc_table@.len(),
            out@ == spec_rtbl_data(views.take(i as int)),
        decreases enc_table@.len() - i,
    {
        let n = i + 1;
        if n < 10 {
            out.push(48 + (n as u8));
        } else {
            out.push(48 + (n / 10) as u8);
            out.push(48 + (n % 10) as u8);
        }
        out.push(58);
        let mut k: usize = 0;
        let ghost mid = out@;
        while k < enc_table[i].len()
            invariant
                0 <= i < enc_table@.len(),
                0 <= k <= enc_table@[i as int]@.len(),
                out@ == mid + enc_table@[i as int]@.take(k as int),
            decreases enc_table@[i as int]@.len() - k,
        {
            let b = enc_table[i][k];
            out.push(b);
            proof {
                assert(out@ =~= mid + enc_table@[i as int]@.take(k + 1));
            }
            k = k + 1;
        }
        out.push(59);
        proof {
            assert(views.take(i + 1).drop_last() =~= views.take(i as int));
            assert(views.take(i + 1).last() == views[i as int]);
            assert(enc_table@[i as int]@.take(enc_table@[i as int]@.len() as int) =~= views[
                i as int
            ]);
            assert(out@ =~= spec_rtbl_data(views.take(i + 1)));
        }
        i = i + 1;
    }
    proof {
        assert(views.take(views.len() as int) =~= views);
    }
    out
}

/// A 16-bit value in little-endian byte order.
pub open spec fn le16(x: u16) -> Seq<u8> {
    seq![(x % 256) as u8, (x / 256) as u8]
}

pub open spec fn lo_byte(x: u16) -> u8 {
    (x % 256) as u8
}

pub open spec fn hi_byte(x: u16) -> u8 {
    (x / 256) as u8
}

/// The 12-byte file magic "ACROSS&DOWN\0".
pub open spec fn magic_bytes() -> Seq<u8> {
    seq![65u8, 67u8, 82u8, 79u8, 83u8, 83u8, 38u8, 68u8, 79u8, 87u8, 78u8, 0u8]
}

pub open spec fn zeros12() -> Seq<u8> {
    seq![0u8, 0u8, 0u8, 0u8, 0u8, 0u8, 0u8, 0u8, 0u8, 0u8, 0u8, 0u8]
}

pub open spec fn grbs_tag() -> Seq<u8> {
    seq![71u8, 82u8, 66u8, 83u8]
}

pub open spec fn rtbl_tag() -> Seq<u8> {
    seq![82u8, 84u8, 66u8, 76u8]
}

/// The 8-byte fixed header slice the format checksums separately: width,
/// height, clue count and the two fixed flag fields.
pub open spec fn spec_cib_bytes(width: u8, height: u8, clue_count: u16) -> Seq<u8> {
    seq![width, height] + le16(clue_count) + le16(0) + le16(0)
}

/// Chain the checksum over every clue's bytes, with no terminator in the
/// hash.
pub open spec fn cksum_clues(clues: Seq<Seq<u8>>, init: u16) -> u16
    decreases clues.len(),
{
    if clues.len() == 0 {
        init
    } else {
        spec_cksum(clues.last(), cksum_clues(clues.drop_last(), init))
    }
}

/// The metadata checksum: title, author and copyright each only if
/// non-empty and each followed by a synthetic null byte; then every merged
/// clue's text with no trailing null; then notes, only if non-empty, with a
/// trailing null.
pub open spec fn spec_meta_cksum(
    title: Seq<u8>,
    author: Seq<u8>,
    copyright: Seq<u8>,
    clues: Seq<Seq<u8>>,
    notes: Seq<u8>,
    init: u16,
) -> u16 {
    let c = if title.len() > 0 {
        spec_cksum(title.push(0), init)
    } else {
        init
    };
    let c = if author.len() > 0 {
        spec_cksum(author.push(0), c)
    } else {
        c
    };
    let c = if copyright.len() > 0 {
        spec_cksum(copyright.push(0), c)
    } else {
        c
    };
    let c = cksum_clues(clues, c);
    if notes.len() > 0 {
        spec_cksum(notes.push(0), c)
    } else {
        c
    }
}

/// The masked-checksum block: four independent checksums, low bytes XORed
/// against "ICHE" and high bytes against "ATED".
pub open spec fn spec_masked_bytes(cib: u16, sol: u16, shape: u16, meta: u16) -> Seq<u8> {
    seq![
        73u8 ^ lo_byte(cib),
        67u8 ^ lo_byte(sol),
        72u8 ^ lo_byte(shape),
        69u8 ^ lo_byte(meta),
        65u8 ^ hi_byte(cib),
        84u8 ^ hi_byte(sol),
        69u8 ^ hi_byte(shape),
        68u8 ^ hi_byte(meta),
    ]
}

/// The 52-byte fixed header.
pub open spec fn spec_file_header(
    version: PuzVersion,
    width: u8,
    height: u8,
    clue_count: u16,
    file_ck: u16,
    cib: u16,
    masked: Seq<u8>,
) -> Seq<u8> {
    le16(file_ck) + magic_bytes() + le16(cib) + masked + version_bytes(version) + le16(0) + le16(0)
        + zeros12() + seq![width, height] + le16(clue_count) + le16(0) + le16(0)
}

/// Every string null-terminated, in order.
pub open spec fn nt_all(fields: Seq<Seq<u8>>) -> Seq<u8>
    decreases fields.len(),
{
    if fields.len() == 0 {
        Seq::empty()
    } else {
        nt_all(fields.drop_last()) + fields.last().push(0)
    }
}

/// An extension section: 4-byte tag, little-endian length, little-endian
/// checksum of the section's own bytes, the bytes, a trailing null.
pub open spec fn spec_section(tag: Seq<u8>, data: Seq<u8>) -> Seq<u8> {
    tag + le16(data.len() as u16) + le16(spec_cksum(data, 0)) + data + seq![0u8]
}

/// The whole file as a function of the version tag, the dimensions and the
/// already-encoded byte forms of the puzzle's parts.
pub open spec fn spec_file_bytes(
    version: PuzVersion,
    width: u8,
    height: u8,
    solution: Seq<u8>,
    shape: Seq<u8>,
    clues: Seq<Seq<u8>>,
    title: Seq<u8>,
    author: Seq<u8>,
    copyright: Seq<u8>,
    notes: Seq<u8>,
    grbs: Seq<u8>,
    table: Seq<Seq<u8>>,
) -> Seq<u8> {
    let clue_count = clues.len() as u16;
    let cib = spec_cksum(spec_cib_bytes(width, height, clue_count), 0);
    let meta0 = spec_meta_cksum(title, author, copyright, clues, notes, 0);
    let file_ck = spec_meta_cksum(
        title,
        author,
        copyright,
        clues,
        notes,
        spec_cksum(shape, spec_cksum(solution, cib)),
    );
    let masked = spec_masked_bytes(cib, spec_cksum(solution, 0), spec_cksum(shape, 0), meta0);
    spec_file_header(version, width, height, clue_count, file_ck, cib, masked) + solution + shape
        + title.push(0) + author.push(0) + copyright.push(0) + nt_all(clues) + notes.push(0) + (
    if table.len() > 0 {
        spec_section(grbs_tag(), grbs) + spec_section(rtbl_tag(), spec_rtbl_data(table))
    } else {
        Seq::empty()
    })
}

/// A crossword with every text already encoded to output bytes, ready for
/// byte-exact emission.
pub struct PreserializedCrossword {
    pub version: PuzVersion,
    pub width: u8,
    pub height: u8,
    pub solution: Vec<u8>,
    pub grid: Vec<u8>,
    pub clues: Vec<Vec<u8>>,
    pub title: Vec<u8>,
    pub author: Vec<u8>,
    pub copyright: Vec<u8>,
    pub notes: Vec<u8>,
    pub rebus_index: Vec<u8>,
    pub rebus_table: Vec<Vec<u8>>,
}

impl PreserializedCrossword {
    pub open spec fn clues_view(&self) -> Seq<Seq<u8>> {
        self.clues@.map_values(|v: Vec<u8>| v@)
    }

    pub open spec fn table_view(&self) -> Seq<Seq<u8>> {
        self.rebus_table@.map_values(|v: Vec<u8>| v@)
    }

    pub open spec fn wf(&self) -> bool {
        &&& self.clues@.len() <= 0xFFFF
        &&& self.solution@.len() <= 0xFFFF
        &&& self.rebus_index@.len() == self.solution@.len()
        &&& self.rebus_table@.len() <= 99
    }

    pub open spec fn spec_cib_cksum(&self) -> u16 {
        spec_cksum(spec_cib_bytes(self.width, self.height, self.clues@.len() as u16), 0)
    }

    pub open spec fn spec_meta(&self, init: u16) -> u16 {
        spec_meta_cksum(
            self.title@,
            self.author@,
            self.copyright@,
            self.clues_view(),
            self.notes@,
            init,
        )
    }

    pub open spec fn spec_file_cksum(&self) -> u16 {
        self.spec_meta(spec_cksum(self.grid@, spec_cksum(self.solution@, self.spec_cib_cksum())))
    }

    pub open spec fn spec_masked(&self) -> Seq<u8> {
        spec_masked_bytes(
            self.spec_cib_cksum(),
            spec_cksum(self.solution@, 0),
            spec_cksum(self.grid@, 0),
            self.spec_meta(0),
        )
    }

    pub open spec fn spec_bytes(&self) -> Seq<u8> {
        spec_file_bytes(
            self.version,
            self.width,
            self.height,
            self.solution@,
            self.grid@,
            self.clues_view(),
            self.title@,
            self.author@,
            self.copyright@,
            self.notes@,
            self.rebus_index@,
            self.table_view(),
        )
    }
}

/// The fixed 52-byte header of the binary format.
pub struct Header {
    pub checksum: u16,
    pub file_magic: [u8; 12],
    pub cib_checksum: u16,
    pub masked_checksums: [u8; 8],
    pub version_string: [u8; 4],
    pub reserved_1c: u16,
    pub scrambled_checksum: u16,
    pub reserved_20: [u8; 12],
    pub width: u8,
    pub height: u8,
    pub clue_count: u16,
    pub unknown_bitmask: u16,
    pub scrambled_tag: u16,
}

pub open spec fn spec_header_bytes(h: Header) -> Seq<u8> {
    le16(h.checksum) + h.file_magic@ + le16(h.cib_checksum) + h.masked_checksums@
        + h.version_string@ + le16(h.reserved_1c) + le16(h.scrambled_checksum) + h.reserved_20@
        + seq![h.width, h.height] + le16(h.clue_count) + le16(h.unknown_bitmask) + le16(
        h.scrambled_tag,
    )
}

fn push_le16(out: &mut Vec<u8>, x: u16)
    ensures
        final(out)@ == old(out)@ + le16(x),
{
    out.push((x % 256) as u8);
    out.push((x / 256) as u8);
    proof {
        assert(out@ =~= old(out)@ + le16(x));
    }
}

pub(crate) fn push_bytes(out: &mut Vec<u8>, data: &[u8])
    ensures
        final(out)@ == old(out)@ + data@,
{
    let mut i: usize = 0;
    while i < data.len()
        invariant
            0 <= i <= data@.len(),
            out@ == old(out)@ + data@.take(i as int),
        decreases data@.len() - i,
    {
        out.push(data[i]);
        proof {
            assert(out@ =~= old(out)@ + data@.take(i + 1));
        }
        i = i + 1;
    }
    proof {
        assert(old(out)@ + data@.take(data@.len() as int) =~= old(out)@ + data@);
    }
}

/// Append a text field with its on-disk null terminator.
fn push_field(out: &mut Vec<u8>, data: &Vec<u8>)
    ensures
        final(out)@ == old(out)@ + data@.push(0),
{
    push_bytes(out, data.as_slice());
    out.push(0);
    proof {
        assert(out@ =~= old(out)@ + data@.push(0));
    }
}

/// Append an extension section wrapper around `data`.
fn push_section(out: &mut Vec<u8>, tag: [u8; 4], data: &Vec<u8>)
    requires
        data@.len() <= 0xFFFF,
    ensures
        final(out)@ == old(out)@ + spec_section(tag@, data@),
{
    push_bytes(out, tag.as_slice());
    push_le16(out, data.len() as u16);
    let ck = cksum_region(data.as_slice(), 0);
    push_le16(out, ck);
    push_bytes(out, data.as_slice());
    out.push(0);
    proof {
        assert(out@ =~= old(out)@ + spec_section(tag@, data@));
    }
}

/// Checksum a field with a synthetic null byte, but only if it is
/// non-empty.
fn cksum_field(data: &Vec<u8>, init: u16) -> (r: u16)
    ensures
        r == if data@.len() > 0 {
            spec_cksum(data@.push(0), init)
        } else {
            init
        },
{
    if data.len() == 0 {
        init
    } else {
        let c = cksum_region(data.as_slice(), init);
        proof {
            assert(data@.push(0).drop_last() =~= data@);
            assert(data@.push(0).last() == 0u8);
        }
        cksum_byte(c, 0)
    }
}

impl Header {
    /// The metadata checksum chained onto `initial`.
    pub fn generate_meta_checksum(crossword: &PreserializedCrossword, initial: u16) -> (r: u16)
        ensures
            r == crossword.spec_meta(initial),
    {
        let mut ck = initial;
        ck = cksum_field(&crossword.title, ck);
        ck = cksum_field(&crossword.author, ck);
        ck = cksum_field(&crossword.copyright, ck);
        let ghost cv = crossword.clues_view();
        let ghost after_copyright = ck;
        let mut i: usize = 0;
        while i < crossword.clues.len()
            invariant
                cv == crossword.clues_view(),
                0 <= i <= crossword.clues@.len(),
                ck == cksum_clues(cv.take(i as int), after_copyright),
            decreases crossword.clues@.len() - i,
        {
            ck = cksum_region(crossword.clues[i].as_slice(), ck);
            proof {
                assert(cv.take(i + 1).drop_last() =~= cv.take(i as int));
                assert(cv.take(i + 1).last() == crossword.clues@[i as int]@);
            }
            i = i + 1;
        }
        proof {
            assert(cv.take(cv.len() as int) =~= cv);
        }
        cksum_field(&crossword.notes, ck)
    }

    /// Fill the three checksum fields from the crossword's bytes, leaving
    /// every other field as it stands.
    pub fn generate_checksums(&mut self, crossword: &PreserializedCrossword)
        requires
            crossword.wf(),
        ensures
            final(self).checksum == crossword.spec_file_cksum(),
            final(self).cib_checksum == crossword.spec_cib_cksum(),
            final(self).masked_checksums@ == crossword.spec_masked(),
            final(self).file_magic == old(self).file_magic,
            final(self).version_string == old(self).version_string,
            final(self).reserved_1c == old(self).reserved_1c,
            final(self).scrambled_checksum == old(self).scrambled_checksum,
            final(self).reserved_20 == old(self).reserved_20,
            final(self).width == old(self).width,
            final(self).height == old(self).height,
            final(self).clue_count == old(self).clue_count,
            final(self).unknown_bitmask == old(self).unknown_bitmask,
            final(self).scrambled_tag == old(self).scrambled_tag,
    {
        let mut cib_region: Vec<u8> = Vec::new();
        cib_region.push(crossword.width);
        cib_region.push(crossword.height);
        push_le16(&mut cib_region, crossword.clues.len() as u16);
        push_le16(&mut cib_region, 0);
        push_le16(&mut cib_region, 0);
        proof {
            assert(cib_region@ =~= spec_cib_bytes(
                crossword.width,
                crossword.height,
                crossword.clues@.len() as u16,
            ));
        }
        let cib = cksum_region(cib_region.as_slice(), 0);
        self.cib_checksum = cib;

        let mut cksum = cib;
        cksum = cksum_region(crossword.solution.as_slice(), cksum);
        cksum = cksum_region(crossword.grid.as_slice(), cksum);
        cksum = Self::generate_meta_checksum(crossword, cksum);
        self.checksum = cksum;

        let sol = cksum_region(crossword.solution.as_slice(), 0);
        let shape = cksum_region(crossword.grid.as_slice(), 0);
        let meta = Self::generate_meta_checksum(crossword, 0);
        let cib_lo = (cib % 256) as u8;
        let cib_hi = (cib / 256) as u8;
        let sol_lo = (sol % 256) as u8;
        let sol_hi = (sol / 256) as u8;
        let shape_lo = (shape % 256) as u8;
        let shape_hi = (shape / 256) as u8;
        let meta_lo = (meta % 256) as u8;
        let meta_hi = (meta / 256) as u8;
        self.masked_checksums = [
            73u8 ^ cib_lo,
            67u8 ^ sol_lo,
            72u8 ^ shape_lo,
            69u8 ^ meta_lo,
            65u8 ^ cib_hi,
            84u8 ^ sol_hi,
            69u8 ^ shape_hi,
            68u8 ^ meta_hi,
        ];
        proof {
            assert(self.masked_checksums@ =~= crossword.spec_masked());
        }
    }

    /// Build the header for a preserialized crossword, checksums included.
    pub fn new(crossword: &PreserializedCrossword) -> (r: Header)
        requires
            crossword.wf(),
        ensures
            r.checksum == crossword.spec_file_cksum(),
            r.file_magic@ == magic_bytes(),
            r.cib_checksum == crossword.spec_cib_cksum(),
            r.masked_checksums@ == crossword.spec_masked(),
            r.version_string@ == version_bytes(crossword.version),
            r.reserved_1c == 0,
            r.scrambled_checksum == 0,
            r.reserved_20@ == zeros12(),
            r.width == crossword.width,
            r.height == crossword.height,
            r.clue_count == crossword.clues@.len() as u16,
            r.unknown_bitmask == 0,
            r.scrambled_tag == 0,
    {
        let version_string: [u8; 4] = match crossword.version {
            PuzVersion::V1_2 => [49u8, 46u8, 50u8, 0u8],
            PuzVersion::V2_0 => [50u8, 46u8, 48u8, 0u8],
        };
        let mut this = Header {
            checksum: 0,
            file_magic: [65u8, 67u8, 82u8, 79u8, 83u8, 83u8, 38u8, 68u8, 79u8, 87u8, 78u8, 0u8],
            cib_checksum: 0,
            masked_checksums: [73u8, 67u8, 72u8, 69u8, 65u8, 84u8, 69u8, 68u8],
            version_string,
            reserved_1c: 0,
            scrambled_checksum: 0,
            reserved_20: [0u8, 0u8, 0u8, 0u8, 0u8, 0u8, 0u8, 0u8, 0u8, 0u8, 0u8, 0u8],
            width: crossword.width,
            height: crossword.height,
            clue_count: crossword.clues.len() as u16,
            unknown_bitmask: 0,
            scrambled_tag: 0,
        };
        proof {
            assert(this.file_magic@ =~= magic_bytes());
            assert(this.reserved_20@ =~= zeros12());
            assert(this.version_string@ =~= version_bytes(crossword.version));
        }
        this.generate_checksums(crossword);
        this
    }

    /// The header's 52 bytes in layout order.
    pub fn pack(&self) -> (r: Vec<u8>)
        ensures
            r@ == spec_header_bytes(*self),
    {
        let mut out: Vec<u8> = Vec::new();
        push_le16(&mut out, self.checksum);
        push_bytes(&mut out, self.file_magic.as_slice());
        push_le16(&mut out, self.cib_checksum);
        push_bytes(&mut out, self.masked_checksums.as_slice());
        push_bytes(&mut out, self.version_string.as_slice());
        push_le16(&mut out, self.reserved_1c);
        push_le16(&mut out, self.scrambled_checksum);
        push_bytes(&mut out, self.reserved_20.as_slice());
        out.push(self.width);
        out.push(self.height);
        push_le16(&mut out, self.clue_count);
        push_le16(&mut out, self.unknown_bitmask);
        push_le16(&mut out, self.scrambled_tag);
        proof {
            assert(out@ =~= spec_header_bytes(*self));
        }
        out
    }
}

/// Emit the whole file from already-encoded parts: the verified byte-exact
/// assembly, for any byte values of the encoded texts.
pub fn assemble_puz(p: &PreserializedCrossword) -> (r: Vec<u8>)
    requires
        p.wf(),
        spec_rtbl_data(p.table_view()).len() <= 0xFFFF,
    ensures
        r@ == p.spec_bytes(),
{
    let header = Header::new(p);
    let mut out = header.pack();
    proof {
        assert(out@ =~= spec_file_header(
            p.version,
            p.width,
            p.height,
            p.clues@.len() as u16,
            p.spec_file_cksum(),
            p.spec_cib_cksum(),
            p.spec_masked(),
        ));
    }
    push_bytes(&mut out, p.solution.as_slice());
    push_bytes(&mut out, p.grid.as_slice());
    push_field(&mut out, &p.title);
    push_field(&mut out, &p.author);
    push_field(&mut out, &p.copyright);
    let ghost cv = p.clues_view();
    let ghost base = out@;
    let mut i: usize = 0;
    while i < p.clues.len()
        invariant
            cv == p.clues_view(),
            0 <= i <= p.clues@.len(),
            out@ == base + nt_all(cv.take(i as int)),
        decreases p.clues@.len() - i,
    {
        push_field(&mut out, &p.clues[i]);
        proof {
            assert(cv.take(i + 1).drop_last() =~= cv.take(i as int));
            assert(cv.take(i + 1).last() == p.clues@[i as int]@);
            assert(out@ =~= base + nt_all(cv.take(i + 1)));
        }
        i = i + 1;
    }
    proof {
        assert(cv.take(cv.len() as int) =~= cv);
    }
    push_field(&mut out, &p.notes);
    if p.rebus_table.len() > 0 {
        push_section(&mut out, [71u8, 82u8, 66u8, 83u8], &p.rebus_index);
        let rtbl = rtbl_data(&p.rebus_table);
        push_section(&mut out, [82u8, 84u8, 66u8, 76u8], &rtbl);
        proof {
            assert([71u8, 82u8, 66u8, 83u8]@ =~= grbs_tag());
            assert([82u8, 84u8, 66u8, 76u8]@ =~= rtbl_tag());
        }
    }
    proof {
        assert(out@ =~= p.spec_bytes());
    }
    out
}

impl Crossword {
    /// Every text field and every clue holds ASCII only; on such input the
    /// selected encoding cannot fail.
    pub open spec fn text_fields_ascii(&self) -> bool {
        &&& is_ascii_chars(self.title@)
        &&& is_ascii_chars(self.author@)
        &&& is_ascii_chars(self.copyright@)
        &&& is_ascii_chars(self.notes@)
        &&& forall|i: int|
            0 <= i < self.across_clues@.len() ==> is_ascii_chars(
                #[trigger] self.across_clues@[i].1@,
            )
        &&& forall|i: int|
            0 <= i < self.down_clues@.len() ==> is_ascii_chars(#[trigger] self.down_clues@[i].1@)
    }

    pub open spec fn spec_enc_clues(&self, v: PuzVersion) -> Seq<Seq<u8>> {
        spec_merged_clues(self.across_clues@, self.down_clues@).map_values(
            |p: (u16, String)| enc_of(v, p.1@),
        )
    }

    pub open spec fn spec_enc_table(&self, v: PuzVersion) -> Seq<Seq<u8>> {
        spec_rebus_table(self.grid@).map_values(|s: Seq<char>| enc_of(v, s))
    }

    /// The byte form of the rebus string table fits the section's 16-bit
    /// length field.
    pub open spec fn rtbl_fits(&self, v: PuzVersion) -> bool {
        spec_rtbl_data(self.spec_enc_table(v)).len() <= 0xFFFF
    }

    /// The whole output file, byte for byte.
    pub open spec fn spec_puz_bytes(&self, v: PuzVersion) -> Seq<u8> {
        spec_file_bytes(
            v,
            self.width,
            self.height,
            spec_solution_bytes(self.grid@),
            spec_shape_bytes(self.grid@),
            self.spec_enc_clues(v),
            enc_of(v, self.title@),
            enc_of(v, self.author@),
            enc_of(v, self.copyright@),
            enc_of(v, self.notes@),
            spec_grbs_data(self.grid@, spec_rebus_table(self.grid@)),
            self.spec_enc_table(v),
        )
    }

    /// Encode every text to output bytes and derive the per-cell data the
    /// emitter needs, or fail naming the first field whose text the
    /// selected encoding cannot represent.
    pub fn preserialize(&self, version: PuzVersion) -> (r: Result<
        PreserializedCrossword,
        EncodingError,
    >)
        requires
            self.wf(),
            self.cells_wf(),
            spec_rebus_table(self.grid@).len() <= 99,
            self.across_clues@.len() + self.down_clues@.len() <= 0xFFFF,
        ensures
            match r {
                Ok(p) => {
                    &&& p.wf()
                    &&& p.version == version
                    &&& p.width == self.width
                    &&& p.height == self.height
                    &&& p.solution@ == spec_solution_bytes(self.grid@)
                    &&& p.grid@ == spec_shape_bytes(self.grid@)
                    &&& p.clues_view() == self.spec_enc_clues(version)
                    &&& p.title@ == enc_of(version, self.title@)
                    &&& p.author@ == enc_of(version, self.author@)
                    &&& p.copyright@ == enc_of(version, self.copyright@)
                    &&& p.notes@ == enc_of(version, self.notes@)
                    &&& p.rebus_index@ == spec_grbs_data(self.grid@, spec_rebus_table(self.grid@))
                    &&& p.table_view() == self.spec_enc_table(version)
                },
                Err(e) => e != EncodingError::RebusTableTooLarge,
            },
            self.text_fields_ascii() ==> r is Ok,
            version is V2_0 ==> r is Ok,
    {
        let (title, bad) = encode_text(version, &self.title);
        if bad {
            return Err(EncodingError::Title);
        }
        let (author, bad) = encode_text(version, &self.author);
        if bad {
            return Err(EncodingError::Author);
        }
        let (copyright, bad) = encode_text(version, &self.copyright);
        if bad {
            return Err(EncodingError::Copyright);
        }
        let (notes, bad) = encode_text(version, &self.notes);
        if bad {
            return Err(EncodingError::Notes);
        }

        let merged = merge_clues(&self.across_clues, &self.down_clues);
        proof {
            lemma_merge_len(self.across_clues@, self.down_clues@, 0, 0);
            if self.text_fields_ascii() {
                lemma_merge_ascii(self.across_clues@, self.down_clues@, 0, 0);
            }
        }
        let ghost enc_spec = self.spec_enc_clues(version);
        let mut clues: Vec<Vec<u8>> = Vec::new();
        let mut i: usize = 0;
        while i < merged.len()
            invariant
                merged@ == spec_merged_clues(self.across_clues@, self.down_clues@),
                enc_spec == self.spec_enc_clues(version),
                self.text_fields_ascii() ==> forall|k: int|
                    0 <= k < merged@.len() ==> is_ascii_chars(#[trigger] merged@[k].1@),
                0 <= i <= merged@.len(),
                clues@.map_values(|v: Vec<u8>| v@) == enc_spec.take(i as int),
            decreases merged@.len() - i,
        {
            let (bytes, bad) = encode_text(version, &merged[i].1);
            if bad {
                proof {
                    assert(!self.text_fields_ascii());
                }
                return Err(EncodingError::Clue(i));
            }
            let ghost prev = clues@.map_values(|v: Vec<u8>| v@);
            let ghost bv = bytes@;
            clues.push(bytes);
            proof {
                assert(enc_spec[i as int] == enc_of(version, merged@[i as int].1@));
                assert(clues@.map_values(|v: Vec<u8>| v@) =~= prev.push(bv));
                assert(prev.push(bv) =~= enc_spec.take(i + 1));
            }
            i = i + 1;
        }
        proof {
            assert(enc_spec.take(enc_spec.len() as int) =~= enc_spec);
        }

        let table = rebus_table(&self.grid);
        let ghost table_spec = spec_rebus_table(self.grid@);
        let ghost enc_table_spec = self.spec_enc_table(version);
        let mut rebus_enc: Vec<Vec<u8>> = Vec::new();
        let mut k: usize = 0;
        while k < table.len()
            invariant
                table@.map_values(|t: String| t@) == table_spec,
                table_spec == spec_rebus_table(self.grid@),
                enc_table_spec == self.spec_enc_table(version),
                0 <= k <= table@.len(),
                rebus_enc@.map_values(|v: Vec<u8>| v@) == enc_table_spec.take(k as int),
            decreases table@.len() - k,
        {
            // The rebus strings are grid fill; unmappable characters take
            // the encoding's replacement form rather than failing the file.
            let (bytes, _) = encode_text(version, &table[k]);
            proof {
                assert(table@[k as int]@ == table_spec[k as int]);
            }
            let ghost prev = rebus_enc@.map_values(|v: Vec<u8>| v@);
            let ghost bv = bytes@;
            rebus_enc.push(bytes);
            proof {
                assert(table_spec.len() == table@.len());
                assert(k < table_spec.len());
                assert(enc_table_spec.len() == table_spec.len());
                assert(enc_table_spec[k as int] == enc_of(version, table_spec[k as int]));
                assert(rebus_enc@.map_values(|v: Vec<u8>| v@) =~= prev.push(bv));
                assert(prev.push(bv) =~= enc_table_spec.take(k + 1));
            }
            k = k + 1;
        }
        proof {
            assert(enc_table_spec.take(enc_table_spec.len() as int) =~= enc_table_spec);
        }

        let solution = solution_bytes(&self.grid);
        let shape = shape_bytes(&self.grid);
        proof {
            assert(table@.len() == table@.map_values(|t: String| t@).len());
        }
        let rebus_index = grbs_data(&self.grid, &table);
        proof {
            assert(self.width as int * self.height as int <= 65025) by (nonlinear_arith)
                requires
                    self.width <= 255,
                    self.height <= 255,
            ;
        }

        Ok(
            PreserializedCrossword {
                version,
                width: self.width,
                height: self.height,
                solution,
                grid: shape,
                clues,
                title,
                author,
                copyright,
                notes,
                rebus_index,
                rebus_table: rebus_enc,
            },
        )
    }

    /// Serialize a well-formed crossword to the legacy binary format, or
    /// fail naming the first metadata field whose text the selected
    /// encoding cannot represent.  On ASCII-only text (and a rebus table
    /// whose byte form fits its section) it always succeeds.
    pub fn as_puz(&self, version: PuzVersion) -> (r: Result<Vec<u8>, EncodingError>)
        requires
            self.wf(),
            self.cells_wf(),
            spec_rebus_table(self.grid@).len() <= 99,
            self.across_clues@.len() + self.down_clues@.len() <= 0xFFFF,
        ensures
            r matches Ok(bytes) ==> bytes@ == self.spec_puz_bytes(version) && self.rtbl_fits(
                version,
            ),
            (self.text_fields_ascii() && self.rtbl_fits(version)) ==> r is Ok,
            version is V2_0 ==> (r is Ok <==> self.rtbl_fits(version)),
    {
        let p = match self.preserialize(version) {
            Ok(p) => p,
            Err(e) => {
                return Err(e);
            },
        };
        let rtbl = rtbl_data(&p.rebus_table);
        if rtbl.len() > 0xFFFF {
            return Err(EncodingError::RebusTableTooLarge);
        }
        Ok(assemble_puz(&p))
    }
}

} // verus!
