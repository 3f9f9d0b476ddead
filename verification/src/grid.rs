//! From the cells of a screen capture to the text that the screen shows.

use vstd::prelude::*;
use vstd::slice::*;
use vstd::string::*;
use vstd::utf8::*;
use crate::text::{trim, trimmed};

verus! {

/// The characters that `String::from_utf8_lossy` makes of `bytes`, for bytes
/// that are not valid UTF-8 throughout.
pub uninterp spec fn utf8_lossy(bytes: Seq<u8>) -> Seq<char>;

/// The text that bytes are read as: the text that they encode where they are
/// valid UTF-8, and else what lossy decoding makes of them.
pub open spec fn lossy_text(bytes: Seq<u8>) -> Seq<char> {
    if valid_utf8(bytes) {
        decode_utf8(bytes)
    } else {
        utf8_lossy(bytes)
    }
}

/// `String::from_utf8_lossy` turns bytes into text and never fails. Bytes that
/// are valid UTF-8 throughout give the text that they encode. In other bytes
/// each sequence that is no valid UTF-8 becomes U+FFFD; the result depends on
/// the bytes alone, and no more is said of it here.
#[verifier::external_body]
fn decode_lossy(bytes: &[u8]) -> (text: String)
    ensures
        text@ == if valid_utf8(bytes@) {
            decode_utf8(bytes@)
        } else {
            utf8_lossy(bytes@)
        },
{
    String::from_utf8_lossy(bytes).into_owned()
}

/// One successful look at the screen: the character codes of its cells, row
/// after row, and the number of cells in a row.
#[derive(Debug)]
pub struct GridCapture {
    pub columns: usize,
    pub cells: Vec<u8>,
}

/// `row` without its leading NUL cells.
pub open spec fn skip_nuls(row: Seq<u8>) -> Seq<u8>
    decreases row.len(),
{
    if row.len() > 0 && row.first() == 0 {
        skip_nuls(row.drop_first())
    } else {
        row
    }
}

/// The cells of `row` before its first NUL cell.
pub open spec fn until_nul(row: Seq<u8>) -> Seq<u8>
    decreases row.len(),
{
    if row.len() > 0 && row.first() != 0 {
        seq![row.first()] + until_nul(row.drop_first())
    } else {
        seq![]
    }
}

/// The bytes that a row shows: what follows its leading NUL cells, up to the
/// next NUL cell.
pub open spec fn row_bytes(row: Seq<u8>) -> Seq<u8> {
    until_nul(skip_nuls(row))
}

/// The text that a row shows, before trimming.
pub open spec fn row_text(row: Seq<u8>) -> Seq<char> {
    lossy_text(row_bytes(row))
}

/// The cells cut into rows of `columns` cells; the last row holds what is
/// left.
pub open spec fn grid_rows(cells: Seq<u8>, columns: int) -> Seq<Seq<u8>>
    decreases cells.len(),
{
    if cells.len() == 0 {
        seq![]
    } else if columns <= 0 || cells.len() <= columns {
        seq![cells]
    } else {
        seq![cells.take(columns)] + grid_rows(cells.skip(columns), columns)
    }
}

/// The text of each row of the grid, before trimming.
pub open spec fn grid_texts(cells: Seq<u8>, columns: int) -> Seq<Seq<char>> {
    grid_rows(cells, columns).map_values(|row: Seq<u8>| row_text(row))
}

/// Each line followed by a line feed, one after the other.
pub open spec fn join_lines(lines: Seq<Seq<char>>) -> Seq<char>
    decreases lines.len(),
{
    if lines.len() == 0 {
        seq![]
    } else {
        join_lines(lines.drop_last()) + lines.last() + seq!['\n']
    }
}

/// Each text trimmed.
pub open spec fn trimmed_all(texts: Seq<Seq<char>>) -> Seq<Seq<char>> {
    texts.map_values(|text: Seq<char>| trimmed(text))
}

/// The content made of the rows' texts: each row trimmed, the rows joined by
/// line feeds, and the whole trimmed.
pub open spec fn normalized_text(texts: Seq<Seq<char>>) -> Seq<char> {
    trimmed(join_lines(trimmed_all(texts)))
}

/// The content that a grid of cells shows.
pub open spec fn normalized(cells: Seq<u8>, columns: int) -> Seq<char> {
    normalized_text(grid_texts(cells, columns))
}

/// Leading NUL cells end at the first cell that is none.
proof fn lemma_skip_nuls_at(row: Seq<u8>, k: int)
    requires
        0 <= k <= row.len(),
        forall|i: int| 0 <= i < k ==> row[i] == 0,
        k < row.len() ==> row[k] != 0,
    ensures
        skip_nuls(row) == row.skip(k),
    decreases k,
{
    if k == 0 {
        assert(row.skip(0) =~= row);
    } else {
        lemma_skip_nuls_at(row.drop_first(), k - 1);
        assert(row.drop_first().skip(k - 1) =~= row.skip(k));
    }
}

/// What a row shows ends before its first NUL cell.
proof fn lemma_until_nul_at(row: Seq<u8>, k: int)
    requires
        0 <= k <= row.len(),
        forall|i: int| 0 <= i < k ==> row[i] != 0,
        k < row.len() ==> row[k] == 0,
    ensures
        until_nul(row) == row.take(k),
    decreases k,
{
    if k == 0 {
        assert(row.take(0) =~= Seq::<u8>::empty());
    } else {
        lemma_until_nul_at(row.drop_first(), k - 1);
        assert(seq![row.first()] + row.drop_first().take(k - 1) =~= row.take(k));
    }
}

/// The bytes that the row `cells[start..end]` shows.
fn shown_bytes(cells: &[u8], start: usize, end: usize) -> (bytes: Vec<u8>)
    requires
        start <= end <= cells@.len(),
    ensures
        bytes@ == row_bytes(cells@.subrange(start as int, end as int)),
{
    let ghost row = cells@.subrange(start as int, end as int);
    let mut from: usize = start;
    while from < end && cells[from] == 0
        invariant
            start <= from <= end <= cells@.len(),
            row == cells@.subrange(start as int, end as int),
            forall|i: int| 0 <= i < from - start ==> row[i] == 0,
        decreases end - from,
    {
        from += 1;
    }
    let ghost rest = row.skip(from - start);
    let mut to: usize = from;
    while to < end && cells[to] != 0
        invariant
            start <= from <= to <= end <= cells@.len(),
            row == cells@.subrange(start as int, end as int),
            rest == row.skip(from - start),
            forall|i: int| 0 <= i < to - from ==> rest[i] != 0,
        decreases end - to,
    {
        to += 1;
    }
    proof {
        lemma_skip_nuls_at(row, from - start);
        lemma_until_nul_at(rest, to - from);
        assert(rest.take(to - from) =~= cells@.subrange(from as int, to as int));
    }
    slice_to_vec(slice_subrange(cells, from, to))
}

/// The text of each row of the grid, before trimming.
fn decode_rows(cells: &[u8], columns: usize) -> (texts: Vec<String>)
    requires
        columns > 0,
    ensures
        texts.deep_view() == grid_texts(cells@, columns as int),
{
    let n = cells.len();
    let mut texts: Vec<String> = Vec::new();
    let mut start: usize = 0;
    proof {
        assert(cells@.skip(0) =~= cells@);
        assert(texts.deep_view() =~= Seq::<Seq<char>>::empty());
        assert(Seq::<Seq<char>>::empty() + grid_texts(cells@, columns as int) =~= grid_texts(
            cells@,
            columns as int,
        ));
    }
    while start < n
        invariant
            columns > 0,
            start <= n == cells@.len(),
            grid_texts(cells@, columns as int) == texts.deep_view() + grid_texts(
                cells@.skip(start as int),
                columns as int,
            ),
        decreases n - start,
    {
        let end = if n - start <= columns {
            n
        } else {
            start + columns
        };
        let bytes = shown_bytes(cells, start, end);
        let text = decode_lossy(bytes.as_slice());
        proof {
            let rest = cells@.skip(start as int);
            let row = cells@.subrange(start as int, end as int);
            assert(rest.take(end - start) =~= row);
            assert(rest.skip(end - start) =~= cells@.skip(end as int));
            if end == n {
                assert(rest =~= row);
                assert(grid_rows(cells@.skip(end as int), columns as int) =~= seq![]);
            }
            assert(grid_rows(rest, columns as int) =~= seq![row] + grid_rows(
                cells@.skip(end as int),
                columns as int,
            ));
            assert(grid_texts(rest, columns as int) =~= seq![text@] + grid_texts(
                cells@.skip(end as int),
                columns as int,
            ));
            assert(texts.deep_view().push(text@) + grid_texts(
                cells@.skip(end as int),
                columns as int,
            ) =~= texts.deep_view() + grid_texts(rest, columns as int));
        }
        let ghost before = texts.deep_view();
        texts.push(text);
        assert(texts.deep_view() =~= before.push(text@));
        start = end;
    }
    assert(grid_texts(cells@.skip(n as int), columns as int) =~= seq![]);
    assert(texts.deep_view() + Seq::<Seq<char>>::empty() =~= texts.deep_view());
    texts
}

/// The content made of the texts of a grid's rows: each text trimmed, the
/// texts joined by line feeds, and the whole trimmed.
pub fn normalize_rows(texts: &Vec<String>) -> (content: String)
    ensures
        content@ == normalized_text(texts.deep_view()),
{
    let ghost lines = trimmed_all(texts.deep_view());
    let mut joined = String::new();
    let mut i: usize = 0;
    while i < texts.len()
        invariant
            i <= texts.len(),
            lines == trimmed_all(texts.deep_view()),
            joined@ == join_lines(lines.take(i as int)),
        decreases texts.len() - i,
    {
        proof {
            reveal_strlit("\n");
            let next = lines.take(i + 1);
            assert(next.drop_last() =~= lines.take(i as int));
            assert(next.last() == trimmed(texts[i as int]@));
            assert("\n"@ =~= seq!['\n']);
        }
        joined.append(trim(texts[i].as_str()));
        joined.append("\n");
        i += 1;
    }
    assert(lines.take(i as int) =~= lines);
    trim(joined.as_str()).to_owned()
}

/// The content that a grid of cells shows: the cells cut into rows of
/// `columns` cells, each row reduced to the bytes it shows and read as text,
/// and the texts normalized.
pub fn normalize(cells: &[u8], columns: usize) -> (content: String)
    requires
        columns > 0,
    ensures
        content@ == normalized(cells@, columns as int),
{
    let texts = decode_rows(cells, columns);
    normalize_rows(&texts)
}

} // verus!
