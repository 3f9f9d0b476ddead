//! What holds of the content that a grid shows: it is trimmed, its lines are
//! trimmed, and it comes out of its own lines again.

use vstd::prelude::*;
use vstd::utf8::*;
use crate::grid::{
    grid_rows, grid_texts, join_lines, lossy_text, normalized, normalized_text, row_bytes,
    skip_nuls, trimmed_all, until_nul,
};
use crate::text::{
    is_trimmed, is_whitespace, lemma_line_len, lemma_lines_push, lemma_trimmed_bounds,
    lemma_trimmed_of_trimmed, line_len, lines, strip_cr, trim_end, trim_start, trimmed,
};

verus! {

/// `lines` without the empty lines at its beginning.
pub open spec fn drop_leading_empty(lines: Seq<Seq<char>>) -> Seq<Seq<char>>
    decreases lines.len(),
{
    if lines.len() > 0 && lines.first().len() == 0 {
        drop_leading_empty(lines.drop_first())
    } else {
        lines
    }
}

/// `lines` without the empty lines at its end.
pub open spec fn drop_trailing_empty(lines: Seq<Seq<char>>) -> Seq<Seq<char>>
    decreases lines.len(),
{
    if lines.len() > 0 && lines.last().len() == 0 {
        drop_trailing_empty(lines.drop_last())
    } else {
        lines
    }
}

/// `s` without its last character, if it has one.
pub open spec fn without_last(s: Seq<char>) -> Seq<char> {
    if s.len() > 0 {
        s.drop_last()
    } else {
        s
    }
}

/// Whether each of `lines` neither begins nor ends with whitespace.
pub open spec fn all_trimmed(lines: Seq<Seq<char>>) -> bool {
    forall|i: int| 0 <= i < lines.len() ==> is_trimmed(#[trigger] lines[i])
}

/// Whether none of `lines` holds a line feed.
pub open spec fn no_line_feeds(lines: Seq<Seq<char>>) -> bool {
    forall|i: int| 0 <= i < lines.len() ==> !(#[trigger] lines[i]).contains('\n')
}

/// Joined lines begin with the first line and its line feed.
proof fn lemma_join_first(lines: Seq<Seq<char>>)
    requires
        lines.len() > 0,
    ensures
        join_lines(lines) == lines.first() + seq!['\n'] + join_lines(lines.drop_first()),
    decreases lines.len(),
{
    if lines.len() == 1 {
        assert(lines.drop_first() =~= Seq::<Seq<char>>::empty());
        assert(lines.drop_last() =~= Seq::<Seq<char>>::empty());
        assert(join_lines(Seq::<Seq<char>>::empty()) =~= Seq::<char>::empty());
        assert(join_lines(lines) =~= lines.first() + seq!['\n'] + join_lines(lines.drop_first()));
    } else {
        let init = lines.drop_last();
        lemma_join_first(init);
        assert(lines.drop_first().drop_last() =~= init.drop_first());
        assert(lines.drop_first().last() == lines.last());
        assert(init.first() == lines.first());
        assert(join_lines(lines) =~= lines.first() + seq!['\n'] + join_lines(lines.drop_first()));
    }
}

/// The empty lines at the beginning end before the index that is returned.
proof fn lemma_drop_leading_empty(lines: Seq<Seq<char>>) -> (k: int)
    ensures
        0 <= k <= lines.len(),
        drop_leading_empty(lines) == lines.skip(k),
        k < lines.len() ==> lines[k].len() > 0,
    decreases lines.len(),
{
    if lines.len() > 0 && lines.first().len() == 0 {
        let k = lemma_drop_leading_empty(lines.drop_first());
        assert(lines.drop_first().skip(k) =~= lines.skip(k + 1));
        k + 1
    } else {
        assert(lines.skip(0) =~= lines);
        0
    }
}

/// The empty lines at the end begin at the index that is returned.
proof fn lemma_drop_trailing_empty(lines: Seq<Seq<char>>) -> (k: int)
    ensures
        0 <= k <= lines.len(),
        drop_trailing_empty(lines) == lines.take(k),
        k > 0 ==> lines[k - 1].len() > 0,
    decreases lines.len(),
{
    if lines.len() > 0 && lines.last().len() == 0 {
        let k = lemma_drop_trailing_empty(lines.drop_last());
        assert(lines.drop_last().take(k) =~= lines.take(k));
        k
    } else {
        assert(lines.take(lines.len() as int) =~= lines);
        lines.len() as int
    }
}

/// Trimming the start of joined lines removes the empty lines at the
/// beginning, where each line is trimmed.
proof fn lemma_trim_start_join(lines: Seq<Seq<char>>)
    requires
        all_trimmed(lines),
    ensures
        trim_start(join_lines(lines)) == join_lines(drop_leading_empty(lines)),
    decreases lines.len(),
{
    if lines.len() > 0 {
        lemma_join_first(lines);
        let joined = join_lines(lines);
        let rest = lines.drop_first();
        assert(is_trimmed(lines[0]));
        if lines.first().len() == 0 {
            assert(joined.first() == '\n');
            assert(joined.drop_first() =~= join_lines(rest));
            assert forall|i: int| 0 <= i < rest.len() implies is_trimmed(#[trigger] rest[i]) by {
                assert(rest[i] == lines[i + 1]);
            }
            lemma_trim_start_join(rest);
        } else {
            assert(joined.first() == lines.first().first());
        }
    }
}

/// Trimming the end of joined lines removes the empty lines at the end and
/// the last line feed, where each line is trimmed.
proof fn lemma_trim_end_join(lines: Seq<Seq<char>>)
    requires
        all_trimmed(lines),
    ensures
        trim_end(join_lines(lines)) == without_last(join_lines(drop_trailing_empty(lines))),
    decreases lines.len(),
{
    if lines.len() > 0 {
        let joined = join_lines(lines);
        let init = lines.drop_last();
        let open = join_lines(init) + lines.last();
        assert(joined == open + seq!['\n']);
        assert(joined.last() == '\n');
        assert(is_whitespace('\n'));
        assert(joined.drop_last() =~= open);
        assert(trim_end(joined) == trim_end(open));
        assert(is_trimmed(lines[lines.len() - 1]));
        if lines.last().len() == 0 {
            assert(open =~= join_lines(init));
            assert forall|i: int| 0 <= i < init.len() implies is_trimmed(#[trigger] init[i]) by {
                assert(init[i] == lines[i]);
            }
            lemma_trim_end_join(init);
        } else {
            assert(open.last() == lines.last().last());
            assert(trim_end(open) == open);
        }
    }
}

/// The lines of joined lines are the lines that were joined, with or without
/// the last line feed, where each line is trimmed and holds no line feed.
proof fn lemma_lines_of_join(all: Seq<Seq<char>>)
    requires
        all_trimmed(all),
        no_line_feeds(all),
    ensures
        lines(join_lines(all)) == all,
        join_lines(all).len() > 0 ==> join_lines(all).last() == '\n',
        all.len() > 0 && all.last().len() > 0 ==> lines(without_last(join_lines(all))) == all,
    decreases all.len(),
{
    if all.len() == 0 {
        assert(lines(Seq::<char>::empty()) =~= Seq::<Seq<char>>::empty());
        assert(all =~= Seq::<Seq<char>>::empty());
    } else {
        let init = all.drop_last();
        let last = all.last();
        assert(!all[all.len() - 1].contains('\n'));
        assert(is_trimmed(all[all.len() - 1]));
        assert forall|i: int| 0 <= i < init.len() implies !(#[trigger] init[i]).contains('\n')
            && is_trimmed(init[i]) by {
            assert(init[i] == all[i]);
        }
        lemma_lines_of_join(init);
        lemma_lines_push(join_lines(init), last);
        assert(is_whitespace('\r'));
        assert(strip_cr(last) == last);
        assert(init.push(last) =~= all);
        assert(without_last(join_lines(all)) =~= join_lines(init) + last);
    }
}

/// Content neither begins nor ends with whitespace, whatever the rows hold.
/// So no blank row stands at its end, and trimming it again changes nothing.
pub proof fn lemma_content_is_trimmed(texts: Seq<Seq<char>>)
    ensures
        is_trimmed(normalized_text(texts)),
        trimmed(normalized_text(texts)) == normalized_text(texts),
{
    lemma_trimmed_bounds(join_lines(trimmed_all(texts)));
    lemma_trimmed_of_trimmed(normalized_text(texts));
}

/// Trimmed texts that hold no line feed are trimmed lines that hold none.
proof fn lemma_trimmed_rows(texts: Seq<Seq<char>>)
    requires
        no_line_feeds(texts),
    ensures
        all_trimmed(trimmed_all(texts)),
        no_line_feeds(trimmed_all(texts)),
{
    let rows = trimmed_all(texts);
    assert forall|i: int| 0 <= i < rows.len() implies is_trimmed(#[trigger] rows[i]) && !rows[i].contains(
        '\n',
    ) by {
        let (start, end) = lemma_trimmed_bounds(texts[i]);
        if rows[i].contains('\n') {
            let j = choose|j: int| 0 <= j < rows[i].len() && rows[i][j] == '\n';
            assert(texts[i][start + j] == '\n');
            assert(texts[i].contains('\n'));
        }
    }
}

/// The rows that trimming the joined rows keeps: those between the empty rows
/// at the beginning and at the end.
pub open spec fn kept_rows(rows: Seq<Seq<char>>) -> Seq<Seq<char>> {
    drop_trailing_empty(drop_leading_empty(rows))
}

/// Trimming joined rows leaves the rows that are kept, joined, without the
/// last line feed. The first and the last of them are not empty.
proof fn lemma_trimmed_join(rows: Seq<Seq<char>>)
    requires
        all_trimmed(rows),
        no_line_feeds(rows),
    ensures
        trimmed(join_lines(rows)) == without_last(join_lines(kept_rows(rows))),
        all_trimmed(kept_rows(rows)),
        no_line_feeds(kept_rows(rows)),
        kept_rows(rows).len() > 0 ==> kept_rows(rows).first().len() > 0 && kept_rows(
            rows,
        ).last().len() > 0,
{
    lemma_trim_start_join(rows);
    let from = lemma_drop_leading_empty(rows);
    let tail = drop_leading_empty(rows);
    assert forall|i: int| 0 <= i < tail.len() implies is_trimmed(#[trigger] tail[i]) by {
        assert(tail[i] == rows[i + from]);
    }
    lemma_trim_end_join(tail);
    let to = lemma_drop_trailing_empty(tail);
    let kept = kept_rows(rows);
    assert forall|i: int| 0 <= i < kept.len() implies is_trimmed(#[trigger] kept[i]) && !kept[i].contains(
        '\n',
    ) by {
        assert(kept[i] == rows[i + from]);
    }
    if kept.len() > 0 {
        assert(kept.last() == tail[to - 1]);
        assert(kept.first() == tail[0]);
    }
}

/// Rows of which the first and the last are not empty are all kept.
proof fn lemma_kept_rows_are_kept(rows: Seq<Seq<char>>)
    requires
        rows.len() > 0 ==> rows.first().len() > 0 && rows.last().len() > 0,
    ensures
        kept_rows(rows) == rows,
{
}

/// Of rows whose texts hold no line feed: no line of the content begins or
/// ends with whitespace, its first and its last line are not empty, and the
/// content made of its own lines is the content again.
proof fn lemma_content_of_single_lines(texts: Seq<Seq<char>>)
    requires
        no_line_feeds(texts),
    ensures
        all_trimmed(lines(normalized_text(texts))),
        lines(normalized_text(texts)).len() > 0 ==> lines(normalized_text(texts)).first().len() > 0
            && lines(normalized_text(texts)).last().len() > 0,
        normalized_text(lines(normalized_text(texts))) == normalized_text(texts),
{
    let rows = trimmed_all(texts);
    let kept = kept_rows(rows);
    let content = normalized_text(texts);
    lemma_trimmed_rows(texts);
    lemma_trimmed_join(rows);
    lemma_lines_of_join(kept);
    if kept.len() == 0 {
        assert(kept =~= Seq::<Seq<char>>::empty());
        assert(join_lines(kept) =~= Seq::<char>::empty());
        assert(content =~= Seq::<char>::empty());
        assert(lines(content) =~= Seq::<Seq<char>>::empty());
    }
    assert(lines(content) == kept);
    assert(trimmed_all(kept) =~= kept) by {
        assert forall|i: int| 0 <= i < kept.len() implies trimmed(#[trigger] kept[i]) == kept[i] by {
            lemma_trimmed_of_trimmed(kept[i]);
        }
    }
    lemma_trimmed_join(kept);
    lemma_kept_rows_are_kept(kept);
}

/// Whether `c` stands clear next to a line feed: it is a line feed itself, or
/// no whitespace.
pub open spec fn stands_clear(c: char) -> bool {
    c == '\n' || !is_whitespace(c)
}

/// Whether the line feeds of `text` stand clear of other whitespace: next to a
/// line feed stands no whitespace but another line feed.
pub open spec fn line_feeds_stand_clear(text: Seq<char>) -> bool {
    forall|j: int|
        0 <= j < text.len() && #[trigger] text[j] == '\n' ==> (j > 0 ==> stands_clear(text[j - 1]))
            && (j + 1 < text.len() ==> stands_clear(text[j + 1]))
}

/// Whether the line feeds of each text, once it is trimmed, stand clear of
/// other whitespace.
pub open spec fn rows_stand_clear(texts: Seq<Seq<char>>) -> bool {
    forall|i: int| 0 <= i < texts.len() ==> line_feeds_stand_clear(trimmed(#[trigger] texts[i]))
}

/// The pieces that the line feeds of `text` divide it into.
pub open spec fn pieces(text: Seq<char>) -> Seq<Seq<char>>
    decreases text.len(),
{
    let n = line_len(text) as int;
    if n >= text.len() {
        seq![text]
    } else {
        seq![text.take(n)] + pieces(text.skip(n + 1))
    }
}

/// The pieces of each row, row after row.
pub open spec fn all_pieces(rows: Seq<Seq<char>>) -> Seq<Seq<char>>
    decreases rows.len(),
{
    if rows.len() == 0 {
        seq![]
    } else {
        all_pieces(rows.drop_last()) + pieces(rows.last())
    }
}

/// Joining what was put together is putting together what was joined.
proof fn lemma_join_concat(front: Seq<Seq<char>>, back: Seq<Seq<char>>)
    ensures
        join_lines(front + back) == join_lines(front) + join_lines(back),
    decreases back.len(),
{
    if back.len() == 0 {
        assert(front + back =~= front);
        assert(join_lines(front) + join_lines(back) =~= join_lines(front));
    } else {
        lemma_join_concat(front, back.drop_last());
        assert((front + back).drop_last() =~= front + back.drop_last());
        assert((front + back).last() == back.last());
        assert(join_lines(front + back) =~= join_lines(front) + join_lines(back));
    }
}

/// The pieces of a text, joined, are the text and a line feed.
proof fn lemma_join_pieces(text: Seq<char>)
    ensures
        join_lines(pieces(text)) == text + seq!['\n'],
    decreases text.len(),
{
    lemma_line_len(text);
    let n = line_len(text) as int;
    if n >= text.len() {
        assert(seq![text].drop_last() =~= Seq::<Seq<char>>::empty());
        assert(join_lines(Seq::<Seq<char>>::empty()) =~= Seq::<char>::empty());
        assert(join_lines(seq![text]) =~= text + seq!['\n']);
    } else {
        let rest = text.skip(n + 1);
        let all = pieces(text);
        lemma_join_pieces(rest);
        lemma_join_first(all);
        assert(all.first() == text.take(n));
        assert(all.drop_first() =~= pieces(rest));
        assert(text.take(n) + seq!['\n'] + (rest + seq!['\n']) =~= text + seq!['\n']);
    }
}

/// The pieces of all rows, joined, are the rows joined.
proof fn lemma_join_all_pieces(rows: Seq<Seq<char>>)
    ensures
        join_lines(all_pieces(rows)) == join_lines(rows),
    decreases rows.len(),
{
    if rows.len() > 0 {
        lemma_join_all_pieces(rows.drop_last());
        lemma_join_concat(all_pieces(rows.drop_last()), pieces(rows.last()));
        lemma_join_pieces(rows.last());
        assert(join_lines(rows.drop_last()) + (rows.last() + seq!['\n']) =~= join_lines(rows));
    }
}

/// Whether `text` begins and ends clear: with a line feed or with no
/// whitespace.
pub open spec fn ends_stand_clear(text: Seq<char>) -> bool {
    text.len() > 0 ==> stands_clear(text.first()) && stands_clear(text.last())
}

/// The first piece of a text whose line feeds stand clear, and which begins
/// and ends clear, is trimmed and holds no line feed.
proof fn lemma_first_piece_is_line(text: Seq<char>)
    requires
        line_feeds_stand_clear(text),
        ends_stand_clear(text),
    ensures
        is_trimmed(text.take(line_len(text) as int)),
        !text.take(line_len(text) as int).contains('\n'),
{
    lemma_line_len(text);
    let n = line_len(text) as int;
    let head = text.take(n);
    if head.contains('\n') {
        let j = choose|j: int| 0 <= j < head.len() && head[j] == '\n';
        assert(text[j] == '\n');
    }
    if n > 0 {
        assert(head.first() == text[0]);
        assert(head.last() == text[n - 1]);
        assert(text[0] != '\n');
        assert(text[n - 1] != '\n');
        if n < text.len() {
            assert(text[n] == '\n');
            assert(stands_clear(text[n - 1]));
        } else {
            assert(text.last() == text[n - 1]);
        }
    }
}

/// What follows the first line feed of a text whose line feeds stand clear,
/// and which ends clear, is such a text again.
proof fn lemma_rest_stands_clear(text: Seq<char>)
    requires
        line_feeds_stand_clear(text),
        ends_stand_clear(text),
        line_len(text) < text.len(),
    ensures
        line_feeds_stand_clear(text.skip(line_len(text) as int + 1)),
        ends_stand_clear(text.skip(line_len(text) as int + 1)),
{
    lemma_line_len(text);
    let n = line_len(text) as int;
    let rest = text.skip(n + 1);
    assert(text[n] == '\n');
    assert forall|j: int| 0 <= j < rest.len() && #[trigger] rest[j] == '\n' implies (j > 0
        ==> stands_clear(rest[j - 1])) && (j + 1 < rest.len() ==> stands_clear(rest[j + 1])) by {
        assert(text[j + n + 1] == '\n');
        if j > 0 {
            assert(rest[j - 1] == text[j + n]);
        }
        if j + 1 < rest.len() {
            assert(rest[j + 1] == text[j + n + 2]);
        }
    }
    if rest.len() > 0 {
        assert(rest.first() == text[n + 1]);
        assert(rest.last() == text.last());
    }
}

/// The pieces of a text whose line feeds stand clear, and which begins and
/// ends clear, are trimmed and hold no line feed.
proof fn lemma_pieces_are_lines(text: Seq<char>)
    requires
        line_feeds_stand_clear(text),
        ends_stand_clear(text),
    ensures
        all_trimmed(pieces(text)),
        no_line_feeds(pieces(text)),
    decreases text.len(),
{
    lemma_line_len(text);
    lemma_first_piece_is_line(text);
    let n = line_len(text) as int;
    if n >= text.len() {
        assert(text.take(n) =~= text);
    } else {
        let rest = text.skip(n + 1);
        lemma_rest_stands_clear(text);
        lemma_pieces_are_lines(rest);
        let all = pieces(text);
        assert forall|i: int| 0 <= i < all.len() implies is_trimmed(#[trigger] all[i]) && !all[i].contains(
            '\n',
        ) by {
            if i > 0 {
                assert(all[i] == pieces(rest)[i - 1]);
            }
        }
    }
}

/// The pieces of trimmed rows whose line feeds stand clear are trimmed and
/// hold no line feed.
proof fn lemma_all_pieces_are_lines(rows: Seq<Seq<char>>)
    requires
        all_trimmed(rows),
        forall|i: int| 0 <= i < rows.len() ==> line_feeds_stand_clear(#[trigger] rows[i]),
    ensures
        all_trimmed(all_pieces(rows)),
        no_line_feeds(all_pieces(rows)),
    decreases rows.len(),
{
    if rows.len() > 0 {
        let init = rows.drop_last();
        let last = rows.last();
        assert forall|i: int| 0 <= i < init.len() implies is_trimmed(#[trigger] init[i])
            && line_feeds_stand_clear(init[i]) by {
            assert(init[i] == rows[i]);
        }
        lemma_all_pieces_are_lines(init);
        assert(is_trimmed(rows[rows.len() - 1]));
        assert(line_feeds_stand_clear(rows[rows.len() - 1]));
        lemma_pieces_are_lines(last);
        let all = all_pieces(rows);
        assert forall|i: int| 0 <= i < all.len() implies is_trimmed(#[trigger] all[i]) && !all[i].contains(
            '\n',
        ) by {
            if i < all_pieces(init).len() {
                assert(all[i] == all_pieces(init)[i]);
            } else {
                assert(all[i] == pieces(last)[i - all_pieces(init).len()]);
            }
        }
    }
}

/// Of rows in whose trimmed texts the line feeds stand clear of other
/// whitespace, and so of all rows that hold no line feed: no line of the
/// content begins or ends with whitespace, its first and its last line are
/// not empty, and the content made of its own lines is the content again.
pub proof fn lemma_content_of_rows(texts: Seq<Seq<char>>)
    requires
        rows_stand_clear(texts),
    ensures
        all_trimmed(lines(normalized_text(texts))),
        lines(normalized_text(texts)).len() > 0 ==> lines(normalized_text(texts)).first().len() > 0
            && lines(normalized_text(texts)).last().len() > 0,
        normalized_text(lines(normalized_text(texts))) == normalized_text(texts),
{
    let rows = trimmed_all(texts);
    assert forall|i: int| 0 <= i < rows.len() implies is_trimmed(#[trigger] rows[i])
        && line_feeds_stand_clear(rows[i]) by {
        lemma_trimmed_bounds(texts[i]);
        assert(line_feeds_stand_clear(trimmed(texts[i])));
    }
    let parts = all_pieces(rows);
    lemma_all_pieces_are_lines(rows);
    lemma_join_all_pieces(rows);
    assert(trimmed_all(parts) =~= parts) by {
        assert forall|i: int| 0 <= i < parts.len() implies trimmed(#[trigger] parts[i])
            == parts[i] by {
            lemma_trimmed_of_trimmed(parts[i]);
        }
    }
    assert(normalized_text(parts) == normalized_text(texts));
    lemma_content_of_single_lines(parts);
}

/// Rows that hold no line feed are rows whose line feeds stand clear.
pub proof fn lemma_single_lines_stand_clear(texts: Seq<Seq<char>>)
    requires
        no_line_feeds(texts),
    ensures
        rows_stand_clear(texts),
{
    lemma_trimmed_rows(texts);
    let rows = trimmed_all(texts);
    assert forall|i: int| 0 <= i < texts.len() implies line_feeds_stand_clear(
        trimmed(#[trigger] texts[i]),
    ) by {
        assert(!rows[i].contains('\n'));
        assert forall|j: int| 0 <= j < rows[i].len() implies #[trigger] rows[i][j] != '\n' by {
            if rows[i][j] == '\n' {
                assert(rows[i].contains('\n'));
            }
        }
    }
}

/// Whether `bytes` are ASCII codes, none of them a line feed.
pub open spec fn plain_ascii(bytes: Seq<u8>) -> bool {
    forall|i: int| 0 <= i < bytes.len() ==> (#[trigger] bytes[i]) < 0x80 && bytes[i] != 0x0A
}

/// ASCII bytes are read as the characters of the same codes.
pub proof fn lemma_ascii_text(bytes: Seq<u8>)
    requires
        forall|i: int| 0 <= i < bytes.len() ==> (#[trigger] bytes[i]) < 0x80,
    ensures
        lossy_text(bytes) == bytes.map_values(|b: u8| b as char),
{
    let chars = bytes.map_values(|b: u8| b as char);
    assert(is_ascii_chars(chars)) by {
        assert forall|i: int| 0 <= i < chars.len() implies '\0' <= #[trigger] chars[i] <= '\u{7f}' by {
            assert(chars[i] == bytes[i] as char);
        }
    }
    is_ascii_chars_encode_utf8(chars);
    assert(encode_utf8(chars) =~= bytes) by {
        assert forall|i: int| 0 <= i < bytes.len() implies encode_utf8(chars)[i] == bytes[i] by {
            assert(chars[i] == bytes[i] as char);
            assert(chars[i] as u8 == encode_utf8(chars)[i]);
        }
    }
    encode_utf8_valid_utf8(chars);
    encode_utf8_decode_utf8(chars);
}

/// What a row shows is a stretch of the row.
proof fn lemma_row_bytes_bounds(row: Seq<u8>) -> (bounds: (int, int))
    ensures
        0 <= bounds.0 <= bounds.1 <= row.len(),
        row_bytes(row) == row.subrange(bounds.0, bounds.1),
{
    let from = lemma_skip_nuls_bound(row);
    let rest = row.skip(from);
    let kept = lemma_until_nul_bound(rest);
    assert(rest.take(kept) =~= row.subrange(from, from + kept));
    (from, from + kept)
}

/// Leading NUL cells end at the index that is returned.
proof fn lemma_skip_nuls_bound(row: Seq<u8>) -> (k: int)
    ensures
        0 <= k <= row.len(),
        skip_nuls(row) == row.skip(k),
    decreases row.len(),
{
    if row.len() > 0 && row.first() == 0 {
        let k = lemma_skip_nuls_bound(row.drop_first());
        assert(row.drop_first().skip(k) =~= row.skip(k + 1));
        k + 1
    } else {
        assert(row.skip(0) =~= row);
        0
    }
}

/// What stands before the first NUL cell ends at the index that is returned.
proof fn lemma_until_nul_bound(row: Seq<u8>) -> (k: int)
    ensures
        0 <= k <= row.len(),
        until_nul(row) == row.take(k),
    decreases row.len(),
{
    if row.len() > 0 && row.first() != 0 {
        let k = lemma_until_nul_bound(row.drop_first());
        assert(seq![row.first()] + row.drop_first().take(k) =~= row.take(k + 1));
        k + 1
    } else {
        assert(row.take(0) =~= Seq::<u8>::empty());
        0
    }
}

/// The rows of a grid of ASCII cells without line feeds are such cells.
proof fn lemma_rows_of_plain_grid(cells: Seq<u8>, columns: int)
    requires
        plain_ascii(cells),
    ensures
        forall|i: int|
            0 <= i < grid_rows(cells, columns).len() ==> plain_ascii(
                #[trigger] grid_rows(cells, columns)[i],
            ),
    decreases cells.len(),
{
    if cells.len() > 0 && columns > 0 && cells.len() > columns {
        let rest = cells.skip(columns);
        assert forall|i: int| 0 <= i < rest.len() implies (#[trigger] rest[i]) < 0x80 && rest[i]
            != 0x0A by {
            assert(rest[i] == cells[i + columns]);
        }
        lemma_rows_of_plain_grid(rest, columns);
        assert forall|i: int| 0 <= i < grid_rows(cells, columns).len() implies plain_ascii(
            #[trigger] grid_rows(cells, columns)[i],
        ) by {
            if i == 0 {
                let row = cells.take(columns);
                assert forall|j: int| 0 <= j < row.len() implies (#[trigger] row[j]) < 0x80
                    && row[j] != 0x0A by {
                    assert(row[j] == cells[j]);
                }
            } else {
                assert(grid_rows(cells, columns)[i] == grid_rows(rest, columns)[i - 1]);
            }
        }
    }
}

/// The texts of a grid of ASCII cells without line feeds hold no line feed.
pub proof fn lemma_texts_of_plain_grid(cells: Seq<u8>, columns: int)
    requires
        plain_ascii(cells),
    ensures
        no_line_feeds(grid_texts(cells, columns)),
{
    lemma_rows_of_plain_grid(cells, columns);
    let rows = grid_rows(cells, columns);
    let texts = grid_texts(cells, columns);
    assert forall|i: int| 0 <= i < texts.len() implies !(#[trigger] texts[i]).contains('\n') by {
        let row = rows[i];
        assert(plain_ascii(row));
        let (from, to) = lemma_row_bytes_bounds(row);
        let shown = row_bytes(row);
        assert forall|j: int| 0 <= j < shown.len() implies (#[trigger] shown[j]) < 0x80 && shown[j]
            != 0x0A by {
            assert(shown[j] == row[from + j]);
        }
        lemma_ascii_text(shown);
        assert(texts[i] == shown.map_values(|b: u8| b as char));
        if texts[i].contains('\n') {
            let j = choose|j: int| 0 <= j < texts[i].len() && texts[i][j] == '\n';
            assert(texts[i][j] == shown[j] as char);
        }
    }
}

/// Of a grid whose cells hold ASCII codes and no line feed: no line of its
/// content begins or ends with whitespace, the first and the last line are
/// not empty, and the content made of its own lines is the content again.
pub proof fn lemma_content_of_plain_grid(cells: Seq<u8>, columns: int)
    requires
        plain_ascii(cells),
    ensures
        all_trimmed(lines(normalized(cells, columns))),
        lines(normalized(cells, columns)).len() > 0 ==> lines(
            normalized(cells, columns),
        ).first().len() > 0 && lines(normalized(cells, columns)).last().len() > 0,
        normalized_text(lines(normalized(cells, columns))) == normalized(cells, columns),
{
    lemma_texts_of_plain_grid(cells, columns);
    lemma_single_lines_stand_clear(grid_texts(cells, columns));
    lemma_content_of_rows(grid_texts(cells, columns));
}

} // verus!
