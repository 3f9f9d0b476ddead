use autocon::error::AutoConError;
use autocon::grid::{normalize, normalize_rows, GridCapture};
use autocon::screen::{get_screen_info, read_console_output, ScreenBuffer, ScreenInfo, Window};

/// The same content written with the standard library's own functions.
fn expected_content(cells: &[u8], columns: usize) -> String {
    cells
        .chunks(columns)
        .map(|row| {
            let shown = row
                .iter()
                .copied()
                .skip_while(|c| *c == 0)
                .take_while(|c| *c != 0)
                .collect::<Vec<_>>();
            String::from_utf8_lossy(&shown).trim().to_owned() + "\n"
        })
        .collect::<String>()
        .trim()
        .to_string()
}

fn grid(rows: &[&[u8]], columns: usize) -> Vec<u8> {
    let mut cells = Vec::new();
    for row in rows {
        let mut row = row.to_vec();
        assert!(row.len() <= columns);
        row.resize(columns, 0);
        cells.extend(row);
    }
    cells
}

fn screen_info(columns: i16, rows: i16) -> ScreenInfo {
    ScreenInfo { columns, rows, window: Window { left: 0, top: 0, right: columns - 1, bottom: rows - 1 } }
}

fn os_error(context: &'static str, code: i32) -> AutoConError {
    AutoConError::Win32Error(context, std::io::Error::from_raw_os_error(code))
}

#[test]
fn rows_are_joined_by_line_feeds() {
    let cells = grid(&[b"login as: admin", b"admin@host's password:", b"", b""], 30);
    assert_eq!(normalize(&cells, 30), "login as: admin\nadmin@host's password:");
}

#[test]
fn rows_are_trimmed() {
    let cells = grid(&[b"  one  ", b"\ttwo", b"three   "], 10);
    assert_eq!(normalize(&cells, 10), "one\ntwo\nthree");
}

#[test]
fn blank_rows_at_both_ends_are_dropped_and_kept_in_between() {
    let cells = grid(&[b"", b"   ", b"first", b"", b"   ", b"last", b"", b"  "], 8);
    assert_eq!(normalize(&cells, 8), "first\n\n\nlast");
}

#[test]
fn blank_screen_has_no_content() {
    assert_eq!(normalize(&grid(&[b"", b"", b""], 4), 4), "");
    assert_eq!(normalize(&grid(&[b"    ", b"    "], 4), 4), "");
    assert_eq!(normalize(&[], 80), "");
}

#[test]
fn leading_nul_cells_are_skipped() {
    assert_eq!(normalize(&[0, 0, b'h', b'i', 0, 0], 6), "hi");
}

#[test]
fn a_row_ends_at_its_first_nul_cell_after_the_text() {
    assert_eq!(normalize(b"ab\0cd\0", 6), "ab");
    assert_eq!(normalize(b"\0ab\0cd", 6), "ab");
}

#[test]
fn the_last_row_may_be_short() {
    assert_eq!(normalize(b"abcdefgh", 3), "abc\ndef\ngh");
    assert_eq!(normalize(b"ab", 5), "ab");
}

#[test]
fn rows_are_as_wide_as_the_columns() {
    assert_eq!(normalize(b"abcdef", 1), "a\nb\nc\nd\ne\nf");
    assert_eq!(normalize(b"abcdef", 2), "ab\ncd\nef");
    assert_eq!(normalize(b"abcdef", 6), "abcdef");
    assert_eq!(normalize(b"abcdef", 7), "abcdef");
}

#[test]
fn bytes_that_are_no_utf8_are_replaced() {
    assert_eq!(normalize(&[b'a', 0xff, b'b'], 3), "a\u{fffd}b");
    assert_eq!(normalize(&[0xc3], 1), "\u{fffd}");
    assert_eq!(normalize(&[0xe2, 0x82, b'x'], 3), "\u{fffd}x");
}

#[test]
fn bytes_that_are_utf8_are_decoded() {
    assert_eq!(normalize(&[0xc3, 0xa9, b'!'], 3), "\u{e9}!");
    assert_eq!(normalize(&[0xe2, 0x82, 0xac], 3), "\u{20ac}");
}

#[test]
fn whitespace_of_more_than_one_byte_is_trimmed() {
    assert_eq!(normalize(&[0xc2, 0xa0, b'x', 0xc2, 0x85], 5), "x");
}

#[test]
fn a_line_feed_in_a_cell_divides_the_content() {
    assert_eq!(normalize(b"a \n b", 5), "a \n b");
}

#[test]
fn content_agrees_with_the_standard_library() {
    let grids: [(&[u8], usize); 12] = [
        (b"", 3),
        (b"\0\0\0\0", 2),
        (b" a \0 b \0", 4),
        (b"\0\0ab\0\0cd\0\0", 5),
        (b"abc\ndef", 7),
        (b"abc\r\ndef ", 4),
        (b"  \0\0  \0\0xy\0\0  \0\0", 4),
        (&[0xff, 0xfe, 0x41, 0x00, 0xc3, 0x28], 3),
        (&[0xf0, 0x9f, 0x98, 0x80, 0x20, 0x20], 6),
        (&[0xf0, 0x9f, 0x98, 0x80, 0x20, 0x20], 2),
        (b"one two three four five six", 5),
        (b"\t\tx\t\t", 5),
    ];
    for (cells, columns) in grids {
        assert_eq!(normalize(cells, columns), expected_content(cells, columns));
    }
}

#[test]
fn content_has_no_whitespace_at_the_ends_of_its_lines() {
    let cells = grid(&[b"   ", b" a ", b"", b"b  ", b"  c", b"  ", b""], 3);
    let content = normalize(&cells, 3);
    assert_eq!(content, "a\n\nb\nc");
    for line in content.lines() {
        assert_eq!(line, line.trim());
    }
    assert_eq!(content, content.trim());
}

#[test]
fn content_of_its_own_lines_is_the_content_again() {
    let cells = grid(&[b"", b" $ ssh host ", b"", b"Password: ", b""], 14);
    let content = normalize(&cells, 14);
    assert_eq!(content, "$ ssh host\n\nPassword:");
    let lines: Vec<String> = content.lines().map(String::from).collect();
    assert_eq!(normalize_rows(&lines), content);
}

#[test]
fn rows_given_as_texts() {
    let rows = vec![
        String::from("  "),
        String::from(" Welcome "),
        String::from(""),
        String::from("\tlogin: "),
        String::from(" "),
    ];
    assert_eq!(normalize_rows(&rows), "Welcome\n\nlogin:");
    assert_eq!(normalize_rows(&Vec::new()), "");
    assert_eq!(normalize_rows(&vec![String::new(), String::new()]), "");
}

#[test]
fn a_new_screen_is_empty() {
    let screen = ScreenBuffer::new().unwrap();
    assert_eq!(screen.content(), "");
    assert_eq!(screen.buffer_len(), 0);
}

#[test]
fn refresh_replaces_the_content() {
    let mut screen = ScreenBuffer::new().unwrap();
    let first = GridCapture { columns: 6, cells: grid(&[b"one", b"two"], 6) };
    assert!(screen.refresh(Ok(first)).is_ok());
    assert_eq!(screen.content(), "one\ntwo");
    let second = GridCapture { columns: 6, cells: grid(&[b"three"], 6) };
    assert!(screen.refresh(Ok(second)).is_ok());
    assert_eq!(screen.content(), "three");
}

#[test]
fn refresh_hands_a_failure_back_and_keeps_the_content() {
    let mut screen = ScreenBuffer::new().unwrap();
    let capture = GridCapture { columns: 4, cells: grid(&[b"keep"], 4) };
    screen.refresh(Ok(capture)).unwrap();
    match screen.refresh(Err(os_error("Failed to read console output", 6))) {
        Err(AutoConError::Win32Error(context, error)) => {
            assert_eq!(context, "Failed to read console output");
            assert_eq!(error.raw_os_error(), Some(6));
        }
        other => panic!("unexpected outcome: {:?}", other),
    }
    assert_eq!(screen.content(), "keep");
    assert_eq!(screen.buffer_len(), 4);
}

#[test]
fn the_buffer_grows_and_never_shrinks() {
    let mut screen = ScreenBuffer::new().unwrap();
    screen.refresh(Ok(GridCapture { columns: 4, cells: vec![b'a'; 8] })).unwrap();
    assert_eq!(screen.buffer_len(), 8);
    screen.refresh(Ok(GridCapture { columns: 4, cells: vec![b'b'; 20] })).unwrap();
    assert_eq!(screen.buffer_len(), 20);
    screen.refresh(Ok(GridCapture { columns: 2, cells: vec![b'c'; 2] })).unwrap();
    assert_eq!(screen.buffer_len(), 20);
    assert_eq!(screen.content(), "cc");
    screen.refresh(Ok(GridCapture { columns: 2, cells: Vec::new() })).unwrap();
    assert_eq!(screen.buffer_len(), 20);
    assert_eq!(screen.content(), "");
}

#[test]
fn screen_info_that_was_retrieved() {
    let info = screen_info(80, 25);
    match get_screen_info(true, info) {
        Ok(screen) => {
            assert_eq!(screen.columns, 80);
            assert_eq!(screen.rows, 25);
            assert_eq!(screen.window.right, 79);
            assert_eq!(screen.window.bottom, 24);
        }
        Err(error) => panic!("unexpected error: {:?}", error),
    }
}

#[test]
fn screen_info_that_could_not_be_retrieved() {
    match get_screen_info(false, screen_info(80, 25)) {
        Err(AutoConError::Win32Error(context, _)) => {
            assert_eq!(context, "Failed to retrieve screen buffer info")
        }
        other => panic!("unexpected outcome: {:?}", other),
    }
}

#[test]
fn length_of_a_screen_buffer() {
    assert_eq!(screen_info(80, 25).length(), 2000);
    assert_eq!(screen_info(120, 9001).length(), 1_080_120);
    assert_eq!(screen_info(0, 25).length(), 0);
    assert_eq!(screen_info(i16::MAX, i16::MAX).length(), 1_073_676_289);
}

#[test]
fn console_output_that_was_read() {
    let capture = read_console_output(true, &screen_info(5, 2), b"helloworld".to_vec()).unwrap();
    assert_eq!(capture.columns, 5);
    assert_eq!(capture.cells, b"helloworld".to_vec());
    let mut screen = ScreenBuffer::new().unwrap();
    screen.refresh(Ok(capture)).unwrap();
    assert_eq!(screen.content(), "hello\nworld");
}

#[test]
fn console_output_that_could_not_be_read() {
    match read_console_output(false, &screen_info(5, 2), vec![0; 10]) {
        Err(AutoConError::Win32Error(context, _)) => {
            assert_eq!(context, "Failed to read console output")
        }
        other => panic!("unexpected outcome: {:?}", other),
    }
}

#[test]
fn line_feeds_inside_a_row() {
    assert_eq!(normalize_rows(&vec![String::from(" a\nb ")]), "a\nb");
    assert_eq!(normalize_rows(&vec![String::from("a\n\nb")]), "a\n\nb");
    assert_eq!(normalize_rows(&vec![String::from("a \n b")]), "a \n b");
    assert_eq!(normalize_rows(&vec![String::from("a\r\nb")]), "a\r\nb");
    assert_eq!(normalize_rows(&vec![String::from("\n a \n")]), "a");
}

/// Whether the line feeds of each text, once it is trimmed, have no
/// whitespace next to them but other line feeds.
fn rows_stand_clear(rows: &[String]) -> bool {
    rows.iter().all(|row| {
        let text: Vec<char> = row.trim().chars().collect();
        let clear = |c: char| c == '\n' || !c.is_whitespace();
        (0..text.len()).filter(|j| text[*j] == '\n').all(|j| {
            (j == 0 || clear(text[j - 1])) && (j + 1 == text.len() || clear(text[j + 1]))
        })
    })
}

/// Whether the content of the rows has trimmed lines only, no empty line at
/// either end, and comes out of its own lines again.
fn content_is_settled(rows: &Vec<String>) -> bool {
    let content = normalize_rows(rows);
    let lines: Vec<String> = content.lines().map(String::from).collect();
    lines.iter().all(|line| line.trim() == line)
        && lines.first().map_or(true, |line| !line.is_empty())
        && lines.last().map_or(true, |line| !line.is_empty())
        && normalize_rows(&lines) == content
}

#[test]
fn content_is_settled_just_where_line_feeds_stand_clear() {
    let letters = ['a', ' ', '\n', '\r'];
    let mut texts = vec![String::new()];
    let mut from = 0;
    for _ in 0..4 {
        let to = texts.len();
        for i in from..to {
            for letter in letters {
                let mut text = texts[i].clone();
                text.push(letter);
                texts.push(text);
            }
        }
        from = to;
    }
    assert_eq!(texts.len(), 341);
    for first in &texts {
        let rows = vec![first.clone()];
        assert_eq!(content_is_settled(&rows), rows_stand_clear(&rows), "rows {:?}", rows);
    }
    for first in texts.iter().filter(|text| text.chars().count() <= 3) {
        for second in texts.iter().filter(|text| text.chars().count() <= 3) {
            let rows = vec![first.clone(), second.clone()];
            assert_eq!(content_is_settled(&rows), rows_stand_clear(&rows), "rows {:?}", rows);
        }
    }
}

/// A small generator of numbers that look random, the same on every run.
struct Numbers(u64);

impl Numbers {
    fn next(&mut self, below: usize) -> usize {
        self.0 = self.0.wrapping_mul(6364136223846793005).wrapping_add(1442695040888963407);
        ((self.0 >> 33) as usize) % below
    }
}

#[test]
fn content_of_many_grids_agrees_with_the_standard_library() {
    let alphabet = [0u8, 0, b' ', b' ', b'a', b'b', b'\n', b'\r', b'\t', 0xc2, 0xa0, 0xc3, 0xa9, 0xff, 0xe2, 0x82];
    let mut numbers = Numbers(2024);
    for _ in 0..20_000 {
        let length = numbers.next(25);
        let columns = 1 + numbers.next(8);
        let cells: Vec<u8> = (0..length).map(|_| alphabet[numbers.next(alphabet.len())]).collect();
        assert_eq!(
            normalize(&cells, columns),
            expected_content(&cells, columns),
            "cells {:?}, columns {}",
            cells,
            columns
        );
    }
}
