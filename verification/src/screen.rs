//! The screen as the automation sees it: the cells of the last capture and
//! the content made of them.

use vstd::prelude::*;
use vstd::slice::slice_subrange;
use crate::error::{last_os_error, AutoConError};
use crate::grid::{normalize, normalized, GridCapture};

verus! {

/// The part of the screen buffer that a window shows, in cells.
#[derive(Clone, Copy, Debug)]
pub struct Window {
    pub left: i16,
    pub top: i16,
    pub right: i16,
    pub bottom: i16,
}

/// What the console reports of its screen buffer: its size in cells and the
/// window that is visible.
#[derive(Clone, Copy, Debug)]
pub struct ScreenInfo {
    pub columns: i16,
    pub rows: i16,
    pub window: Window,
}

impl ScreenInfo {
    /// The number of cells in a buffer of this size.
    pub fn length(&self) -> (cells: usize)
        requires
            self.columns >= 0,
            self.rows >= 0,
        ensures
            cells == self.columns * self.rows,
    {
        let columns: usize = self.columns as usize;
        let rows: usize = self.rows as usize;
        assert(columns * rows <= 0x7fff * 0x7fff) by (nonlinear_arith)
            requires
                0 <= columns <= 0x7fff,
                0 <= rows <= 0x7fff,
        ;
        columns * rows
    }
}

/// The outcome of asking the console for its screen buffer info: `screen`
/// where the call succeeded, else the failure that the operating system
/// reports for it.
pub fn get_screen_info(success: bool, screen: ScreenInfo) -> (outcome: Result<
    ScreenInfo,
    AutoConError,
>)
    ensures
        success ==> outcome == Ok::<ScreenInfo, AutoConError>(screen),
        !success ==> outcome is Err && outcome->Err_0 is Win32Error
            && outcome->Err_0->Win32Error_0 == "Failed to retrieve screen buffer info",
{
    match success {
        true => Ok(screen),
        false => Err(last_os_error("Failed to retrieve screen buffer info")),
    }
}

/// The outcome of reading the console's output into `cells`: the grid of
/// those cells, in rows as wide as the screen buffer, where the call
/// succeeded, else the failure that the operating system reports for it.
pub fn read_console_output(success: bool, screen: &ScreenInfo, cells: Vec<u8>) -> (outcome: Result<
    GridCapture,
    AutoConError,
>)
    requires
        success ==> screen.columns > 0,
    ensures
        success ==> outcome == Ok::<GridCapture, AutoConError>(
            (GridCapture { columns: screen.columns as usize, cells }),
        ),
        !success ==> outcome is Err && outcome->Err_0 is Win32Error
            && outcome->Err_0->Win32Error_0 == "Failed to read console output",
{
    if !success {
        return Err(last_os_error("Failed to read console output"));
    }
    Ok(GridCapture { columns: screen.columns as usize, cells })
}

/// What a screen buffer holds: the cells it keeps and the content made of the
/// last capture.
pub struct ScreenView {
    pub cells: Seq<u8>,
    pub content: Seq<char>,
}

/// `fresh` laid over the beginning of `kept`: the cells of a capture replace
/// the cells before them, and what lies behind them stays.
pub open spec fn overlaid(kept: Seq<u8>, fresh: Seq<u8>) -> Seq<u8> {
    if fresh.len() >= kept.len() {
        fresh
    } else {
        fresh + kept.skip(fresh.len() as int)
    }
}

/// The screen after an attempt to capture it. A grid replaces the content
/// wholesale; a failure leaves everything as it was.
pub open spec fn refreshed(
    before: ScreenView,
    capture: Result<GridCapture, AutoConError>,
) -> ScreenView {
    match capture {
        Ok(grid) => ScreenView {
            cells: overlaid(before.cells, grid.cells@),
            content: normalized(grid.cells@, grid.columns as int),
        },
        Err(_) => before,
    }
}

/// The cells of the console screen as last captured, and the content that
/// they show.
pub struct ScreenBuffer {
    buffer: Vec<u8>,
    content: String,
}

impl View for ScreenBuffer {
    type V = ScreenView;

    closed spec fn view(&self) -> ScreenView {
        ScreenView { cells: self.buffer@, content: self.content@ }
    }
}

impl ScreenBuffer {
    /// A screen of which nothing was captured yet.
    pub fn new() -> (screen: Result<Self, AutoConError>)
        ensures
            screen is Ok,
            screen->Ok_0@.cells.len() == 0,
            screen->Ok_0@.content.len() == 0,
    {
        Ok(Self { buffer: Vec::new(), content: String::new() })
    }

    /// The content of the last successful capture.
    pub fn content(&self) -> (content: &str)
        ensures
            content@ == self@.content,
    {
        self.content.as_str()
    }

    /// The number of cells that the buffer holds.
    pub fn buffer_len(&self) -> (cells: usize)
        ensures
            cells == self@.cells.len(),
    {
        self.buffer.len()
    }

    /// Takes in the outcome of one attempt to capture the screen. The cells of
    /// a grid are stored, in a buffer that grows where it must and never
    /// shrinks, and the content becomes what the grid shows. A failure is
    /// handed back and changes nothing.
    pub fn refresh(&mut self, capture: Result<GridCapture, AutoConError>) -> (outcome: Result<
        (),
        AutoConError,
    >)
        requires
            capture is Ok ==> capture->Ok_0.columns > 0,
        ensures
            final(self)@ == refreshed(old(self)@, capture),
            final(self)@.cells.len() >= old(self)@.cells.len(),
            match capture {
                Ok(_) => outcome is Ok,
                Err(error) => outcome == Err::<(), AutoConError>(error),
            },
    {
        let grid = match capture {
            Ok(grid) => grid,
            Err(error) => {
                return Err(error);
            },
        };
        let length = grid.cells.len();
        if self.buffer.len() < length {
            self.buffer.resize(length, 0);
        }
        let mut i: usize = 0;
        while i < length
            invariant
                i <= length == grid.cells@.len(),
                self.buffer@.len() >= length,
                self.buffer@.len() >= old(self).buffer@.len(),
                self.buffer@.len() == length || self.buffer@.len() == old(self).buffer@.len(),
                self.content == old(self).content,
                forall|j: int| 0 <= j < i ==> self.buffer@[j] == grid.cells@[j],
                forall|j: int|
                    length <= j < self.buffer@.len() ==> self.buffer@[j] == old(self).buffer@[j],
            decreases length - i,
        {
            self.buffer.set(i, grid.cells[i]);
            i += 1;
        }
        assert(self.buffer@ =~= overlaid(old(self).buffer@, grid.cells@));
        assert(self.buffer@.subrange(0, length as int) =~= grid.cells@);
        self.content = normalize(slice_subrange(self.buffer.as_slice(), 0, length), grid.columns);
        Ok(())
    }
}

/// The content after a capture that succeeded is made of that capture alone:
/// whatever the screen held before, it shows the same afterwards.
pub proof fn lemma_content_is_of_the_last_capture(
    first: ScreenView,
    second: ScreenView,
    grid: GridCapture,
)
    ensures
        refreshed(first, Ok(grid)).content == refreshed(second, Ok(grid)).content,
{
}

/// The buffer never shrinks: after any attempt to capture the screen it holds
/// at least as many cells as before, and the cells of a capture at its
/// beginning.
pub proof fn lemma_buffer_only_grows(before: ScreenView, capture: Result<GridCapture, AutoConError>)
    ensures
        refreshed(before, capture).cells.len() >= before.cells.len(),
        capture is Ok ==> refreshed(before, capture).cells.take(
            capture->Ok_0.cells@.len() as int,
        ) == capture->Ok_0.cells@,
{
    if let Ok(grid) = capture {
        assert(overlaid(before.cells, grid.cells@).take(grid.cells@.len() as int) =~= grid.cells@);
    }
}

} // verus!
