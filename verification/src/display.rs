//! What a front end needs to show a machine: how a value is written, and
//! which part of a long tape, stack or line fits on the screen.

use crate::cell::Cell;
use crate::text::write_char;
use vstd::prelude::*;

verus! {

/// The number of tape bytes that are shown at once.
pub const TAPE_COLUMNS: usize = 75;

/// The number of stack values that are shown at once.
pub const STACK_COLUMNS: usize = 13;

/// The number of characters of an entry line that are shown at once.
pub const ENTRY_COLUMNS: usize = 98;

/// The character that stands for `byte` on the screen: the byte itself where
/// it is printable ASCII, else a dot.
pub open spec fn spec_printable(byte: u8) -> char {
    if 0x20 <= byte <= 0x7e {
        byte as char
    } else {
        '.'
    }
}

/// The character that stands for `c` on the screen.
#[verifier::when_used_as_spec(spec_printable)]
pub fn printable(c: u8) -> (shown: char)
    ensures
        shown == spec_printable(c),
{
    if c >= 0x20 && c <= 0x7e {
        c as char
    } else {
        '.'
    }
}

/// The decimal digit `digit` as a character.
pub open spec fn digit_char(digit: nat) -> char
    recommends
        digit < 10,
{
    ((0x30 + digit) as u8) as char
}

/// `value` in decimal, right-aligned in three columns.
pub open spec fn decimal_columns(value: nat) -> Seq<char>
    recommends
        value < 1000,
{
    seq![
        if value >= 100 {
            digit_char(value / 100)
        } else {
            ' '
        },
        if value >= 10 {
            digit_char(value / 10 % 10)
        } else {
            ' '
        },
        digit_char(value % 10),
    ]
}

/// The byte of `value` that is `index` bytes above the lowest one.
pub open spec fn byte_of(value: nat, index: nat) -> u8 {
    if index == 0 {
        (value % 256) as u8
    } else if index == 1 {
        (value / 0x100 % 256) as u8
    } else if index == 2 {
        (value / 0x1_0000 % 256) as u8
    } else {
        (value / 0x100_0000 % 256) as u8
    }
}

/// A cell that can be shown in four columns.
pub trait Represent: Cell {
    /// The four characters that stand for a cell that holds `value`.
    spec fn representation(value: nat) -> Seq<char>;

    /// The four characters that stand for the cell.
    fn represent(self) -> (text: String)
        ensures
            text@ == Self::representation(self.value()),
    ;
}

impl Represent for u8 {
    /// The byte as a character, then its number.
    open spec fn representation(value: nat) -> Seq<char> {
        seq![spec_printable(value as u8)] + decimal_columns(value)
    }

    fn represent(self) -> (text: String) {
        let mut text = String::new();
        write_char(&mut text, printable(self));
        if self >= 100 {
            write_char(&mut text, (0x30 + self / 100) as char);
        } else {
            write_char(&mut text, ' ');
        }
        if self >= 10 {
            write_char(&mut text, (0x30 + self / 10 % 10) as char);
        } else {
            write_char(&mut text, ' ');
        }
        write_char(&mut text, (0x30 + self % 10) as char);
        assert(text@ =~= Self::representation(self as nat));
        text
    }
}

impl Represent for u32 {
    /// The four bytes as characters, highest byte first.
    open spec fn representation(value: nat) -> Seq<char> {
        seq![
            spec_printable(byte_of(value, 3)),
            spec_printable(byte_of(value, 2)),
            spec_printable(byte_of(value, 1)),
            spec_printable(byte_of(value, 0)),
        ]
    }

    fn represent(self) -> (text: String) {
        let mut text = String::new();
        write_char(&mut text, printable((self / 0x100_0000 % 256) as u8));
        write_char(&mut text, printable((self / 0x1_0000 % 256) as u8));
        write_char(&mut text, printable((self / 0x100 % 256) as u8));
        write_char(&mut text, printable((self % 256) as u8));
        assert(text@ =~= Self::representation(self as nat));
        text
    }
}

/// The four characters that stand for the cell `c` in a list of stack
/// values.
pub fn represent_value<C: Represent>(c: C) -> (text: String)
    ensures
        text@ == C::representation(c.value()),
{
    c.represent()
}

/// The part of a tape of `len` bytes that is shown when the machine is at
/// `position`: the whole tape where it fits, else a window of
/// `TAPE_COLUMNS` bytes that keeps the position near its middle and stays
/// within the tape.
pub open spec fn spec_tape_window(len: nat, position: nat) -> (nat, nat) {
    if len <= TAPE_COLUMNS {
        (0, len)
    } else {
        let ahead = if position + 37 <= len {
            position + 37
        } else {
            len
        };
        let end = if ahead >= TAPE_COLUMNS {
            ahead
        } else {
            TAPE_COLUMNS as nat
        };
        ((end - TAPE_COLUMNS) as nat, end)
    }
}

/// The first and the one past the last tape index that are shown.
pub fn tape_window(len: usize, position: usize) -> (window: (usize, usize))
    ensures
        (window.0 as nat, window.1 as nat) == spec_tape_window(len as nat, position as nat),
        window.0 <= window.1 <= len,
        window.1 - window.0 <= TAPE_COLUMNS,
{
    if len <= TAPE_COLUMNS {
        (0, len)
    } else {
        let ahead = if position <= len - 37 {
            position + 37
        } else {
            len
        };
        let end = if ahead >= TAPE_COLUMNS {
            ahead
        } else {
            TAPE_COLUMNS
        };
        (end - TAPE_COLUMNS, end)
    }
}

/// The number of values at the bottom of a stack of `len` values that are
/// not shown, and whether any are left out.
pub fn stack_window(len: usize) -> (window: (usize, bool))
    ensures
        window.1 == (len > STACK_COLUMNS),
        window.0 == if len > STACK_COLUMNS {
            len - STACK_COLUMNS
        } else {
            0
        },
{
    if len > STACK_COLUMNS {
        (len - STACK_COLUMNS, true)
    } else {
        (0, false)
    }
}

/// How an entry line of `len` characters is shown.
pub struct EntryWindow {
    /// The index of the first character shown.
    pub start: usize,
    /// The number of blanks that fill the line behind the text.
    pub padding: usize,
    /// Whether an arrow marks that the start of the text is cut off.
    pub arrow: bool,
}

/// The part of an entry line of `len` characters that is shown: the whole
/// line where it fits, else its last 96 characters behind an arrow.
pub fn entry_window(len: usize) -> (window: EntryWindow)
    ensures
        window.arrow == (len > ENTRY_COLUMNS),
        window.start == if len > ENTRY_COLUMNS {
            len - 96
        } else {
            0
        },
        window.padding == if len > ENTRY_COLUMNS {
            0
        } else {
            ENTRY_COLUMNS - len
        },
{
    if len > ENTRY_COLUMNS {
        EntryWindow { start: len - 96, padding: 0, arrow: true }
    } else {
        EntryWindow { start: 0, padding: ENTRY_COLUMNS - len, arrow: false }
    }
}

/// The number of lines of output that are shown.
pub const OUTPUT_ROWS: usize = 5;

/// The number of characters in a line of output.
pub const OUTPUT_COLUMNS: usize = 99;

/// The number of characters on the page of output.
pub const OUTPUT_CELLS: usize = 495;

/// The page of output: its characters row by row, and where the next
/// character goes.
pub struct Page {
    pub cells: Seq<char>,
    pub column: nat,
    pub row: nat,
}

/// A line of blanks.
pub open spec fn blank_row() -> Seq<char> {
    Seq::new(OUTPUT_COLUMNS as nat, |i: int| ' ')
}

/// A page of blanks with the cursor at its top left.
pub open spec fn blank_page() -> Page {
    Page { cells: Seq::new(OUTPUT_CELLS as nat, |i: int| ' '), column: 0, row: 0 }
}

/// Whether the page has its full size and the cursor is on it.
pub open spec fn page_is_whole(page: Page) -> bool {
    &&& page.cells.len() == OUTPUT_CELLS
    &&& page.column < OUTPUT_COLUMNS
    &&& page.row < OUTPUT_ROWS
}

/// The page after `c` is written: a line feed starts the next line, a
/// carriage return goes back to the start of the line, any other character
/// is put at the cursor. A full line wraps, and a full page loses its first
/// line.
pub open spec fn written(page: Page, c: char) -> Page {
    let put = if c == '\n' {
        Page { column: 0, row: page.row + 1, ..page }
    } else if c == '\r' {
        Page { column: 0, ..page }
    } else {
        Page {
            cells: page.cells.update(page.row * OUTPUT_COLUMNS + page.column, c),
            column: page.column + 1,
            ..page
        }
    };
    let wrapped = if put.column == OUTPUT_COLUMNS {
        Page { column: 0, row: put.row + 1, ..put }
    } else {
        put
    };
    if wrapped.row == OUTPUT_ROWS {
        Page {
            cells: wrapped.cells.skip(OUTPUT_COLUMNS as int) + blank_row(),
            row: (OUTPUT_ROWS - 1) as nat,
            ..wrapped
        }
    } else {
        wrapped
    }
}

/// The page after all of `text` is written on a blank page.
pub open spec fn page_of(text: Seq<char>) -> Page
    decreases text.len(),
{
    if text.len() == 0 {
        blank_page()
    } else {
        written(page_of(text.drop_last()), text.last())
    }
}

/// Writing on a whole page leaves a whole page.
pub proof fn lemma_written_page_is_whole(page: Page, c: char)
    requires
        page_is_whole(page),
    ensures
        page_is_whole(written(page, c)),
{
}

/// The page of any text is whole.
pub proof fn lemma_page_is_whole(text: Seq<char>)
    ensures
        page_is_whole(page_of(text)),
    decreases text.len(),
{
    if text.len() > 0 {
        lemma_page_is_whole(text.drop_last());
        lemma_written_page_is_whole(page_of(text.drop_last()), text.last());
    }
}

/// Lays `output` out on the page: five lines of 99 characters, row by row,
/// that show the end of the output.
pub fn layout_output(output: &[char]) -> (cells: Vec<char>)
    ensures
        cells@ == page_of(output@).cells,
        cells@.len() == OUTPUT_CELLS,
{
    let mut cells: Vec<char> = Vec::new();
    while cells.len() < OUTPUT_CELLS
        invariant
            cells@.len() <= OUTPUT_CELLS,
            forall|i: int| 0 <= i < cells@.len() ==> cells@[i] == ' ',
        decreases OUTPUT_CELLS - cells.len(),
    {
        cells.push(' ');
    }
    assert(cells@ =~= blank_page().cells);
    let mut column: usize = 0;
    let mut row: usize = 0;
    let mut i: usize = 0;
    assert(output@.take(0) =~= Seq::<char>::empty());
    while i < output.len()
        invariant
            i <= output@.len(),
            page_of(output@.take(i as int)) == (Page {
                cells: cells@,
                column: column as nat,
                row: row as nat,
            }),
            page_is_whole(page_of(output@.take(i as int))),
        decreases output.len() - i,
    {
        let ghost before = page_of(output@.take(i as int));
        let c = output[i];
        proof {
            assert(output@.take(i + 1).drop_last() =~= output@.take(i as int));
            lemma_written_page_is_whole(before, c);
        }
        if c == '\n' {
            row = row + 1;
            column = 0;
        } else if c == '\r' {
            column = 0;
        } else {
            cells.set(row * OUTPUT_COLUMNS + column, c);
            column = column + 1;
        }
        if column == OUTPUT_COLUMNS {
            row = row + 1;
            column = 0;
        }
        if row == OUTPUT_ROWS {
            let ghost full = cells@;
            let mut k: usize = 0;
            while k < OUTPUT_CELLS - OUTPUT_COLUMNS
                invariant
                    cells@.len() == OUTPUT_CELLS,
                    full.len() == OUTPUT_CELLS,
                    k <= OUTPUT_CELLS - OUTPUT_COLUMNS,
                    forall|j: int| 0 <= j < k ==> cells@[j] == full[j + OUTPUT_COLUMNS],
                    forall|j: int| k <= j < OUTPUT_CELLS ==> cells@[j] == full[j],
                decreases OUTPUT_CELLS - OUTPUT_COLUMNS - k,
            {
                let moved = cells[k + OUTPUT_COLUMNS];
                cells.set(k, moved);
                k = k + 1;
            }
            while k < OUTPUT_CELLS
                invariant
                    cells@.len() == OUTPUT_CELLS,
                    full.len() == OUTPUT_CELLS,
                    OUTPUT_CELLS - OUTPUT_COLUMNS <= k <= OUTPUT_CELLS,
                    forall|j: int|
                        0 <= j < OUTPUT_CELLS - OUTPUT_COLUMNS ==> cells@[j] == full[j
                            + OUTPUT_COLUMNS],
                    forall|j: int| OUTPUT_CELLS - OUTPUT_COLUMNS <= j < k ==> cells@[j] == ' ',
                decreases OUTPUT_CELLS - k,
            {
                cells.set(k, ' ');
                k = k + 1;
            }
            assert(cells@ =~= full.skip(OUTPUT_COLUMNS as int) + blank_row());
            row = OUTPUT_ROWS - 1;
        }
        i = i + 1;
    }
    assert(output@.take(i as int) =~= output@);
    cells
}

} // verus!
