//! The text-screen writer: a 25-row, 80-column character buffer written at
//! the bottom row, scrolling upwards on a newline. The memory-mapped screen
//! itself lives in the hardware layer; this models its contents exactly.

use vstd::prelude::*;

verus! {

/// Number of character rows on the screen.
pub const BUFFER_HEIGHT: usize = 25;

/// Number of character columns on the screen.
pub const BUFFER_WIDTH: usize = 80;

/// The sixteen VGA text-mode colors.
#[derive(Debug, Clone, Copy, PartialEq, Eq, Structural)]
pub enum Color {
    Black,
    Blue,
    Green,
    Cyan,
    Red,
    Magenta,
    Brown,
    LightGray,
    DarkGray,
    LightBlue,
    LightGreen,
    LightCyan,
    LightRed,
    Pink,
    Yellow,
    White,
}

/// The hardware number of each color.
pub open spec fn spec_color_number(c: Color) -> u8 {
    match c {
        Color::Black => 0,
        Color::Blue => 1,
        Color::Green => 2,
        Color::Cyan => 3,
        Color::Red => 4,
        Color::Magenta => 5,
        Color::Brown => 6,
        Color::LightGray => 7,
        Color::DarkGray => 8,
        Color::LightBlue => 9,
        Color::LightGreen => 10,
        Color::LightCyan => 11,
        Color::LightRed => 12,
        Color::Pink => 13,
        Color::Yellow => 14,
        Color::White => 15,
    }
}

impl Color {
    /// The color's hardware number.
    pub fn number(&self) -> (r: u8)
        ensures
            r == spec_color_number(*self),
            r < 16,
    {
        match self {
            Color::Black => 0,
            Color::Blue => 1,
            Color::Green => 2,
            Color::Cyan => 3,
            Color::Red => 4,
            Color::Magenta => 5,
            Color::Brown => 6,
            Color::LightGray => 7,
            Color::DarkGray => 8,
            Color::LightBlue => 9,
            Color::LightGreen => 10,
            Color::LightCyan => 11,
            Color::LightRed => 12,
            Color::Pink => 13,
            Color::Yellow => 14,
            Color::White => 15,
        }
    }
}

/// A foreground and background color packed into one attribute byte.
#[derive(Debug, Clone, Copy, PartialEq, Eq, Structural)]
pub struct ColorCode {
    /// Background in the upper four bits, foreground in the lower four.
    pub code: u8,
}

impl ColorCode {
    /// Packs the two colors: background above, foreground below.
    pub fn new(foreground: Color, background: Color) -> (r: ColorCode)
        ensures
            r.code == (spec_color_number(background) << 4) | spec_color_number(foreground),
    {
        ColorCode { code: (background.number() << 4) | foreground.number() }
    }
}

/// One character cell: an ASCII byte and its color attribute.
#[derive(Debug, Clone, Copy, PartialEq, Eq, Structural)]
pub struct ScreenChar {
    /// The character shown.
    pub ascii_character: u8,
    /// Its colors.
    pub color_code: ColorCode,
}

/// A blank cell under the given colors.
pub open spec fn spec_blank(cc: ColorCode) -> ScreenChar {
    ScreenChar { ascii_character: 32, color_code: cc }
}

/// The screen scrolled up one row, with a fresh blank bottom row.
pub open spec fn spec_scrolled(b: Seq<ScreenChar>, cc: ColorCode) -> Seq<ScreenChar> {
    Seq::new(2000, |i: int| if i < 1920 { b[i + 80] } else { spec_blank(cc) })
}

/// The screen with `byte` written into column `col` of the bottom row.
pub open spec fn spec_put(b: Seq<ScreenChar>, col: int, byte: u8, cc: ColorCode) -> Seq<
    ScreenChar,
> {
    b.update(1920 + col, ScreenChar { ascii_character: byte, color_code: cc })
}

/// Writing one plain byte: scroll first when the row is full, then put the
/// byte and advance the column.
pub open spec fn spec_write_plain(b: Seq<ScreenChar>, col: int, cc: ColorCode, byte: u8) -> (
    Seq<ScreenChar>,
    int,
) {
    if col >= 80 {
        (spec_put(spec_scrolled(b, cc), 0, byte, cc), 1)
    } else {
        (spec_put(b, col, byte, cc), col + 1)
    }
}

/// Writing one byte: a newline scrolls, a tab writes four spaces, a
/// backspace blanks the previous column and steps back, anything else is a
/// plain write.
pub open spec fn spec_write_byte(b: Seq<ScreenChar>, col: int, cc: ColorCode, byte: u8) -> (
    Seq<ScreenChar>,
    int,
) {
    if byte == 10 {
        (spec_scrolled(b, cc), 0)
    } else if byte == 9 {
        let s1 = spec_write_plain(b, col, cc, 32);
        let s2 = spec_write_plain(s1.0, s1.1, cc, 32);
        let s3 = spec_write_plain(s2.0, s2.1, cc, 32);
        spec_write_plain(s3.0, s3.1, cc, 32)
    } else if byte == 16 {
        if col > 0 {
            (spec_put(b, col - 1, 32, cc), col - 1)
        } else {
            (b, col)
        }
    } else {
        spec_write_plain(b, col, cc, byte)
    }
}

/// Writes characters at the bottom row of the screen, scrolling upward.
pub struct Writer {
    /// The column the next character lands in.
    pub column_position: usize,
    /// The colors new characters carry.
    pub color_code: ColorCode,
    /// The screen contents, row-major: cell `(r, c)` at index `r * 80 + c`.
    pub buffer: Vec<ScreenChar>,
}

impl Writer {
    /// The screen holds exactly 25 by 80 cells and the column never runs
    /// past the row's end.
    pub open spec fn wf(&self) -> bool {
        &&& self.buffer@.len() == 2000
        &&& self.column_position <= 80
    }

    /// A blank screen writing in the given colors.
    pub fn new(color_code: ColorCode) -> (r: Writer)
        ensures
            r.wf(),
            r.column_position == 0,
            r.color_code == color_code,
            forall|i: int| 0 <= i < 2000 ==> r.buffer@[i] == spec_blank(color_code),
    {
        let mut buffer: Vec<ScreenChar> = Vec::new();
        let mut i: usize = 0;
        while i < 2000
            invariant
                i <= 2000,
                buffer@.len() == i,
                forall|j: int| 0 <= j < i ==> buffer@[j] == spec_blank(color_code),
            decreases 2000 - i,
        {
            buffer.push(ScreenChar { ascii_character: 32, color_code: color_code });
            i = i + 1;
        }
        Writer { column_position: 0, color_code: color_code, buffer }
    }

    /// Writes one byte at the bottom row: newline scrolls, tab writes four
    /// spaces, backspace steps back over the previous character, and any
    /// other byte lands in the current column, scrolling first when the row
    /// is full.
    pub fn write_byte(&mut self, byte: u8)
        requires
            old(self).wf(),
        ensures
            final(self).wf(),
            final(self).color_code == old(self).color_code,
            (final(self).buffer@, final(self).column_position as int) == spec_write_byte(
                old(self).buffer@,
                old(self).column_position as int,
                old(self).color_code,
                byte,
            ),
        decreases (if byte == 9 || byte == 16 {
            1int
        } else {
            0int
        }),
    {
        let cc = self.color_code;
        if byte == 10 {
            self.new_line();
        } else if byte == 9 {
            self.write_byte(32);
            self.write_byte(32);
            self.write_byte(32);
            self.write_byte(32);
        } else if byte == 16 {
            if self.column_position > 0 {
                self.column_position = self.column_position - 1;
                self.write_byte(32);
                self.column_position = self.column_position - 1;
            }
        } else {
            if self.column_position >= 80 {
                self.new_line();
            }
            let col = self.column_position;
            self.buffer[1920 + col] = ScreenChar { ascii_character: byte, color_code: cc };
            self.column_position = col + 1;
        }
    }

    /// Scrolls every row up by one, blanks the bottom row, and returns to
    /// the first column.
    pub fn new_line(&mut self)
        requires
            old(self).wf(),
        ensures
            final(self).wf(),
            final(self).color_code == old(self).color_code,
            final(self).column_position == 0,
            final(self).buffer@ == spec_scrolled(old(self).buffer@, old(self).color_code),
    {
        let ghost orig = self.buffer@;
        let mut i: usize = 0;
        while i < 1920
            invariant
                i <= 1920,
                self.buffer@.len() == 2000,
                self.column_position == old(self).column_position,
                old(self).wf(),
                self.color_code == old(self).color_code,
                forall|j: int| 0 <= j < i ==> self.buffer@[j] == orig[j + 80],
                forall|j: int| i <= j < 2000 ==> self.buffer@[j] == orig[j],
            decreases 1920 - i,
        {
            let c = self.buffer[i + 80];
            self.buffer[i] = c;
            i = i + 1;
        }
        self.clear_row(24);
        self.column_position = 0;
        proof {
            assert(self.buffer@ =~= spec_scrolled(orig, old(self).color_code));
        }
    }

    /// Blanks one row in the writer's colors; nothing else changes.
    pub fn clear_row(&mut self, row: usize)
        requires
            old(self).wf(),
            row < 25,
        ensures
            final(self).wf(),
            final(self).color_code == old(self).color_code,
            final(self).column_position == old(self).column_position,
            final(self).buffer@.len() == 2000,
            forall|j: int|
                row * 80 <= j < row * 80 + 80 ==> #[trigger] final(self).buffer@[j] == spec_blank(
                    old(self).color_code,
                ),
            forall|j: int|
                0 <= j < 2000 && !(row * 80 <= j < row * 80 + 80)
                    ==> #[trigger] final(self).buffer@[j] == old(self).buffer@[j],
    {
        let cc = self.color_code;
        let mut c: usize = 0;
        while c < 80
            invariant
                c <= 80,
                row < 25,
                self.buffer@.len() == 2000,
                self.color_code == old(self).color_code,
                self.column_position == old(self).column_position,
                forall|j: int|
                    row * 80 <= j < row * 80 + c ==> #[trigger] self.buffer@[j] == spec_blank(cc),
                forall|j: int|
                    0 <= j < 2000 && !(row * 80 <= j < row * 80 + c) ==> #[trigger] self.buffer@[j]
                        == old(self).buffer@[j],
            decreases 80 - c,
        {
            self.buffer[row * 80 + c] = ScreenChar { ascii_character: 32, color_code: cc };
            c = c + 1;
        }
    }
}

} // verus!
