//! Raw ESC/POS control sequences.
use crate::instruction::justification::Justification;
use vstd::prelude::*;

verus! {

/// Escape, the byte that opens most control sequences.
pub const ESC: u8 = 0x1b;

/// Group separator, the byte that opens the raster image sequence.
pub const GS: u8 = 0x1d;

/// Line feed: prints the line buffer and moves to the start of the next line.
pub const LF: u8 = 0x0a;

/// Character sets that a printer can be asked to select.
#[derive(Clone, Copy, Debug, PartialEq, Eq, Hash, Structural)]
pub enum Font {
    FontA,
    FontB,
    FontC,
    FontD,
    FontE,
    SpecialFontA,
    SpecialFontB,
}

impl Font {
    /// The argument `n` of `ESC M n` that selects this font.
    pub open spec fn code(self) -> u8 {
        match self {
            Font::FontA => 0x00,
            Font::FontB => 0x01,
            Font::FontC => 0x02,
            Font::FontD => 0x03,
            Font::FontE => 0x04,
            Font::SpecialFontA => 0x61,
            Font::SpecialFontB => 0x62,
        }
    }

    /// Computes [`Font::code`].
    pub fn select_code(self) -> (n: u8)
        ensures
            n == self.code(),
    {
        match self {
            Font::FontA => 0x00,
            Font::FontB => 0x01,
            Font::FontC => 0x02,
            Font::FontD => 0x03,
            Font::FontE => 0x04,
            Font::SpecialFontA => 0x61,
            Font::SpecialFontB => 0x62,
        }
    }
}

/// The control sequences that text printing is made of.
#[derive(Clone, Copy, Debug, PartialEq, Eq, Structural)]
pub enum Command {
    /// `ESC M n`: select the character font.
    SelectFont { font: Font },
    /// `ESC a n`: select the justification of the following lines.
    Justify { justification: Justification },
    /// `LF`: end the current line.
    LineFeed,
}

impl Command {
    /// The bytes of this command on the wire.
    pub open spec fn bytes(self) -> Seq<u8> {
        match self {
            Command::SelectFont { font } => seq![ESC, 0x4du8, font.code()],
            Command::Justify { justification } => seq![ESC, 0x61u8, justification.code()],
            Command::LineFeed => seq![LF],
        }
    }

    /// Appends the command to a stream.
    pub fn write_to(&self, out: &mut Vec<u8>)
        ensures
            final(out)@ == old(out)@ + self.bytes(),
    {
        match self {
            Command::SelectFont { font } => {
                out.push(ESC);
                out.push(0x4d);
                out.push(font.select_code());
            },
            Command::Justify { justification } => {
                out.push(ESC);
                out.push(0x61);
                out.push(justification.select_code());
            },
            Command::LineFeed => {
                out.push(LF);
            },
        }
        assert(out@ =~= old(out)@ + self.bytes());
    }

    /// The command as a stream of its own.
    pub fn as_bytes(&self) -> (out: Vec<u8>)
        ensures
            out@ == self.bytes(),
    {
        let mut out: Vec<u8> = Vec::new();
        self.write_to(&mut out);
        assert(out@ =~= self.bytes());
        out
    }
}

} // verus!
