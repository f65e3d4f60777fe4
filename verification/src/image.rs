//! Monochrome bitmaps and the raster command that prints them.
//!
//! An image goes to the printer as one `GS v 0` block: a header with the
//! bytes per row and the number of rows, then the rows from top to bottom.
//! Each byte of a row holds eight dots, the leftmost in the highest bit; the
//! last byte of a row is filled up with blank dots.
use crate::command::GS;
use crate::error::Error;
use crate::printer::printer_profile::{PrinterProfile, PrinterProfileView};
use vstd::prelude::*;

verus! {

/// What a [`Bitmap`] stands for.
pub ghost struct BitmapView {
    /// Dots per row.
    pub width: int,
    /// Rows.
    pub height: int,
    /// The dots row by row, `true` for a printed dot.
    pub pixels: Seq<bool>,
}

impl BitmapView {
    /// What every bitmap satisfies: it has at least one dot, both sides fit
    /// in sixteen bits, and it holds one value for each dot.
    pub open spec fn wf(self) -> bool {
        &&& 0 < self.width <= u16::MAX
        &&& 0 < self.height <= u16::MAX
        &&& self.pixels.len() == self.width * self.height
    }

    /// The dot in column `col` of row `row` is printed. Columns beyond the
    /// width are blank.
    pub open spec fn dark(self, row: int, col: int) -> bool {
        0 <= col < self.width && self.pixels[row * self.width + col]
    }

    /// `weight` where the dot is printed, else 0.
    pub open spec fn dot(self, row: int, col: int, weight: int) -> int {
        if self.dark(row, col) {
            weight
        } else {
            0
        }
    }

    /// The bytes that one row takes.
    pub open spec fn row_bytes(self) -> int {
        (self.width + 7) / 8
    }

    /// Byte `k` of row `row`: the dots of columns `8k` to `8k + 7`, the
    /// leftmost in the highest bit.
    pub open spec fn byte_at(self, row: int, k: int) -> int {
        self.dot(row, 8 * k, 128) + self.dot(row, 8 * k + 1, 64) + self.dot(row, 8 * k + 2, 32)
            + self.dot(row, 8 * k + 3, 16) + self.dot(row, 8 * k + 4, 8) + self.dot(
            row,
            8 * k + 5,
            4,
        ) + self.dot(row, 8 * k + 6, 2) + self.dot(row, 8 * k + 7, 1)
    }

    /// The first `count` bytes of row `row`.
    pub open spec fn row_prefix(self, row: int, count: int) -> Seq<u8> {
        Seq::new(count as nat, |k: int| self.byte_at(row, k) as u8)
    }

    /// The first `count` rows, one after the other.
    pub open spec fn rows(self, count: int) -> Seq<u8>
        decreases count,
    {
        if count <= 0 {
            seq![]
        } else {
            self.rows(count - 1) + self.row_prefix(count - 1, self.row_bytes())
        }
    }

    /// The head of the raster block: `GS v 0`, mode 0, then the bytes per
    /// row and the number of rows, each low byte first.
    pub open spec fn header(self) -> Seq<u8> {
        seq![
            GS,
            0x76u8,
            0x30u8,
            0x00u8,
            (self.row_bytes() % 256) as u8,
            (self.row_bytes() / 256) as u8,
            (self.height % 256) as u8,
            (self.height / 256) as u8,
        ]
    }

    /// The raster block that prints the bitmap.
    pub open spec fn raster(self) -> Seq<u8> {
        self.header() + self.rows(self.height)
    }
}

/// A rectangular monochrome image, already decoded.
#[derive(Debug)]
pub struct Bitmap {
    width: u16,
    height: u16,
    pixels: Vec<bool>,
}

impl View for Bitmap {
    type V = BitmapView;

    closed spec fn view(&self) -> BitmapView {
        BitmapView { width: self.width as int, height: self.height as int, pixels: self.pixels@ }
    }
}

/// What encoding an image gives on a printer with this profile: the raster
/// block, or the refusal of an image wider than the printer prints.
pub open spec fn image_encoding(bitmap: BitmapView, profile: PrinterProfileView) -> Result<
    Seq<u8>,
    Error,
> {
    if bitmap.width > profile.width {
        Err(Error::ImageTooWide { actual: bitmap.width as u16, max: profile.width })
    } else {
        Ok(bitmap.raster())
    }
}

/// `result` is what [`encode_image`] returns on these arguments.
pub open spec fn is_image_encoding(
    result: Result<Vec<u8>, Error>,
    bitmap: BitmapView,
    profile: PrinterProfileView,
) -> bool {
    match image_encoding(bitmap, profile) {
        Ok(bytes) => result matches Ok(stream) && stream@ == bytes,
        Err(error) => result matches Err(e) && e == error,
    }
}

/// The first `count` rows take `count` times the bytes of one row.
pub proof fn lemma_rows_len(bitmap: BitmapView, count: int)
    requires
        bitmap.wf(),
        0 <= count,
    ensures
        bitmap.rows(count).len() == count * bitmap.row_bytes(),
    decreases count,
{
    let row_bytes = bitmap.row_bytes();
    if count > 0 {
        lemma_rows_len(bitmap, count - 1);
        assert(bitmap.row_prefix(count - 1, row_bytes).len() == row_bytes);
        assert(count * row_bytes == (count - 1) * row_bytes + row_bytes) by (nonlinear_arith);
    } else {
        assert(count * row_bytes == 0) by (nonlinear_arith)
            requires
                count == 0,
        ;
    }
}

/// A raster block is its header of eight bytes and then one byte for every
/// eight dots of every row, the last byte of a row counted in full.
pub proof fn lemma_raster_len(bitmap: BitmapView)
    requires
        bitmap.wf(),
    ensures
        bitmap.raster().len() == 8 + bitmap.height * ((bitmap.width + 7) / 8),
{
    lemma_rows_len(bitmap, bitmap.height);
}

impl Bitmap {
    #[verifier::type_invariant]
    spec fn inv(&self) -> bool {
        self@.wf()
    }

    /// A bitmap of `width` by `height` dots with `pixels` as its dots, row
    /// by row. `None` where a side is zero or `pixels` does not hold exactly
    /// one value for each dot.
    pub fn new(width: u16, height: u16, pixels: Vec<bool>) -> (bitmap: Option<Bitmap>)
        ensures
            match bitmap {
                Some(b) => b@ == (BitmapView {
                    width: width as int,
                    height: height as int,
                    pixels: pixels@,
                }) && b@.wf(),
                None => width == 0 || height == 0 || pixels@.len() != width * height,
            },
    {
        if width == 0 || height == 0 {
            return None;
        }
        assert(width * height <= 65535 * 65535) by (nonlinear_arith)
            requires
                0 <= width <= 65535,
                0 <= height <= 65535,
        ;
        let dots: u64 = (width as u64) * (height as u64);
        if pixels.len() as u64 != dots {
            return None;
        }
        Some(Bitmap { width, height, pixels })
    }

    /// Dots per row.
    pub fn width(&self) -> (width: u16)
        ensures
            width == self@.width,
            self@.wf(),
    {
        proof {
            use_type_invariant(self);
        }
        self.width
    }

    /// Rows.
    pub fn height(&self) -> (height: u16)
        ensures
            height == self@.height,
            self@.wf(),
    {
        proof {
            use_type_invariant(self);
        }
        self.height
    }

    /// `weight` where the dot in column `col` of row `row` is printed, else
    /// 0.
    fn dot(&self, row: usize, col: usize, weight: u8) -> (value: u8)
        requires
            row < self@.height,
            col < 8 * self@.row_bytes(),
        ensures
            value == self@.dot(row as int, col as int, weight as int),
    {
        proof {
            use_type_invariant(self);
        }
        let width = self.width as usize;
        if col < width {
            assert(row * width + col < width * self.height && row * width <= 65535 * 65535) by (nonlinear_arith)
                requires
                    0 <= row < self.height <= 65535,
                    0 <= col < width <= 65535,
            ;
            if self.pixels[row * width + col] {
                weight
            } else {
                0
            }
        } else {
            0
        }
    }

    /// Byte `k` of row `row` of the raster.
    fn byte_at(&self, row: usize, k: usize) -> (byte: u8)
        requires
            row < self@.height,
            k < self@.row_bytes(),
        ensures
            byte == self@.byte_at(row as int, k as int),
    {
        proof {
            use_type_invariant(self);
        }
        let col = 8 * k;
        let mut byte: u8 = self.dot(row, col, 128);
        byte = byte + self.dot(row, col + 1, 64);
        byte = byte + self.dot(row, col + 2, 32);
        byte = byte + self.dot(row, col + 3, 16);
        byte = byte + self.dot(row, col + 4, 8);
        byte = byte + self.dot(row, col + 5, 4);
        byte = byte + self.dot(row, col + 6, 2);
        byte = byte + self.dot(row, col + 7, 1);
        byte
    }
}

/// Encodes `bitmap` for a printer with this profile.
///
/// Fails with [`Error::ImageTooWide`] exactly when the bitmap has more dots
/// per row than the printer prints. Otherwise the stream is the raster
/// block of the bitmap.
pub fn encode_image(bitmap: &Bitmap, profile: &PrinterProfile) -> (result: Result<Vec<u8>, Error>)
    ensures
        is_image_encoding(result, bitmap@, profile@),
{
    let max = profile.width();
    let actual = bitmap.width();
    if actual > max {
        return Err(Error::ImageTooWide { actual, max });
    }
    let ghost view = bitmap@;
    let height = bitmap.height() as usize;
    let row_bytes: usize = (actual as usize + 7) / 8;
    let mut stream: Vec<u8> = Vec::new();
    stream.push(GS);
    stream.push(0x76);
    stream.push(0x30);
    stream.push(0x00);
    stream.push((row_bytes % 256) as u8);
    stream.push((row_bytes / 256) as u8);
    stream.push((height % 256) as u8);
    stream.push((height / 256) as u8);
    assert(stream@ =~= view.header());
    let mut row: usize = 0;
    assert(stream@ =~= view.header() + view.rows(0));
    while row < height
        invariant
            view == bitmap@,
            view.wf(),
            height == view.height,
            row_bytes == view.row_bytes(),
            row <= height,
            stream@ == view.header() + view.rows(row as int),
        decreases height - row,
    {
        let ghost before = stream@;
        let mut k: usize = 0;
        assert(stream@ =~= before + view.row_prefix(row as int, 0));
        while k < row_bytes
            invariant
                view == bitmap@,
                view.wf(),
                row < height == view.height,
                row_bytes == view.row_bytes(),
                k <= row_bytes,
                stream@ == before + view.row_prefix(row as int, k as int),
            decreases row_bytes - k,
        {
            stream.push(bitmap.byte_at(row, k));
            k += 1;
            assert(stream@ =~= before + view.row_prefix(row as int, k as int));
        }
        row += 1;
        assert(stream@ =~= view.header() + view.rows(row as int));
    }
    Ok(stream)
}

} // verus!
