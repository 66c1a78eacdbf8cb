//! Export of a framebuffer as an uncompressed bitmap file of 32 bits per
//! pixel, the bottom row first.

use vstd::prelude::*;
use vstd::arithmetic::div_mod::lemma_fundamental_div_mod_converse;
use crate::color::Color;
use crate::framebuffer::{lemma_index_in_grid, Canvas, Framebuffer};

verus! {

/// The two bytes of `v`, the low byte first.
pub open spec fn le16(v: u16) -> Seq<u8> {
    seq![(v % 256) as u8, (v / 256) as u8]
}

/// The four bytes of `v`, the low byte first.
pub open spec fn le32(v: u32) -> Seq<u8> {
    seq![
        (v % 256) as u8,
        ((v / 256) % 256) as u8,
        ((v / 65536) % 256) as u8,
        (v / 16777216) as u8,
    ]
}

/// The file header and the information header of a bitmap of `width` by
/// `height` pixels: 14 and 40 bytes.
pub open spec fn bmp_header(width: nat, height: nat) -> Seq<u8>
    recommends
        bmp_fits(width, height),
{
    seq![0x42u8, 0x4Du8]
        + le32((54 + width * height * 4) as u32)  // size of the file
        + le32(0)  // reserved
        + le32(54)  // where the pixels start
        + le32(40)  // size of the information header
        + le32(width as u32)
        + le32(height as u32)
        + le16(1)  // planes
        + le16(32)  // bits per pixel
        + le32(0)  // no compression
        + le32((width * height * 4) as u32)  // size of the pixels
        + le32(0)  // horizontal resolution
        + le32(0)  // vertical resolution
        + le32(0)  // colours in the palette
        + le32(0)  // important colours
}

/// Whether the header's 32-bit fields can hold a bitmap of this size.
pub open spec fn bmp_fits(width: nat, height: nat) -> bool {
    &&& width <= i32::MAX
    &&& height <= i32::MAX
    &&& 54 + width * height * 4 <= u32::MAX
}

/// The four bytes of a pixel in the file: blue, green, red, and an alpha of
/// 255.
pub open spec fn bmp_pixel(hex: u32) -> Seq<u8> {
    let c = Color::of_hex(hex);
    seq![c.b, c.g, c.r, 0xFFu8]
}

impl Canvas {
    /// Whether the canvas can be written as a bitmap file.
    pub open spec fn fits_bmp(self) -> bool {
        bmp_fits(self.width, self.height)
    }

    /// Byte `i` of the pixel data: the rows from the bottom up, each from left
    /// to right, four bytes for each pixel.
    pub open spec fn bmp_byte(self, i: int) -> u8 {
        let pixel = i / 4;
        let row = pixel / (self.width as int);
        let column = pixel % (self.width as int);
        bmp_pixel(self.pixels[(self.height - 1 - row) * self.width + column])[i % 4]
    }

    /// The pixel data of the bitmap file.
    pub open spec fn bmp_pixel_data(self) -> Seq<u8> {
        Seq::new(self.width * self.height * 4, |i: int| self.bmp_byte(i))
    }

    /// The whole bitmap file.
    pub open spec fn bmp_file(self) -> Seq<u8> {
        bmp_header(self.width, self.height) + self.bmp_pixel_data()
    }
}

/// The bytes of the pixel in column `column` of row `row` of the file stand
/// at `4 * (row * width + column)`, and show the pixel of the canvas in the
/// same column, `row` rows above the bottom.
proof fn lemma_bmp_byte(canvas: Canvas, row: int, column: int, pixel: int, k: int)
    requires
        0 <= row < canvas.height,
        0 <= column < canvas.width,
        pixel == row * canvas.width + column,
        0 <= k < 4,
    ensures
        canvas.bmp_byte(4 * pixel + k) == bmp_pixel(
            canvas.pixels[(canvas.height - 1 - row) * canvas.width + column],
        )[k],
{
    let w = canvas.width as int;
    assert((4 * pixel + k) / 4 == pixel);
    assert((4 * pixel + k) % 4 == k);
    lemma_fundamental_div_mod_converse(pixel, w, row, column);
}

/// A bitmap file is 54 bytes of headers and four bytes for each pixel, the
/// fourth of them 255; it starts with the letters "BM".
pub proof fn lemma_bmp_layout(canvas: Canvas)
    requires
        canvas.wf(),
    ensures
        bmp_header(canvas.width, canvas.height).len() == 54,
        canvas.bmp_pixel_data().len() == 4 * (canvas.width * canvas.height),
        canvas.bmp_file().len() == 54 + 4 * (canvas.width * canvas.height),
        canvas.bmp_file()[0] == 0x42,
        canvas.bmp_file()[1] == 0x4D,
        forall|i: int|
            0 <= i < canvas.bmp_pixel_data().len() && i % 4 == 3
                ==> #[trigger] canvas.bmp_pixel_data()[i] == 0xFF,
{
}

fn push_u16_le(out: &mut Vec<u8>, v: u16)
    ensures
        final(out)@ == old(out)@ + le16(v),
{
    out.push((v % 256) as u8);
    out.push((v / 256) as u8);
    assert(out@ =~= old(out)@ + le16(v));
}

fn push_u32_le(out: &mut Vec<u8>, v: u32)
    ensures
        final(out)@ == old(out)@ + le32(v),
{
    out.push((v % 256) as u8);
    out.push(((v / 256) % 256) as u8);
    out.push(((v / 65536) % 256) as u8);
    out.push((v / 16777216) as u8);
    assert(out@ =~= old(out)@ + le32(v));
}

impl Framebuffer {
    /// Whether the framebuffer can be written as a bitmap file: its width and
    /// height fit in 31 bits and the size of the file in 32.
    pub fn fits_bmp(&self) -> (fits: bool)
        requires
            self.wf(),
        ensures
            fits == self@.fits_bmp(),
    {
        if self.width > 0x7FFF_FFFF || self.height > 0x7FFF_FFFF {
            return false;
        }
        let pixels = self.buffer.len();
        assert(pixels == self.width * self.height);
        pixels <= 0x3FFF_FFF2
    }

    /// Appends the 54 bytes of the file header and the information header to
    /// `out`.
    pub fn write_bmp_header(&self, out: &mut Vec<u8>)
        requires
            self.wf(),
            self@.fits_bmp(),
        ensures
            final(out)@ == old(out)@ + bmp_header(self@.width, self@.height),
    {
        let pixels = self.buffer.len();
        assert(pixels == self.width * self.height);
        let image_size: u32 = (pixels * 4) as u32;
        let file_size: u32 = 14 + 40 + image_size;

        out.push(0x42);
        out.push(0x4D);
        assert(out@ =~= old(out)@ + seq![0x42u8, 0x4Du8]);
        push_u32_le(out, file_size);
        push_u32_le(out, 0);
        push_u32_le(out, 14 + 40);

        push_u32_le(out, 40);
        push_u32_le(out, self.width as u32);
        push_u32_le(out, self.height as u32);
        push_u16_le(out, 1);
        push_u16_le(out, 32);
        push_u32_le(out, 0);
        push_u32_le(out, image_size);
        push_u32_le(out, 0);
        push_u32_le(out, 0);
        push_u32_le(out, 0);
        push_u32_le(out, 0);
        assert(out@ =~= old(out)@ + bmp_header(self@.width, self@.height));
    }

    /// Appends the pixels to `out`: the bottom row first, each pixel as blue,
    /// green, red and an alpha of 255.
    pub fn write_pixel_data(&self, out: &mut Vec<u8>)
        requires
            self.wf(),
        ensures
            final(out)@ == old(out)@ + self@.bmp_pixel_data(),
    {
        let ghost start = out@;
        let ghost mut done: int = 0;
        let mut row: usize = 0;
        while row < self.height
            invariant
                self.wf(),
                row <= self.height,
                done == row * self.width,
                out@.len() == start.len() + 4 * done,
                forall|i: int| 0 <= i < start.len() ==> out@[i] == start[i],
                forall|i: int|
                    0 <= i < 4 * done ==> out@[start.len() + i] == #[trigger] self@.bmp_byte(i),
            decreases self.height - row,
        {
            let y = self.height - 1 - row;
            let mut x: usize = 0;
            while x < self.width
                invariant
                    self.wf(),
                    row < self.height,
                    y == self.height - 1 - row,
                    x <= self.width,
                    done == row * self.width + x,
                    out@.len() == start.len() + 4 * done,
                    forall|i: int| 0 <= i < start.len() ==> out@[i] == start[i],
                    forall|i: int|
                        0 <= i < 4 * done ==> out@[start.len() + i] == #[trigger] self@.bmp_byte(
                            i,
                        ),
                decreases self.width - x,
            {
                proof {
                    lemma_index_in_grid(x as int, y as int, self.width as int, self.height as int);
                    assert(self.buffer.len() == self.width * self.height);
                    lemma_bmp_byte(self@, row as int, x as int, done, 0);
                    lemma_bmp_byte(self@, row as int, x as int, done, 1);
                    lemma_bmp_byte(self@, row as int, x as int, done, 2);
                    lemma_bmp_byte(self@, row as int, x as int, done, 3);
                }
                let index = y * self.width + x;
                let color = Color::from_hex(self.buffer[index]);
                out.push(color.b);
                out.push(color.g);
                out.push(color.r);
                out.push(0xFF);
                proof {
                    done = done + 1;
                }
                x += 1;
            }
            proof {
                assert((row + 1) * self.width == row * self.width + self.width)
                    by (nonlinear_arith);
            }
            row += 1;
        }
        proof {
            assert(done == self.width * self.height) by (nonlinear_arith)
                requires
                    done == row * self.width,
                    row == self.height,
            ;
            assert(out@ =~= start + self@.bmp_pixel_data());
        }
    }

    /// The framebuffer as a bitmap file, or `None` where it is too large for
    /// one.
    pub fn render_buffer(&self) -> (file: Option<Vec<u8>>)
        requires
            self.wf(),
        ensures
            file is Some <==> self@.fits_bmp(),
            file matches Some(bytes) ==> bytes@ == self@.bmp_file(),
    {
        if !self.fits_bmp() {
            return None;
        }
        let mut bytes: Vec<u8> = Vec::new();
        self.write_bmp_header(&mut bytes);
        self.write_pixel_data(&mut bytes);
        assert(bytes@ =~= self@.bmp_file());
        Some(bytes)
    }
}

} // verus!
