//! The framebuffer: a grid of packed colours with a depth for each pixel.

use vstd::prelude::*;
use crate::color::Color;

verus! {

/// What a framebuffer holds, as mathematics.
///
/// `pixels` and `depths` are row-major, the top row first. A depth of `None`
/// says that nothing was drawn at the pixel since the last clear.
pub struct Canvas {
    pub width: nat,
    pub height: nat,
    pub pixels: Seq<u32>,
    pub depths: Seq<Option<i32>>,
    pub background: Color,
    pub current: Color,
}

impl Canvas {
    /// Both grids have one entry for each pixel.
    pub open spec fn wf(self) -> bool {
        &&& self.pixels.len() == self.width * self.height
        &&& self.depths.len() == self.width * self.height
    }

    /// The index of the pixel in column `x` of row `y`.
    pub open spec fn index(self, x: int, y: int) -> int {
        y * self.width + x
    }

    /// Whether a point can be drawn at `(x, y)`: the pixel lies on the canvas.
    pub open spec fn drawable(self, x: int, y: int) -> bool {
        0 <= x < self.width && 0 <= y < self.height
    }

    /// Whether a point drawn at `(x, y)` with depth `depth` is kept: the pixel
    /// lies on the canvas and holds nothing yet, or something farther away.
    pub open spec fn accepts(self, x: int, y: int, depth: i32) -> bool {
        &&& self.drawable(x, y)
        &&& match self.depths[self.index(x, y)] {
            None => true,
            Some(stored) => depth < stored,
        }
    }

    /// The canvas after a point was drawn in the current colour.
    pub open spec fn draw_point(self, x: int, y: int, depth: i32) -> Canvas {
        if self.accepts(x, y, depth) {
            Canvas {
                pixels: self.pixels.update(self.index(x, y), self.current.hex()),
                depths: self.depths.update(self.index(x, y), Some(depth)),
                ..self
            }
        } else {
            self
        }
    }

    /// The canvas with every pixel in the background colour and no depth.
    pub open spec fn clear(self) -> Canvas {
        Canvas {
            pixels: Seq::new(self.width * self.height, |i: int| self.background.hex()),
            depths: Seq::new(self.width * self.height, |i: int| None),
            ..self
        }
    }

    /// The colour of the pixel at `(x, y)`, black outside the canvas.
    pub open spec fn point_color(self, x: int, y: int) -> Color {
        if 0 <= x < self.width && 0 <= y < self.height {
            Color::of_hex(self.pixels[self.index(x, y)])
        } else {
            Color { r: 0, g: 0, b: 0 }
        }
    }
}

/// A pixel buffer with a depth buffer beside it, a background colour and the
/// colour that points are drawn in.
pub struct Framebuffer {
    pub width: usize,
    pub height: usize,
    pub buffer: Vec<u32>,
    pub depth: Vec<Option<i32>>,
    pub background_color: Color,
    pub current_color: Color,
}

impl View for Framebuffer {
    type V = Canvas;

    open spec fn view(&self) -> Canvas {
        Canvas {
            width: self.width as nat,
            height: self.height as nat,
            pixels: self.buffer@,
            depths: self.depth@,
            background: self.background_color,
            current: self.current_color,
        }
    }
}

/// In a grid of `w` columns and `h` rows the pixel at `(x, y)` has its own
/// index below `w * h`.
pub proof fn lemma_index_in_grid(x: int, y: int, w: int, h: int)
    by (nonlinear_arith)
    requires
        0 <= x < w,
        0 <= y < h,
    ensures
        0 <= y * w + x < w * h,
        y * w <= w * h - w,
{
}

impl Framebuffer {
    /// Both buffers have one entry for each pixel.
    pub open spec fn wf(&self) -> bool {
        self@.wf()
    }

    /// A framebuffer filled with `background_color`; the current colour is
    /// black.
    pub fn new(width: usize, height: usize, background_color: Color) -> (fb: Framebuffer)
        requires
            width * height <= usize::MAX,
        ensures
            fb.wf(),
            fb@ == (Canvas {
                width: width as nat,
                height: height as nat,
                pixels: Seq::new((width * height) as nat, |i: int| background_color.hex()),
                depths: Seq::new((width * height) as nat, |i: int| None),
                background: background_color,
                current: Color { r: 0, g: 0, b: 0 },
            }),
    {
        let buffer_size = width * height;
        let buffer = vec![background_color.to_hex(); buffer_size];
        let depth: Vec<Option<i32>> = vec![None; buffer_size];
        let fb = Framebuffer {
            width,
            height,
            buffer,
            depth,
            background_color,
            current_color: Color::new(0, 0, 0),
        };
        assert(fb@.pixels =~= Seq::new((width * height) as nat, |i: int| background_color.hex()));
        assert(fb@.depths =~= Seq::new((width * height) as nat, |i: int| None));
        fb
    }

    /// A framebuffer with a white background.
    pub fn new_default(width: usize, height: usize) -> (fb: Framebuffer)
        requires
            width * height <= usize::MAX,
        ensures
            fb.wf(),
            fb@ == (Canvas {
                width: width as nat,
                height: height as nat,
                pixels: Seq::new((width * height) as nat, |i: int| 0xFF_FFFFu32),
                depths: Seq::new((width * height) as nat, |i: int| None),
                background: Color { r: 255, g: 255, b: 255 },
                current: Color { r: 0, g: 0, b: 0 },
            }),
    {
        let white_color = Color::new(255, 255, 255);
        let fb = Self::new(width, height, white_color);
        assert(fb@.pixels =~= Seq::new((width * height) as nat, |i: int| 0xFF_FFFFu32));
        fb
    }

    /// Fills every pixel with the background colour and forgets every depth.
    pub fn clear(&mut self)
        requires
            old(self).wf(),
        ensures
            final(self).wf(),
            final(self)@ == old(self)@.clear(),
    {
        let background_hex = self.background_color.to_hex();
        let n = self.buffer.len();
        let mut i: usize = 0;
        while i < n
            invariant
                i <= n,
                n == self.buffer.len(),
                n == self.depth.len(),
                n == self.width * self.height,
                self.width == old(self).width,
                self.height == old(self).height,
                self.background_color == old(self).background_color,
                self.current_color == old(self).current_color,
                background_hex == self.background_color.hex(),
                forall|j: int| 0 <= j < i ==> self.buffer[j] == background_hex,
                forall|j: int| 0 <= j < i ==> self.depth[j] == None::<i32>,
            decreases n - i,
        {
            self.buffer.set(i, background_hex);
            self.depth.set(i, None);
            i += 1;
        }
        assert(self@.pixels =~= old(self)@.clear().pixels);
        assert(self@.depths =~= old(self)@.clear().depths);
    }

    /// Draws a point in the current colour, unless the pixel lies outside the
    /// framebuffer or already shows something at least as near.
    pub fn draw_point(&mut self, x: usize, y: usize, depth: i32)
        requires
            old(self).wf(),
        ensures
            final(self).wf(),
            final(self)@ == old(self)@.draw_point(x as int, y as int, depth),
    {
        if x < self.width && y < self.height {
            proof {
                lemma_index_in_grid(x as int, y as int, self.width as int, self.height as int);
                assert(self.buffer.len() == self.width * self.height);
            }
            let index = y * self.width + x;
            let nearer = match self.depth[index] {
                None => true,
                Some(stored) => depth < stored,
            };
            if nearer {
                let hex = self.current_color.to_hex();
                self.buffer.set(index, hex);
                self.depth.set(index, Some(depth));
            }
        }
    }

    /// The colour of the pixel at `(x, y)`, black outside the framebuffer.
    pub fn get_point_color(&self, x: usize, y: usize) -> (color: Color)
        requires
            self.wf(),
        ensures
            color == self@.point_color(x as int, y as int),
    {
        if x < self.width && y < self.height {
            proof {
                lemma_index_in_grid(x as int, y as int, self.width as int, self.height as int);
                assert(self.buffer.len() == self.width * self.height);
            }
            let index = y * self.width + x;
            return Color::from_hex(self.buffer[index]);
        }
        Color::new(0, 0, 0)
    }

    /// Changes the background colour and clears the framebuffer with it.
    pub fn set_background_color(&mut self, color: Color)
        requires
            old(self).wf(),
        ensures
            final(self).wf(),
            final(self)@ == (Canvas { background: color, ..old(self)@ }).clear(),
    {
        self.background_color = color;
        self.clear();
    }

    /// Changes the background colour to the packed colour `hex` and clears the
    /// framebuffer with it.
    pub fn set_background_color_hex(&mut self, hex: u32)
        requires
            old(self).wf(),
        ensures
            final(self).wf(),
            final(self)@ == (Canvas { background: Color::of_hex(hex), ..old(self)@ }).clear(),
    {
        self.background_color = Color::from_hex(hex);
        self.clear();
    }

    /// Changes the colour that points are drawn in.
    pub fn set_current_color(&mut self, color: Color)
        ensures
            final(self)@ == (Canvas { current: color, ..old(self)@ }),
    {
        self.current_color = color;
    }

    /// Changes the colour that points are drawn in to the packed colour `hex`.
    pub fn set_current_color_hex(&mut self, hex: u32)
        ensures
            final(self)@ == (Canvas { current: Color::of_hex(hex), ..old(self)@ }),
    {
        self.current_color = Color::from_hex(hex);
    }
}

/// The nearer of two points drawn at one pixel stays, in whichever order they
/// are drawn: drawn last it replaces the farther one, drawn first it is not
/// replaced by it. This holds where the pixel takes the nearer point at all:
/// on the canvas, and with nothing nearer drawn there before.
pub proof fn lemma_nearer_point_stays(
    canvas: Canvas,
    x: int,
    y: int,
    near: i32,
    far: i32,
    near_color: Color,
    far_color: Color,
)
    requires
        canvas.wf(),
        canvas.accepts(x, y, near),
        near < far,
    ensures
        ({
            let far_first = (Canvas { current: far_color, ..canvas }).draw_point(x, y, far);
            let then_near = (Canvas { current: near_color, ..far_first }).draw_point(x, y, near);
            &&& then_near.pixels[canvas.index(x, y)] == near_color.hex()
            &&& then_near.depths[canvas.index(x, y)] == Some(near)
        }),
        ({
            let near_first = (Canvas { current: near_color, ..canvas }).draw_point(x, y, near);
            let then_far = (Canvas { current: far_color, ..near_first }).draw_point(x, y, far);
            &&& then_far.pixels == near_first.pixels
            &&& then_far.depths == near_first.depths
            &&& then_far.pixels[canvas.index(x, y)] == near_color.hex()
            &&& then_far.depths[canvas.index(x, y)] == Some(near)
        }),
{
    lemma_index_in_grid(x, y, canvas.width as int, canvas.height as int);
}

/// A cleared canvas is well formed, shows the background everywhere, and
/// takes a point of any depth at every pixel.
pub proof fn lemma_cleared_canvas(canvas: Canvas, x: int, y: int, depth: i32)
    requires
        0 <= x < canvas.width,
        0 <= y < canvas.height,
    ensures
        canvas.clear().wf(),
        canvas.clear().point_color(x, y) == canvas.background,
        canvas.clear().accepts(x, y, depth),
{
    lemma_index_in_grid(x, y, canvas.width as int, canvas.height as int);
    crate::color::lemma_hex_round_trip(canvas.background);
}

/// Drawing a point changes no pixel but its own, and no depth but its own.
pub proof fn lemma_draw_point_is_local(canvas: Canvas, x: int, y: int, depth: i32, i: int)
    requires
        canvas.wf(),
        0 <= i < canvas.pixels.len(),
        i != canvas.index(x, y),
    ensures
        canvas.draw_point(x, y, depth).pixels[i] == canvas.pixels[i],
        canvas.draw_point(x, y, depth).depths[i] == canvas.depths[i],
        canvas.draw_point(x, y, depth).wf(),
{
    if canvas.accepts(x, y, depth) {
        lemma_index_in_grid(x, y, canvas.width as int, canvas.height as int);
    }
}

} // verus!
