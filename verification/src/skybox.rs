//! The sky behind the scene: one colour for space, and a pixel for each star.

use vstd::prelude::*;
use crate::color::Color;
use crate::framebuffer::{lemma_index_in_grid, Canvas, Framebuffer};

verus! {

/// The colours of a starry sky.
#[derive(Debug, Clone, Copy, PartialEq, Eq, Structural)]
pub struct Skybox {
    pub stars_color: Color,
    pub space_color: Color,
}

impl Canvas {
    /// Whether a star at `(x, y)` falls on the canvas.
    pub open spec fn holds_star(self, star: (i64, i64)) -> bool {
        0 <= star.0 < self.width && 0 <= star.1 < self.height
    }

    /// The pixels after a star was put on them; one off the canvas leaves
    /// them as they are.
    pub open spec fn with_star(self, pixels: Seq<u32>, star: (i64, i64), hex: u32) -> Seq<u32> {
        if self.holds_star(star) {
            pixels.update(self.index(star.0 as int, star.1 as int), hex)
        } else {
            pixels
        }
    }

    /// The pixels of a sky of colour `space` with the stars put on it one
    /// after the other.
    pub open spec fn sky_pixels(self, space: u32, hex: u32, stars: Seq<(i64, i64)>) -> Seq<u32>
        decreases stars.len(),
    {
        if stars.len() == 0 {
            Seq::new(self.width * self.height, |i: int| space)
        } else {
            self.with_star(self.sky_pixels(space, hex, stars.drop_last()), stars.last(), hex)
        }
    }
}

/// A pixel of the sky shows a star where one of the stars falls on it, and
/// space where none does.
pub proof fn lemma_sky_pixel(canvas: Canvas, space: u32, hex: u32, stars: Seq<(i64, i64)>, i: int)
    requires
        0 <= i < canvas.width * canvas.height,
    ensures
        canvas.sky_pixels(space, hex, stars).len() == canvas.width * canvas.height,
        canvas.sky_pixels(space, hex, stars)[i] == if exists|k: int|
            0 <= k < stars.len() && canvas.holds_star(#[trigger] stars[k]) && canvas.index(
                stars[k].0 as int,
                stars[k].1 as int,
            ) == i {
            hex
        } else {
            space
        },
    decreases stars.len(),
{
    if stars.len() > 0 {
        let rest = stars.drop_last();
        let last = stars.last();
        lemma_sky_pixel(canvas, space, hex, rest, i);
        if canvas.holds_star(last) {
            lemma_index_in_grid(
                last.0 as int,
                last.1 as int,
                canvas.width as int,
                canvas.height as int,
            );
        }
        let on_rest = exists|k: int|
            0 <= k < rest.len() && canvas.holds_star(#[trigger] rest[k]) && canvas.index(
                rest[k].0 as int,
                rest[k].1 as int,
            ) == i;
        let on_all = exists|k: int|
            0 <= k < stars.len() && canvas.holds_star(#[trigger] stars[k]) && canvas.index(
                stars[k].0 as int,
                stars[k].1 as int,
            ) == i;
        let last_hits = canvas.holds_star(last) && canvas.index(last.0 as int, last.1 as int)
            == i;
        if on_rest {
            let k = choose|k: int|
                0 <= k < rest.len() && canvas.holds_star(#[trigger] rest[k]) && canvas.index(
                    rest[k].0 as int,
                    rest[k].1 as int,
                ) == i;
            assert(stars[k] == rest[k]);
            assert(on_all);
        }
        if last_hits {
            assert(stars[stars.len() - 1] == last);
            assert(on_all);
        }
        if on_all {
            let k = choose|k: int|
                0 <= k < stars.len() && canvas.holds_star(#[trigger] stars[k]) && canvas.index(
                    stars[k].0 as int,
                    stars[k].1 as int,
                ) == i;
            if k < rest.len() {
                assert(rest[k] == stars[k]);
                assert(on_rest);
            } else {
                assert(last_hits);
            }
        }
    }
}

impl Skybox {
    /// A sky of these two colours.
    pub fn new(stars_color: Color, space_color: Color) -> (sky: Skybox)
        ensures
            sky == (Skybox { stars_color, space_color }),
    {
        Skybox { stars_color, space_color }
    }

    /// Paints the sky over the whole framebuffer: space everywhere, and each
    /// star of `stars`, given by its column and row, that falls on it.
    ///
    /// The sky has no depth: the depths stay as they are, so that whatever is
    /// drawn later at a cleared pixel covers the sky.
    pub fn render(&self, framebuffer: &mut Framebuffer, stars: &Vec<(i64, i64)>)
        requires
            old(framebuffer).wf(),
        ensures
            final(framebuffer).wf(),
            final(framebuffer)@ == (Canvas {
                pixels: old(framebuffer)@.sky_pixels(
                    self.space_color.hex(),
                    self.stars_color.hex(),
                    stars@,
                ),
                ..old(framebuffer)@
            }),
    {
        let background_color = self.space_color.to_hex();
        let star_color = self.stars_color.to_hex();
        let n = framebuffer.buffer.len();
        let mut i: usize = 0;
        while i < n
            invariant
                i <= n,
                n == framebuffer.buffer.len(),
                framebuffer.wf(),
                framebuffer@ == (Canvas { pixels: framebuffer@.pixels, ..old(framebuffer)@ }),
                forall|j: int| 0 <= j < i ==> framebuffer.buffer[j] == background_color,
            decreases n - i,
        {
            framebuffer.buffer.set(i, background_color);
            i += 1;
        }
        assert(framebuffer@.pixels =~= old(framebuffer)@.sky_pixels(
            background_color,
            star_color,
            stars@.take(0),
        ));
        let mut k: usize = 0;
        while k < stars.len()
            invariant
                k <= stars.len(),
                framebuffer.wf(),
                framebuffer@ == (Canvas {
                    pixels: old(framebuffer)@.sky_pixels(
                        background_color,
                        star_color,
                        stars@.take(k as int),
                    ),
                    ..old(framebuffer)@
                }),
            decreases stars.len() - k,
        {
            let (screen_x, screen_y) = stars[k];
            proof {
                assert(stars@.take(k as int + 1).drop_last() =~= stars@.take(k as int));
            }
            if screen_x >= 0 && screen_y >= 0 && (screen_x as u64) < (framebuffer.width as u64) && (
            screen_y as u64) < (framebuffer.height as u64) {
                proof {
                    lemma_index_in_grid(
                        screen_x as int,
                        screen_y as int,
                        framebuffer.width as int,
                        framebuffer.height as int,
                    );
                    assert(framebuffer.buffer.len() == framebuffer.width * framebuffer.height);
                }
                let index = (screen_y as usize) * framebuffer.width + (screen_x as usize);
                framebuffer.buffer.set(index, star_color);
            }
            k += 1;
        }
        assert(stars@.take(stars.len() as int) =~= stars@);
    }
}

} // verus!
