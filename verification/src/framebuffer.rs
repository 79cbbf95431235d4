//! The scene's framebuffer: an RGBA colour grid with a depth buffer, a
//! background colour that clearing paints, and a current colour that plain
//! pixel writes use.
//!
//! Depths are order keys as in [`crate::planet_lab::framebuffer`]: smaller
//! is nearer, and [`FAR_DEPTH`] (positive infinity) fills a cleared buffer.
use vstd::prelude::*;

use crate::planet_lab::framebuffer::{depth_after, lemma_index_below, FAR_DEPTH};

verus! {

/// An 8-bit-per-channel RGBA colour.
#[derive(Clone, Copy, Debug, PartialEq, Eq)]
pub struct Color {
    pub r: u8,
    pub g: u8,
    pub b: u8,
    pub a: u8,
}

impl Color {
    pub fn new(r: u8, g: u8, b: u8, a: u8) -> (c: Color)
        ensures
            c == (Color { r, g, b, a }),
    {
        Color { r, g, b, a }
    }

    /// Opaque black.
    pub open spec fn spec_black() -> Color {
        Color { r: 0, g: 0, b: 0, a: 255 }
    }

    /// Opaque white.
    pub open spec fn spec_white() -> Color {
        Color { r: 255, g: 255, b: 255, a: 255 }
    }

    pub fn black() -> (c: Color)
        ensures
            c == Self::spec_black(),
    {
        Color { r: 0, g: 0, b: 0, a: 255 }
    }

    pub fn white() -> (c: Color)
        ensures
            c == Self::spec_white(),
    {
        Color { r: 255, g: 255, b: 255, a: 255 }
    }
}

/// A `width` by `height` colour grid, row by row, with one depth key per pixel.
pub struct Framebuffer {
    pub width: u32,
    pub height: u32,
    pub color_buffer: Vec<Color>,
    pub depth_buffer: Vec<u32>,
    pub background_color: Color,
    pub current_color: Color,
}

impl Framebuffer {
    /// Both buffers hold one entry per pixel.
    pub open spec fn wf(&self) -> bool {
        &&& self.color_buffer@.len() == self.width * self.height
        &&& self.depth_buffer@.len() == self.width * self.height
        &&& self.width * self.height <= u32::MAX
    }

    /// The colour that [`Framebuffer::clear`] paints.
    pub open spec fn background(&self) -> Color {
        self.background_color
    }

    /// The colour that [`Framebuffer::set_pixel`] writes.
    pub open spec fn current(&self) -> Color {
        self.current_color
    }

    /// The row-major index of pixel `(x, y)`.
    pub open spec fn index_of(&self, x: u32, y: u32) -> int {
        y * self.width + x
    }

    /// Pixel `(x, y)` lies on the grid.
    pub open spec fn on_grid(&self, x: u32, y: u32) -> bool {
        x < self.width && y < self.height
    }

    /// A `width` by `height` framebuffer: all black, all at [`FAR_DEPTH`],
    /// with a black background and white as the current colour.
    pub fn new(width: u32, height: u32) -> (fb: Self)
        requires
            width * height <= u32::MAX,
        ensures
            fb.width == width,
            fb.height == height,
            fb.wf(),
            forall|i: int|
                0 <= i < width * height ==> fb.color_buffer@[i] == Color::spec_black()
                    && fb.depth_buffer@[i] == FAR_DEPTH,
            fb.background() == Color::spec_black(),
            fb.current() == Color::spec_white(),
    {
        let n = (width * height) as usize;
        let mut color_buffer: Vec<Color> = Vec::new();
        let mut depth_buffer: Vec<u32> = Vec::new();
        let mut i: usize = 0;
        while i < n
            invariant
                i <= n,
                n == width * height,
                color_buffer@.len() == i,
                depth_buffer@.len() == i,
                forall|j: int|
                    0 <= j < i ==> color_buffer@[j] == Color::spec_black() && depth_buffer@[j]
                        == FAR_DEPTH,
            decreases n - i,
        {
            color_buffer.push(Color::black());
            depth_buffer.push(FAR_DEPTH);
            i = i + 1;
        }
        Framebuffer {
            width,
            height,
            color_buffer,
            depth_buffer,
            background_color: Color::black(),
            current_color: Color::white(),
        }
    }

    /// Paints every pixel the background colour and sets every depth to
    /// [`FAR_DEPTH`].
    pub fn clear(&mut self)
        requires
            old(self).wf(),
        ensures
            final(self).wf(),
            final(self).width == old(self).width,
            final(self).height == old(self).height,
            final(self).background() == old(self).background(),
            final(self).current() == old(self).current(),
            forall|i: int|
                0 <= i < final(self).width * final(self).height ==> final(self).color_buffer@[i]
                    == old(self).background() && final(self).depth_buffer@[i] == FAR_DEPTH,
    {
        let n = self.color_buffer.len();
        let bg = self.background_color;
        let mut i: usize = 0;
        while i < n
            invariant
                i <= n,
                n == self.width * self.height,
                self.width * self.height <= u32::MAX,
                self.width == old(self).width,
                self.height == old(self).height,
                self.background_color == old(self).background_color,
                self.current_color == old(self).current_color,
                bg == old(self).background_color,
                self.color_buffer@.len() == n,
                self.depth_buffer@.len() == n,
                forall|j: int|
                    0 <= j < i ==> self.color_buffer@[j] == bg && self.depth_buffer@[j] == FAR_DEPTH,
            decreases n - i,
        {
            self.color_buffer.set(i, bg);
            self.depth_buffer.set(i, FAR_DEPTH);
            i = i + 1;
        }
    }

    /// Paints pixel `(x, y)` the current colour, when it lies on the grid.
    pub fn set_pixel(&mut self, x: u32, y: u32)
        requires
            old(self).wf(),
        ensures
            final(self).wf(),
            final(self).width == old(self).width,
            final(self).height == old(self).height,
            final(self).background() == old(self).background(),
            final(self).current() == old(self).current(),
            final(self).depth_buffer@ == old(self).depth_buffer@,
            final(self).color_buffer@ == if old(self).on_grid(x, y) {
                old(self).color_buffer@.update(old(self).index_of(x, y), old(self).current())
            } else {
                old(self).color_buffer@
            },
    {
        let c = self.current_color;
        self.set_pixel_color(x, y, c);
    }

    /// Makes `color` the colour that [`Framebuffer::clear`] paints.
    pub fn set_background_color(&mut self, color: Color)
        ensures
            final(self).background() == color,
            final(self).current() == old(self).current(),
            final(self).width == old(self).width,
            final(self).height == old(self).height,
            final(self).color_buffer@ == old(self).color_buffer@,
            final(self).depth_buffer@ == old(self).depth_buffer@,
    {
        self.background_color = color;
    }

    /// Makes `color` the colour that [`Framebuffer::set_pixel`] writes.
    pub fn set_current_color(&mut self, color: Color)
        ensures
            final(self).current() == color,
            final(self).background() == old(self).background(),
            final(self).width == old(self).width,
            final(self).height == old(self).height,
            final(self).color_buffer@ == old(self).color_buffer@,
            final(self).depth_buffer@ == old(self).depth_buffer@,
    {
        self.current_color = color;
    }

    /// Paints pixel `(x, y)` `color`, when it lies on the grid.
    pub fn set_pixel_color(&mut self, x: u32, y: u32, color: Color)
        requires
            old(self).wf(),
        ensures
            final(self).wf(),
            final(self).width == old(self).width,
            final(self).height == old(self).height,
            final(self).background() == old(self).background(),
            final(self).current() == old(self).current(),
            final(self).depth_buffer@ == old(self).depth_buffer@,
            final(self).color_buffer@ == if old(self).on_grid(x, y) {
                old(self).color_buffer@.update(old(self).index_of(x, y), color)
            } else {
                old(self).color_buffer@
            },
    {
        if x < self.width && y < self.height {
            proof {
                lemma_index_below(x as int, y as int, self.width as int, self.height as int);
            }
            let i = (y as usize) * (self.width as usize) + (x as usize);
            self.color_buffer.set(i, color);
        }
    }

    /// The row-major index `y * width + x` of pixel `(x, y)`.
    pub fn depth_index(&self, x: u32, y: u32) -> (i: usize)
        requires
            y * self.width + x <= usize::MAX,
        ensures
            i == self.index_of(x, y),
    {
        proof {
            assert(0 <= y * self.width) by (nonlinear_arith);
        }
        (y as usize) * (self.width as usize) + (x as usize)
    }

    /// Tests a fragment at depth key `depth` on pixel `(x, y)`: when the pixel
    /// is on the grid and the fragment is nearer than what it holds, the
    /// fragment's depth is stored and the answer is `true`; otherwise nothing
    /// changes and the answer is `false`.
    pub fn test_and_set_depth(&mut self, x: u32, y: u32, depth: u32) -> (passed: bool)
        requires
            old(self).wf(),
        ensures
            final(self).wf(),
            final(self).width == old(self).width,
            final(self).height == old(self).height,
            final(self).background() == old(self).background(),
            final(self).current() == old(self).current(),
            final(self).color_buffer@ == old(self).color_buffer@,
            passed == (old(self).on_grid(x, y) && depth < old(self).depth_buffer@[old(
                self,
            ).index_of(x, y)]),
            final(self).depth_buffer@ == if passed {
                old(self).depth_buffer@.update(old(self).index_of(x, y), depth)
            } else {
                old(self).depth_buffer@
            },
            old(self).on_grid(x, y) ==> final(self).depth_buffer@ == depth_after(
                old(self).depth_buffer@,
                old(self).index_of(x, y),
                depth,
            ),
    {
        if x >= self.width || y >= self.height {
            return false;
        }
        proof {
            lemma_index_below(x as int, y as int, self.width as int, self.height as int);
        }
        let idx = self.depth_index(x, y);
        if depth < self.depth_buffer[idx] {
            self.depth_buffer.set(idx, depth);
            true
        } else {
            false
        }
    }
}

} // verus!
