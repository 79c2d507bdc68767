//! The frame buffer: a grid of pixels, stored column by column.

use crate::color::Color;
use vstd::prelude::*;

verus! {

/// What a frame buffer holds: its size and the colour of every pixel, column
/// by column, each column from `y == 0` upwards.
pub struct Raster {
    pub width: nat,
    pub height: nat,
    pub colors: Seq<Color>,
}

impl Raster {
    /// Every pixel has a colour, and the pixels can be counted in 32 bits.
    pub open spec fn wf(self) -> bool {
        &&& self.width <= u32::MAX
        &&& self.height <= u32::MAX
        &&& self.width * self.height <= u32::MAX
        &&& self.colors.len() == self.width * self.height
    }

    /// Where the pixel at `(x, y)` stands in `colors`.
    pub open spec fn index(self, x: int, y: int) -> int {
        x * self.height + y
    }

    /// The colour of the pixel at `(x, y)`.
    pub open spec fn at(self, x: int, y: int) -> Color {
        self.colors[self.index(x, y)]
    }

    /// The raster of the given size whose pixels are all black.
    pub open spec fn blank(width: nat, height: nat) -> Raster {
        Raster { width, height, colors: Seq::new(width * height, |i: int| Color::black()) }
    }

    /// The raster with the pixel at `(x, y)` set to `color`.
    pub open spec fn with(self, x: int, y: int, color: Color) -> Raster {
        Raster { colors: self.colors.update(self.index(x, y), color), ..self }
    }
}

/// A pixel at `(x, y)` inside a grid of `width` columns has its place among
/// the `width * height` pixels, and no other pixel of the grid shares it.
pub proof fn lemma_index_in_range(width: int, height: int, x: int, y: int)
    requires
        0 <= x < width,
        0 <= y < height,
    ensures
        0 <= x * height + y < width * height,
        (x * height + y) / height == x,
        (x * height + y) % height == y,
{
    assert(x * height + height <= width * height) by (nonlinear_arith)
        requires
            0 <= x < width,
            0 <= height,
    ;
    assert(0 <= x * height) by (nonlinear_arith)
        requires
            0 <= x,
            0 <= height,
    ;
    vstd::arithmetic::div_mod::lemma_fundamental_div_mod_converse(x * height + y, height, x, y);
}

/// Each of the `width * height` places belongs to one pixel of the grid.
pub proof fn lemma_place_in_range(width: int, height: int, i: int)
    requires
        0 <= width,
        0 <= height,
        0 <= i < width * height,
    ensures
        0 < height,
        0 <= i / height < width,
        0 <= i % height < height,
        i == (i / height) * height + i % height,
{
    assert(height != 0) by (nonlinear_arith)
        requires
            0 <= i < width * height,
    ;
    vstd::arithmetic::div_mod::lemma_fundamental_div_mod(i, height);
    let x = i / height;
    assert(x * height == height * x) by (nonlinear_arith);
    assert(0 <= x < width) by (nonlinear_arith)
        requires
            0 < height,
            0 <= width,
            0 <= i < width * height,
            i == x * height + i % height,
            0 <= i % height < height,
    ;
}

/// One cell of the frame buffer.
#[derive(Clone, Copy, Debug, PartialEq, Eq)]
pub struct Pixel {
    color: Color,
}

/// A frame buffer of `width` columns and `height` rows, with one pixel for
/// each place of the grid. The pixel at `(0, 0)` is the lower left one.
#[derive(Debug, PartialEq, Eq)]
pub struct Pixmap {
    width: u32,
    height: u32,
    pixels: Vec<Pixel>,
}

impl Pixmap {
    /// The frame buffer holds one pixel for each place of the grid, and the
    /// places can be counted in 32 bits.
    #[verifier::type_invariant]
    spec fn complete(&self) -> bool {
        &&& self.width * self.height <= u32::MAX
        &&& self.pixels.len() == self.width * self.height
    }

    /// Creates a frame buffer of the given size with every pixel black.
    pub fn new(width: u32, height: u32) -> (pixmap: Pixmap)
        requires
            width * height <= u32::MAX,
        ensures
            pixmap@ == Raster::blank(width as nat, height as nat),
            pixmap@.wf(),
    {
        let size = (width * height) as usize;
        let mut pixels: Vec<Pixel> = Vec::with_capacity(size);
        let mut i: usize = 0;
        while i < size
            invariant
                i <= size,
                pixels.len() == i,
                forall|k: int| 0 <= k < i ==> (#[trigger] pixels[k]).color == Color::black(),
            decreases size - i,
        {
            pixels.push(Pixel { color: Color { r: 0, g: 0, b: 0 } });
            i += 1;
        }
        let pixmap = Pixmap { width, height, pixels };
        assert(pixmap@.colors =~= Raster::blank(width as nat, height as nat).colors);
        pixmap
    }

    /// The number of columns.
    pub fn width(&self) -> (width: u32)
        ensures
            width == self@.width,
            self@.wf(),
    {
        proof {
            use_type_invariant(self);
        }
        self.width
    }

    /// The number of rows.
    pub fn height(&self) -> (height: u32)
        ensures
            height == self@.height,
            self@.wf(),
    {
        proof {
            use_type_invariant(self);
        }
        self.height
    }

    /// Maps grid coordinates to the place of the pixel in the stored order.
    pub fn coords_to_index(&self, x: u32, y: u32) -> (index: u32)
        requires
            x < self@.width,
            y < self@.height,
        ensures
            index == self@.index(x as int, y as int),
            index < self@.colors.len(),
            self@.wf(),
    {
        proof {
            use_type_invariant(self);
            lemma_index_in_range(self.width as int, self.height as int, x as int, y as int);
            assert(0 <= x * self.height) by (nonlinear_arith);
        }
        x * self.height + y
    }

    /// Colours the pixel at `(x, y)`.
    pub fn draw(&mut self, x: u32, y: u32, color: Color)
        requires
            x < old(self)@.width,
            y < old(self)@.height,
        ensures
            final(self)@ == old(self)@.with(x as int, y as int, color),
            final(self)@.wf(),
    {
        let index = self.coords_to_index(x, y) as usize;
        self.pixels[index] = Pixel { color };
        assert(self@.colors =~= old(self)@.with(x as int, y as int, color).colors);
    }

    /// The colour of the pixel at `(x, y)`.
    pub fn get_color(&self, x: u32, y: u32) -> (color: Color)
        requires
            x < self@.width,
            y < self@.height,
        ensures
            color == self@.at(x as int, y as int),
    {
        let index = self.coords_to_index(x, y) as usize;
        self.pixels[index].color
    }
}

impl Clone for Pixmap {
    /// A second frame buffer with the same pixels.
    fn clone(&self) -> (copy: Pixmap)
        ensures
            copy@ == self@,
    {
        proof {
            use_type_invariant(self);
        }
        let pixels = self.pixels.clone();
        let copy = Pixmap { width: self.width, height: self.height, pixels };
        assert(copy@.colors =~= self@.colors);
        copy
    }
}

impl View for Pixmap {
    type V = Raster;

    closed spec fn view(&self) -> Raster {
        Raster {
            width: self.width as nat,
            height: self.height as nat,
            colors: self.pixels@.map_values(|p: Pixel| p.color),
        }
    }
}

} // verus!
