//! The grid of pixels: where each pixel lies in a row-major buffer, and in
//! the buffer of an image whose rows run the other way.

use crate::color::Color;
use vstd::prelude::*;

verus! {

/// The size of a grid of pixels whose cells can be counted in a `usize`.
#[derive(Clone, Copy, Debug)]
pub struct Film {
    width: u32,
    height: u32,
}

/// The place of a pixel in a grid: its column, and its row.
#[derive(Clone, Copy, Debug, PartialEq, Eq, Structural)]
pub struct Position {
    pub x: u32,
    pub y: u32,
}

/// The index of the pixel in column `x` of row `y`, in a row-major buffer of
/// the given width.
pub open spec fn index_of(width: nat, x: nat, y: nat) -> nat {
    y * width + x
}

/// The column of the pixel at an index of a row-major buffer.
pub open spec fn column_of(width: nat, i: nat) -> nat {
    i % width
}

/// The row of the pixel at an index of a row-major buffer.
pub open spec fn row_of(width: nat, i: nat) -> nat {
    i / width
}

/// The row that is row `y` when the rows are counted from the other end.
pub open spec fn flipped_row(height: nat, y: nat) -> nat {
    (height - 1 - y) as nat
}

/// The byte at place `k` of the image of a grid: three bytes for each
/// pixel, the rows of the image from its first to its last, each row from
/// its first column to its last. The rows of the image are the rows of the
/// grid counted from the other end.
pub open spec fn developed_byte(width: nat, height: nat, pixels: Seq<Color>, k: nat) -> u8 {
    let place = k / 3;
    let x = column_of(width, place);
    let y = row_of(width, place);
    pixels[index_of(width, x, flipped_row(height, y)) as int].channel((k % 3) as int).spec_to_byte()
}

/// The bytes of the image of a grid.
pub open spec fn developed(width: nat, height: nat, pixels: Seq<Color>) -> Seq<u8> {
    Seq::new(3 * (width * height), |k: int| developed_byte(width, height, pixels, k as nat))
}

impl Film {
    #[verifier::type_invariant]
    closed spec fn counted(self) -> bool {
        self.width * self.height <= usize::MAX
    }

    /// The number of columns.
    pub closed spec fn spec_width(self) -> nat {
        self.width as nat
    }

    /// The number of rows.
    pub closed spec fn spec_height(self) -> nat {
        self.height as nat
    }

    /// The number of pixels.
    pub open spec fn spec_pixels(self) -> nat {
        self.spec_width() * self.spec_height()
    }

    /// The grid of the given size, unless it has more pixels than a `usize`
    /// can count.
    pub fn new(width: u32, height: u32) -> (film: Option<Film>)
        ensures
            match film {
                Some(f) => f.spec_width() == width && f.spec_height() == height && f.spec_pixels()
                    <= usize::MAX,
                None => width * height > usize::MAX,
            },
    {
        assert(width * height <= 0xffff_ffff * 0xffff_ffff) by (nonlinear_arith)
            requires
                width <= 0xffff_ffff,
                height <= 0xffff_ffff,
        ;
        let pixels: u64 = (width as u64) * (height as u64);
        if pixels <= usize::MAX as u64 {
            Some(Film { width, height })
        } else {
            None
        }
    }

    /// The number of columns.
    pub fn width(&self) -> (w: u32)
        ensures
            w == self.spec_width(),
    {
        self.width
    }

    /// The number of rows.
    pub fn height(&self) -> (h: u32)
        ensures
            h == self.spec_height(),
    {
        self.height
    }

    /// The number of pixels.
    pub fn pixels(&self) -> (n: usize)
        ensures
            n == self.spec_pixels(),
    {
        proof {
            use_type_invariant(self);
        }
        (self.width as usize) * (self.height as usize)
    }

    /// The column and the row of the pixel at index `i` of the row-major
    /// buffer.
    pub fn position(&self, i: usize) -> (p: Position)
        requires
            i < self.spec_pixels(),
        ensures
            p.x == column_of(self.spec_width(), i as nat),
            p.y == row_of(self.spec_width(), i as nat),
            p.x < self.spec_width(),
            p.y < self.spec_height(),
            index_of(self.spec_width(), p.x as nat, p.y as nat) == i,
    {
        proof {
            use_type_invariant(self);
            lemma_position_of_index(self.spec_width(), self.spec_height(), i as nat);
        }
        let width = self.width as usize;
        Position { x: (i % width) as u32, y: (i / width) as u32 }
    }

    /// The index in the row-major buffer of the pixel in column `x` of row
    /// `y`.
    pub fn index(&self, x: u32, y: u32) -> (i: usize)
        requires
            x < self.spec_width(),
            y < self.spec_height(),
        ensures
            i == index_of(self.spec_width(), x as nat, y as nat),
            i < self.spec_pixels(),
    {
        proof {
            use_type_invariant(self);
            lemma_index_of_position(self.spec_width(), self.spec_height(), x as nat, y as nat);
        }
        (y as usize) * (self.width as usize) + (x as usize)
    }

    /// The index in the row-major buffer of the pixel that an image shows
    /// in column `x` of row `y`, when the image counts its rows from the
    /// other end.
    pub fn flipped_index(&self, x: u32, y: u32) -> (i: usize)
        requires
            x < self.spec_width(),
            y < self.spec_height(),
        ensures
            i == index_of(self.spec_width(), x as nat, flipped_row(self.spec_height(), y as nat)),
            i < self.spec_pixels(),
    {
        self.index(x, self.height - 1 - y)
    }

    /// The bytes of the image that shows the pixels of the grid: none where
    /// the buffer does not hold one colour for each pixel.
    pub fn develop(&self, pixels: &Vec<Color>) -> (bytes: Option<Vec<u8>>)
        ensures
            match bytes {
                Some(b) => pixels.len() == self.spec_pixels() && b@ == developed(
                    self.spec_width(),
                    self.spec_height(),
                    pixels@,
                ),
                None => pixels.len() != self.spec_pixels(),
            },
    {
        if pixels.len() != self.pixels() {
            return None;
        }
        let ghost w = self.spec_width();
        let ghost h = self.spec_height();
        let mut bytes: Vec<u8> = Vec::new();
        let mut y: u32 = 0;
        while y < self.height
            invariant
                w == self.spec_width(),
                h == self.spec_height(),
                pixels.len() == w * h,
                y <= h,
                bytes.len() == 3 * (y * w),
                forall|k: int|
                    0 <= k < bytes.len() ==> bytes[k] == developed_byte(w, h, pixels@, k as nat),
            decreases h - y,
        {
            let mut x: u32 = 0;
            while x < self.width
                invariant
                    w == self.spec_width(),
                    h == self.spec_height(),
                    pixels.len() == w * h,
                    y < h,
                    x <= w,
                    bytes.len() == 3 * (y * w + x),
                    forall|k: int|
                        0 <= k < bytes.len() ==> bytes[k] == developed_byte(
                            w,
                            h,
                            pixels@,
                            k as nat,
                        ),
                decreases w - x,
            {
                let source = self.flipped_index(x, y);
                let rgb = pixels[source].to_rgb();
                proof {
                    lemma_index_of_position(w, h, x as nat, y as nat);
                    let place = index_of(w, x as nat, y as nat);
                    assert(bytes.len() == 3 * place);
                }
                bytes.push(rgb[0]);
                bytes.push(rgb[1]);
                bytes.push(rgb[2]);
                x += 1;
            }
            proof {
                assert((y + 1) * w == y * w + w) by (nonlinear_arith);
            }
            y += 1;
        }
        proof {
            assert(y * w == w * h) by (nonlinear_arith)
                requires
                    y == h,
            ;
            assert(bytes@ =~= developed(w, h, pixels@));
        }
        Some(bytes)
    }
}

/// An index within a grid names a column and a row of the grid, and is the
/// index of the pixel there.
pub proof fn lemma_position_of_index(width: nat, height: nat, i: nat)
    requires
        i < width * height,
    ensures
        width > 0,
        column_of(width, i) < width,
        row_of(width, i) < height,
        index_of(width, column_of(width, i), row_of(width, i)) == i,
{
    assert(width > 0) by (nonlinear_arith)
        requires
            i < width * height,
    ;
    vstd::arithmetic::div_mod::lemma_fundamental_div_mod(i as int, width as int);
    let q = i / width;
    let r = i % width;
    assert(q * width == width * q) by (nonlinear_arith);
    assert(q < height) by (nonlinear_arith)
        requires
            q * width + r == i,
            r >= 0,
            i < width * height,
            width > 0,
    ;
}

/// A column and a row of a grid have an index within the grid, and the
/// pixel at that index lies in that column and row.
pub proof fn lemma_index_of_position(width: nat, height: nat, x: nat, y: nat)
    requires
        x < width,
        y < height,
    ensures
        index_of(width, x, y) < width * height,
        column_of(width, index_of(width, x, y)) == x,
        row_of(width, index_of(width, x, y)) == y,
{
    assert(y * width + x < width * height) by (nonlinear_arith)
        requires
            x < width,
            y < height,
    ;
    vstd::arithmetic::div_mod::lemma_fundamental_div_mod_converse(
        (y * width + x) as int,
        width as int,
        y as int,
        x as int,
    );
}

/// Two pixels of a grid with the same index are the same pixel.
pub proof fn lemma_index_is_injective(width: nat, height: nat, x1: nat, y1: nat, x2: nat, y2: nat)
    requires
        x1 < width,
        y1 < height,
        x2 < width,
        y2 < height,
        index_of(width, x1, y1) == index_of(width, x2, y2),
    ensures
        x1 == x2,
        y1 == y2,
{
    lemma_index_of_position(width, height, x1, y1);
    lemma_index_of_position(width, height, x2, y2);
}

} // verus!
