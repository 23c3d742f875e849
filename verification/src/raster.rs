use vstd::prelude::*;
use crate::pixel::{Pixel, spec_flatten};

verus! {

/// A width x height grid of RGBA pixels, stored row by row.
pub struct Raster {
    pub width: u32,
    pub height: u32,
    pub rows: Vec<Vec<Pixel>>,
}

impl Raster {
    /// Well-formedness: one row per scan line, each of the full width.
    pub open spec fn wf(self) -> bool {
        &&& self.rows.len() == self.height
        &&& forall|y: int| 0 <= y < self.height ==> (#[trigger] self.rows@[y]).len() == self.width
    }

    /// The pixel at column `x` of row `y`.
    pub open spec fn pix(self, x: int, y: int) -> Pixel {
        self.rows@[y]@[x]
    }

    /// Allocate a raster of the given dimensions with every pixel set to
    /// `fill`.
    pub fn new_filled(width: u32, height: u32, fill: Pixel) -> (out: Raster)
        ensures
            out.wf(),
            out.width == width,
            out.height == height,
            forall|x: int, y: int|
                0 <= x < width && 0 <= y < height ==> #[trigger] out.pix(x, y) == fill,
    {
        let mut rows: Vec<Vec<Pixel>> = Vec::new();
        let mut y: u32 = 0;
        while y < height
            invariant
                y <= height,
                rows.len() == y,
                forall|yy: int| 0 <= yy < y ==> (#[trigger] rows@[yy]).len() == width,
                forall|xx: int, yy: int|
                    0 <= xx < width && 0 <= yy < y ==> #[trigger] rows@[yy]@[xx] == fill,
            decreases height - y,
        {
            let mut row: Vec<Pixel> = Vec::new();
            let mut x: u32 = 0;
            while x < width
                invariant
                    x <= width,
                    row.len() == x,
                    forall|xx: int| 0 <= xx < x ==> #[trigger] row@[xx] == fill,
                decreases width - x,
            {
                row.push(fill);
                x = x + 1;
            }
            rows.push(row);
            y = y + 1;
        }
        Raster { width, height, rows }
    }

    /// A copy of this raster with every pixel forced fully opaque.
    pub fn flattened(&self) -> (out: Raster)
        requires
            self.wf(),
        ensures
            out.wf(),
            out.width == self.width,
            out.height == self.height,
            forall|x: int, y: int|
                0 <= x < self.width && 0 <= y < self.height ==> #[trigger] out.pix(x, y)
                    == spec_flatten(self.pix(x, y)),
    {
        let mut rows: Vec<Vec<Pixel>> = Vec::new();
        let mut y: u32 = 0;
        while y < self.height
            invariant
                self.wf(),
                y <= self.height,
                rows.len() == y,
                forall|yy: int| 0 <= yy < y ==> (#[trigger] rows@[yy]).len() == self.width,
                forall|xx: int, yy: int|
                    0 <= xx < self.width && 0 <= yy < y ==> #[trigger] rows@[yy]@[xx]
                        == spec_flatten(self.pix(xx, yy)),
            decreases self.height - y,
        {
            let mut row: Vec<Pixel> = Vec::new();
            let mut x: u32 = 0;
            while x < self.width
                invariant
                    self.wf(),
                    x <= self.width,
                    y < self.height,
                    row.len() == x,
                    forall|xx: int|
                        0 <= xx < x ==> #[trigger] row@[xx] == spec_flatten(self.pix(xx, y as int)),
                decreases self.width - x,
            {
                let p = self.get(x, y);
                row.push(Pixel { r: p.r, g: p.g, b: p.b, a: 255 });
                x = x + 1;
            }
            rows.push(row);
            y = y + 1;
        }
        Raster { width: self.width, height: self.height, rows }
    }

    /// Read the pixel at `(x, y)`.
    pub fn get(&self, x: u32, y: u32) -> (out: Pixel)
        requires
            self.wf(),
            x < self.width,
            y < self.height,
        ensures
            out == self.pix(x as int, y as int),
    {
        self.rows[y as usize][x as usize]
    }

    /// Overwrite the pixel at `(x, y)`; every other pixel is untouched.
    pub fn set(&mut self, x: u32, y: u32, p: Pixel)
        requires
            old(self).wf(),
            x < old(self).width,
            y < old(self).height,
        ensures
            final(self).wf(),
            final(self).width == old(self).width,
            final(self).height == old(self).height,
            final(self).pix(x as int, y as int) == p,
            forall|xx: int, yy: int|
                0 <= xx < final(self).width && 0 <= yy < final(self).height && !(xx == x as int && yy
                    == y as int) ==> #[trigger] final(self).pix(xx, yy) == old(self).pix(xx, yy),
    {
        let row: &mut Vec<Pixel> = &mut self.rows[y as usize];
        row.set(x as usize, p);
    }
}

} // verus!
