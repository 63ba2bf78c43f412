use vstd::prelude::*;
use crate::pixel::Pixel;

verus! {

/// A row-major RGBA raster: `rows[y][x]` is the pixel at column `x` of row `y`.
pub struct Image {
    pub width: u32,
    pub height: u32,
    pub rows: Vec<Vec<Pixel>>,
}

impl Image {
    /// There are `height` rows, each of `width` pixels.
    pub open spec fn wf(&self) -> bool {
        &&& self.rows@.len() == self.height
        &&& forall|y: int| 0 <= y < self.height ==> #[trigger] self.rows@[y]@.len() == self.width
    }

    pub open spec fn at(&self, x: int, y: int) -> Pixel {
        self.rows@[y]@[x]
    }

    /// Both images are well formed and of the same dimensions.
    pub open spec fn same_shape(&self, other: &Image) -> bool {
        &&& self.wf()
        &&& other.wf()
        &&& self.width == other.width
        &&& self.height == other.height
    }

    /// An image of `width` × `height` pixels, all `p`.
    pub fn filled(width: u32, height: u32, p: Pixel) -> (img: Image)
        ensures
            img.wf(),
            img.width == width,
            img.height == height,
            forall|x: int, y: int| 0 <= x < width && 0 <= y < height ==> img.at(x, y) == p,
    {
        let mut rows: Vec<Vec<Pixel>> = Vec::new();
        let mut y: u32 = 0;
        while y < height
            invariant
                y <= height,
                rows@.len() == y,
                forall|j: int| 0 <= j < y ==> #[trigger] rows@[j]@.len() == width,
                forall|j: int, i: int| 0 <= j < y && 0 <= i < width ==> #[trigger] rows@[j]@[i] == p,
            decreases height - y,
        {
            let mut row: Vec<Pixel> = Vec::new();
            let mut x: u32 = 0;
            while x < width
                invariant
                    x <= width,
                    row@.len() == x,
                    forall|i: int| 0 <= i < x ==> #[trigger] row@[i] == p,
                decreases width - x,
            {
                row.push(p);
                x += 1;
            }
            rows.push(row);
            y += 1;
        }
        Image { width, height, rows }
    }

    /// The image whose rows are `rows`, each of `width` pixels; `None` where a
    /// row has another length or there are more rows than a `u32` counts.
    pub fn from_rows(width: u32, rows: Vec<Vec<Pixel>>) -> (r: Option<Image>)
        ensures
            r is Some <==> (rows@.len() <= u32::MAX && forall|y: int|
                0 <= y < rows@.len() ==> #[trigger] rows@[y]@.len() == width),
            r matches Some(img) ==> img.wf() && img.width == width && img.rows@ == rows@,
    {
        if rows.len() > u32::MAX as usize {
            return None;
        }
        let mut y: usize = 0;
        while y < rows.len()
            invariant
                y <= rows@.len(),
                forall|j: int| 0 <= j < y ==> #[trigger] rows@[j]@.len() == width,
            decreases rows@.len() - y,
        {
            if rows[y].len() != width as usize {
                return None;
            }
            y += 1;
        }
        let height = rows.len() as u32;
        Some(Image { width, height, rows })
    }

    /// The pixel at column `x` of row `y`.
    pub fn pixel(&self, x: u32, y: u32) -> (p: Pixel)
        requires
            self.wf(),
            x < self.width,
            y < self.height,
        ensures
            p == self.at(x as int, y as int),
    {
        self.rows[y as usize][x as usize]
    }
}

} // verus!
