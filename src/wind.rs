use vstd::prelude::*;
use crate::pixel::Pixel;
use crate::raster::Image;
use crate::rng::gen_range;

verus! {

/// Chances and draws are counted in millionths: a draw `d` in
/// `[0, CHANCE_SCALE)` passes a chance `c` where `d < c`.
pub const CHANCE_SCALE: u32 = 1000000;

/// Parameters of the wind effect: the chance that an opaque pixel starts a
/// streak, and the chance that a streak stops after each pixel it covers.
#[derive(Clone, Copy, Debug, PartialEq, Eq, Structural)]
pub struct WindOptions {
    pub wind_onset_chance: u32,
    pub wind_stop_chance: u32,
}

impl WindOptions {
    pub fn new(wind_onset_chance: u32, wind_stop_chance: u32) -> (r: WindOptions)
        ensures
            r == (WindOptions { wind_onset_chance, wind_stop_chance }),
    {
        WindOptions { wind_onset_chance, wind_stop_chance }
    }
}

/// The colour that a streak carries into column `x` of `row`, scanning from
/// the right: column `x + 1` either continues the streak it was covered by
/// (unless its draw stops it) or, not covered and opaque, starts one where its
/// draw passes the onset chance.
pub open spec fn carried(row: Seq<Pixel>, draws: Seq<u32>, cfg: WindOptions, x: int) -> Option<Pixel>
    decreases row.len() - x,
{
    if x + 1 >= row.len() {
        None
    } else {
        let n = x + 1;
        match carried(row, draws, cfg, n) {
            Some(p) => if draws[n] < cfg.wind_stop_chance {
                None
            } else {
                Some(p)
            },
            None => if row[n].a > 0 && draws[n] < cfg.wind_onset_chance {
                Some(row[n])
            } else {
                None
            },
        }
    }
}

/// Column `x` of a row after the wind: the streak colour that covers it, or
/// its own.
pub open spec fn wind_pixel(row: Seq<Pixel>, draws: Seq<u32>, cfg: WindOptions, x: int) -> Pixel {
    match carried(row, draws, cfg, x) {
        Some(p) => p,
        None => row[x],
    }
}

/// One draw for each pixel of `img`.
pub open spec fn draws_fit(img: Image, draws: Seq<Vec<u32>>) -> bool {
    &&& draws.len() == img.height
    &&& forall|y: int| 0 <= y < img.height ==> #[trigger] draws[y]@.len() == img.width
}

fn wind_row(row: &Vec<Pixel>, draws: &Vec<u32>, cfg: &WindOptions) -> (out: Vec<Pixel>)
    requires
        draws@.len() == row@.len(),
    ensures
        out@.len() == row@.len(),
        forall|x: int| 0 <= x < row@.len() ==> #[trigger] out@[x] == wind_pixel(row@, draws@, *cfg, x),
{
    let n = row.len();
    let mut out: Vec<Pixel> = Vec::new();
    let mut k: usize = 0;
    while k < n
        invariant
            k <= n,
            n == row@.len(),
            out@ =~= row@.take(k as int),
        decreases n - k,
    {
        out.push(row[k]);
        k += 1;
    }
    let mut carry: Option<Pixel> = None;
    let mut i: usize = n;
    while i > 0
        invariant
            i <= n,
            n == row@.len(),
            draws@.len() == n,
            out@.len() == n,
            forall|k: int| 0 <= k < i ==> #[trigger] out@[k] == row@[k],
            forall|k: int| i <= k < n ==> #[trigger] out@[k] == wind_pixel(row@, draws@, *cfg, k),
            i >= 1 ==> carry == carried(row@, draws@, *cfg, i - 1),
        decreases i,
    {
        i -= 1;
        let cur = row[i];
        let d = draws[i];
        match carry {
            Some(p) => {
                out[i] = p;
                if d < cfg.wind_stop_chance {
                    carry = None;
                }
            },
            None => {
                if cur.a > 0 && d < cfg.wind_onset_chance {
                    carry = Some(cur);
                }
            },
        }
    }
    out
}

/// The wind effect: in each row, scanning right to left, an opaque pixel
/// whose draw passes the onset chance is smeared leftward over the pixels
/// after it until a draw passes the stop chance or the row ends. `draws[y][x]`
/// is the one draw that column `x` of row `y` is tested with.
pub fn wind(img: &Image, cfg: &WindOptions, draws: &Vec<Vec<u32>>) -> (out: Image)
    requires
        img.wf(),
        draws_fit(*img, draws@),
    ensures
        out.same_shape(img),
        forall|x: int, y: int| 0 <= x < img.width && 0 <= y < img.height ==>
            #[trigger] out.at(x, y) == wind_pixel(img.rows@[y]@, draws@[y]@, *cfg, x),
{
    let w = img.width;
    let h = img.height;
    let mut rows: Vec<Vec<Pixel>> = Vec::new();
    let mut y: u32 = 0;
    while y < h
        invariant
            img.wf(),
            draws_fit(*img, draws@),
            w == img.width,
            h == img.height,
            y <= h,
            rows@.len() == y,
            forall|j: int| 0 <= j < y ==> #[trigger] rows@[j]@.len() == w,
            forall|j: int, i: int| 0 <= j < y && 0 <= i < w ==>
                #[trigger] rows@[j]@[i] == wind_pixel(img.rows@[j]@, draws@[j]@, *cfg, i),
        decreases h - y,
    {
        let row = wind_row(&img.rows[y as usize], &draws[y as usize], cfg);
        rows.push(row);
        y += 1;
    }
    Image { width: w, height: h, rows }
}

/// Draws one value in `[0, CHANCE_SCALE)` for each pixel of a
/// `width` × `height` image.
pub fn draw_wind(width: u32, height: u32, rng: &mut rand::StdRng) -> (draws: Vec<Vec<u32>>)
    ensures
        draws@.len() == height,
        forall|y: int| 0 <= y < height ==> #[trigger] draws@[y]@.len() == width,
        forall|y: int, x: int| 0 <= y < height && 0 <= x < width ==> #[trigger] draws@[y]@[x] < CHANCE_SCALE,
{
    let mut draws: Vec<Vec<u32>> = Vec::new();
    let mut y: u32 = 0;
    while y < height
        invariant
            y <= height,
            draws@.len() == y,
            forall|j: int| 0 <= j < y ==> #[trigger] draws@[j]@.len() == width,
            forall|j: int, i: int| 0 <= j < y && 0 <= i < width ==> #[trigger] draws@[j]@[i] < CHANCE_SCALE,
        decreases height - y,
    {
        let mut row: Vec<u32> = Vec::new();
        let mut x: u32 = 0;
        while x < width
            invariant
                x <= width,
                row@.len() == x,
                forall|i: int| 0 <= i < x ==> #[trigger] row@[i] < CHANCE_SCALE,
            decreases width - x,
        {
            row.push(gen_range(rng, 0, CHANCE_SCALE as i64) as u32);
            x += 1;
        }
        draws.push(row);
        y += 1;
    }
    draws
}

/// With no chance of onset the wind leaves every pixel as it was.
pub proof fn lemma_calm_wind_keeps_row(row: Seq<Pixel>, draws: Seq<u32>, cfg: WindOptions, x: int)
    requires
        cfg.wind_onset_chance == 0,
        0 <= x < row.len(),
    ensures
        wind_pixel(row, draws, cfg, x) == row[x],
{
    lemma_calm_carries_nothing(row, draws, cfg, x);
}

proof fn lemma_calm_carries_nothing(row: Seq<Pixel>, draws: Seq<u32>, cfg: WindOptions, x: int)
    requires
        cfg.wind_onset_chance == 0,
    ensures
        carried(row, draws, cfg, x) is None,
    decreases row.len() - x,
{
    if x + 1 < row.len() {
        lemma_calm_carries_nothing(row, draws, cfg, x + 1);
    }
}

} // verus!
