use vstd::prelude::*;
use vstd::arithmetic::div_mod::{lemma_fundamental_div_mod, lemma_div_multiples_vanish_fancy, lemma_div_pos_is_pos};
use crate::coords::{clamped, clamping_add};
use crate::pixel::{blend, blended, Pixel};
use crate::raster::Image;
use crate::rng::gen_range;

verus! {

/// Parameters of the scanline and desync effect.
///
/// Rows come in periods of `vert_dist` visible rows followed by `gap_size`
/// gap rows. The desync values are fixed-point: the phase in ten-thousandths,
/// the amplitude (in pixels) and the frequency in thousandths.
#[derive(Clone, Copy, Debug, PartialEq, Eq, Structural)]
pub struct ScanlineOptions {
    pub vert_dist: u32,
    pub gap_size: u32,
    pub desync_phase: i64,
    pub desync_amplitude: i32,
    pub desync_frequency: i32,
}

impl ScanlineOptions {
    /// The rows of a period can be counted and a gap row has a visible row
    /// above it in its period.
    pub open spec fn valid(&self) -> bool {
        &&& self.vert_dist >= 1
        &&& self.vert_dist + self.gap_size <= u32::MAX
    }

    pub open spec fn period(&self) -> int {
        self.vert_dist + self.gap_size
    }

    /// Row `y` falls in a gap.
    pub open spec fn in_gap(&self, y: int) -> bool {
        y % self.period() >= self.vert_dist
    }

    /// The last visible row before the gap that holds `y`.
    pub open spec fn prev_line(&self, y: int) -> int {
        y - y % self.period() + self.vert_dist - 1
    }

    /// The row `gap_size` rows below `prev_line`: the last row of the gap
    /// that holds `y`.
    pub open spec fn next_line(&self, y: int) -> int {
        self.prev_line(y) + self.gap_size
    }
}

impl ScanlineOptions {
    pub fn new(vert_dist: u32, gap_size: u32, desync_phase: i64, desync_amplitude: i32, desync_frequency: i32) -> (r: ScanlineOptions)
        ensures
            r == (ScanlineOptions { vert_dist, gap_size, desync_phase, desync_amplitude, desync_frequency }),
    {
        ScanlineOptions { vert_dist, gap_size, desync_phase, desync_amplitude, desync_frequency }
    }

    /// Options whose desync phase is drawn between 0 and the frequency (in
    /// the phase's finer unit, ten times the frequency's count), 0 included
    /// and the frequency not.
    pub fn random(
        vert_dist: u32,
        gap_size: u32,
        desync_amplitude: i32,
        desync_frequency: i32,
        rng: &mut rand::StdRng,
    ) -> (r: ScanlineOptions)
        ensures
            r.vert_dist == vert_dist,
            r.gap_size == gap_size,
            r.desync_amplitude == desync_amplitude,
            r.desync_frequency == desync_frequency,
            desync_frequency == 0 ==> r.desync_phase == 0,
            desync_frequency > 0 ==> 0 <= r.desync_phase < 10 * desync_frequency,
            desync_frequency < 0 ==> 10 * desync_frequency < r.desync_phase <= 0,
    {
        let span: i64 = 10 * desync_frequency as i64;
        let desync_phase: i64 = if span > 0 {
            gen_range(rng, 0, span)
        } else if span < 0 {
            -gen_range(rng, 0, -span)
        } else {
            0
        };
        ScanlineOptions { vert_dist, gap_size, desync_phase, desync_amplitude, desync_frequency }
    }

    /// The next frame's options: the phase moves on by a tenth of the
    /// frequency; all else is kept.
    pub fn step(&self) -> (r: ScanlineOptions)
        requires
            i64::MIN <= self.desync_phase + self.desync_frequency <= i64::MAX,
        ensures
            r == (ScanlineOptions { desync_phase: (self.desync_phase + self.desync_frequency) as i64, ..*self }),
    {
        ScanlineOptions { desync_phase: self.desync_phase + self.desync_frequency as i64, ..*self }
    }

    /// The desync line of row `y`, in ten-thousandths: the row's period
    /// number plus the phase.
    pub fn desync_line(&self, y: u32) -> (r: i128)
        requires
            self.valid(),
        ensures
            r == (y as int / self.period()) * 10000 + self.desync_phase,
    {
        let period = self.vert_dist + self.gap_size;
        (y / period) as i128 * 10000 + self.desync_phase as i128
    }
}

/// `p` with its alpha divided by `w`.
pub open spec fn weighted(p: Pixel, w: int) -> Pixel {
    Pixel { a: (p.a as int / w) as u8, ..p }
}

/// What a gap pixel blends: three taps around column `x` of `prev`, at a
/// quarter of their alpha in the middle and an eighth on each side, each
/// followed by the same tap of `next` where that row is in the image.
pub open spec fn gap_sources(img: Image, x: int, prev: int, next: int) -> Seq<Pixel> {
    let m = img.width - 1;
    let x0 = clamped(x, -1, m);
    let x1 = clamped(x, 0, m);
    let x2 = clamped(x, 1, m);
    if next < img.height {
        seq![
            weighted(img.at(x0, prev), 8),
            weighted(img.at(x0, next), 8),
            weighted(img.at(x1, prev), 4),
            weighted(img.at(x1, next), 4),
            weighted(img.at(x2, prev), 8),
            weighted(img.at(x2, next), 8),
        ]
    } else {
        seq![
            weighted(img.at(x0, prev), 8),
            weighted(img.at(x1, prev), 4),
            weighted(img.at(x2, prev), 8),
        ]
    }
}

/// The scanline effect at `(x, y)`: a gap pixel blends the rows that bound
/// its gap; another pixel is taken from its own row, moved
/// sideways by `shift` and held inside the image.
pub open spec fn scanline_pixel(img: Image, cfg: ScanlineOptions, shift: int, x: int, y: int) -> Pixel {
    if cfg.in_gap(y) {
        blended(gap_sources(img, x, cfg.prev_line(y), cfg.next_line(y)))
    } else {
        img.at(clamped(x, shift, img.width - 1), y)
    }
}

/// The shifts grid gives one value for each pixel of `img`.
pub open spec fn shifts_fit(img: Image, shifts: Seq<Vec<i32>>) -> bool {
    &&& shifts.len() == img.height
    &&& forall|y: int| 0 <= y < img.height ==> #[trigger] shifts[y]@.len() == img.width
}

/// A gap row lies below the row before its gap and no lower than the gap's
/// last row, and all three lie in one period: a gap pixel reads no other
/// period.
pub proof fn lemma_gap_rows_in_period(cfg: ScanlineOptions, y: int)
    requires
        cfg.valid(),
        0 <= y,
        cfg.in_gap(y),
    ensures
        cfg.prev_line(y) < y <= cfg.next_line(y),
        cfg.prev_line(y) / cfg.period() == y / cfg.period(),
        cfg.next_line(y) / cfg.period() == y / cfg.period(),
        cfg.prev_line(y) >= 0,
        y % cfg.period() <= y,
{
    let p = cfg.period();
    let q = y / p;
    lemma_div_pos_is_pos(y, p);
    assert(p * q >= 0) by (nonlinear_arith)
        requires p >= 1, q >= 0;
    lemma_fundamental_div_mod(y, p);
    assert(y - y % p == p * q);
    lemma_div_multiples_vanish_fancy(q, cfg.vert_dist - 1, p);
    lemma_div_multiples_vanish_fancy(q, p - 1, p);
    lemma_div_multiples_vanish_fancy(q, y % p, p);
}

fn gap_pixel(img: &Image, cfg: &ScanlineOptions, x: u32, y: u32) -> (p: Pixel)
    requires
        img.wf(),
        cfg.valid(),
        x < img.width,
        y < img.height,
        cfg.in_gap(y as int),
    ensures
        p == blended(gap_sources(*img, x as int, cfg.prev_line(y as int), cfg.next_line(y as int))),
{
    proof {
        lemma_gap_rows_in_period(*cfg, y as int);
    }
    let period = cfg.vert_dist + cfg.gap_size;
    let base = y - y % period;
    let prev = base + cfg.vert_dist - 1;
    let next: u64 = prev as u64 + cfg.gap_size as u64;
    let m = img.width - 1;
    let x0 = clamping_add(x, -1, m);
    let x1 = clamping_add(x, 0, m);
    let x2 = clamping_add(x, 1, m);
    let mut sources: Vec<Pixel> = Vec::new();
    let xs: [u32; 3] = [x0, x1, x2];
    let ws: [u8; 3] = [8, 4, 8];
    let mut k: usize = 0;
    while k < 3
        invariant
            img.wf(),
            x0 < img.width && x1 < img.width && x2 < img.width,
            prev < img.height,
            xs@ == seq![x0, x1, x2],
            ws@ == seq![8u8, 4u8, 8u8],
            k <= 3,
            next < img.height ==> sources@ =~= seq![
                weighted(img.at(x0 as int, prev as int), 8),
                weighted(img.at(x0 as int, next as int), 8),
                weighted(img.at(x1 as int, prev as int), 4),
                weighted(img.at(x1 as int, next as int), 4),
                weighted(img.at(x2 as int, prev as int), 8),
                weighted(img.at(x2 as int, next as int), 8),
            ].take(2 * k),
            next >= img.height ==> sources@ =~= seq![
                weighted(img.at(x0 as int, prev as int), 8),
                weighted(img.at(x1 as int, prev as int), 4),
                weighted(img.at(x2 as int, prev as int), 8),
            ].take(k as int),
        decreases 3 - k,
    {
        let sx = xs[k];
        let w = ws[k];
        let p = img.pixel(sx, prev);
        sources.push(Pixel { r: p.r, g: p.g, b: p.b, a: p.a / w });
        if next < img.height as u64 {
            let q = img.pixel(sx, next as u32);
            sources.push(Pixel { r: q.r, g: q.g, b: q.b, a: q.a / w });
        }
        k += 1;
    }
    let ghost xi = x as int;
    let ghost pv = cfg.prev_line(y as int);
    let ghost nx = cfg.next_line(y as int);
    assert(pv == prev && nx == next);
    if next < img.height as u64 {
        assert(sources@ =~= gap_sources(*img, xi, pv, nx));
    } else {
        assert(sources@ =~= gap_sources(*img, xi, pv, nx));
    }
    blend(&sources)
}

/// The scanline effect: gap rows are filled by blending the rows that bound
/// the gap, and every other pixel `(x, y)` is moved sideways by `shifts[y][x]`.
pub fn scanlines(img: &Image, cfg: &ScanlineOptions, shifts: &Vec<Vec<i32>>) -> (out: Image)
    requires
        img.wf(),
        cfg.valid(),
        shifts_fit(*img, shifts@),
    ensures
        out.same_shape(img),
        forall|x: int, y: int| 0 <= x < img.width && 0 <= y < img.height ==>
            #[trigger] out.at(x, y) == scanline_pixel(*img, *cfg, shifts@[y]@[x] as int, x, y),
{
    let w = img.width;
    let h = img.height;
    let period = cfg.vert_dist + cfg.gap_size;
    let mut rows: Vec<Vec<Pixel>> = Vec::new();
    let mut y: u32 = 0;
    while y < h
        invariant
            img.wf(),
            cfg.valid(),
            shifts_fit(*img, shifts@),
            w == img.width,
            h == img.height,
            period == cfg.period(),
            y <= h,
            rows@.len() == y,
            forall|j: int| 0 <= j < y ==> #[trigger] rows@[j]@.len() == w,
            forall|j: int, i: int| 0 <= j < y && 0 <= i < w ==>
                #[trigger] rows@[j]@[i] == scanline_pixel(*img, *cfg, shifts@[j]@[i] as int, i, j),
        decreases h - y,
    {
        let mut row: Vec<Pixel> = Vec::new();
        let mut x: u32 = 0;
        while x < w
            invariant
                img.wf(),
                cfg.valid(),
                shifts_fit(*img, shifts@),
                w == img.width,
                h == img.height,
                period == cfg.period(),
                y < h,
                x <= w,
                row@.len() == x,
                forall|i: int| 0 <= i < x ==>
                    #[trigger] row@[i] == scanline_pixel(*img, *cfg, shifts@[y as int]@[i] as int, i, y as int),
            decreases w - x,
        {
            let p = if y % period >= cfg.vert_dist {
                gap_pixel(img, cfg, x, y)
            } else {
                let sx = clamping_add(x, shifts[y as usize][x as usize], w - 1);
                img.pixel(sx, y)
            };
            row.push(p);
            x += 1;
        }
        rows.push(row);
        y += 1;
    }
    Image { width: w, height: h, rows }
}

} // verus!
