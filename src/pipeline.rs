use vstd::prelude::*;
use crate::blocks::{block_pixel, lemma_unshifted_blocks_keep, Block, BlockShiftOptions, offset_blocks, BLOCK_DRIFT};
use crate::coords::{clamped, lemma_clamped_in_range};
use crate::pixel::Pixel;
use crate::channels::{lemma_opaque_red_cyan_rejoins, offset_red_cyan, red_cyan_pixel, LimitedShiftOptions};
use crate::raster::Image;
use crate::scanline::{scanline_pixel, scanlines, shifts_fit, ScanlineOptions};
use crate::wind::{draws_fit, lemma_calm_wind_keeps_row, wind, wind_pixel, WindOptions};

verus! {

/// The parameters of every stage of the glitch pipeline for one frame.
#[derive(Debug)]
pub struct Options {
    pub shift: LimitedShiftOptions,
    pub scan: ScanlineOptions,
    pub wind: WindOptions,
    pub blocks: BlockShiftOptions,
}

/// `out` is `img` after the scanline stage.
pub open spec fn scanlined(img: Image, cfg: ScanlineOptions, shifts: Seq<Vec<i32>>, out: Image) -> bool {
    &&& out.same_shape(&img)
    &&& forall|x: int, y: int| 0 <= x < img.width && 0 <= y < img.height ==>
        #[trigger] out.at(x, y) == scanline_pixel(img, cfg, shifts[y]@[x] as int, x, y)
}

/// `out` is `img` after the red/cyan stage.
pub open spec fn red_cyan_shifted(img: Image, d: int, out: Image) -> bool {
    &&& out.same_shape(&img)
    &&& forall|x: int, y: int| 0 <= x < img.width && 0 <= y < img.height ==>
        #[trigger] out.at(x, y) == red_cyan_pixel(img, d, x, y)
}

/// `out` is `img` after the wind stage.
pub open spec fn windswept(img: Image, cfg: WindOptions, draws: Seq<Vec<u32>>, out: Image) -> bool {
    &&& out.same_shape(&img)
    &&& forall|x: int, y: int| 0 <= x < img.width && 0 <= y < img.height ==>
        #[trigger] out.at(x, y) == wind_pixel(img.rows@[y]@, draws[y]@, cfg, x)
}

/// `out` is `img` after the block stage.
pub open spec fn block_shifted(img: Image, blocks: Seq<Block>, out: Image) -> bool {
    &&& out.same_shape(&img)
    &&& forall|x: int, y: int| 0 <= x < img.width && 0 <= y < img.height ==>
        #[trigger] out.at(x, y) == block_pixel(img, blocks, x, y)
}

impl Options {
    pub fn new(
        shift: LimitedShiftOptions,
        scan: ScanlineOptions,
        wind: WindOptions,
        blocks: BlockShiftOptions,
    ) -> (o: Options)
        ensures
            o == (Options { shift, scan, wind, blocks }),
    {
        Options { shift, scan, wind, blocks }
    }

    /// The next frame's parameters: the scanline phase and the blocks move on;
    /// the channel offset and the wind are kept.
    pub fn step(&self) -> (o: Options)
        requires
            i64::MIN <= self.scan.desync_phase + self.scan.desync_frequency <= i64::MAX,
            forall|i: int| 0 <= i < self.blocks.blocks@.len() ==>
                #[trigger] self.blocks.blocks@[i].min_y + BLOCK_DRIFT <= u32::MAX,
        ensures
            o.shift == self.shift,
            o.wind == self.wind,
            o.scan == (ScanlineOptions {
                desync_phase: (self.scan.desync_phase + self.scan.desync_frequency) as i64,
                ..self.scan
            }),
            o.blocks.blocks@.len() == self.blocks.blocks@.len(),
            forall|i: int| 0 <= i < self.blocks.blocks@.len() ==> #[trigger] o.blocks.blocks@[i] == (Block {
                min_y: (self.blocks.blocks@[i].min_y + BLOCK_DRIFT) as u32,
                ..self.blocks.blocks@[i]
            }),
    {
        Options {
            shift: self.shift,
            scan: self.scan.step(),
            wind: self.wind,
            blocks: self.blocks.step(),
        }
    }
}

/// Runs the stages in order on `img`: scanlines (with `desync_shifts[y][x]`
/// as the sideways shift of pixel `(x, y)`), the red/cyan offset, the wind
/// (with `wind_draws[y][x]` as the draw of pixel `(x, y)`), and the blocks.
pub fn glitch_img(
    img: &Image,
    config: &Options,
    desync_shifts: &Vec<Vec<i32>>,
    wind_draws: &Vec<Vec<u32>>,
) -> (out: Image)
    requires
        img.wf(),
        config.scan.valid(),
        config.shift.distance > i32::MIN,
        shifts_fit(*img, desync_shifts@),
        draws_fit(*img, wind_draws@),
    ensures
        exists|s1: Image, s2: Image, s3: Image|
            #![trigger scanlined(*img, config.scan, desync_shifts@, s1), red_cyan_shifted(s1, config.shift.distance as int, s2), windswept(s2, config.wind, wind_draws@, s3)]
            {
                &&& scanlined(*img, config.scan, desync_shifts@, s1)
                &&& red_cyan_shifted(s1, config.shift.distance as int, s2)
                &&& windswept(s2, config.wind, wind_draws@, s3)
                &&& block_shifted(s3, config.blocks.blocks@, out)
            },
{
    let s1 = scanlines(img, &config.scan, desync_shifts);
    let s2 = offset_red_cyan(&s1, &config.shift);
    let s3 = wind(&s2, &config.wind, wind_draws);
    let out = offset_blocks(&s3, &config.blocks);
    assert(scanlined(*img, config.scan, desync_shifts@, s1));
    assert(red_cyan_shifted(s1, config.shift.distance as int, s2));
    assert(windswept(s2, config.wind, wind_draws@, s3));
    assert(block_shifted(s3, config.blocks.blocks@, out));
    out
}

/// An image of one opaque colour comes through the pipeline unchanged when
/// the scanlines have no gap, every block has a zero shift and the wind never
/// starts, whatever the channel offset, the desync shifts and the draws.
pub proof fn lemma_solid_image_kept(
    img: Image,
    p: Pixel,
    config: Options,
    shifts: Seq<Vec<i32>>,
    draws: Seq<Vec<u32>>,
    s1: Image,
    s2: Image,
    s3: Image,
    out: Image,
)
    requires
        img.wf(),
        p.a == 255,
        forall|x: int, y: int| 0 <= x < img.width && 0 <= y < img.height ==> #[trigger] img.at(x, y) == p,
        config.scan.valid(),
        config.scan.gap_size == 0,
        config.wind.wind_onset_chance == 0,
        forall|i: int| 0 <= i < config.blocks.blocks@.len() ==> #[trigger] config.blocks.blocks@[i].shift == 0,
        scanlined(img, config.scan, shifts, s1),
        red_cyan_shifted(s1, config.shift.distance as int, s2),
        windswept(s2, config.wind, draws, s3),
        block_shifted(s3, config.blocks.blocks@, out),
    ensures
        forall|x: int, y: int| 0 <= x < img.width && 0 <= y < img.height ==> #[trigger] out.at(x, y) == p,
{
    let w = img.width as int;
    assert forall|x: int, y: int| 0 <= x < img.width && 0 <= y < img.height implies #[trigger] s1.at(x, y) == p by {
        assert(y % config.scan.period() < config.scan.vert_dist);
        lemma_clamped_in_range(x, shifts[y]@[x] as int, w - 1);
    }
    assert forall|x: int, y: int| 0 <= x < img.width && 0 <= y < img.height implies #[trigger] s2.at(x, y) == p by {
        let d = config.shift.distance as int;
        lemma_clamped_in_range(x, d, w - 1);
        lemma_clamped_in_range(x, -d, w - 1);
        assert(s1.at(clamped(x, d, w - 1), y) == p);
        assert(s1.at(clamped(x, -d, w - 1), y) == p);
        lemma_opaque_red_cyan_rejoins(p);
    }
    assert forall|x: int, y: int| 0 <= x < img.width && 0 <= y < img.height implies #[trigger] s3.at(x, y) == p by {
        lemma_calm_wind_keeps_row(s2.rows@[y]@, draws[y]@, config.wind, x);
        assert(s2.at(x, y) == p);
    }
    assert forall|x: int, y: int| 0 <= x < img.width && 0 <= y < img.height implies #[trigger] out.at(x, y) == p by {
        lemma_unshifted_blocks_keep(s3, config.blocks.blocks@, x, y);
        assert(s3.at(x, y) == p);
    }
}

} // verus!
