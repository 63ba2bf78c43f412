use vstd::prelude::*;
use crate::coords::{clamped, clamping_add};
use crate::pixel::Pixel;
use crate::raster::Image;
use crate::rng::gen_range;

verus! {

/// Least height of a block.
pub const MIN_BLOCK_HEIGHT: u32 = 16;

/// Rows that every block moves down by at each step.
pub const BLOCK_DRIFT: u32 = 3;

/// Least size of a block's sideways shift.
pub const MIN_SHIFT: i32 = 3;

/// Shifts are drawn from `[-SHIFT_SPAN, SHIFT_SPAN)`.
pub const SHIFT_SPAN: i32 = 20;

/// A band of `height` rows from row `min_y`, moved sideways by `shift` pixels.
#[derive(Clone, Copy, Debug, PartialEq, Eq, Structural)]
pub struct Block {
    pub min_y: u32,
    pub height: u32,
    pub shift: i32,
}

/// The bands that the block effect moves, in the order in which they are
/// looked up.
#[derive(Debug)]
pub struct BlockShiftOptions {
    pub blocks: Vec<Block>,
}

/// A drawn shift with the dead zone `(-3, 3)` snapped to `-3` or `3`.
pub open spec fn snapped(s: int) -> int {
    if -MIN_SHIFT <= s < 0 {
        -MIN_SHIFT
    } else if 0 <= s <= MIN_SHIFT {
        MIN_SHIFT as int
    } else {
        s
    }
}

/// The block from row `min_y` built from the drawn height and shift.
pub open spec fn block_of(min_y: int, height_draw: int, shift_draw: int) -> Block {
    Block {
        min_y: min_y as u32,
        height: (if height_draw < MIN_BLOCK_HEIGHT { MIN_BLOCK_HEIGHT as int } else { height_draw }) as u32,
        shift: snapped(shift_draw) as i32,
    }
}

/// Where the band after block `i` of `s` begins: the next block's first row,
/// or `max_y` after the last block.
pub open spec fn band_end(s: Seq<Block>, i: int, max_y: int) -> int {
    if i + 1 < s.len() {
        s[i + 1].min_y as int
    } else {
        max_y
    }
}

/// `s` is sorted by first row.
pub open spec fn sorted_blocks(s: Seq<Block>) -> bool {
    forall|i: int, j: int| #![trigger s[i], s[j]] 0 <= i < j < s.len() ==> s[i].min_y <= s[j].min_y
}

/// What holds of every set of blocks drawn for an image of `max_y` rows:
/// sorted, each starting inside the image, at least 16 rows high and either
/// exactly 16 or ending before the band that follows, and shifted by 3 to 20
/// pixels either way.
pub open spec fn placed(s: Seq<Block>, max_y: int) -> bool {
    &&& sorted_blocks(s)
    &&& forall|i: int| 0 <= i < s.len() ==> {
        &&& (#[trigger] s[i]).min_y < max_y
        &&& s[i].height >= MIN_BLOCK_HEIGHT
        &&& (s[i].height == MIN_BLOCK_HEIGHT || s[i].min_y + s[i].height < band_end(s, i, max_y))
        &&& MIN_SHIFT <= s[i].shift <= SHIFT_SPAN || -SHIFT_SPAN <= s[i].shift <= -MIN_SHIFT
    }
}

/// Blocks placed as drawn do not overlap where consecutive blocks start at
/// least 16 rows apart.
pub proof fn lemma_placed_blocks_disjoint(s: Seq<Block>, max_y: int)
    requires
        placed(s, max_y),
        forall|i: int| 0 <= i < s.len() - 1 ==> #[trigger] s[i].min_y + MIN_BLOCK_HEIGHT <= s[i + 1].min_y,
    ensures
        forall|i: int, j: int| #![trigger s[i], s[j]] 0 <= i < j < s.len() ==> s[i].min_y + s[i].height <= s[j].min_y,
{
    assert forall|i: int, j: int| #![trigger s[i], s[j]] 0 <= i < j < s.len() implies s[i].min_y + s[i].height <= s[j].min_y by {
        assert(s[i].min_y + MIN_BLOCK_HEIGHT <= s[i + 1].min_y);
        assert(s[i + 1].min_y <= s[j].min_y);
        assert(band_end(s, i, max_y) == s[i + 1].min_y);
    }
}

/// Builds a block from its first row and the drawn height and shift.
pub fn make_block(min_y: u32, height_draw: u32, shift_draw: i32) -> (b: Block)
    ensures
        b == block_of(min_y as int, height_draw as int, shift_draw as int),
{
    let height = if height_draw < MIN_BLOCK_HEIGHT { MIN_BLOCK_HEIGHT } else { height_draw };
    let shift = if -MIN_SHIFT <= shift_draw && shift_draw < 0 {
        -MIN_SHIFT
    } else if 0 <= shift_draw && shift_draw <= MIN_SHIFT {
        MIN_SHIFT
    } else {
        shift_draw
    };
    Block { min_y, height, shift }
}

/// `v` sorted, in ascending order.
pub open spec fn ascending(v: Seq<u32>) -> bool {
    forall|i: int, j: int| #![trigger v[i], v[j]] 0 <= i < j < v.len() ==> v[i] <= v[j]
}

/// Inserts `d` into the sorted `v` after every element not above it.
fn insert_sorted(v: &mut Vec<u32>, d: u32, bound: u32)
    requires
        ascending(old(v)@),
        d < bound,
        forall|k: int| 0 <= k < old(v)@.len() ==> #[trigger] old(v)@[k] < bound,
        old(v)@.len() < usize::MAX,
    ensures
        ascending(final(v)@),
        final(v)@.len() == old(v)@.len() + 1,
        forall|k: int| 0 <= k < final(v)@.len() ==> #[trigger] final(v)@[k] < bound,
{
    let mut p: usize = 0;
    while p < v.len() && v[p] <= d
        invariant
            p <= v@.len(),
            forall|k: int| 0 <= k < p ==> v@[k] <= d,
        decreases v@.len() - p,
    {
        p += 1;
    }
    let ghost before = v@;
    v.insert(p, d);
    assert(v@ =~= before.insert(p as int, d));
}

/// Draws `n` first rows in `[0, max_y)` and sorts them.
fn draw_start_rows(n: usize, max_y: u32, rng: &mut rand::StdRng) -> (v: Vec<u32>)
    requires
        max_y >= 1,
    ensures
        v@.len() == n,
        ascending(v@),
        forall|i: int| 0 <= i < n ==> #[trigger] v@[i] < max_y,
{
    let mut v: Vec<u32> = Vec::new();
    let mut i: usize = 0;
    while i < n
        invariant
            i <= n,
            max_y >= 1,
            v@.len() == i,
            ascending(v@),
            forall|k: int| 0 <= k < i ==> #[trigger] v@[k] < max_y,
        decreases n - i,
    {
        let d = gen_range(rng, 0, max_y as i64) as u32;
        insert_sorted(&mut v, d, max_y);
        i += 1;
    }
    v
}

impl BlockShiftOptions {
    /// Splits `[0, max_y)` into `num_blocks` bands at first rows drawn at
    /// random: each gets a height drawn below the distance to the next band
    /// (raised to 16) and a shift drawn from `[-20, 20)` (snapped out of the
    /// dead zone).
    pub fn random(num_blocks: usize, max_y: u32, rng: &mut rand::StdRng) -> (r: BlockShiftOptions)
        requires
            max_y >= 1,
        ensures
            r.blocks@.len() == num_blocks,
            placed(r.blocks@, max_y as int),
    {
        let starts = draw_start_rows(num_blocks, max_y, rng);
        let mut blocks: Vec<Block> = Vec::new();
        let mut i: usize = 0;
        while i < num_blocks
            invariant
                i <= num_blocks,
                starts@.len() == num_blocks,
                ascending(starts@),
                forall|k: int| 0 <= k < num_blocks ==> #[trigger] starts@[k] < max_y,
                blocks@.len() == i,
                forall|k: int| 0 <= k < i ==> (#[trigger] blocks@[k]).min_y == starts@[k],
                forall|k: int| 0 <= k < i ==> {
                    &&& (#[trigger] blocks@[k]).height >= MIN_BLOCK_HEIGHT
                    &&& (blocks@[k].height == MIN_BLOCK_HEIGHT || blocks@[k].min_y + blocks@[k].height
                        < (if k + 1 < num_blocks { starts@[k + 1] as int } else { max_y as int }))
                    &&& MIN_SHIFT <= blocks@[k].shift <= SHIFT_SPAN || -SHIFT_SPAN <= blocks@[k].shift <= -MIN_SHIFT
                },
            decreases num_blocks - i,
        {
            let min_y = starts[i];
            let max_end = if i == num_blocks - 1 { max_y } else { starts[i + 1] };
            let gap = max_end - min_y;
            let height_draw: u32 = if gap > 0 { gen_range(rng, 0, gap as i64) as u32 } else { 0 };
            let shift_draw = gen_range(rng, -SHIFT_SPAN as i64, SHIFT_SPAN as i64) as i32;
            let b = make_block(min_y, height_draw, shift_draw);
            blocks.push(b);
            i += 1;
        }
        let r = BlockShiftOptions { blocks };
        assert(placed(r.blocks@, max_y as int)) by {
            assert forall|k: int| 0 <= k < num_blocks implies band_end(r.blocks@, k, max_y as int)
                == (if k + 1 < num_blocks { starts@[k + 1] as int } else { max_y as int }) by {
                if k + 1 < num_blocks {
                    assert(r.blocks@[k + 1].min_y == starts@[k + 1]);
                }
            }
            assert forall|a: int, b: int| #![trigger r.blocks@[a], r.blocks@[b]] 0 <= a < b < num_blocks
                implies r.blocks@[a].min_y <= r.blocks@[b].min_y by {
                assert(r.blocks@[a].min_y == starts@[a]);
                assert(r.blocks@[b].min_y == starts@[b]);
            }
        }
        r
    }

    /// Every block moved down by three rows, its height and shift kept.
    pub fn step(&self) -> (r: BlockShiftOptions)
        requires
            forall|i: int| 0 <= i < self.blocks@.len() ==> #[trigger] self.blocks@[i].min_y + BLOCK_DRIFT <= u32::MAX,
        ensures
            r.blocks@.len() == self.blocks@.len(),
            forall|i: int| 0 <= i < self.blocks@.len() ==> #[trigger] r.blocks@[i] == (Block {
                min_y: (self.blocks@[i].min_y + BLOCK_DRIFT) as u32,
                ..self.blocks@[i]
            }),
    {
        let mut blocks: Vec<Block> = Vec::new();
        let mut i: usize = 0;
        while i < self.blocks.len()
            invariant
                i <= self.blocks@.len(),
                forall|k: int| 0 <= k < self.blocks@.len() ==> #[trigger] self.blocks@[k].min_y + BLOCK_DRIFT <= u32::MAX,
                blocks@.len() == i,
                forall|k: int| 0 <= k < i ==> #[trigger] blocks@[k] == (Block {
                    min_y: (self.blocks@[k].min_y + BLOCK_DRIFT) as u32,
                    ..self.blocks@[k]
                }),
            decreases self.blocks@.len() - i,
        {
            let b = self.blocks[i];
            blocks.push(Block { min_y: b.min_y + BLOCK_DRIFT, height: b.height, shift: b.shift });
            i += 1;
        }
        BlockShiftOptions { blocks }
    }
}

/// The first block of `s`, in order, whose rows hold `y`; the look-up stops at
/// the first block that starts below `y`.
pub open spec fn covering_block(s: Seq<Block>, y: int) -> Option<Block>
    decreases s.len(),
{
    if s.len() == 0 {
        None
    } else if y < s[0].min_y {
        None
    } else if y < s[0].min_y + s[0].height {
        Some(s[0])
    } else {
        covering_block(s.drop_first(), y)
    }
}

/// The block effect at `(x, y)`: the pixel moved sideways by the shift of the
/// block that covers row `y`, held inside the image; unchanged outside blocks.
pub open spec fn block_pixel(img: Image, s: Seq<Block>, x: int, y: int) -> Pixel {
    match covering_block(s, y) {
        Some(b) => img.at(clamped(x, b.shift as int, img.width - 1), y),
        None => img.at(x, y),
    }
}

proof fn lemma_covering_is_listed(s: Seq<Block>, y: int)
    ensures
        covering_block(s, y) matches Some(b) ==> exists|i: int| 0 <= i < s.len() && #[trigger] s[i] == b,
    decreases s.len(),
{
    if s.len() > 0 && y >= s[0].min_y && y >= s[0].min_y + s[0].height {
        lemma_covering_is_listed(s.drop_first(), y);
        if covering_block(s.drop_first(), y) is Some {
            let i = choose|i: int| 0 <= i < s.drop_first().len() && #[trigger] s.drop_first()[i] == covering_block(s.drop_first(), y)->Some_0;
            assert(s[i + 1] == s.drop_first()[i]);
        }
    } else if s.len() > 0 && y >= s[0].min_y {
        assert(s[0] == s[0]);
    }
}

/// Blocks that all have a zero shift leave every pixel as it was.
pub proof fn lemma_unshifted_blocks_keep(img: Image, s: Seq<Block>, x: int, y: int)
    requires
        forall|i: int| 0 <= i < s.len() ==> #[trigger] s[i].shift == 0,
        0 <= x < img.width,
    ensures
        block_pixel(img, s, x, y) == img.at(x, y),
{
    lemma_covering_is_listed(s, y);
}

fn covering_shift(blocks: &Vec<Block>, y: u32) -> (r: Option<i32>)
    ensures
        r == (match covering_block(blocks@, y as int) {
            Some(b) => Some(b.shift),
            None => None::<i32>,
        }),
{
    let mut k: usize = 0;
    assert(blocks@.subrange(0, blocks@.len() as int) =~= blocks@);
    while k < blocks.len()
        invariant
            k <= blocks@.len(),
            covering_block(blocks@, y as int) == covering_block(blocks@.subrange(k as int, blocks@.len() as int), y as int),
        decreases blocks@.len() - k,
    {
        let ghost rest = blocks@.subrange(k as int, blocks@.len() as int);
        assert(rest.drop_first() =~= blocks@.subrange(k + 1, blocks@.len() as int));
        let b = blocks[k];
        if y < b.min_y {
            return None;
        }
        if (y as u64) < b.min_y as u64 + b.height as u64 {
            return Some(b.shift);
        }
        k += 1;
    }
    None
}

/// The block effect: each row inside a block is moved sideways by that
/// block's shift; other rows are kept.
pub fn offset_blocks(img: &Image, cfg: &BlockShiftOptions) -> (out: Image)
    requires
        img.wf(),
    ensures
        out.same_shape(img),
        forall|x: int, y: int| 0 <= x < img.width && 0 <= y < img.height ==>
            #[trigger] out.at(x, y) == block_pixel(*img, cfg.blocks@, x, y),
{
    let w = img.width;
    let h = img.height;
    let mut rows: Vec<Vec<Pixel>> = Vec::new();
    let mut y: u32 = 0;
    while y < h
        invariant
            img.wf(),
            w == img.width,
            h == img.height,
            y <= h,
            rows@.len() == y,
            forall|j: int| 0 <= j < y ==> #[trigger] rows@[j]@.len() == w,
            forall|j: int, i: int| 0 <= j < y && 0 <= i < w ==>
                #[trigger] rows@[j]@[i] == block_pixel(*img, cfg.blocks@, i, j),
        decreases h - y,
    {
        let shift = covering_shift(&cfg.blocks, y);
        let mut row: Vec<Pixel> = Vec::new();
        let mut x: u32 = 0;
        while x < w
            invariant
                img.wf(),
                w == img.width,
                h == img.height,
                y < h,
                x <= w,
                row@.len() == x,
                shift == (match covering_block(cfg.blocks@, y as int) {
                    Some(b) => Some(b.shift),
                    None => None::<i32>,
                }),
                forall|i: int| 0 <= i < x ==> #[trigger] row@[i] == block_pixel(*img, cfg.blocks@, i, y as int),
            decreases w - x,
        {
            let p = match shift {
                Some(s) => img.pixel(clamping_add(x, s, w - 1), y),
                None => img.pixel(x, y),
            };
            row.push(p);
            x += 1;
        }
        rows.push(row);
        y += 1;
    }
    Image { width: w, height: h, rows }
}

} // verus!
