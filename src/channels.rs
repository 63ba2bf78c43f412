use vstd::prelude::*;
use vstd::arithmetic::div_mod::lemma_fundamental_div_mod;
use vstd::arithmetic::mul::lemma_mul_inequality_converse;
use crate::coords::{clamped, clamping_add};
use crate::pixel::{blend, blended, clear_product, composite_alpha, max_alpha, max_contribution, pow255, Pixel};
use vstd::arithmetic::div_mod::lemma_div_multiples_vanish;
use crate::raster::Image;

verus! {

/// Offset of the red channel from the green and blue ones, in pixels.
#[derive(Clone, Copy, Debug, PartialEq, Eq, Structural)]
pub struct LimitedShiftOptions {
    pub distance: i32,
}

impl LimitedShiftOptions {
    pub fn new(distance: i32) -> (r: LimitedShiftOptions)
        ensures
            r.distance == distance,
    {
        LimitedShiftOptions { distance }
    }
}

/// Red of `p` alone, at `p`'s alpha.
pub open spec fn red_part(p: Pixel) -> Pixel {
    Pixel { r: p.r, g: 0, b: 0, a: p.a }
}

/// Green of `p` alone, at `p`'s alpha.
pub open spec fn green_part(p: Pixel) -> Pixel {
    Pixel { r: 0, g: p.g, b: 0, a: p.a }
}

/// Blue of `p` alone, at `p`'s alpha.
pub open spec fn blue_part(p: Pixel) -> Pixel {
    Pixel { r: 0, g: 0, b: p.b, a: p.a }
}

/// Green and blue of `p`, at `p`'s alpha.
pub open spec fn cyan_part(p: Pixel) -> Pixel {
    Pixel { r: 0, g: p.g, b: p.b, a: p.a }
}

/// The red/cyan offset at `(x, y)`: red taken `d` pixels to the right, green
/// and blue `d` pixels to the left, both held inside the row, blended.
pub open spec fn red_cyan_pixel(img: Image, d: int, x: int, y: int) -> Pixel {
    let m = img.width - 1;
    blended(seq![red_part(img.at(clamped(x, d, m), y)), cyan_part(img.at(clamped(x, -d, m), y))])
}

/// An opaque pixel split into its red and cyan parts blends back to itself:
/// with no offset the red/cyan effect keeps opaque pixels.
pub proof fn lemma_opaque_red_cyan_rejoins(p: Pixel)
    requires
        p.a == 255,
    ensures
        blended(seq![red_part(p), cyan_part(p)]) == p,
{
    let s = seq![red_part(p), cyan_part(p)];
    let t = s.drop_last();
    assert(t =~= seq![red_part(p)]);
    assert(t.drop_last() =~= Seq::<Pixel>::empty());
    assert(max_alpha(Seq::<Pixel>::empty()) == 0);
    assert(max_alpha(t) == 255);
    assert(max_alpha(s) == 255);
    lemma_div_multiples_vanish(p.r as int, 255);
    lemma_div_multiples_vanish(p.g as int, 255);
    lemma_div_multiples_vanish(p.b as int, 255);
    assert(p.r as int * 255 == 255 * p.r as int);
    assert(p.g as int * 255 == 255 * p.g as int);
    assert(p.b as int * 255 == 255 * p.b as int);
    let e = Seq::<Pixel>::empty();
    assert(max_contribution(e, 0, 255) == 0 && max_contribution(e, 1, 255) == 0 && max_contribution(e, 2, 255) == 0);
    assert(max_contribution(t, 0, 255) == p.r);
    assert(max_contribution(t, 1, 255) == 0);
    assert(max_contribution(t, 2, 255) == 0);
    assert(max_contribution(s, 0, 255) == p.r);
    assert(max_contribution(s, 1, 255) == p.g);
    assert(max_contribution(s, 2, 255) == p.b);
    assert(clear_product(e) == 1);
    assert(t.last() == red_part(p) && s.last() == cyan_part(p));
    assert(clear_product(t) == clear_product(e) * 0);
    assert(clear_product(t) == 0);
    assert(clear_product(s) == clear_product(t) * 0);
    assert(clear_product(s) == 0);
    assert(pow255(2) == 65025 && pow255(1) == 255) by {
        reveal_with_fuel(pow255, 3);
    }
    assert(composite_alpha(s) == 65025int / 255int);
}

/// The red/cyan channel offset effect.
pub fn offset_red_cyan(img: &Image, cfg: &LimitedShiftOptions) -> (out: Image)
    requires
        img.wf(),
        cfg.distance > i32::MIN,
    ensures
        out.same_shape(img),
        forall|x: int, y: int| 0 <= x < img.width && 0 <= y < img.height ==>
            #[trigger] out.at(x, y) == red_cyan_pixel(*img, cfg.distance as int, x, y),
{
    let w = img.width;
    let h = img.height;
    let d = cfg.distance;
    let mut rows: Vec<Vec<Pixel>> = Vec::new();
    let mut y: u32 = 0;
    while y < h
        invariant
            img.wf(),
            w == img.width,
            h == img.height,
            d == cfg.distance,
            d > i32::MIN,
            y <= h,
            rows@.len() == y,
            forall|j: int| 0 <= j < y ==> #[trigger] rows@[j]@.len() == w,
            forall|j: int, i: int| 0 <= j < y && 0 <= i < w ==>
                #[trigger] rows@[j]@[i] == red_cyan_pixel(*img, d as int, i, j),
        decreases h - y,
    {
        let mut row: Vec<Pixel> = Vec::new();
        let mut x: u32 = 0;
        while x < w
            invariant
                img.wf(),
                w == img.width,
                h == img.height,
                d == cfg.distance,
                d > i32::MIN,
                y < h,
                x <= w,
                row@.len() == x,
                forall|i: int| 0 <= i < x ==> #[trigger] row@[i] == red_cyan_pixel(*img, d as int, i, y as int),
            decreases w - x,
        {
            let rp = img.pixel(clamping_add(x, d, w - 1), y);
            let cp = img.pixel(clamping_add(x, -d, w - 1), y);
            let mut parts: Vec<Pixel> = Vec::new();
            parts.push(Pixel { r: rp.r, g: 0, b: 0, a: rp.a });
            parts.push(Pixel { r: 0, g: cp.g, b: cp.b, a: cp.a });
            assert(parts@ =~= seq![red_part(rp), cyan_part(cp)]);
            row.push(blend(&parts));
            x += 1;
        }
        rows.push(row);
        y += 1;
    }
    Image { width: w, height: h, rows }
}

/// Thousandths of a pixel in one pixel.
pub const MILLIS_PER_PIXEL: i64 = 1000;

/// How far a channel's current offset may stray from its base offset, on
/// each axis, in thousandths of a pixel.
pub const MAX_DRIFT: i64 = 2147483648;

/// The drifting offset of one colour channel, in thousandths of a pixel: the
/// base offset is fixed, the current one walks around it. `radius` is the
/// spread of the walk's draws, `max_move` the farthest one step moves.
#[derive(Clone, Copy, Debug, PartialEq, Eq, Structural)]
pub struct ChannelShiftOptions {
    pub base_shift_x: i32,
    pub base_shift_y: i32,
    pub current_shift_x: i64,
    pub current_shift_y: i64,
    pub radius: u32,
    pub max_move: u32,
}

/// The least `s >= 0` whose square reaches `n`.
pub open spec fn ceil_sqrt(n: int) -> int {
    choose|s: int| #[trigger] is_ceil_sqrt(s, n)
}

pub open spec fn is_ceil_sqrt(s: int, n: int) -> bool {
    &&& s >= 0
    &&& s * s >= n
    &&& (s == 0 || (s - 1) * (s - 1) < n)
}

/// `d * m / s`, rounded toward zero.
pub open spec fn scaled(d: int, m: int, s: int) -> int {
    if d >= 0 {
        d * m / s
    } else {
        -((-d) * m / s)
    }
}

/// The step from the current offset toward a target `(dx, dy)` away: the whole
/// way where that is within `m`, else shortened to length `m` (in integer
/// steps, never longer) in the same direction.
pub open spec fn walk_step(dx: int, dy: int, m: int) -> (int, int) {
    let d2 = dx * dx + dy * dy;
    if d2 <= m * m {
        (dx, dy)
    } else {
        let s = ceil_sqrt(d2);
        (scaled(dx, m, s), scaled(dy, m, s))
    }
}

/// A pixel count from thousandths, rounded toward zero.
pub open spec fn whole_pixels(v: int) -> int {
    if v >= 0 {
        v / MILLIS_PER_PIXEL as int
    } else {
        -((-v) / MILLIS_PER_PIXEL as int)
    }
}

proof fn lemma_ceil_sqrt_unique(s: int, t: int, n: int)
    requires
        is_ceil_sqrt(s, n),
        is_ceil_sqrt(t, n),
    ensures
        s == t,
{
    if s < t {
        assert((t - 1) * (t - 1) >= s * s) by (nonlinear_arith)
            requires 0 <= s <= t - 1;
    } else if t < s {
        assert((s - 1) * (s - 1) >= t * t) by (nonlinear_arith)
            requires 0 <= t <= s - 1;
    }
}

/// The least square root of `n` from above.
fn ceil_sqrt_exec(n: u128) -> (s: u64)
    requires
        n <= 0x4_0000_0000_0000_0000u128,
    ensures
        s as int == ceil_sqrt(n as int),
        s <= 0x4_0000_0000u64,
{
    if n == 0 {
        assert(is_ceil_sqrt(0, 0));
        proof {
            let c = ceil_sqrt(0);
            lemma_ceil_sqrt_unique(0, c, 0);
        }
        return 0;
    }
    let mut lo: u64 = 0;
    let mut hi: u64 = 0x4_0000_0000u64;
    assert(hi as int * hi as int == 0x10_0000_0000_0000_0000int) by (nonlinear_arith)
        requires hi == 0x4_0000_0000u64;
    while hi - lo > 1
        invariant
            lo < hi <= 0x4_0000_0000u64,
            (lo as int) * (lo as int) < n,
            n <= (hi as int) * (hi as int),
        decreases hi - lo,
    {
        let mid = lo + (hi - lo) / 2;
        assert((mid as int) * (mid as int) <= 0x10_0000_0000_0000_0000int) by (nonlinear_arith)
            requires mid <= 0x4_0000_0000u64;
        if (mid as u128) * (mid as u128) >= n {
            hi = mid;
        } else {
            lo = mid;
        }
    }
    proof {
        assert(is_ceil_sqrt(hi as int, n as int));
        let c = ceil_sqrt(n as int);
        lemma_ceil_sqrt_unique(hi as int, c, n as int);
    }
    hi
}

proof fn lemma_scaled_square(a: int, m: int, s: int)
    requires
        a >= 0,
        m >= 0,
        s >= 1,
    ensures
        0 <= a * m / s,
        (a * m / s) * (a * m / s) * (s * s) <= (a * a) * (m * m),
{
    let q = a * m / s;
    lemma_fundamental_div_mod(a * m, s);
    assert(a * m >= 0) by (nonlinear_arith)
        requires a >= 0, m >= 0;
    assert(q >= 0 && q * s <= a * m) by (nonlinear_arith)
        requires a * m == s * q + (a * m) % s, 0 <= (a * m) % s < s, a * m >= 0, s >= 1;
    assert(q * q * (s * s) <= (a * a) * (m * m)) by (nonlinear_arith)
        requires 0 <= q * s <= a * m, q >= 0, s >= 1;
}

/// A step shortened to length `m` is no longer than `m`.
proof fn lemma_walk_step_bounded(dx: int, dy: int, m: int)
    requires
        m >= 0,
    ensures
        walk_step(dx, dy, m).0 * walk_step(dx, dy, m).0 + walk_step(dx, dy, m).1 * walk_step(dx, dy, m).1 <= m * m,
        walk_step(dx, dy, m).0 * dx >= 0,
        walk_step(dx, dy, m).1 * dy >= 0,
        walk_step(dx, dy, m).0 * walk_step(dx, dy, m).0 <= dx * dx,
        walk_step(dx, dy, m).1 * walk_step(dx, dy, m).1 <= dy * dy,
{
    let d2 = dx * dx + dy * dy;
    assert(dx * dx >= 0 && dy * dy >= 0) by (nonlinear_arith);
    if d2 > m * m {
        let s = ceil_sqrt(d2);
        let ax = if dx >= 0 { dx } else { -dx };
        let ay = if dy >= 0 { dy } else { -dy };
        assert(ax * ax == dx * dx && ay * ay == dy * dy) by (nonlinear_arith)
            requires ax == dx || ax == -dx, ay == dy || ay == -dy;
        // a witness that the square root exists
        assert(exists|t: int| #[trigger] is_ceil_sqrt(t, d2)) by {
            lemma_ceil_sqrt_exists(d2);
        }
        assert(is_ceil_sqrt(s, d2));
        assert(s >= 1) by (nonlinear_arith)
            requires s >= 0, s * s >= d2, d2 > m * m, m * m >= 0;
        assert(m < s) by (nonlinear_arith)
            requires s >= 1, s * s >= d2, d2 > m * m, m >= 0;
        lemma_scaled_square(ax, m, s);
        lemma_scaled_square(ay, m, s);
        let qx = ax * m / s;
        let qy = ay * m / s;
        assert((qx * qx + qy * qy) * (s * s) <= (m * m) * (s * s)) by (nonlinear_arith)
            requires
                qx * qx * (s * s) <= (ax * ax) * (m * m),
                qy * qy * (s * s) <= (ay * ay) * (m * m),
                ax * ax + ay * ay <= s * s,
                m * m >= 0;
        assert(s * s > 0) by (nonlinear_arith)
            requires s >= 1;
        lemma_mul_inequality_converse(qx * qx + qy * qy, m * m, s * s);
        assert(qx <= ax && qy <= ay) by (nonlinear_arith)
            requires
                qx * qx * (s * s) <= (ax * ax) * (m * m),
                qy * qy * (s * s) <= (ay * ay) * (m * m),
                qx >= 0, qy >= 0, ax >= 0, ay >= 0, m < s, m >= 0;
        assert(qx * qx <= ax * ax && qy * qy <= ay * ay) by (nonlinear_arith)
            requires 0 <= qx <= ax, 0 <= qy <= ay;
        assert(scaled(dx, m, s) * dx >= 0 && scaled(dy, m, s) * dy >= 0) by (nonlinear_arith)
            requires
                scaled(dx, m, s) == (if dx >= 0 { qx } else { -qx }),
                scaled(dy, m, s) == (if dy >= 0 { qy } else { -qy }),
                qx >= 0, qy >= 0;
        assert(scaled(dx, m, s) * scaled(dx, m, s) == qx * qx) by (nonlinear_arith)
            requires scaled(dx, m, s) == qx || scaled(dx, m, s) == -qx;
        assert(scaled(dy, m, s) * scaled(dy, m, s) == qy * qy) by (nonlinear_arith)
            requires scaled(dy, m, s) == qy || scaled(dy, m, s) == -qy;
    } else {
        assert(dx * dx >= 0 && dy * dy >= 0) by (nonlinear_arith);
    }
}

proof fn lemma_ceil_sqrt_exists(n: int)
    requires
        n >= 0,
    ensures
        exists|t: int| #[trigger] is_ceil_sqrt(t, n),
    decreases n,
{
    if n == 0 {
        assert(is_ceil_sqrt(0, 0));
    } else {
        lemma_ceil_sqrt_exists(n - 1);
        let t = choose|t: int| #[trigger] is_ceil_sqrt(t, n - 1);
        if t * t >= n {
            if t == 0 {
                assert(false) by (nonlinear_arith)
                    requires t == 0, t * t >= n, n >= 1;
            }
            assert(is_ceil_sqrt(t, n));
        } else {
            assert(t * t == n - 1) by (nonlinear_arith)
                requires t * t >= n - 1, t * t < n;
            assert((t + 1) * (t + 1) >= n) by (nonlinear_arith)
                requires t >= 0, t * t == n - 1;
            assert(is_ceil_sqrt(t + 1, n));
        }
    }
}

impl ChannelShiftOptions {
    /// The current offset stays within `MAX_DRIFT` of the base on each axis.
    pub open spec fn wf(&self) -> bool {
        &&& -MAX_DRIFT <= self.current_shift_x - self.base_shift_x <= MAX_DRIFT
        &&& -MAX_DRIFT <= self.current_shift_y - self.base_shift_y <= MAX_DRIFT
    }

    /// A channel whose walk starts at its base offset `(base_x, base_y)`.
    pub fn new(base_x: i32, base_y: i32, radius: u32, max_move: u32) -> (r: ChannelShiftOptions)
        ensures
            r.wf(),
            r == (ChannelShiftOptions {
                base_shift_x: base_x,
                base_shift_y: base_y,
                current_shift_x: base_x as i64,
                current_shift_y: base_y as i64,
                radius,
                max_move,
            }),
    {
        ChannelShiftOptions {
            base_shift_x: base_x,
            base_shift_y: base_y,
            current_shift_x: base_x as i64,
            current_shift_y: base_y as i64,
            radius,
            max_move,
        }
    }

    /// One step of the walk: the target is the base offset moved by the drawn
    /// `(noise_x, noise_y)`; the current offset moves toward it by at most
    /// `max_move`.
    pub fn step(&self, noise_x: i32, noise_y: i32) -> (r: ChannelShiftOptions)
        requires
            self.wf(),
        ensures
            r.wf(),
            r == (ChannelShiftOptions {
                current_shift_x: (self.current_shift_x + walk_step(
                    self.base_shift_x + noise_x - self.current_shift_x,
                    self.base_shift_y + noise_y - self.current_shift_y,
                    self.max_move as int,
                ).0) as i64,
                current_shift_y: (self.current_shift_y + walk_step(
                    self.base_shift_x + noise_x - self.current_shift_x,
                    self.base_shift_y + noise_y - self.current_shift_y,
                    self.max_move as int,
                ).1) as i64,
                ..*self
            }),
            (r.current_shift_x - self.current_shift_x) * (r.current_shift_x - self.current_shift_x)
                + (r.current_shift_y - self.current_shift_y) * (r.current_shift_y - self.current_shift_y)
                <= (self.max_move as int) * (self.max_move as int),
    {
        let dx: i64 = self.base_shift_x as i64 + noise_x as i64 - self.current_shift_x;
        let dy: i64 = self.base_shift_y as i64 + noise_y as i64 - self.current_shift_y;
        let m = self.max_move;
        let ghost step = walk_step(dx as int, dy as int, m as int);
        proof {
            lemma_walk_step_bounded(dx as int, dy as int, m as int);
        }
        let ax: u64 = if dx >= 0 { dx as u64 } else { (-dx) as u64 };
        let ay: u64 = if dy >= 0 { dy as u64 } else { (-dy) as u64 };
        proof {
            assert((ax as int) * (ax as int) <= 0x1_0000_0000_0000_0000int) by (nonlinear_arith)
                requires ax <= 0x1_0000_0000u64;
            assert((ay as int) * (ay as int) <= 0x1_0000_0000_0000_0000int) by (nonlinear_arith)
                requires ay <= 0x1_0000_0000u64;
            assert((m as int) * (m as int) <= 0x1_0000_0000_0000_0000int) by (nonlinear_arith)
                requires m <= 0xffff_ffffu32;
            assert(ax as int * ax as int == dx * dx && ay as int * ay as int == dy * dy) by (nonlinear_arith)
                requires ax == dx || ax == -dx, ay == dy || ay == -dy;
        }
        let d2: u128 = (ax as u128) * (ax as u128) + (ay as u128) * (ay as u128);
        let mm: u128 = (m as u128) * (m as u128);
        let (sx, sy): (i64, i64) = if d2 <= mm {
            (dx, dy)
        } else {
            let s = ceil_sqrt_exec(d2);
            proof {
                assert(is_ceil_sqrt(s as int, d2 as int)) by {
                    lemma_ceil_sqrt_exists(d2 as int);
                }
                assert(s >= 1) by (nonlinear_arith)
                    requires s * s >= d2, d2 > mm, mm >= 0;
                assert((ax as int) * (m as int) <= 0x1_0000_0000_0000_0000_0000_0000int) by (nonlinear_arith)
                    requires ax <= 0x1_0000_0000u64, m <= 0xffff_ffffu32;
                assert((ay as int) * (m as int) <= 0x1_0000_0000_0000_0000_0000_0000int) by (nonlinear_arith)
                    requires ay <= 0x1_0000_0000u64, m <= 0xffff_ffffu32;
            }
            let qx = (ax as u128) * (m as u128) / (s as u128);
            let qy = (ay as u128) * (m as u128) / (s as u128);
            proof {
                assert(step.0 == scaled(dx as int, m as int, s as int));
                assert(step.1 == scaled(dy as int, m as int, s as int));
                assert(qx <= ax && qy <= ay) by {
                    assert(step.0 * step.0 <= dx * dx);
                    assert(step.1 * step.1 <= dy * dy);
                    assert(qx * qx <= ax * ax) by (nonlinear_arith)
                        requires step.0 == qx || step.0 == -qx, step.0 * step.0 <= dx * dx, ax * ax == dx * dx;
                    assert(qy * qy <= ay * ay) by (nonlinear_arith)
                        requires step.1 == qy || step.1 == -qy, step.1 * step.1 <= dy * dy, ay * ay == dy * dy;
                    assert(qx <= ax) by (nonlinear_arith)
                        requires qx * qx <= ax * ax, qx >= 0, ax >= 0;
                    assert(qy <= ay) by (nonlinear_arith)
                        requires qy * qy <= ay * ay, qy >= 0, ay >= 0;
                }
            }
            let sx: i64 = if dx >= 0 { qx as i64 } else { -(qx as i64) };
            let sy: i64 = if dy >= 0 { qy as i64 } else { -(qy as i64) };
            (sx, sy)
        };
        assert(sx == step.0 && sy == step.1);
        proof {
            assert(sx * dx >= 0 && sx * sx <= dx * dx);
            assert(sy * dy >= 0 && sy * sy <= dy * dy);
            assert(0 <= sx <= dx || dx <= sx <= 0) by (nonlinear_arith)
                requires sx * dx >= 0, sx * sx <= dx * dx;
            assert(0 <= sy <= dy || dy <= sy <= 0) by (nonlinear_arith)
                requires sy * dy >= 0, sy * sy <= dy * dy;
        }
        ChannelShiftOptions {
            current_shift_x: self.current_shift_x + sx,
            current_shift_y: self.current_shift_y + sy,
            ..*self
        }
    }

    /// The channel's current offset along x in whole pixels, toward zero.
    pub fn pixels_x(&self) -> (r: i32)
        requires
            self.wf(),
        ensures
            r as int == whole_pixels(self.current_shift_x as int),
    {
        to_whole_pixels(self.current_shift_x)
    }

    /// The channel's current offset along y in whole pixels, toward zero.
    pub fn pixels_y(&self) -> (r: i32)
        requires
            self.wf(),
        ensures
            r as int == whole_pixels(self.current_shift_y as int),
    {
        to_whole_pixels(self.current_shift_y)
    }
}

fn to_whole_pixels(v: i64) -> (r: i32)
    requires
        -0x2_0000_0000i64 <= v <= 0x2_0000_0000i64,
    ensures
        r as int == whole_pixels(v as int),
{
    if v >= 0 {
        (v / MILLIS_PER_PIXEL) as i32
    } else {
        -((-v) / MILLIS_PER_PIXEL) as i32
    }
}

/// Drifting offsets of the red, green and blue channels.
#[derive(Clone, Copy, Debug, PartialEq, Eq, Structural)]
pub struct ShiftOptions {
    pub r: ChannelShiftOptions,
    pub g: ChannelShiftOptions,
    pub b: ChannelShiftOptions,
}

impl ShiftOptions {
    pub open spec fn wf(&self) -> bool {
        self.r.wf() && self.g.wf() && self.b.wf()
    }

    pub fn new(r: ChannelShiftOptions, g: ChannelShiftOptions, b: ChannelShiftOptions) -> (o: ShiftOptions)
        ensures
            o == (ShiftOptions { r, g, b }),
    {
        ShiftOptions { r, g, b }
    }

    /// Each channel takes one step of its walk with its own pair of draws.
    pub fn step(&self, noise_r: (i32, i32), noise_g: (i32, i32), noise_b: (i32, i32)) -> (o: ShiftOptions)
        requires
            self.wf(),
        ensures
            o.wf(),
            o.r == self.r.step_spec(noise_r.0, noise_r.1),
            o.g == self.g.step_spec(noise_g.0, noise_g.1),
            o.b == self.b.step_spec(noise_b.0, noise_b.1),
    {
        ShiftOptions {
            r: self.r.step(noise_r.0, noise_r.1),
            g: self.g.step(noise_g.0, noise_g.1),
            b: self.b.step(noise_b.0, noise_b.1),
        }
    }
}

impl ChannelShiftOptions {
    /// What `step` returns on the draws `(nx, ny)`.
    pub open spec fn step_spec(&self, nx: i32, ny: i32) -> ChannelShiftOptions {
        ChannelShiftOptions {
            current_shift_x: (self.current_shift_x + walk_step(
                self.base_shift_x + nx - self.current_shift_x,
                self.base_shift_y + ny - self.current_shift_y,
                self.max_move as int,
            ).0) as i64,
            current_shift_y: (self.current_shift_y + walk_step(
                self.base_shift_x + nx - self.current_shift_x,
                self.base_shift_y + ny - self.current_shift_y,
                self.max_move as int,
            ).1) as i64,
            ..*self
        }
    }
}

/// Where channel `c` of the pixel at `(x, y)` is read from: moved by the
/// channel's current offset in whole pixels and held inside the image.
pub open spec fn channel_source(img: Image, c: ChannelShiftOptions, x: int, y: int) -> Pixel {
    img.at(
        clamped(x, whole_pixels(c.current_shift_x as int), img.width - 1),
        clamped(y, whole_pixels(c.current_shift_y as int), img.height - 1),
    )
}

/// The random-walk channel offset at `(x, y)`: each channel read at its own
/// offset, the three blended.
pub open spec fn channels_pixel(img: Image, cfg: ShiftOptions, x: int, y: int) -> Pixel {
    blended(seq![
        red_part(channel_source(img, cfg.r, x, y)),
        green_part(channel_source(img, cfg.g, x, y)),
        blue_part(channel_source(img, cfg.b, x, y)),
    ])
}

/// The random-walk channel offset effect.
pub fn offset_channels(img: &Image, cfg: &ShiftOptions) -> (out: Image)
    requires
        img.wf(),
        cfg.wf(),
    ensures
        out.same_shape(img),
        forall|x: int, y: int| 0 <= x < img.width && 0 <= y < img.height ==>
            #[trigger] out.at(x, y) == channels_pixel(*img, *cfg, x, y),
{
    let w = img.width;
    let h = img.height;
    let (rx, ry) = (cfg.r.pixels_x(), cfg.r.pixels_y());
    let (gx, gy) = (cfg.g.pixels_x(), cfg.g.pixels_y());
    let (bx, by) = (cfg.b.pixels_x(), cfg.b.pixels_y());
    let mut rows: Vec<Vec<Pixel>> = Vec::new();
    let mut y: u32 = 0;
    while y < h
        invariant
            img.wf(),
            w == img.width,
            h == img.height,
            rx as int == whole_pixels(cfg.r.current_shift_x as int),
            ry as int == whole_pixels(cfg.r.current_shift_y as int),
            gx as int == whole_pixels(cfg.g.current_shift_x as int),
            gy as int == whole_pixels(cfg.g.current_shift_y as int),
            bx as int == whole_pixels(cfg.b.current_shift_x as int),
            by as int == whole_pixels(cfg.b.current_shift_y as int),
            y <= h,
            rows@.len() == y,
            forall|j: int| 0 <= j < y ==> #[trigger] rows@[j]@.len() == w,
            forall|j: int, i: int| 0 <= j < y && 0 <= i < w ==>
                #[trigger] rows@[j]@[i] == channels_pixel(*img, *cfg, i, j),
        decreases h - y,
    {
        let mut row: Vec<Pixel> = Vec::new();
        let mut x: u32 = 0;
        while x < w
            invariant
                img.wf(),
                w == img.width,
                h == img.height,
                rx as int == whole_pixels(cfg.r.current_shift_x as int),
                ry as int == whole_pixels(cfg.r.current_shift_y as int),
                gx as int == whole_pixels(cfg.g.current_shift_x as int),
                gy as int == whole_pixels(cfg.g.current_shift_y as int),
                bx as int == whole_pixels(cfg.b.current_shift_x as int),
                by as int == whole_pixels(cfg.b.current_shift_y as int),
                y < h,
                x <= w,
                row@.len() == x,
                forall|i: int| 0 <= i < x ==> #[trigger] row@[i] == channels_pixel(*img, *cfg, i, y as int),
            decreases w - x,
        {
            let pr = img.pixel(clamping_add(x, rx, w - 1), clamping_add(y, ry, h - 1));
            let pg = img.pixel(clamping_add(x, gx, w - 1), clamping_add(y, gy, h - 1));
            let pb = img.pixel(clamping_add(x, bx, w - 1), clamping_add(y, by, h - 1));
            let mut parts: Vec<Pixel> = Vec::new();
            parts.push(Pixel { r: pr.r, g: 0, b: 0, a: pr.a });
            parts.push(Pixel { r: 0, g: pg.g, b: 0, a: pg.a });
            parts.push(Pixel { r: 0, g: 0, b: pb.b, a: pb.a });
            assert(parts@ =~= seq![red_part(pr), green_part(pg), blue_part(pb)]);
            row.push(blend(&parts));
            x += 1;
        }
        rows.push(row);
        y += 1;
    }
    Image { width: w, height: h, rows }
}

} // verus!
