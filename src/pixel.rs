use vstd::prelude::*;
use vstd::arithmetic::div_mod::{lemma_div_is_ordered, lemma_div_multiples_vanish};
use crate::opacity::opacity;
use vstd::arithmetic::mul::lemma_mul_inequality;

verus! {

/// An RGBA pixel with 8-bit channels.
#[derive(Clone, Copy, Debug, PartialEq, Eq, Structural)]
pub struct Pixel {
    pub r: u8,
    pub g: u8,
    pub b: u8,
    pub a: u8,
}

/// Fully transparent black.
pub open spec fn transparent() -> Pixel {
    Pixel { r: 0, g: 0, b: 0, a: 0 }
}

impl Pixel {
    pub fn new(r: u8, g: u8, b: u8, a: u8) -> (p: Pixel)
        ensures
            p == (Pixel { r, g, b, a }),
    {
        Pixel { r, g, b, a }
    }

    pub fn transparent() -> (p: Pixel)
        ensures
            p == transparent(),
    {
        Pixel { r: 0, g: 0, b: 0, a: 0 }
    }
}

/// The largest alpha in `s` (0 for an empty sequence).
pub open spec fn max_alpha(s: Seq<Pixel>) -> int
    decreases s.len(),
{
    if s.len() == 0 {
        0
    } else {
        let m = max_alpha(s.drop_last());
        if s.last().a as int > m {
            s.last().a as int
        } else {
            m
        }
    }
}

/// Colour channel `k` of `p`: 0 is red, 1 green, 2 blue.
pub open spec fn channel(p: Pixel, k: int) -> int {
    if k == 0 {
        p.r as int
    } else if k == 1 {
        p.g as int
    } else {
        p.b as int
    }
}

/// Channel `k` of `p`, scaled by its alpha relative to the strongest alpha `m`.
pub open spec fn contribution(p: Pixel, k: int, m: int) -> int {
    channel(p, k) * (p.a as int) / m
}

/// The brightest contribution to channel `k` among the pixels of `s`.
pub open spec fn max_contribution(s: Seq<Pixel>, k: int, m: int) -> int
    decreases s.len(),
{
    if s.len() == 0 {
        0
    } else {
        let c = max_contribution(s.drop_last(), k, m);
        let d = contribution(s.last(), k, m);
        if d > c {
            d
        } else {
            c
        }
    }
}

pub open spec fn pow255(n: nat) -> nat
    decreases n,
{
    if n == 0 {
        1
    } else {
        255 * pow255((n - 1) as nat)
    }
}

/// `255^n` times the transparency left after stacking the pixels of `s`:
/// the product of `255 - a` over them.
pub open spec fn clear_product(s: Seq<Pixel>) -> nat
    decreases s.len(),
{
    if s.len() == 0 {
        1
    } else {
        clear_product(s.drop_last()) * ((255 - s.last().a) as nat)
    }
}

/// Opacity of the pixels of `s` composed one over the other
/// (`a := a + (1 - a) * a_i`), on the 0..255 scale and rounded down.
pub open spec fn composite_alpha(s: Seq<Pixel>) -> int {
    (pow255(s.len()) - clear_product(s)) / (pow255((s.len() - 1) as nat) as int)
}

/// The blend of a nonempty sequence of pixels: transparent black where every
/// alpha is zero; else in each colour channel the brightest alpha-weighted
/// value, and the composed opacity.
pub open spec fn blended(s: Seq<Pixel>) -> Pixel {
    let m = max_alpha(s);
    if m == 0 {
        transparent()
    } else {
        Pixel {
            r: max_contribution(s, 0, m) as u8,
            g: max_contribution(s, 1, m) as u8,
            b: max_contribution(s, 2, m) as u8,
            a: composite_alpha(s) as u8,
        }
    }
}

proof fn lemma_max_alpha_bounds(s: Seq<Pixel>)
    ensures
        0 <= max_alpha(s) <= 255,
        forall|j: int| 0 <= j < s.len() ==> s[j].a <= max_alpha(s),
    decreases s.len(),
{
    if s.len() > 0 {
        lemma_max_alpha_bounds(s.drop_last());
        assert forall|j: int| 0 <= j < s.len() implies s[j].a <= max_alpha(s) by {
            if j < s.len() - 1 {
                assert(s[j] == s.drop_last()[j]);
            }
        }
    }
}

proof fn lemma_contribution_bounded(p: Pixel, k: int, m: int)
    requires
        p.a as int <= m,
        0 < m,
    ensures
        0 <= contribution(p, k, m) <= 255,
{
    let c = channel(p, k);
    assert(0 <= c <= 255);
    lemma_mul_inequality(c, 255, p.a as int);
    lemma_mul_inequality(p.a as int, m, 255);
    assert(c * (p.a as int) <= 255 * m) by (nonlinear_arith)
        requires c * (p.a as int) <= 255 * (p.a as int), (p.a as int) * 255 <= m * 255;
    lemma_div_is_ordered(c * (p.a as int), 255 * m, m);
    lemma_div_multiples_vanish(255, m);
    assert(0 <= c * (p.a as int)) by (nonlinear_arith)
        requires 0 <= c, 0 <= p.a as int;
    lemma_div_is_ordered(0, c * (p.a as int), m);
}

/// Combines the pixels into one: each colour channel takes the brightest
/// alpha-weighted value, and the alphas compose one over the other in order.
pub fn blend(pixels: &Vec<Pixel>) -> (r: Pixel)
    requires
        1 <= pixels.len(),
    ensures
        r == blended(pixels@),
{
    let n = pixels.len();
    let mut m: u8 = 0;
    let mut i: usize = 0;
    while i < n
        invariant
            i <= n,
            n == pixels.len(),
            m as int == max_alpha(pixels@.subrange(0, i as int)),
        decreases n - i,
    {
        assert(pixels@.subrange(0, i + 1).drop_last() =~= pixels@.subrange(0, i as int));
        if pixels[i].a > m {
            m = pixels[i].a;
        }
        i += 1;
    }
    assert(pixels@.subrange(0, n as int) =~= pixels@);
    if m == 0 {
        return Pixel::transparent();
    }
    proof {
        lemma_max_alpha_bounds(pixels@);
    }
    let mut fr: u8 = 0;
    let mut fg: u8 = 0;
    let mut fb: u8 = 0;
    i = 0;
    while i < n
        invariant
            i <= n,
            n == pixels.len(),
            0 < m,
            m as int == max_alpha(pixels@),
            forall|j: int| 0 <= j < n ==> pixels@[j].a <= m,
            fr as int == max_contribution(pixels@.subrange(0, i as int), 0, m as int),
            fg as int == max_contribution(pixels@.subrange(0, i as int), 1, m as int),
            fb as int == max_contribution(pixels@.subrange(0, i as int), 2, m as int),
        decreases n - i,
    {
        let ghost s = pixels@.subrange(0, i + 1);
        assert(s.drop_last() =~= pixels@.subrange(0, i as int));
        let p = pixels[i];
        proof {
            lemma_contribution_bounded(p, 0, m as int);
            lemma_contribution_bounded(p, 1, m as int);
            lemma_contribution_bounded(p, 2, m as int);
        }
        let pa = p.a as u32;
        proof {
            assert(p.r as u32 * pa <= 65025 && p.g as u32 * pa <= 65025 && p.b as u32 * pa <= 65025)
                by (nonlinear_arith)
                requires pa <= 255, p.r <= 255, p.g <= 255, p.b <= 255;
        }
        let cr = (p.r as u32 * pa / m as u32) as u8;
        let cg = (p.g as u32 * pa / m as u32) as u8;
        let cb = (p.b as u32 * pa / m as u32) as u8;
        if cr > fr {
            fr = cr;
        }
        if cg > fg {
            fg = cg;
        }
        if cb > fb {
            fb = cb;
        }
        i += 1;
    }
    assert(pixels@.subrange(0, n as int) =~= pixels@);
    let alpha = opacity(pixels);
    Pixel { r: fr, g: fg, b: fb, a: alpha }
}

/// A lone pixel blends to itself, unless its alpha is zero, where the blend is
/// transparent black.
pub proof fn lemma_blend_single(p: Pixel)
    ensures
        blended(seq![p]) == (if p.a == 0 { transparent() } else { p }),
{
    let s = seq![p];
    assert(s.drop_last() =~= Seq::<Pixel>::empty());
    assert(s.last() == p);
    assert(max_alpha(s.drop_last()) == 0);
    assert(clear_product(s.drop_last()) == 1);
    if p.a != 0 {
        let m = p.a as int;
        assert(max_alpha(s) == m);
        lemma_div_multiples_vanish(p.r as int, m);
        lemma_div_multiples_vanish(p.g as int, m);
        lemma_div_multiples_vanish(p.b as int, m);
        assert(p.r as int * m == m * p.r as int) by (nonlinear_arith);
        assert(p.g as int * m == m * p.g as int) by (nonlinear_arith);
        assert(p.b as int * m == m * p.b as int) by (nonlinear_arith);
        assert(pow255(1) == 255) by {
            reveal_with_fuel(pow255, 2);
        }
        assert(clear_product(s) == 1 * ((255 - p.a) as nat));
        assert(pow255(0) == 1);
        assert(composite_alpha(s) == (pow255(1) - clear_product(s)) / 1);
        assert(max_contribution(s.drop_last(), 0, m) == 0);
        assert(max_contribution(s.drop_last(), 1, m) == 0);
        assert(max_contribution(s.drop_last(), 2, m) == 0);
        assert(contribution(p, 0, m) == p.r);
        assert(contribution(p, 1, m) == p.g);
        assert(contribution(p, 2, m) == p.b);
    }
}

/// Where every alpha is zero the blend is transparent black, whatever the
/// colours.
pub proof fn lemma_blend_all_clear(s: Seq<Pixel>)
    requires
        forall|j: int| 0 <= j < s.len() ==> s[j].a == 0,
    ensures
        blended(s) == transparent(),
    decreases s.len(),
{
    lemma_all_clear_max(s);
}

proof fn lemma_all_clear_max(s: Seq<Pixel>)
    requires
        forall|j: int| 0 <= j < s.len() ==> s[j].a == 0,
    ensures
        max_alpha(s) == 0,
    decreases s.len(),
{
    if s.len() > 0 {
        let t = s.drop_last();
        assert forall|j: int| 0 <= j < t.len() implies t[j].a == 0 by {
            assert(t[j] == s[j]);
        }
        lemma_all_clear_max(t);
    }
}

} // verus!
