use vstd::prelude::*;
use vstd::arithmetic::div_mod::{lemma_div_multiples_vanish, lemma_div_multiples_vanish_fancy};
use vstd::arithmetic::mul::lemma_mul_inequality;
use crate::pixel::{clear_product, composite_alpha, pow255, Pixel};

verus! {

/// The number whose base-255 digits are `s`, least significant first.
pub open spec fn digits_value(s: Seq<u32>) -> nat
    decreases s.len(),
{
    if s.len() == 0 {
        0
    } else {
        digits_value(s.drop_last()) + (s.last() as nat) * pow255((s.len() - 1) as nat)
    }
}

/// Every entry of `s` is a base-255 digit.
pub open spec fn all_digits(s: Seq<u32>) -> bool {
    forall|j: int| 0 <= j < s.len() ==> #[trigger] s[j] < 255
}

proof fn lemma_pow255_step(n: nat)
    ensures
        pow255(n + 1) == 255 * pow255(n),
        pow255(n) >= 1,
    decreases n,
{
    if n > 0 {
        lemma_pow255_step((n - 1) as nat);
    }
}

proof fn lemma_digits_below_power(s: Seq<u32>)
    requires
        all_digits(s),
    ensures
        digits_value(s) < pow255(s.len()),
    decreases s.len(),
{
    if s.len() == 0 {
        assert(pow255(0) == 1);
    } else {
        let t = s.drop_last();
        assert(all_digits(t)) by {
            assert forall|j: int| 0 <= j < t.len() implies #[trigger] t[j] < 255 by {
                assert(t[j] == s[j]);
            }
        }
        lemma_digits_below_power(t);
        let p = pow255(t.len());
        lemma_pow255_step(t.len());
        assert(s.last() < 255);
        lemma_mul_inequality(s.last() as int, 254, p as int);
    }
}

proof fn lemma_digits_zero(s: Seq<u32>)
    ensures
        (forall|j: int| 0 <= j < s.len() ==> #[trigger] s[j] == 0) ==> digits_value(s) == 0,
        (exists|j: int| 0 <= j < s.len() && #[trigger] s[j] != 0) ==> digits_value(s) > 0,
    decreases s.len(),
{
    if s.len() > 0 {
        let t = s.drop_last();
        lemma_digits_zero(t);
        lemma_pow255_step((s.len() - 1) as nat);
        if forall|j: int| 0 <= j < s.len() ==> #[trigger] s[j] == 0 {
            assert forall|j: int| 0 <= j < t.len() implies #[trigger] t[j] == 0 by {
                assert(t[j] == s[j]);
            }
            assert(s[s.len() - 1] == 0);
            assert(digits_value(t) == 0);
            assert(digits_value(s) == digits_value(t) + (s.last() as nat) * pow255((s.len() - 1) as nat));
            assert(s.last() == 0);
        }
        if exists|j: int| 0 <= j < s.len() && #[trigger] s[j] != 0 {
            let j = choose|j: int| 0 <= j < s.len() && #[trigger] s[j] != 0;
            if j < s.len() - 1 {
                assert(t[j] == s[j]);
            } else {
                lemma_mul_inequality(1, s.last() as int, pow255((s.len() - 1) as nat) as int);
            }
        }
    }
}

proof fn lemma_clear_product_bounded(s: Seq<Pixel>)
    ensures
        clear_product(s) <= pow255(s.len()),
    decreases s.len(),
{
    if s.len() > 0 {
        lemma_clear_product_bounded(s.drop_last());
        lemma_pow255_step((s.len() - 1) as nat);
        let c = clear_product(s.drop_last()) as int;
        let f = (255 - s.last().a) as int;
        lemma_mul_inequality(c, pow255((s.len() - 1) as nat) as int, f);
        lemma_mul_inequality(f, 255, pow255((s.len() - 1) as nat) as int);
    }
}

/// `d` times `f`, digit by digit with a carry.
fn mul_digits(d: &Vec<u32>, f: u32) -> (r: Vec<u32>)
    requires
        all_digits(d@),
        f <= 255,
    ensures
        all_digits(r@),
        r@.len() == d@.len() + 1,
        digits_value(r@) == digits_value(d@) * f,
{
    let mut r: Vec<u32> = Vec::new();
    let mut carry: u32 = 0;
    let mut j: usize = 0;
    assert(d@.take(0) =~= Seq::<u32>::empty());
    assert(digits_value(Seq::<u32>::empty()) == 0);
    assert(pow255(0) == 1);
    while j < d.len()
        invariant
            all_digits(d@),
            f <= 255,
            j <= d@.len(),
            r@.len() == j,
            all_digits(r@),
            carry <= 254,
            digits_value(r@) + carry * pow255(j as nat) == digits_value(d@.take(j as int)) * f,
        decreases d@.len() - j,
    {
        let dj = d[j];
        proof {
            assert(dj * f <= 254 * 255) by (nonlinear_arith)
                requires dj <= 254, f <= 255;
        }
        let t = dj * f + carry;
        let digit = t % 255;
        let next = t / 255;
        let ghost pj = pow255(j as nat) as int;
        let ghost old_r = r@;
        r.push(digit);
        proof {
            lemma_pow255_step(j as nat);
            assert(r@.drop_last() =~= old_r);
            assert(d@.take(j + 1).drop_last() =~= d@.take(j as int));
            assert(digits_value(r@) == digits_value(old_r) + digit * pj);
            assert(digits_value(d@.take(j + 1)) == digits_value(d@.take(j as int)) + dj * pj);
            assert(t == digit + 255 * next);
            assert((digit + 255 * next) * pj == digit * pj + next * (255 * pj)) by (nonlinear_arith);
            assert((dj * f + carry) * pj == dj * pj * f + carry * pj) by (nonlinear_arith);
            assert((dj * pj) * f + digits_value(d@.take(j as int)) * f
                == (digits_value(d@.take(j as int)) + dj * pj) * f) by (nonlinear_arith);
            assert forall|k: int| 0 <= k < r@.len() implies #[trigger] r@[k] < 255 by {
                if k < j {
                    assert(r@[k] == old_r[k]);
                }
            }
        }
        carry = next;
        j += 1;
    }
    assert(d@.take(d@.len() as int) =~= d@);
    let ghost before = r@;
    r.push(carry);
    proof {
        assert(r@.drop_last() =~= before);
        assert forall|k: int| 0 <= k < r@.len() implies #[trigger] r@[k] < 255 by {
            if k < j {
                assert(r@[k] == before[k]);
            }
        }
    }
    r
}

/// The opacity of the pixels composed one over the other, exactly: the
/// product of the transparencies is held as base-255 digits.
pub fn opacity(pixels: &Vec<Pixel>) -> (a: u8)
    requires
        pixels@.len() >= 1,
    ensures
        a as int == composite_alpha(pixels@),
{
    let n = pixels.len();
    let mut d: Vec<u32> = Vec::new();
    d.push(1);
    proof {
        assert(d@.drop_last() =~= Seq::<u32>::empty());
        assert(pow255(0) == 1);
        assert(digits_value(Seq::<u32>::empty()) == 0);
        assert(d@.last() == 1);
        assert(digits_value(d@) == 1);
        assert(pixels@.take(0) =~= Seq::<Pixel>::empty());
    }
    let mut i: usize = 0;
    while i < n
        invariant
            i <= n,
            n == pixels@.len(),
            all_digits(d@),
            d@.len() == i + 1,
            digits_value(d@) == clear_product(pixels@.take(i as int)),
        decreases n - i,
    {
        let f = 255 - pixels[i].a as u32;
        d = mul_digits(&d, f);
        assert(pixels@.take(i + 1).drop_last() =~= pixels@.take(i as int));
        i += 1;
    }
    assert(pixels@.take(n as int) =~= pixels@);
    // the low n - 1 digits are the remainder below 255^(n-1)
    let mut low_zero = true;
    let mut k: usize = 0;
    while k < n - 1
        invariant
            k <= n - 1,
            d@.len() == n + 1,
            low_zero <==> (forall|j: int| 0 <= j < k ==> #[trigger] d@[j] == 0),
        decreases n - 1 - k,
    {
        if d[k] != 0 {
            low_zero = false;
        }
        k += 1;
    }
    let high = d[n - 1] + 255 * d[n];
    let ghost s = pixels@;
    let ghost q = pow255((n - 1) as nat) as int;
    let ghost low_digits = d@.take(n - 1);
    proof {
        let p = digits_value(d@);
        assert(d@.drop_last() =~= d@.take(n as int));
        assert(d@.take(n as int).drop_last() =~= low_digits);
        lemma_pow255_step((n - 1) as nat);
        let low = digits_value(low_digits);
        assert(p == digits_value(d@.take(n as int)) + (d@[n as int] as nat) * pow255(n as nat));
        assert(d@.take(n as int).last() == d@[n - 1]);
        assert(digits_value(d@.take(n as int)) == low + (d@[n - 1] as nat) * pow255((n - 1) as nat));
        assert(pow255(n as nat) == 255 * q);
        assert(p == low + d@[n - 1] * q + d@[n as int] * (255 * q));
        assert(p == low + high * q) by (nonlinear_arith)
            requires p == low + d@[n - 1] * q + d@[n as int] * (255 * q), high == d@[n - 1] + 255 * d@[n as int];
        assert(all_digits(low_digits)) by {
            assert forall|j: int| 0 <= j < low_digits.len() implies #[trigger] low_digits[j] < 255 by {
                assert(low_digits[j] == d@[j]);
            }
        }
        lemma_digits_below_power(low_digits);
        lemma_digits_zero(low_digits);
        if low_zero {
            assert forall|j: int| 0 <= j < low_digits.len() implies #[trigger] low_digits[j] == 0 by {
                assert(low_digits[j] == d@[j]);
            }
        } else {
            let j = choose|j: int| 0 <= j < n - 1 && #[trigger] d@[j] != 0;
            assert(low_digits[j] == d@[j]);
        }
        lemma_clear_product_bounded(s);
        assert(high <= 255) by (nonlinear_arith)
            requires p == low + high * q, p <= 255 * q, low >= 0, q >= 1;
        assert(high < 255 || low == 0) by (nonlinear_arith)
            requires p == low + high * q, p <= 255 * q, low >= 0, q >= 1;
        assert(composite_alpha(s) == (255 * q - p) / q);
        if low == 0 {
            assert(255 * q - p == q * (255 - high)) by (nonlinear_arith)
                requires p == low + high * q, low == 0;
            lemma_div_multiples_vanish(255 - high, q);
        } else {
            assert(255 * q - p == q * (254 - high) + (q - low)) by (nonlinear_arith)
                requires p == low + high * q;
            lemma_div_multiples_vanish_fancy(254 - high, q - low, q);
        }
    }
    if low_zero {
        (255 - high) as u8
    } else {
        (254 - high) as u8
    }
}

} // verus!
