//! Pixel-level color arithmetic: brightness, contrast, saturation and hue
//! adjustments, the luma weighting, and the RGB distance used by background
//! removal. All formulas are exact integer arithmetic; a color channel is a
//! `u8`, a pixel an RGBA quadruple.
use vstd::prelude::*;

verus! {

/// Clamp a mathematical integer into the 0..=255 channel range.
pub open spec fn clamp255(v: int) -> u8 {
    if v < 0 {
        0
    } else if v > 255 {
        255
    } else {
        v as u8
    }
}

/// Squared Euclidean distance between two RGB colors; background removal
/// compares it against a squared threshold, which avoids any rounding.
pub open spec fn spec_color_distance_sq(a: (u8, u8, u8), b: (u8, u8, u8)) -> int {
    (a.0 - b.0) * (a.0 - b.0) + (a.1 - b.1) * (a.1 - b.1) + (a.2 - b.2) * (a.2 - b.2)
}

/// Exact squared RGB distance.
pub fn color_distance_sq(a: (u8, u8, u8), b: (u8, u8, u8)) -> (r: u32)
    ensures
        r == spec_color_distance_sq(a, b),
{
    let dr: u32 = if a.0 >= b.0 {
        (a.0 - b.0) as u32
    } else {
        (b.0 - a.0) as u32
    };
    let dg: u32 = if a.1 >= b.1 {
        (a.1 - b.1) as u32
    } else {
        (b.1 - a.1) as u32
    };
    let db: u32 = if a.2 >= b.2 {
        (a.2 - b.2) as u32
    } else {
        (b.2 - a.2) as u32
    };
    proof {
        assert(dr * dr == (a.0 - b.0) * (a.0 - b.0) && dr * dr <= 255 * 255) by (nonlinear_arith)
            requires
                dr == if a.0 >= b.0 { a.0 - b.0 } else { b.0 - a.0 } && dr <= 255,
        ;
        assert(dg * dg == (a.1 - b.1) * (a.1 - b.1) && dg * dg <= 255 * 255) by (nonlinear_arith)
            requires
                dg == if a.1 >= b.1 { a.1 - b.1 } else { b.1 - a.1 } && dg <= 255,
        ;
        assert(db * db == (a.2 - b.2) * (a.2 - b.2) && db * db <= 255 * 255) by (nonlinear_arith)
            requires
                db == if a.2 >= b.2 { a.2 - b.2 } else { b.2 - a.2 } && db <= 255,
        ;
    }
    dr * dr + dg * dg + db * db
}

/// Integer luma of an RGB color with the classic 0.299/0.587/0.114 weights,
/// taken over a denominator of 1000.
pub open spec fn spec_luma(r: u8, g: u8, b: u8) -> u8 {
    ((299 * r + 587 * g + 114 * b) / 1000) as u8
}

/// Weighted gray value toward which saturation blends each channel.
pub fn luma(r: u8, g: u8, b: u8) -> (l: u8)
    ensures
        l == spec_luma(r, g, b),
{
    ((299 * (r as u32) + 587 * (g as u32) + 114 * (b as u32)) / 1000) as u8
}

/// Additive brightness on one channel, clamped into range.
pub open spec fn spec_brightness_ch(p: u8, amount: int) -> u8 {
    clamp255(p + amount)
}

/// Brightness on a pixel: each color channel is shifted, alpha is kept.
pub open spec fn spec_brightness_px(px: (u8, u8, u8, u8), amount: int) -> (u8, u8, u8, u8) {
    (
        spec_brightness_ch(px.0, amount),
        spec_brightness_ch(px.1, amount),
        spec_brightness_ch(px.2, amount),
        px.3,
    )
}

/// One channel of the additive brightness adjustment.
pub fn brightness_ch(p: u8, amount: i32) -> (r: u8)
    ensures
        r == spec_brightness_ch(p, amount as int),
{
    let v: i64 = p as i64 + amount as i64;
    if v < 0 {
        0
    } else if v > 255 {
        255
    } else {
        v as u8
    }
}

/// Denominator of the classic contrast gain `259*(a+255) / (255*(259-a))`;
/// positive whenever the amount stays below 259.
pub open spec fn contrast_denom(amount: int) -> int {
    255 * (259 - amount)
}

/// Numerator of the contrast formula applied around the pivot 128, with the
/// pivot already folded in: the adjusted channel is this value divided by
/// `contrast_denom`, then clamped.
pub open spec fn contrast_num(p: u8, amount: int) -> int {
    259 * (amount + 255) * (p - 128) + 128 * contrast_denom(amount)
}

/// Contrast gain on one channel: `gain*(p-128) + 128`, clamped to 0..=255,
/// with the exact rational gain `259*(a+255) / (255*(259-a))`.
pub open spec fn spec_contrast_ch(p: u8, amount: int) -> u8
    recommends
        amount <= 258,
{
    let m = contrast_num(p, amount);
    let d = contrast_denom(amount);
    if m < 0 {
        0
    } else if m / d > 255 {
        255
    } else {
        (m / d) as u8
    }
}

/// Contrast on a pixel: color channels adjusted, alpha kept.
pub open spec fn spec_contrast_px(px: (u8, u8, u8, u8), amount: int) -> (u8, u8, u8, u8) {
    (
        spec_contrast_ch(px.0, amount),
        spec_contrast_ch(px.1, amount),
        spec_contrast_ch(px.2, amount),
        px.3,
    )
}

/// One channel of the contrast adjustment. Amounts at or above 259 would put
/// the gain's denominator at or below zero, so they are excluded.
pub fn contrast_ch(p: u8, amount: i32) -> (r: u8)
    requires
        amount <= 258,
    ensures
        r == spec_contrast_ch(p, amount as int),
{
    let a: i64 = amount as i64;
    let d: i64 = 255 * (259 - a);
    let t1: i64 = 259 * (a + 255);
    let pd: i64 = p as i64 - 128;
    proof {
        assert(t1 * pd <= 600000000000 * 128 && t1 * pd >= -(600000000000 * 128)) by (nonlinear_arith)
            requires
                -600000000000 <= t1 <= 600000000000 && -128 <= pd <= 128,
        ;
    }
    let t2: i64 = t1 * pd;
    let m: i64 = t2 + 128 * d;
    if m < 0 {
        0
    } else {
        let q: u64 = (m as u64) / (d as u64);
        if q > 255 {
            255
        } else {
            q as u8
        }
    }
}

/// Saturation blend of one channel toward the gray value: the channel becomes
/// `gray + (a+100)/100 * (p - gray)`, clamped to 0..=255.
pub open spec fn spec_saturation_ch(p: u8, gray: u8, amount: int) -> u8 {
    let m = 100 * gray + (amount + 100) * (p - gray);
    if m < 0 {
        0
    } else if m / 100 > 255 {
        255
    } else {
        (m / 100) as u8
    }
}

/// Saturation on a pixel: each color channel blends toward the pixel's luma,
/// alpha is kept.
pub open spec fn spec_saturation_px(px: (u8, u8, u8, u8), amount: int) -> (u8, u8, u8, u8) {
    let gray = spec_luma(px.0, px.1, px.2);
    (
        spec_saturation_ch(px.0, gray, amount),
        spec_saturation_ch(px.1, gray, amount),
        spec_saturation_ch(px.2, gray, amount),
        px.3,
    )
}

/// One channel of the saturation adjustment.
pub fn saturation_ch(p: u8, gray: u8, amount: i32) -> (r: u8)
    ensures
        r == spec_saturation_ch(p, gray, amount as int),
{
    let a: i64 = amount as i64;
    let pd: i64 = p as i64 - gray as i64;
    proof {
        assert((a + 100) * pd <= 2147483800 * 255 && (a + 100) * pd >= -(2147483800 * 255))
            by (nonlinear_arith)
            requires
                -2147483648 <= a <= 2147483647 && -255 <= pd <= 255,
        ;
    }
    let t: i64 = (a + 100) * pd;
    let m: i64 = 100 * (gray as i64) + t;
    if m < 0 {
        0
    } else {
        let q: u64 = (m as u64) / 100;
        if q > 255 {
            255
        } else {
            q as u8
        }
    }
}

/// Contrast adjustment at amount zero has gain exactly one: every channel,
/// and so every pixel, is returned unchanged.
pub proof fn lemma_contrast_zero_identity(px: (u8, u8, u8, u8))
    ensures
        spec_contrast_px(px, 0) == px,
{
    lemma_contrast_zero_ch(px.0);
    lemma_contrast_zero_ch(px.1);
    lemma_contrast_zero_ch(px.2);
}

/// One channel of the zero-amount contrast identity.
proof fn lemma_contrast_zero_ch(p: u8)
    ensures
        spec_contrast_ch(p, 0) == p,
{
    assert(contrast_num(p, 0) == 259 * (0 + 255) * ((p as int) - 128) + 128 * (255 * (259 - 0)));
    assert(259 * (0 + 255) * ((p as int) - 128) + 128 * (255 * (259 - 0)) == 66045 * (p as int))
        by (nonlinear_arith);
    assert(66045 * (p as int) == (p as int) * 66045 + 0) by (nonlinear_arith);
    vstd::arithmetic::div_mod::lemma_fundamental_div_mod_converse_div(
        66045 * (p as int),
        66045,
        p as int,
        0,
    );
}

/// Largest of three channels, preferring red on ties, then green.
pub open spec fn spec_max3(r: u8, g: u8, b: u8) -> u8 {
    if r >= g && r >= b {
        r
    } else if g >= b {
        g
    } else {
        b
    }
}

/// Smallest of three channels.
pub open spec fn spec_min3(r: u8, g: u8, b: u8) -> u8 {
    if r <= g && r <= b {
        r
    } else if g <= b {
        g
    } else {
        b
    }
}

/// Hue of an RGB color as an exact fraction of a turn: the result is the
/// numerator over the denominator `6*delta`, in `[0, 6*delta)`, following the
/// usual sector construction (`(g-b)/delta` when red is largest, and so on).
pub open spec fn spec_hue6(r: u8, g: u8, b: u8) -> int {
    let v = spec_max3(r, g, b);
    let mn = spec_min3(r, g, b);
    let d = v - mn;
    if d == 0 {
        0
    } else if v == r {
        if g >= b {
            g - b
        } else {
            6 * d - (b - g)
        }
    } else if v == g {
        (b - v) + 2 * d + (v - r)  // == (b - r) + 2*d, grouped to stay visibly nonnegative
    } else {
        (r - v) + 4 * d + (v - g)  // == (r - g) + 4*d
    }
}

/// Hue shift of one pixel by `am` degrees, `0 <= am < 360`: convert to HSV
/// over exact rationals, add `am/360` of a turn, convert back. `c`, `x` and
/// `m` follow the standard inverse conversion; value and saturation are kept,
/// so gray pixels (`delta == 0`) are unchanged. All divisions are exact
/// rationals floored once at the end.
pub open spec fn spec_hue_shift_px(px: (u8, u8, u8, u8), am: int) -> (u8, u8, u8, u8)
    recommends
        0 <= am < 360,
{
    let v = spec_max3(px.0, px.1, px.2);
    let mn = spec_min3(px.0, px.1, px.2);
    let d = v - mn;
    if d == 0 {
        px
    } else {
        let h6 = spec_hue6(px.0, px.1, px.2);
        let total = (h6 * 360 + am * 6 * d) % (2160 * d);
        let sector = total / (360 * d);
        let r2 = total % (720 * d);
        let aa = if r2 >= 360 * d {
            r2 - 360 * d
        } else {
            360 * d - r2
        };
        let x = (360 * d - aa) / 360;
        let o = if sector == 0 {
            (d, x, 0)
        } else if sector == 1 {
            (x, d, 0)
        } else if sector == 2 {
            (0, d, x)
        } else if sector == 3 {
            (0, x, d)
        } else if sector == 4 {
            (x, 0, d)
        } else {
            (d, 0, x)
        };
        (((o.0 + mn) as u8), ((o.1 + mn) as u8), ((o.2 + mn) as u8), px.3)
    }
}

/// Hue adjustment of one pixel by a signed amount of degrees: the shift acts
/// modulo a full turn.
pub open spec fn spec_hue_px(px: (u8, u8, u8, u8), amount: int) -> (u8, u8, u8, u8) {
    spec_hue_shift_px(px, amount % 360)
}

/// Largest of three channels.
pub fn max3(r: u8, g: u8, b: u8) -> (v: u8)
    ensures
        v == spec_max3(r, g, b),
{
    if r >= g && r >= b {
        r
    } else if g >= b {
        g
    } else {
        b
    }
}

/// Smallest of three channels.
pub fn min3(r: u8, g: u8, b: u8) -> (v: u8)
    ensures
        v == spec_min3(r, g, b),
{
    if r <= g && r <= b {
        r
    } else if g <= b {
        g
    } else {
        b
    }
}

/// Reduce a signed amount of degrees to `0..360`.
pub fn normalize_degrees(amount: i32) -> (am: u32)
    ensures
        am == (amount as int) % 360,
        am < 360,
{
    if amount >= 0 {
        let am = (amount as u32) % 360;
        am
    } else {
        let n: u64 = (-(amount as i64)) as u64;
        let r: u64 = n % 360;
        proof {
            vstd::arithmetic::div_mod::lemma_fundamental_div_mod(n as int, 360);
            if r == 0 {
                vstd::arithmetic::div_mod::lemma_fundamental_div_mod_converse_mod(
                    amount as int,
                    360,
                    -((n as int) / 360),
                    0,
                );
            } else {
                vstd::arithmetic::div_mod::lemma_fundamental_div_mod_converse_mod(
                    amount as int,
                    360,
                    -((n as int) / 360) - 1,
                    360 - r,
                );
            }
        }
        if r == 0 {
            0
        } else {
            (360 - r) as u32
        }
    }
}

/// Hue shift of one pixel by `am` degrees, `0 <= am < 360`.
pub fn hue_shift_px(px: (u8, u8, u8, u8), am: u32) -> (r: (u8, u8, u8, u8))
    requires
        am < 360,
    ensures
        r == spec_hue_shift_px(px, am as int),
{
    let v = max3(px.0, px.1, px.2);
    let mn = min3(px.0, px.1, px.2);
    if v == mn {
        return px;
    }
    let d: u64 = (v - mn) as u64;
    let h6: u64 = if v == px.0 {
        if px.1 >= px.2 {
            (px.1 - px.2) as u64
        } else {
            6 * d - (px.2 - px.1) as u64
        }
    } else if v == px.1 {
        (px.2 as u64 + 2 * d + v as u64) - v as u64 - px.0 as u64
    } else {
        (px.0 as u64 + 4 * d + v as u64) - v as u64 - px.1 as u64
    };
    assert(h6 == spec_hue6(px.0, px.1, px.2));
    assert(h6 < 6 * d);
    let shift: u64 = (am as u64) * 6;
    proof {
        assert(shift * d <= 2154 * 255) by (nonlinear_arith)
            requires
                shift <= 2154 && d <= 255,
        ;
        assert(shift * d < 2160 * d) by (nonlinear_arith)
            requires
                shift <= 2154 && d >= 1,
        ;
    }
    let s: u64 = h6 * 360 + shift * d;
    let m2160: u64 = 2160 * d;
    proof {
        assert(s < 2 * m2160);
        assert((am as int) * 6 * (d as int) == shift * d) by (nonlinear_arith)
            requires
                shift == (am as int) * 6,
        ;
        if s < m2160 {
            vstd::arithmetic::div_mod::lemma_small_mod(s as nat, m2160 as nat);
        } else {
            vstd::arithmetic::div_mod::lemma_fundamental_div_mod_converse_mod(
                s as int,
                m2160 as int,
                1,
                s - m2160,
            );
        }
    }
    let total: u64 = if s >= m2160 {
        s - m2160
    } else {
        s
    };
    assert(total == (spec_hue6(px.0, px.1, px.2) * 360 + (am as int) * 6 * (v - mn)) % (2160 * (
    v - mn)));
    let sd: u64 = 360 * d;
    let sector: u64 = total / sd;
    proof {
        assert(sector < 6 && sector * sd <= total) by (nonlinear_arith)
            requires
                sector == (total as int) / (sd as int) && 0 < sd && total < 6 * sd,
        ;
    }
    let r2: u64 = total % (720 * d);
    let aa: u64 = if r2 >= sd {
        r2 - sd
    } else {
        sd - r2
    };
    proof {
        vstd::arithmetic::div_mod::lemma_mod_division_less_than_divisor(total as int, 720 * (
        d as int));
        assert(aa <= sd);
    }
    let x: u64 = (sd - aa) / 360;
    proof {
        assert(x <= d) by (nonlinear_arith)
            requires
                x == ((sd as int) - (aa as int)) / 360 && sd == 360 * (d as int) && 0 <= aa,
        ;
    }
    let o: (u64, u64, u64) = if sector == 0 {
        (d, x, 0)
    } else if sector == 1 {
        (x, d, 0)
    } else if sector == 2 {
        (0, d, x)
    } else if sector == 3 {
        (0, x, d)
    } else if sector == 4 {
        (x, 0, d)
    } else {
        (d, 0, x)
    };
    ((o.0 + mn as u64) as u8, (o.1 + mn as u64) as u8, (o.2 + mn as u64) as u8, px.3)
}

/// Hue adjustment of one pixel by a signed amount of degrees.
pub fn hue_px(px: (u8, u8, u8, u8), amount: i32) -> (r: (u8, u8, u8, u8))
    ensures
        r == spec_hue_px(px, amount as int),
{
    let am = normalize_degrees(amount);
    hue_shift_px(px, am)
}

} // verus!
