//! Colour arithmetic: percentages, packed RGB and the HLS colour space.

use vstd::prelude::*;

verus! {

/// `value` limited to the range `0..=100`.
pub open spec fn clamp_percent(value: int) -> int {
    if value < 0 {
        0
    } else if value > 100 {
        100
    } else {
        value
    }
}

/// The 8-bit level of a percentage, rounded to nearest.
pub open spec fn percent_to_byte_spec(value: int) -> int {
    (clamp_percent(value) * 255 + 50) / 100
}

/// The percentage written for an 8-bit level, rounded down.
pub open spec fn byte_to_percent_spec(level: int) -> int {
    (level * 100) / 255
}

/// Three 8-bit channels as one 24-bit number, red in the high byte.
pub open spec fn pack_rgb_spec(r: int, g: int, b: int) -> int {
    r * 65536 + g * 256 + b
}

/// Red channel of a packed colour.
pub open spec fn red_of(color: int) -> int {
    (color / 65536) % 256
}

/// Green channel of a packed colour.
pub open spec fn green_of(color: int) -> int {
    (color / 256) % 256
}

/// Blue channel of a packed colour.
pub open spec fn blue_of(color: int) -> int {
    color % 256
}

/// Hue in degrees after the DEC rotation of 240 degrees, in `0..360`.
pub open spec fn rotated_hue(h: int) -> int {
    (h + 240) % 360
}

/// `q` of the HLS conversion, in units of 1/10000, for lightness and
/// saturation in percent.
pub open spec fn hls_q(l: int, s: int) -> int {
    if l < 50 {
        l * (100 + s)
    } else {
        100 * l + 100 * s - l * s
    }
}

/// `p` of the HLS conversion, in units of 1/10000.
pub open spec fn hls_p(l: int, s: int) -> int {
    200 * l - hls_q(l, s)
}

/// `angle` brought into `0..=360` by one turn at most.
pub open spec fn wrap_angle(angle: int) -> int {
    if angle < 0 {
        angle + 360
    } else if angle > 360 {
        angle - 360
    } else {
        angle
    }
}

/// One channel of the piecewise HLS evaluation at `angle` degrees, in
/// units of 1/600000.
pub open spec fn hls_ramp(p: int, q: int, angle: int) -> int {
    let t = wrap_angle(angle);
    if t < 60 {
        60 * p + (q - p) * t
    } else if t < 180 {
        60 * q
    } else if t < 240 {
        60 * p + (q - p) * (240 - t)
    } else {
        60 * p
    }
}

/// A channel in units of 1/600000 as an 8-bit level, rounded to nearest.
pub open spec fn ramp_to_byte(n: int) -> int {
    (255 * n + 300000) / 600000
}

/// The RGB levels of an HLS colour: hue in degrees, lightness and
/// saturation in percent.
pub open spec fn hls_to_rgb_spec(h: int, l: int, s: int) -> (int, int, int) {
    if s <= 0 {
        let gray = percent_to_byte_spec(l);
        (gray, gray, gray)
    } else {
        let hue = rotated_hue(h);
        let lum = clamp_percent(l);
        let sat = clamp_percent(s);
        let p = hls_p(lum, sat);
        let q = hls_q(lum, sat);
        (
            ramp_to_byte(hls_ramp(p, q, hue + 120)),
            ramp_to_byte(hls_ramp(p, q, hue)),
            ramp_to_byte(hls_ramp(p, q, hue - 120)),
        )
    }
}

/// Converts a percentage to an 8-bit level; values outside `0..=100`
/// are taken as the nearer end.
pub fn percent_to_byte(value: i32) -> (out: u8)
    ensures
        out as int == percent_to_byte_spec(value as int),
{
    let clamped: i32 = if value < 0 {
        0
    } else if value > 100 {
        100
    } else {
        value
    };
    ((clamped * 255 + 50) / 100) as u8
}

/// Packs three channels into one 24-bit colour.
pub fn pack_rgb(r: u8, g: u8, b: u8) -> (out: u32)
    ensures
        out as int == pack_rgb_spec(r as int, g as int, b as int),
        red_of(out as int) == r,
        green_of(out as int) == g,
        blue_of(out as int) == b,
{
    let out: u32 = (r as u32) * 65536 + (g as u32) * 256 + (b as u32);
    out
}

/// The bounds of `p` and `q` for percentages that are in range.
pub proof fn lemma_hls_pq_bounds(l: int, s: int)
    requires
        0 <= l <= 100,
        0 <= s <= 100,
    ensures
        0 <= hls_p(l, s) <= hls_q(l, s) <= 10000,
{
    assert(0 <= hls_p(l, s) <= hls_q(l, s) <= 10000) by (nonlinear_arith)
        requires
            0 <= l <= 100,
            0 <= s <= 100,
            hls_p(l, s) == 200 * l - hls_q(l, s),
            hls_q(l, s) == if l < 50 {
                l * (100 + s)
            } else {
                100 * l + 100 * s - l * s
            },
    ;
}

/// Every channel of the piecewise evaluation lies between `60 p` and
/// `60 q`.
pub proof fn lemma_hls_ramp_bounds(p: int, q: int, angle: int)
    requires
        0 <= p <= q <= 10000,
        -360 <= angle <= 720,
    ensures
        0 <= hls_ramp(p, q, angle) <= 600000,
        0 <= ramp_to_byte(hls_ramp(p, q, angle)) <= 255,
{
    let t = wrap_angle(angle);
    assert(0 <= hls_ramp(p, q, angle) <= 600000) by (nonlinear_arith)
        requires
            0 <= p <= q <= 10000,
            t == wrap_angle(angle),
            hls_ramp(p, q, angle) == if t < 60 {
                60 * p + (q - p) * t
            } else if t < 180 {
                60 * q
            } else if t < 240 {
                60 * p + (q - p) * (240 - t)
            } else {
                60 * p
            },
            -360 <= angle <= 720,
            t == if angle < 0 {
                angle + 360
            } else if angle > 360 {
                angle - 360
            } else {
                angle
            },
    ;
}

fn hls_channel(p: i64, q: i64, angle: i64) -> (out: u8)
    requires
        0 <= p <= q <= 10000,
        -360 <= angle <= 720,
    ensures
        out as int == ramp_to_byte(hls_ramp(p as int, q as int, angle as int)),
{
    proof {
        lemma_hls_ramp_bounds(p as int, q as int, angle as int);
    }
    let t: i64 = if angle < 0 {
        angle + 360
    } else if angle > 360 {
        angle - 360
    } else {
        angle
    };
    let n: i64 = if t < 60 {
        assert(0 <= (q - p) * t <= 10000 * 60) by (nonlinear_arith)
            requires
                0 <= p <= q <= 10000,
                0 <= t < 60,
        ;
        60 * p + (q - p) * t
    } else if t < 180 {
        60 * q
    } else if t < 240 {
        assert(0 <= (q - p) * (240 - t) <= 10000 * 60) by (nonlinear_arith)
            requires
                0 <= p <= q <= 10000,
                180 <= t < 240,
        ;
        60 * p + (q - p) * (240 - t)
    } else {
        60 * p
    };
    ((255 * n + 300000) / 600000) as u8
}

/// Converts an HLS colour to RGB levels. The hue is in degrees and is
/// rotated by 240 degrees first; lightness and saturation are
/// percentages, limited to `0..=100`. A saturation of zero or less gives
/// the gray of the lightness.
pub fn hls_to_rgb(h: i32, l: i32, s: i32) -> (out: [u8; 3])
    ensures
        (out[0] as int, out[1] as int, out[2] as int) == hls_to_rgb_spec(
            h as int,
            l as int,
            s as int,
        ),
{
    if s <= 0 {
        let gray = percent_to_byte(l);
        return [gray, gray, gray];
    }
    let shifted: i64 = h as i64 + 240;
    let rem: i64 = shifted % 360;
    let hue: i64 = if rem < 0 {
        rem + 360
    } else {
        rem
    };
    assert(hue == rotated_hue(h as int));
    let lum: i64 = if l < 0 {
        0
    } else if l > 100 {
        100
    } else {
        l as i64
    };
    let sat: i64 = if s > 100 {
        100
    } else {
        s as i64
    };
    proof {
        lemma_hls_pq_bounds(lum as int, sat as int);
    }
    let q: i64 = if lum < 50 {
        lum * (100 + sat)
    } else {
        100 * lum + 100 * sat - lum * sat
    };
    let p: i64 = 200 * lum - q;
    let r = hls_channel(p, q, hue + 120);
    let g = hls_channel(p, q, hue);
    let b = hls_channel(p, q, hue - 120);
    [r, g, b]
}

} // verus!
