//! Theme colors: hex color parsing and the intensity gradient used by the
//! visualizer bars. Colors are plain RGB triples; painting them on a
//! terminal is the rendering layer's business.

use vstd::prelude::*;

use crate::text::str_to_chars;

verus! {

/// A color as red, green and blue channels.
#[derive(Clone, Copy, PartialEq, Eq, Structural, Debug)]
pub struct Rgb {
    pub r: u8,
    pub g: u8,
    pub b: u8,
}

/// An ASCII hex digit.
pub open spec fn is_hex_digit(c: char) -> bool {
    (48 <= (c as u32) && (c as u32) <= 57) || (97 <= (c as u32) && (c as u32) <= 102) || (65 <= (
    c as u32) && (c as u32) <= 70)
}

/// Value of an ASCII hex digit.
pub open spec fn hex_val(c: char) -> int {
    if 48 <= (c as u32) && (c as u32) <= 57 {
        (c as u32) - 48
    } else if 97 <= (c as u32) && (c as u32) <= 102 {
        (c as u32) - 87
    } else {
        (c as u32) - 55
    }
}

/// `s` without every leading `#`.
pub open spec fn strip_hashes(s: Seq<char>) -> Seq<char>
    decreases s.len(),
{
    if s.len() > 0 && s[0] == '#' {
        strip_hashes(s.skip(1))
    } else {
        s
    }
}

/// One color channel from two hex digits at `i` of `s`.
pub open spec fn channel_at(s: Seq<char>, i: int) -> int {
    hex_val(s[i]) * 16 + hex_val(s[i + 1])
}

/// Whether `s` is six hex digits.
pub open spec fn is_hex6(s: Seq<char>) -> bool {
    s.len() == 6 && forall|j: int| 0 <= j < 6 ==> is_hex_digit(#[trigger] s[j])
}

/// Dropping `a` leading hashes reaches the stripped tail.
proof fn lemma_strip_hashes_skip(s: Seq<char>, a: int)
    requires
        0 <= a <= s.len(),
        forall|j: int| 0 <= j < a ==> #[trigger] s[j] == '#',
        a < s.len() ==> s[a] != '#',
    ensures
        strip_hashes(s) == s.skip(a),
    decreases a,
{
    if a == 0 {
        assert(s.skip(0) =~= s);
    } else {
        lemma_strip_hashes_skip(s.skip(1), a - 1);
        assert(s.skip(1).skip(a - 1) =~= s.skip(a));
    }
}

/// Parses `#rrggbb` (any number of leading hashes) into a color. Returns the
/// channels exactly when the stripped text is six hex digits, and nothing
/// otherwise.
pub fn parse_hex_color(hex: &str) -> (r: Option<Rgb>)
    ensures
        match r {
            Some(c) => {
                &&& is_hex6(strip_hashes(hex@))
                &&& c.r as int == channel_at(strip_hashes(hex@), 0)
                &&& c.g as int == channel_at(strip_hashes(hex@), 2)
                &&& c.b as int == channel_at(strip_hashes(hex@), 4)
            },
            None => !is_hex6(strip_hashes(hex@)),
        },
{
    let chars = str_to_chars(hex);
    let len = chars.len();
    let mut a: usize = 0;
    while a < len && chars[a] == '#'
        invariant
            a <= len,
            len == chars@.len(),
            forall|j: int| 0 <= j < a ==> #[trigger] chars@[j] == '#',
        decreases len - a,
    {
        a = a + 1;
    }
    proof {
        lemma_strip_hashes_skip(chars@, a as int);
    }
    let ghost stripped = chars@.skip(a as int);
    if len - a != 6 {
        return None;
    }
    let mut vals: Vec<u8> = vec![0u8; 6];
    let mut j: usize = 0;
    let mut ok = true;
    while j < 6
        invariant
            j <= 6,
            a + 6 == len,
            len == chars@.len(),
            stripped == chars@.skip(a as int),
            stripped.len() == 6,
            vals@.len() == 6,
            ok ==> forall|q: int|
                0 <= q < j ==> is_hex_digit(#[trigger] stripped[q]) && vals@[q] as int == hex_val(
                    stripped[q],
                ),
            !ok ==> !is_hex6(stripped),
        decreases 6 - j,
    {
        if ok {
            let c = chars[a + j];
            let u = c as u32;
            if 48 <= u && u <= 57 {
                vals[j] = (u - 48) as u8;
            } else if 97 <= u && u <= 102 {
                vals[j] = (u - 87) as u8;
            } else if 65 <= u && u <= 70 {
                vals[j] = (u - 55) as u8;
            } else {
                ok = false;
                proof {
                    assert(!is_hex_digit(stripped[j as int]));
                }
            }
        }
        j = j + 1;
    }
    if !ok {
        return None;
    }
    proof {
        assert(is_hex6(stripped));
        assert forall|q: int| 0 <= q < 6 implies #[trigger] vals@[q] < 16 by {
            assert(is_hex_digit(stripped[q]) && vals@[q] as int == hex_val(stripped[q]));
        }
    }
    Some(
        Rgb {
            r: vals[0] * 16 + vals[1],
            g: vals[2] * 16 + vals[3],
            b: vals[4] * 16 + vals[5],
        },
    )
}

/// Linear interpolation of one channel: `d + (a - d) * t / 1000`, truncated
/// toward zero.
pub open spec fn lerp_channel(d: int, a: int, t: int) -> int {
    d + crate::transform::tdiv((a - d) * t, 1000)
}

/// Intensity clamped to the gradient's range of thousandths.
pub open spec fn clamp_millis(t: int) -> int {
    if t < 0 {
        0
    } else if t > 1000 {
        1000
    } else {
        t
    }
}

/// The gradient color between `dim` (intensity zero) and `accent` (intensity
/// one): each channel interpolated linearly, with the intensity given in
/// thousandths and clamped into `[0, 1000]`.
pub fn gradient(dim: Rgb, accent: Rgb, intensity_millis: i64) -> (r: Rgb)
    ensures
        r.r as int == lerp_channel(dim.r as int, accent.r as int, clamp_millis(
            intensity_millis as int,
        )),
        r.g as int == lerp_channel(dim.g as int, accent.g as int, clamp_millis(
            intensity_millis as int,
        )),
        r.b as int == lerp_channel(dim.b as int, accent.b as int, clamp_millis(
            intensity_millis as int,
        )),
{
    let t: i64 = if intensity_millis < 0 {
        0
    } else if intensity_millis > 1000 {
        1000
    } else {
        intensity_millis
    };
    Rgb {
        r: lerp_channel_at(dim.r, accent.r, t),
        g: lerp_channel_at(dim.g, accent.g, t),
        b: lerp_channel_at(dim.b, accent.b, t),
    }
}

/// One interpolated channel.
fn lerp_channel_at(d: u8, a: u8, t: i64) -> (r: u8)
    requires
        0 <= t <= 1000,
    ensures
        r as int == lerp_channel(d as int, a as int, t as int),
{
    proof {
        lemma_lerp_channel_in_range(d as int, a as int, t as int);
    }
    let delta: i64 = (a as i64) - (d as i64);
    proof {
        if delta >= 0 {
            assert(0 <= (delta as int) * (t as int) <= 255 * 1000) by (nonlinear_arith)
                requires
                    0 <= delta as int <= 255,
                    0 <= t as int <= 1000,
            ;
        } else {
            assert(0 <= ((-delta) as int) * (t as int) <= 255 * 1000) by (nonlinear_arith)
                requires
                    0 <= (-delta) as int <= 255,
                    0 <= t as int <= 1000,
            ;
            assert(((a as int) - (d as int)) * (t as int) == -(((-delta) as int) * (t as int)))
                by (nonlinear_arith)
                requires
                    delta as int == (a as int) - (d as int),
            ;
        }
    }
    let step: i64 = if delta >= 0 {
        (((delta as u64) * (t as u64)) / 1000) as i64
    } else {
        -(((((-delta) as u64) * (t as u64)) / 1000) as i64)
    };
    ((d as i64) + step) as u8
}

/// The interpolation never leaves the byte range: it lands between the two
/// endpoint channels.
proof fn lemma_lerp_channel_in_range(d: int, a: int, t: int)
    requires
        0 <= d <= 255,
        0 <= a <= 255,
        0 <= t <= 1000,
    ensures
        0 <= lerp_channel(d, a, t) <= 255,
        0 <= crate::transform::tdiv((a - d) * t, 1000) + d <= 255,
{
    let delta = a - d;
    if delta >= 0 {
        assert(0 <= delta * t <= delta * 1000) by (nonlinear_arith)
            requires
                0 <= delta,
                0 <= t <= 1000,
        ;
        assert(0 <= delta * t / 1000 <= delta) by (nonlinear_arith)
            requires
                0 <= delta * t <= delta * 1000,
        ;
    } else {
        assert(0 <= (-delta) * t <= (-delta) * 1000) by (nonlinear_arith)
            requires
                0 <= -delta,
                0 <= t <= 1000,
        ;
        assert(0 <= (-delta) * t / 1000 <= -delta) by (nonlinear_arith)
            requires
                0 <= (-delta) * t <= (-delta) * 1000,
        ;
        assert(delta * t == -((-delta) * t)) by (nonlinear_arith);
    }
}

} // verus!
