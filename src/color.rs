use vstd::prelude::*;

verus! {

/// A pixel color: one byte per channel.
#[derive(Clone, Copy, Debug, PartialEq, Eq, Structural)]
pub struct RGB {
    pub red: u8,
    pub green: u8,
    pub blue: u8,
}

impl RGB {
    /// The unlit pixel, (0, 0, 0).
    pub fn null() -> (r: RGB)
        ensures
            r == RGB::black(),
    {
        RGB { red: 0, green: 0, blue: 0 }
    }

    pub open spec fn black() -> RGB {
        RGB { red: 0, green: 0, blue: 0 }
    }
}

/// Channel sums under this value are snapped to black after gamma correction.
pub const GC_BOTTOM_THRESHOLD: u16 = 20;

/// 255 to the sixth power: the scale that makes the gamma test integral.
pub const FULL_POW6: u128 = 274941996890625;

pub open spec fn pow5(x: int) -> int {
    x * x * x * x * x
}

pub open spec fn pow11(x: int) -> int {
    pow5(x) * pow5(x) * x
}

/// `g` is the gamma-corrected level of channel value `c`, that is
/// `floor(255 * (c / 255)^2.2)`. With 2.2 = 11/5 and `FULL_POW6 == 255^6` this
/// reads `g^5 * 255^6 <= c^11 < (g + 1)^5 * 255^6`.
pub open spec fn is_gamma_level(c: int, g: int) -> bool {
    &&& 0 <= g
    &&& pow5(g) * FULL_POW6 <= pow11(c)
    &&& pow11(c) < pow5(g + 1) * FULL_POW6
}

/// The gamma-corrected level of a channel value.
pub open spec fn gamma_of(c: u8) -> u8 {
    choose|g: u8| is_gamma_level(c as int, g as int)
}

/// The gamma-corrected channels, before the dark cutoff.
pub open spec fn gamma_raw(rgb: RGB) -> RGB {
    RGB { red: gamma_of(rgb.red), green: gamma_of(rgb.green), blue: gamma_of(rgb.blue) }
}

/// What `gamma_correct` returns: the corrected channels, or black where their sum
/// stays under the threshold.
pub open spec fn gamma_spec(rgb: RGB) -> RGB {
    let g = gamma_raw(rgb);
    if (g.red as int) + (g.green as int) + (g.blue as int) < GC_BOTTOM_THRESHOLD as int {
        RGB::black()
    } else {
        g
    }
}

proof fn lemma_pow5_monotone(a: int, b: int)
    requires
        0 <= a <= b,
    ensures
        0 <= pow5(a) <= pow5(b),
{
    assert(0 <= a * a <= b * b) by (nonlinear_arith)
        requires 0 <= a <= b;
    assert(0 <= a * a * a <= b * b * b) by (nonlinear_arith)
        requires 0 <= a <= b, 0 <= a * a <= b * b;
    assert(0 <= a * a * a * a <= b * b * b * b) by (nonlinear_arith)
        requires 0 <= a <= b, 0 <= a * a * a <= b * b * b;
    assert(0 <= pow5(a) <= pow5(b)) by (nonlinear_arith)
        requires 0 <= a <= b, 0 <= a * a * a * a <= b * b * b * b;
}

proof fn lemma_scaled_monotone(a: int, b: int)
    requires
        0 <= a <= b,
    ensures
        pow5(a) * FULL_POW6 <= pow5(b) * FULL_POW6,
{
    lemma_pow5_monotone(a, b);
    let (pa, pb) = (pow5(a), pow5(b));
    assert(pa * FULL_POW6 <= pb * FULL_POW6) by (nonlinear_arith)
        requires pa <= pb;
}

proof fn lemma_gamma_level_unique(c: int, g1: int, g2: int)
    requires
        is_gamma_level(c, g1),
        is_gamma_level(c, g2),
    ensures
        g1 == g2,
{
    if g1 < g2 {
        lemma_scaled_monotone(g1 + 1, g2);
    } else if g2 < g1 {
        lemma_scaled_monotone(g2 + 1, g1);
    }
}

proof fn lemma_top_level(c: int)
    requires
        0 <= c <= 255,
    ensures
        pow11(c) < pow5(256) * FULL_POW6,
{
    lemma_pow5_monotone(c, 255);
    let pc = pow5(c);
    let q = pow5(255);
    assert(q == 1078203909375);
    assert(pow5(256) == 1099511627776);
    assert(pc * pc * c <= q * q * 255) by (nonlinear_arith)
        requires 0 <= pc <= q, 0 <= c <= 255;
}

/// `x^5 * 255^6`, exactly.
fn scaled_pow5(x: u8) -> (r: u128)
    ensures
        r == pow5(x as int) * FULL_POW6,
{
    let y = x as u128;
    proof {
        lemma_scaled_monotone(x as int, 255);
        assert(y * y <= 255 * 255) by (nonlinear_arith) requires y <= 255;
        assert(y * y * y <= 255 * 255 * 255) by (nonlinear_arith) requires y <= 255;
        assert(y * y * y * y <= 255 * 255 * 255 * 255) by (nonlinear_arith) requires y <= 255;
        assert(pow5(255) == 1078203909375);
        assert(pow5(255) * FULL_POW6 < 0xffff_ffff_ffff_ffff_ffff_ffff_ffff_ffff);
    }
    let p = y * y * y * y * y;
    p * FULL_POW6
}

/// `x^11`, exactly.
fn pow11_of(x: u8) -> (r: u128)
    ensures
        r == pow11(x as int),
{
    let y = x as u128;
    proof {
        lemma_pow5_monotone(x as int, 255);
        assert(y * y <= 255 * 255) by (nonlinear_arith) requires y <= 255;
        assert(y * y * y <= 255 * 255 * 255) by (nonlinear_arith) requires y <= 255;
        assert(y * y * y * y <= 255 * 255 * 255 * 255) by (nonlinear_arith) requires y <= 255;
    }
    let p = y * y * y * y * y;
    proof {
        let q = pow5(255);
        assert(q == 1078203909375);
        assert(p * p <= q * q) by (nonlinear_arith) requires 0 <= p <= q;
        assert(p * p * y <= q * q * 255) by (nonlinear_arith) requires 0 <= p * p <= q * q, y <= 255;
        assert(q * q * 255 < 0xffff_ffff_ffff_ffff_ffff_ffff_ffff_ffff);
    }
    p * p * y
}

/// Gamma-corrects one channel value: `floor(255 * (c / 255)^2.2)`.
pub fn gamma_level(c: u8) -> (r: u8)
    ensures
        is_gamma_level(c as int, r as int),
        r == gamma_of(c),
{
    let target = pow11_of(c);
    let mut g: u8 = 0;
    assert(pow5(0) == 0);
    proof {
        lemma_pow5_monotone(0, c as int);
        let pc = pow5(c as int);
        assert(0 <= pc * pc * c) by (nonlinear_arith) requires 0 <= pc, 0 <= c;
    }
    while g < 255 && scaled_pow5(g + 1) <= target
        invariant
            target == pow11(c as int),
            pow5(g as int) * FULL_POW6 <= pow11(c as int),
        decreases 255 - g,
    {
        g = g + 1;
    }
    if g == 255 {
        proof {
            lemma_top_level(c as int);
        }
    }
    proof {
        assert(is_gamma_level(c as int, g as int));
        let w = choose|w: u8| is_gamma_level(c as int, w as int);
        lemma_gamma_level_unique(c as int, w as int, g as int);
    }
    g
}

/// Applies the gamma curve to each channel and snaps near-black results to black.
pub fn gamma_correct(rgb: &RGB) -> (r: RGB)
    ensures
        r == gamma_spec(*rgb),
{
    let mut c = RGB {
        red: gamma_level(rgb.red),
        green: gamma_level(rgb.green),
        blue: gamma_level(rgb.blue),
    };
    // a faint color would otherwise come out as a dim tint of one channel
    if (c.red as u16 + c.green as u16 + c.blue as u16) < GC_BOTTOM_THRESHOLD {
        c = RGB::null();
    }
    c
}

/// Clamps a rounded channel value into 0..=255.
pub fn normalize_value(value: i64) -> (r: u8)
    ensures
        r == clamp_spec(value),
{
    if value < 0 {
        0
    } else if value > 255 {
        255
    } else {
        value as u8
    }
}

/// A fitted curve of the color-temperature approximation; app code evaluates it
/// on the argument that a `Level` carries.
#[derive(Clone, Copy, Debug, PartialEq, Eq, Structural)]
pub enum Curve {
    /// `329.698727446 * x^-0.1332047592`
    RedFalloff,
    /// `99.4708025861 * ln(x) - 161.1195681661`
    GreenLog,
    /// `288.1221695283 * x^-0.0755148492`
    GreenFalloff,
    /// `138.5177312231 * ln(x) - 305.0447927307`
    BlueLog,
}

/// How one channel of a color temperature is obtained: a fixed value, or a
/// curve at an argument, rounded and then clamped by `normalize_value`.
#[derive(Clone, Copy, Debug, PartialEq, Eq, Structural)]
pub enum Level {
    Fixed(u8),
    Fitted(Curve, u16),
}

/// The three channel levels of a color temperature.
#[derive(Clone, Copy, Debug, PartialEq, Eq, Structural)]
pub struct KelvinPlan {
    pub red: Level,
    pub green: Level,
    pub blue: Level,
}

/// The channel levels for a temperature in kelvin, after the fit by Tanner
/// Helland. A logarithm never receives an argument below 1: at a hundredth of
/// zero the green channel is fixed at 0, the limit of its curve.
pub open spec fn kelvin_plan_spec(temp: u16) -> KelvinPlan {
    let t = temp / 100;
    KelvinPlan {
        red: if t <= 66 { Level::Fixed(255) } else { Level::Fitted(Curve::RedFalloff, (t - 60) as u16) },
        green: if t == 0 {
            Level::Fixed(0)
        } else if t <= 66 {
            Level::Fitted(Curve::GreenLog, t)
        } else {
            Level::Fitted(Curve::GreenFalloff, (t - 60) as u16)
        },
        blue: if t >= 66 {
            Level::Fixed(255)
        } else if t <= 19 {
            Level::Fixed(0)
        } else {
            Level::Fitted(Curve::BlueLog, (t - 10) as u16)
        },
    }
}

/// Picks, for each channel of a color temperature, its fixed value or the curve
/// and argument that give it.
pub fn kelvin_plan(temp: u16) -> (r: KelvinPlan)
    ensures
        r == kelvin_plan_spec(temp),
{
    let t = temp / 100;
    let red = if t <= 66 {
        Level::Fixed(255)
    } else {
        Level::Fitted(Curve::RedFalloff, t - 60)
    };
    let green = if t == 0 {
        Level::Fixed(0)
    } else if t <= 66 {
        Level::Fitted(Curve::GreenLog, t)
    } else {
        Level::Fitted(Curve::GreenFalloff, t - 60)
    };
    let blue = if t >= 66 {
        Level::Fixed(255)
    } else if t <= 19 {
        Level::Fixed(0)
    } else {
        Level::Fitted(Curve::BlueLog, t - 10)
    };
    KelvinPlan { red, green, blue }
}

/// The channel value of a level, given the rounded value of its curve (ignored
/// for a fixed level).
pub fn resolve_level(level: Level, fitted: i64) -> (r: u8)
    ensures
        r == match level {
            Level::Fixed(v) => v,
            Level::Fitted(_, _) => clamp_spec(fitted),
        },
{
    match level {
        Level::Fixed(v) => v,
        Level::Fitted(_, _) => normalize_value(fitted),
    }
}

pub open spec fn clamp_spec(value: i64) -> u8 {
    if value < 0 { 0 } else if value > 255 { 255 } else { value as u8 }
}

} // verus!
