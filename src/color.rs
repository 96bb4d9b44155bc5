use vstd::arithmetic::div_mod::{lemma_div_by_multiple, lemma_div_is_ordered, lemma_fundamental_div_mod, lemma_div_pos_is_pos};
use vstd::prelude::*;

verus! {

/// Longest duration, in milliseconds, that a single segment may have.
pub const MAX_SEGMENT_MS: u64 = 1099511627776;

/// A colour as four 8-bit components: red, green, blue and alpha.
#[derive(Clone, Copy, Debug, PartialEq, Eq, Structural)]
pub struct Rgba {
    pub r: u8,
    pub g: u8,
    pub b: u8,
    pub a: u8,
}

/// An easing curve: a shaping of normalized time into normalized progress.
#[derive(Clone, Copy, Debug, PartialEq, Eq, Structural)]
pub enum Easing {
    Linear,
    CubicIn,
    CubicOut,
    CubicInOut,
}

/// Eased progress for `n` out of `d`, itself measured out of `d`
/// (integer division rounds down).
pub open spec fn ease_spec(e: Easing, n: int, d: int) -> int {
    match e {
        Easing::Linear => n,
        Easing::CubicIn => n * n * n / (d * d),
        Easing::CubicOut => d - (d - n) * (d - n) * (d - n) / (d * d),
        Easing::CubicInOut => if 2 * n < d {
            4 * n * n * n / (d * d)
        } else {
            d - 4 * (d - n) * (d - n) * (d - n) / (d * d)
        },
    }
}

/// One component moved from `s` towards `t` by `e` out of `d`, rounded
/// towards `s`.
pub open spec fn lerp_spec(s: int, t: int, e: int, d: int) -> int {
    if s <= t {
        s + (t - s) * e / d
    } else {
        s - (s - t) * e / d
    }
}

pub open spec fn lerp_rgba(s: Rgba, t: Rgba, e: int, d: int) -> Rgba {
    Rgba {
        r: lerp_spec(s.r as int, t.r as int, e, d) as u8,
        g: lerp_spec(s.g as int, t.g as int, e, d) as u8,
        b: lerp_spec(s.b as int, t.b as int, e, d) as u8,
        a: lerp_spec(s.a as int, t.a as int, e, d) as u8,
    }
}

/// Progress `n` out of `d`, clamped to at most `d`.
pub open spec fn clamp_spec(n: int, d: int) -> int {
    if n > d { d } else { n }
}

/// The colour between `start` and `end` at progress `n` out of `d` under `easing`.
pub open spec fn interpolate_spec(start: Rgba, end: Rgba, easing: Easing, n: int, d: int) -> Rgba {
    lerp_rgba(start, end, ease_spec(easing, clamp_spec(n, d), d), d)
}

proof fn lemma_cube_div_le(x: int, d: int)
    requires
        0 <= x <= d * d * d,
        0 < d,
    ensures
        0 <= x / (d * d) <= d,
{
    assert(d * d > 0) by (nonlinear_arith)
        requires
            0 < d,
    ;
    lemma_div_pos_is_pos(x, d * d);
    lemma_div_is_ordered(x, d * (d * d), d * d);
    assert(d * d * d == d * (d * d)) by (nonlinear_arith);
    lemma_div_by_multiple(d, d * d);
}

/// Every curve maps `[0, d]` into `[0, d]` and fixes both ends.
pub proof fn lemma_ease_bounds(e: Easing, n: int, d: int)
    requires
        0 <= n <= d,
        0 < d,
    ensures
        0 <= ease_spec(e, n, d) <= d,
        ease_spec(e, 0, d) == 0,
        ease_spec(e, d, d) == d,
{
    let m = d - n;
    assert(0 <= n * n * n <= d * d * d) by (nonlinear_arith)
        requires
            0 <= n <= d,
    ;
    assert(0 <= m * m * m <= d * d * d) by (nonlinear_arith)
        requires
            0 <= m <= d,
    ;
    lemma_cube_div_le(n * n * n, d);
    lemma_cube_div_le(m * m * m, d);
    if 2 * n < d {
        assert(0 <= 4 * n * n * n <= d * d * d) by (nonlinear_arith)
            requires
                0 <= n,
                2 * n < d,
        ;
        lemma_cube_div_le(4 * n * n * n, d);
    } else {
        assert(0 <= 4 * m * m * m <= d * d * d) by (nonlinear_arith)
            requires
                0 <= m,
                2 * m <= d,
        ;
        lemma_cube_div_le(4 * m * m * m, d);
    }
    assert(0int * 0 * 0 == 0);
    lemma_div_by_multiple(0, d * d);
    assert(d * d > 0) by (nonlinear_arith)
        requires
            0 < d,
    ;
    assert(0int / (d * d) == 0);
    assert(4 * 0int * 0 * 0 == 0);
    assert(d * d * d == d * (d * d)) by (nonlinear_arith);
    assert((d - d) * (d - d) * (d - d) == 0);
    assert((d - 0) * (d - 0) * (d - 0) == d * (d * d)) by (nonlinear_arith);
    assert(4 * (d - d) * (d - d) * (d - d) == 0);
    assert(0 * 0 * 0 == 0);
    lemma_div_by_multiple(d, d * d);
    assert(ease_spec(e, 0, d) == 0);
    assert(ease_spec(e, d, d) == d);
}

proof fn lemma_lerp_bounds(s: int, t: int, e: int, d: int)
    requires
        0 <= e <= d,
        0 < d,
    ensures
        s <= t ==> s <= lerp_spec(s, t, e, d) <= t,
        t < s ==> t <= lerp_spec(s, t, e, d) <= s,
        lerp_spec(s, t, 0, d) == s,
        lerp_spec(s, t, d, d) == t,
{
    let w = if s <= t { t - s } else { s - t };
    assert(0 <= w * e <= w * d) by (nonlinear_arith)
        requires
            0 <= e <= d,
            0 <= w,
    ;
    lemma_div_pos_is_pos(w * e, d);
    lemma_div_is_ordered(w * e, w * d, d);
    lemma_div_by_multiple(w, d);
    lemma_div_by_multiple(0, d);
    assert(w * 0 == 0);
}

proof fn lemma_quotient_below(x: int, dd: int)
    requires
        0 <= x,
        0 < dd,
    ensures
        0 <= (x / dd) * dd <= x,
{
    lemma_fundamental_div_mod(x, dd);
    vstd::arithmetic::div_mod::lemma_mod_bound(x, dd);
    lemma_div_pos_is_pos(x, dd);
    assert(0 <= (x / dd) * dd) by (nonlinear_arith)
        requires
            0 <= x / dd,
            0 < dd,
    ;
    assert((x / dd) * dd == dd * (x / dd)) by (nonlinear_arith);
}

/// Every curve is monotonic: more time never eases to less progress.
pub proof fn lemma_ease_monotone(e: Easing, n1: int, n2: int, d: int)
    requires
        0 <= n1 <= n2 <= d,
        0 < d,
    ensures
        ease_spec(e, n1, d) <= ease_spec(e, n2, d),
{
    let dd = d * d;
    assert(d * d > 0) by (nonlinear_arith)
        requires
            0 < d,
    ;
    let m1 = d - n1;
    let m2 = d - n2;
    assert(0 <= n1 * n1 * n1 <= n2 * n2 * n2) by (nonlinear_arith)
        requires
            0 <= n1 <= n2,
    ;
    assert(0 <= m2 * m2 * m2 <= m1 * m1 * m1) by (nonlinear_arith)
        requires
            0 <= m2 <= m1,
    ;
    lemma_div_is_ordered(n1 * n1 * n1, n2 * n2 * n2, dd);
    lemma_div_is_ordered(m2 * m2 * m2, m1 * m1 * m1, dd);
    lemma_div_is_ordered(4 * (n1 * n1 * n1), 4 * (n2 * n2 * n2), dd);
    lemma_div_is_ordered(4 * (m2 * m2 * m2), 4 * (m1 * m1 * m1), dd);
    assert(4 * n1 * n1 * n1 == 4 * (n1 * n1 * n1)) by (nonlinear_arith);
    assert(4 * n2 * n2 * n2 == 4 * (n2 * n2 * n2)) by (nonlinear_arith);
    assert(4 * m1 * m1 * m1 == 4 * (m1 * m1 * m1)) by (nonlinear_arith);
    assert(4 * m2 * m2 * m2 == 4 * (m2 * m2 * m2)) by (nonlinear_arith);
    if e == Easing::CubicInOut && 2 * n1 < d && 2 * n2 >= d {
        let x1 = 4 * n1 * n1 * n1;
        let x2 = 4 * m2 * m2 * m2;
        assert(0 <= x1 && 2 * x1 < d * dd) by (nonlinear_arith)
            requires
                0 <= n1,
                2 * n1 < d,
                x1 == 4 * n1 * n1 * n1,
                dd == d * d,
        ;
        assert(0 <= x2 && 2 * x2 <= d * dd) by (nonlinear_arith)
            requires
                0 <= m2,
                2 * m2 <= d,
                x2 == 4 * m2 * m2 * m2,
                dd == d * d,
        ;
        lemma_quotient_below(x1, dd);
        lemma_quotient_below(x2, dd);
        let q1 = x1 / dd;
        let q2 = x2 / dd;
        assert(2 * q1 < d) by (nonlinear_arith)
            requires
                q1 * dd <= x1,
                2 * x1 < d * dd,
                dd > 0,
        ;
        assert(2 * q2 <= d) by (nonlinear_arith)
            requires
                q2 * dd <= x2,
                2 * x2 <= d * dd,
                dd > 0,
        ;
    }
}

/// Eased progress `n` out of `d` (`n <= d`), measured out of `d`.
pub fn ease(e: Easing, n: u64, d: u64) -> (r: u64)
    requires
        n <= d,
        0 < d <= MAX_SEGMENT_MS,
    ensures
        r == ease_spec(e, n as int, d as int),
        r <= d,
{
    proof {
        lemma_ease_bounds(e, n as int, d as int);
    }
    let n2 = n as u128;
    let d2 = d as u128;
    let m2 = d2 - n2;
    assert(n2 * n2 <= d2 * d2 && d2 * d2 <= 1208925819614629174706176) by (nonlinear_arith)
        requires
            n2 <= d2,
            d2 <= 1099511627776,
    ;
    assert(n2 * n2 * n2 <= 1329227995784915872903807060280344576) by (nonlinear_arith)
        requires
            n2 <= 1099511627776,
    ;
    assert(m2 * m2 <= 1208925819614629174706176 && m2 * m2 * m2
        <= 1329227995784915872903807060280344576) by (nonlinear_arith)
        requires
            m2 <= 1099511627776,
    ;
    assert(4 * n2 * n2 <= 4835703278458516698824704 && 4 * n2 * n2 * n2
        <= 5316911983139663491615228241121378304) by (nonlinear_arith)
        requires
            n2 <= 1099511627776,
    ;
    assert(4 * m2 * m2 <= 4835703278458516698824704 && 4 * m2 * m2 * m2
        <= 5316911983139663491615228241121378304) by (nonlinear_arith)
        requires
            m2 <= 1099511627776,
    ;
    assert(d2 * d2 > 0) by (nonlinear_arith)
        requires
            d2 > 0,
    ;
    let dd = d2 * d2;
    match e {
        Easing::Linear => n,
        Easing::CubicIn => (n2 * n2 * n2 / dd) as u64,
        Easing::CubicOut => d - (m2 * m2 * m2 / dd) as u64,
        Easing::CubicInOut => {
            if 2 * n2 < d2 {
                (4 * n2 * n2 * n2 / dd) as u64
            } else {
                d - (4 * m2 * m2 * m2 / dd) as u64
            }
        },
    }
}

fn lerp_component(s: u8, t: u8, e: u64, d: u64) -> (r: u8)
    requires
        e <= d,
        0 < d <= MAX_SEGMENT_MS,
    ensures
        r == lerp_spec(s as int, t as int, e as int, d as int),
{
    proof {
        lemma_lerp_bounds(s as int, t as int, e as int, d as int);
    }
    if s <= t {
        let w = (t - s) as u64;
        assert(w * e <= 255 * 1099511627776) by (nonlinear_arith)
            requires
                w <= 255,
                e <= 1099511627776,
        ;
        s + ((w * e) / d) as u8
    } else {
        let w = (s - t) as u64;
        assert(w * e <= 255 * 1099511627776) by (nonlinear_arith)
            requires
                w <= 255,
                e <= 1099511627776,
        ;
        s - ((w * e) / d) as u8
    }
}

/// The colour between `start` and `end` at progress `n` out of `d` under
/// `easing`; progress past `d` is clamped to `d`. Each component is blended
/// on its own, rounding towards `start`.
pub fn interpolate(start: Rgba, end: Rgba, easing: Easing, n: u64, d: u64) -> (r: Rgba)
    requires
        0 < d <= MAX_SEGMENT_MS,
    ensures
        r == interpolate_spec(start, end, easing, n as int, d as int),
{
    let c = if n > d { d } else { n };
    let e = ease(easing, c, d);
    Rgba {
        r: lerp_component(start.r, end.r, e, d),
        g: lerp_component(start.g, end.g, e, d),
        b: lerp_component(start.b, end.b, e, d),
        a: lerp_component(start.a, end.a, e, d),
    }
}

proof fn lemma_linear_component(s: int, t: int, n: int, d: int)
    requires
        0 <= n <= d,
        0 < d,
    ensures
        -d < d * lerp_spec(s, t, n, d) - (d * s + (t - s) * n) < d,
{
    let w = if s <= t { t - s } else { s - t };
    lemma_fundamental_div_mod(w * n, d);
    let q = (w * n) / d;
    assert(d * q <= w * n < d * q + d) by (nonlinear_arith)
        requires
            w * n == d * q + (w * n) % d,
            0 <= (w * n) % d < d,
    {
        vstd::arithmetic::div_mod::lemma_mod_bound(w * n, d);
    }
    if s <= t {
        assert(d * (s + q) == d * s + d * q) by (nonlinear_arith);
    } else {
        assert(d * (s - q) == d * s - d * q) by (nonlinear_arith);
        assert((t - s) * n == -(w * n)) by (nonlinear_arith)
            requires
                w == s - t,
        ;
    }
}

/// Interpolation fixes both ends under every curve, and under the linear
/// curve each component lies within one unit of `start + t * (end - start)`
/// for `t = n / d`.
pub proof fn lemma_interpolate_laws(start: Rgba, end: Rgba, easing: Easing, n: int, d: int)
    requires
        0 <= n <= d,
        0 < d,
    ensures
        interpolate_spec(start, end, easing, 0, d) == start,
        interpolate_spec(start, end, easing, d, d) == end,
        ({
            let r = interpolate_spec(start, end, Easing::Linear, n, d);
            &&& -d < d * r.r - (d * start.r + (end.r - start.r) * n) < d
            &&& -d < d * r.g - (d * start.g + (end.g - start.g) * n) < d
            &&& -d < d * r.b - (d * start.b + (end.b - start.b) * n) < d
            &&& -d < d * r.a - (d * start.a + (end.a - start.a) * n) < d
        }),
{
    lemma_ease_bounds(easing, n, d);
    lemma_lerp_bounds(start.r as int, end.r as int, n, d);
    lemma_lerp_bounds(start.g as int, end.g as int, n, d);
    lemma_lerp_bounds(start.b as int, end.b as int, n, d);
    lemma_lerp_bounds(start.a as int, end.a as int, n, d);
    lemma_lerp_bounds(start.r as int, end.r as int, 0, d);
    lemma_lerp_bounds(start.g as int, end.g as int, 0, d);
    lemma_lerp_bounds(start.b as int, end.b as int, 0, d);
    lemma_lerp_bounds(start.a as int, end.a as int, 0, d);
    lemma_lerp_bounds(start.r as int, end.r as int, d, d);
    lemma_lerp_bounds(start.g as int, end.g as int, d, d);
    lemma_lerp_bounds(start.b as int, end.b as int, d, d);
    lemma_lerp_bounds(start.a as int, end.a as int, d, d);
    lemma_linear_component(start.r as int, end.r as int, n, d);
    lemma_linear_component(start.g as int, end.g as int, n, d);
    lemma_linear_component(start.b as int, end.b as int, n, d);
    lemma_linear_component(start.a as int, end.a as int, n, d);
}

} // verus!
