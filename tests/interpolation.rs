use tune_mill::color::{ease, interpolate, Easing, Rgba, MAX_SEGMENT_MS};
use tune_mill::splash::{color, Swatch};

fn rgba(r: u8, g: u8, b: u8, a: u8) -> Rgba {
    Rgba { r, g, b, a }
}

#[test]
fn linear_interpolation_is_componentwise() {
    let start = rgba(0, 0, 0, 0);
    let end = rgba(200, 100, 50, 255);
    assert_eq!(interpolate(start, end, Easing::Linear, 1, 4), rgba(50, 25, 12, 63));
    assert_eq!(interpolate(start, end, Easing::Linear, 2, 4), rgba(100, 50, 25, 127));
}

#[test]
fn linear_interpolation_downwards_rounds_towards_start() {
    let start = rgba(200, 100, 50, 255);
    let end = rgba(0, 0, 0, 0);
    assert_eq!(interpolate(start, end, Easing::Linear, 1, 4), rgba(150, 75, 38, 192));
}

#[test]
fn every_curve_fixes_both_ends() {
    let start = color(Swatch::White);
    let end = color(Swatch::Blue);
    for e in [Easing::Linear, Easing::CubicIn, Easing::CubicOut, Easing::CubicInOut] {
        assert_eq!(interpolate(start, end, e, 0, 250), start);
        assert_eq!(interpolate(start, end, e, 250, 250), end);
    }
}

#[test]
fn progress_past_the_end_is_clamped() {
    let start = rgba(10, 20, 30, 40);
    let end = rgba(110, 120, 130, 140);
    assert_eq!(interpolate(start, end, Easing::CubicInOut, 9000, 250), end);
}

#[test]
fn curve_values() {
    assert_eq!(ease(Easing::Linear, 300, 1000), 300);
    assert_eq!(ease(Easing::CubicIn, 500, 1000), 125);
    assert_eq!(ease(Easing::CubicOut, 500, 1000), 875);
    assert_eq!(ease(Easing::CubicInOut, 250, 1000), 62);
    assert_eq!(ease(Easing::CubicInOut, 750, 1000), 938);
    assert_eq!(ease(Easing::CubicInOut, 500, 1000), 500);
}

#[test]
fn curves_at_the_longest_segment() {
    let d = MAX_SEGMENT_MS;
    assert_eq!(ease(Easing::CubicIn, d, d), d);
    assert_eq!(ease(Easing::CubicOut, 0, d), 0);
    assert_eq!(ease(Easing::CubicIn, d / 2, d), d / 8);
}

#[test]
fn palette_values() {
    assert_eq!(color(Swatch::White), rgba(0xF2, 0xF2, 0xF7, 0xFF));
    assert_eq!(color(Swatch::LightGrey), rgba(0x8E, 0x8E, 0x93, 0xFF));
    assert_eq!(color(Swatch::Grey), rgba(0x3A, 0x3A, 0x3C, 0xFF));
    assert_eq!(color(Swatch::Black), rgba(0x1C, 0x1C, 0x1E, 0xFF));
    assert_eq!(color(Swatch::NullBlack), rgba(0x1C, 0x1C, 0x1E, 0x00));
    assert_eq!(color(Swatch::Blue), rgba(0x0A, 0x84, 0x93, 0xFF));
}
