use crate::color::{Easing, Rgba};
use crate::timeline::{prefix, seg_ok, total_of, valid_timeline, Segment, Timeline};
use vstd::prelude::*;

verus! {

/// Length of each step of the splash sequence, in milliseconds.
pub const SPLASH_STEP_MS: u64 = 2000;

/// Time after which the splash screen hands over to the home screen.
pub const SPLASH_HOLD_MS: u64 = 4000;

/// The colours of the device's palette.
#[derive(Clone, Copy, Debug, PartialEq, Eq, Structural)]
pub enum Swatch {
    White,
    LightGrey,
    Grey,
    Black,
    NullBlack,
    Blue,
}

pub open spec fn swatch_spec(s: Swatch) -> Rgba {
    match s {
        Swatch::White => Rgba { r: 0xF2, g: 0xF2, b: 0xF7, a: 0xFF },
        Swatch::LightGrey => Rgba { r: 0x8E, g: 0x8E, b: 0x93, a: 0xFF },
        Swatch::Grey => Rgba { r: 0x3A, g: 0x3A, b: 0x3C, a: 0xFF },
        Swatch::Black => Rgba { r: 0x1C, g: 0x1C, b: 0x1E, a: 0xFF },
        Swatch::NullBlack => Rgba { r: 0x1C, g: 0x1C, b: 0x1E, a: 0x00 },
        Swatch::Blue => Rgba { r: 0x0A, g: 0x84, b: 0x93, a: 0xFF },
    }
}

/// The colour of a palette entry.
pub fn color(s: Swatch) -> (r: Rgba)
    ensures
        r == swatch_spec(s),
{
    match s {
        Swatch::White => Rgba { r: 0xF2, g: 0xF2, b: 0xF7, a: 0xFF },
        Swatch::LightGrey => Rgba { r: 0x8E, g: 0x8E, b: 0x93, a: 0xFF },
        Swatch::Grey => Rgba { r: 0x3A, g: 0x3A, b: 0x3C, a: 0xFF },
        Swatch::Black => Rgba { r: 0x1C, g: 0x1C, b: 0x1E, a: 0xFF },
        Swatch::NullBlack => Rgba { r: 0x1C, g: 0x1C, b: 0x1E, a: 0x00 },
        Swatch::Blue => Rgba { r: 0x0A, g: 0x84, b: 0x93, a: 0xFF },
    }
}

pub open spec fn fade_spec(from: Rgba, to: Rgba) -> Segment {
    Segment::Tween { duration_ms: SPLASH_STEP_MS, easing: Easing::CubicInOut, start: from, end: to }
}

/// A text colour fade from `from` to `color` over one splash step.
pub fn create_text_color_tween(from: Rgba, color: Rgba) -> (r: Segment)
    ensures
        r == fade_spec(from, color),
{
    Segment::Tween { duration_ms: SPLASH_STEP_MS, easing: Easing::CubicInOut, start: from, end: color }
}

/// A background colour fade from `from` to `color` over one splash step.
pub fn create_background_color_tween(from: Rgba, color: Rgba) -> (r: Segment)
    ensures
        r == fade_spec(from, color),
{
    Segment::Tween { duration_ms: SPLASH_STEP_MS, easing: Easing::CubicInOut, start: from, end: color }
}

/// Wait a step, fade `rest` to `shown`, wait a step, fade back.
pub open spec fn flash_segments(rest: Rgba, shown: Rgba) -> Seq<Segment> {
    seq![
        Segment::Delay { duration_ms: SPLASH_STEP_MS },
        fade_spec(rest, shown),
        Segment::Delay { duration_ms: SPLASH_STEP_MS },
        fade_spec(shown, rest),
    ]
}

/// The splash animation of one text: it shows `shown` for a while on a
/// background of `rest`, then fades back.
pub fn splash_text_timeline(rest: Rgba, shown: Rgba) -> (r: Timeline)
    ensures
        r.wf(),
        r.segs() == flash_segments(rest, shown),
        r.repeat == 1,
        r.payload is None,
        r.total_ms == 4 * SPLASH_STEP_MS,
{
    let segs = vec![
        Segment::Delay { duration_ms: SPLASH_STEP_MS },
        create_text_color_tween(rest, shown),
        Segment::Delay { duration_ms: SPLASH_STEP_MS },
        create_text_color_tween(shown, rest),
    ];
    let ghost s = segs@;
    assert(s =~= flash_segments(rest, shown));
    assert(prefix(s, 0) == 0);
    assert(prefix(s, 1) == 2000);
    assert(prefix(s, 2) == 4000);
    assert(prefix(s, 3) == 6000);
    assert(prefix(s, 4) == 8000);
    assert(total_of(s) == 8000);
    assert forall|i: int| 0 <= i < s.len() implies seg_ok(#[trigger] s[i]) by {}
    assert(valid_timeline(s, 1));
    Timeline::build(segs, 1, None).unwrap()
}

/// Holds for `SPLASH_HOLD_MS`, then completes with `payload`.
pub fn splash_timer_to(payload: u64) -> (r: Timeline)
    ensures
        r.wf(),
        r.segs() == seq![Segment::Delay { duration_ms: SPLASH_HOLD_MS }],
        r.repeat == 1,
        r.payload == Some(payload),
        r.total_ms == SPLASH_HOLD_MS,
{
    let segs = vec![Segment::Delay { duration_ms: SPLASH_HOLD_MS }];
    let ghost s = segs@;
    assert(s =~= seq![Segment::Delay { duration_ms: SPLASH_HOLD_MS }]);
    assert(prefix(s, 0) == 0);
    assert(prefix(s, 1) == 4000);
    assert(total_of(s) == 4000);
    assert forall|i: int| 0 <= i < s.len() implies seg_ok(#[trigger] s[i]) by {}
    assert(valid_timeline(s, 1));
    Timeline::build(segs, 1, Some(payload)).unwrap()
}

} // verus!
