use tune_mill::color::{Easing, Rgba, MAX_SEGMENT_MS};
use tune_mill::player::{Completion, Player};
use tune_mill::splash::{
    color, create_background_color_tween, create_text_color_tween, splash_text_timeline,
    splash_timer_to, Swatch,
};
use tune_mill::timeline::{Progress, Segment, Timeline, TimelineError, MAX_TIMELINE_MS};

fn rgba(r: u8, g: u8, b: u8, a: u8) -> Rgba {
    Rgba { r, g, b, a }
}

fn tween(ms: u64, easing: Easing, start: Rgba, end: Rgba) -> Segment {
    Segment::Tween { duration_ms: ms, easing, start, end }
}

#[test]
fn build_accepts_zero_delays() {
    let t = Timeline::build(vec![Segment::Delay { duration_ms: 0 }], 1, None).unwrap();
    assert_eq!(t.total_ms, 0);
    assert_eq!(t.end(), 0);
}

#[test]
fn build_rejects_a_tween_without_duration() {
    let w = rgba(1, 2, 3, 4);
    let r = Timeline::build(vec![tween(0, Easing::Linear, w, w)], 1, None);
    assert_eq!(r.unwrap_err(), TimelineError::InvalidTimeline);
}

#[test]
fn build_rejects_zero_repeats() {
    let r = Timeline::build(vec![Segment::Delay { duration_ms: 10 }], 0, None);
    assert_eq!(r.unwrap_err(), TimelineError::InvalidTimeline);
}

#[test]
fn build_rejects_overlong_segments_and_timelines() {
    let r = Timeline::build(vec![Segment::Delay { duration_ms: MAX_SEGMENT_MS + 1 }], 1, None);
    assert!(r.is_err());
    let r = Timeline::build(vec![Segment::Delay { duration_ms: MAX_SEGMENT_MS }], 1, None);
    assert!(r.is_ok());
    let reps = MAX_TIMELINE_MS / MAX_SEGMENT_MS;
    let r = Timeline::build(vec![Segment::Delay { duration_ms: MAX_SEGMENT_MS }], reps, None);
    assert!(r.is_ok());
    let r = Timeline::build(vec![Segment::Delay { duration_ms: MAX_SEGMENT_MS }], reps + 1, None);
    assert!(r.is_err());
}

#[test]
fn total_is_the_sum_of_durations() {
    let w = rgba(9, 9, 9, 9);
    let t = Timeline::build(
        vec![Segment::Delay { duration_ms: 500 }, tween(250, Easing::CubicIn, w, w)],
        3,
        Some(7),
    )
    .unwrap();
    assert_eq!(t.total_ms, 750);
    assert_eq!(t.end(), 2250);
    assert_eq!(t.prefix_at(1), 500);
    assert_eq!(t.locate(499), 0);
    assert_eq!(t.locate(500), 1);
    assert_eq!(t.payload, Some(7));
}

#[test]
fn values_along_a_timeline() {
    let a = rgba(0, 0, 0, 0);
    let b = rgba(100, 100, 100, 100);
    let t = Timeline::build(
        vec![
            Segment::Delay { duration_ms: 100 },
            tween(100, Easing::Linear, a, b),
            Segment::Delay { duration_ms: 100 },
        ],
        2,
        None,
    )
    .unwrap();
    assert_eq!(t.value_at(50), None);
    assert_eq!(t.value_at(150), Some(rgba(50, 50, 50, 50)));
    assert_eq!(t.value_at(250), Some(b));
    assert_eq!(t.value_at(350), None);
    assert_eq!(t.value_at(450), Some(rgba(50, 50, 50, 50)));
    assert_eq!(t.value_at(600), Some(b));
    assert_eq!(t.value_at(10_000), Some(b));
}

#[test]
fn tween_builders() {
    let from = color(Swatch::Black);
    let to = color(Swatch::White);
    let expected = tween(2000, Easing::CubicInOut, from, to);
    assert_eq!(create_text_color_tween(from, to), expected);
    assert_eq!(create_background_color_tween(from, to), expected);
}

#[test]
fn splash_timelines() {
    let t = splash_text_timeline(color(Swatch::Black), color(Swatch::White));
    assert_eq!(t.total_ms, 8000);
    assert_eq!(t.payload, None);
    assert_eq!(t.value_at(1000), None);
    assert_eq!(t.value_at(5000), Some(color(Swatch::White)));
    assert_eq!(t.value_at(8000), Some(color(Swatch::Black)));
    let timer = splash_timer_to(1);
    assert_eq!(timer.total_ms, 4000);
    assert_eq!(timer.payload, Some(1));
}

#[test]
fn repeated_timeline_completes_once_at_the_end() {
    let a = rgba(0, 0, 0, 0);
    let b = rgba(200, 200, 200, 200);
    let t = Timeline::build(vec![tween(1000, Easing::Linear, a, b)], 3, Some(5)).unwrap();
    let mut player = Player::new();
    let h = player.play(0, t).unwrap();
    let mut targets = vec![Some(a)];
    assert!(player.tick(2999, &mut targets).is_empty());
    assert_eq!(player.entries.len(), 1);
    let evs = player.tick(1, &mut targets);
    assert_eq!(evs, vec![Completion { handle: h, payload: Some(5) }]);
    assert_eq!(targets[0], Some(b));
    assert!(player.entries.is_empty());
    assert!(player.tick(5000, &mut targets).is_empty());
}

#[test]
fn one_tick_of_the_whole_span_completes_once() {
    let t = Timeline::build(vec![Segment::Delay { duration_ms: 400 }], 4, Some(2)).unwrap();
    let mut player = Player::new();
    let h = player.play(0, t).unwrap();
    let mut targets = vec![Some(rgba(1, 1, 1, 1))];
    let evs = player.tick(1600, &mut targets);
    assert_eq!(evs, vec![Completion { handle: h, payload: Some(2) }]);
    assert!(player.tick(1600, &mut targets).is_empty());
}

#[test]
fn cancelled_handle_never_completes() {
    let t = Timeline::build(vec![Segment::Delay { duration_ms: 100 }], 1, Some(1)).unwrap();
    let u = Timeline::build(vec![Segment::Delay { duration_ms: 100 }], 1, Some(2)).unwrap();
    let mut player = Player::new();
    let h = player.play(0, t).unwrap();
    let k = player.play(0, u).unwrap();
    let mut targets = vec![Some(rgba(1, 1, 1, 1))];
    assert!(player.tick(50, &mut targets).is_empty());
    assert!(player.cancel(h));
    assert!(!player.cancel(h));
    let evs = player.tick(500, &mut targets);
    assert_eq!(evs, vec![Completion { handle: k, payload: Some(2) }]);
    assert!(player.tick(500, &mut targets).is_empty());
}

#[test]
fn unresolved_target_is_dropped_silently() {
    let t = Timeline::build(vec![Segment::Delay { duration_ms: 100 }], 1, Some(1)).unwrap();
    let u = Timeline::build(vec![Segment::Delay { duration_ms: 100 }], 1, Some(1)).unwrap();
    let mut player = Player::new();
    player.play(0, t).unwrap();
    player.play(5, u).unwrap();
    let mut targets = vec![None];
    assert!(player.tick(1000, &mut targets).is_empty());
    assert!(player.entries.is_empty());
    assert_eq!(player.unresolved, 2);
    assert_eq!(targets, vec![None]);
}

#[test]
fn events_come_in_insertion_order() {
    let mut player = Player::new();
    for p in [3u64, 1, 2] {
        let t = Timeline::build(vec![Segment::Delay { duration_ms: 10 }], 1, Some(p)).unwrap();
        player.play(0, t).unwrap();
    }
    let mut targets = vec![Some(rgba(0, 0, 0, 0))];
    let evs = player.tick(10, &mut targets);
    let payloads: Vec<Option<u64>> = evs.iter().map(|c| c.payload).collect();
    assert_eq!(payloads, vec![Some(3), Some(1), Some(2)]);
    let handles: Vec<u64> = evs.iter().map(|c| c.handle).collect();
    assert_eq!(handles, vec![0, 1, 2]);
}

#[test]
fn later_entries_overwrite_a_shared_target() {
    let a = rgba(10, 10, 10, 10);
    let b = rgba(20, 20, 20, 20);
    let mut player = Player::new();
    player.play(0, Timeline::build(vec![tween(100, Easing::Linear, a, a)], 1, None).unwrap()).unwrap();
    player.play(0, Timeline::build(vec![tween(100, Easing::Linear, b, b)], 1, None).unwrap()).unwrap();
    let mut targets = vec![Some(rgba(0, 0, 0, 0))];
    player.tick(10, &mut targets);
    assert_eq!(targets[0], Some(b));
}

#[test]
fn advance_reports_segment_and_local_time() {
    let w = rgba(5, 5, 5, 5);
    let t = Timeline::build(
        vec![Segment::Delay { duration_ms: 500 }, tween(250, Easing::Linear, w, w)],
        2,
        None,
    )
    .unwrap();
    assert_eq!(
        t.advance(0, 600),
        Progress { elapsed: 600, segment: 1, local_ms: 100, complete: false }
    );
    assert_eq!(
        t.advance(600, 300),
        Progress { elapsed: 900, segment: 0, local_ms: 150, complete: false }
    );
    assert_eq!(
        t.advance(900, 10_000),
        Progress { elapsed: 1500, segment: 1, local_ms: 250, complete: true }
    );
    let empty = Timeline::build(vec![], 1, None).unwrap();
    assert_eq!(
        empty.advance(0, 0),
        Progress { elapsed: 0, segment: 0, local_ms: 0, complete: true }
    );
}
