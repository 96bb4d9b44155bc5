use tune_mill::color::{Easing, Rgba};
use tune_mill::device::{get_handle_rotation, DeviceInfo};
use tune_mill::engine::{show_splash, App};
use tune_mill::player::{Completion, Player};
use tune_mill::splash::{color, Swatch};
use tune_mill::state::{change_state_to, AppState, StateError};
use tune_mill::timeline::{Segment, Timeline};

const MAIN: usize = 0;
const SUB: usize = 1;
const EXTRA: usize = 2;

fn targets() -> Vec<Option<Rgba>> {
    vec![Some(color(Swatch::Black)), Some(color(Swatch::Black)), Some(color(Swatch::White))]
}

#[test]
fn ordinals_round_trip() {
    let all = [
        AppState::Splash,
        AppState::Home,
        AppState::StepSequencer,
        AppState::EditTrack,
        AppState::EditPitch,
        AppState::ModeExecution,
        AppState::Generator,
    ];
    for (i, s) in all.iter().enumerate() {
        assert_eq!(s.ordinal(), i as u64);
        assert_eq!(AppState::from_ordinal(i as u64), Some(*s));
    }
    assert_eq!(AppState::from_ordinal(7), None);
    assert_eq!(AppState::from_ordinal(999), None);
}

#[test]
fn change_state_outcomes() {
    assert_eq!(change_state_to(AppState::Splash, Some(AppState::Home)), Ok(AppState::Home));
    assert_eq!(
        change_state_to(AppState::Home, Some(AppState::Home)),
        Err(StateError::RedundantStateRequest)
    );
    assert_eq!(change_state_to(AppState::Home, None), Err(StateError::InvalidStateRequest));
}

#[test]
fn redundant_request_changes_nothing() {
    let mut app = App::new(MAIN, SUB, [false; 7]);
    assert_eq!(app.request(Some(AppState::Home)), Ok(AppState::Home));
    let runs = app.entries_run;
    let live = app.player.entries.len();
    assert_eq!(app.request(Some(AppState::Home)), Err(StateError::RedundantStateRequest));
    assert_eq!(app.state, AppState::Home);
    assert_eq!(app.entries_run, runs);
    assert_eq!(app.player.entries.len(), live);
    assert_eq!(app.redundant, 1);
    assert_eq!(app.invalid, 0);
}

#[test]
fn out_of_range_ordinal_is_invalid() {
    let mut app = App::new(MAIN, SUB, [true; 7]);
    assert_eq!(app.request_ordinal(999), Err(StateError::InvalidStateRequest));
    assert_eq!(app.state, AppState::Splash);
    assert_eq!(app.invalid, 1);
    assert_eq!(app.entries_run, 1);
    assert_eq!(app.player.entries.len(), 3);
}

#[test]
fn leaving_splash_with_cancel_drops_its_timelines() {
    let mut app = App::new(MAIN, SUB, [true; 7]);
    assert_eq!(app.owned.len(), 3);
    assert_eq!(app.request_ordinal(1), Ok(AppState::Home));
    assert_eq!(app.state, AppState::Home);
    assert_eq!(app.entries_run, 2);
    assert!(app.player.entries.is_empty());
    assert!(app.owned.is_empty());
    let mut t = targets();
    assert!(app.tick(10_000, &mut t).is_empty());
    assert_eq!(t, targets());
    assert_eq!(app.state, AppState::Home);
    assert_eq!(app.entries_run, 2);
}

#[test]
fn leaving_splash_without_cancel_keeps_its_timelines() {
    let mut app = App::new(MAIN, SUB, [false; 7]);
    assert_eq!(app.request(Some(AppState::Home)), Ok(AppState::Home));
    assert_eq!(app.entries_run, 2);
    assert_eq!(app.player.entries.len(), 3);
    let mut t = targets();
    app.tick(3000, &mut t);
    assert_ne!(t[MAIN], Some(color(Swatch::Black)));
    let evs = app.tick(1000, &mut t);
    assert_eq!(evs, vec![Completion { handle: 2, payload: Some(1) }]);
    assert_eq!(app.redundant, 1);
    assert_eq!(app.state, AppState::Home);
    assert_eq!(app.entries_run, 2);
    app.tick(4000, &mut t);
    assert_eq!(t[MAIN], Some(color(Swatch::Black)));
    assert!(app.player.entries.is_empty());
}

#[test]
fn splash_hands_over_to_home_after_its_hold() {
    let mut app = App::new(MAIN, SUB, [false; 7]);
    let mut t = targets();
    assert!(app.tick(3999, &mut t).is_empty());
    assert_eq!(app.state, AppState::Splash);
    let evs = app.tick(1, &mut t);
    assert_eq!(evs.len(), 1);
    assert_eq!(app.state, AppState::Home);
    assert_eq!(app.entries_run, 2);
    assert_eq!(t[MAIN], Some(color(Swatch::White)));
    assert_eq!(t[SUB], Some(color(Swatch::LightGrey)));
}

#[test]
fn show_splash_arms_three_timelines() {
    let mut player = Player::new();
    let handles = show_splash(&mut player, MAIN, SUB);
    assert_eq!(handles, vec![0, 1, 2]);
    assert_eq!(player.entries.len(), 3);
    assert_eq!(player.entries[1].target, SUB);
    assert_eq!(player.entries[2].timeline.payload, Some(AppState::Home.ordinal()));
}

#[test]
fn fade_scenario_ends_in_home() {
    let white = color(Swatch::White);
    let null_white = Rgba { a: 0, ..white };
    let timeline = Timeline::build(
        vec![
            Segment::Delay { duration_ms: 500 },
            Segment::Tween { duration_ms: 250, easing: Easing::CubicIn, start: white, end: null_white },
            Segment::Delay { duration_ms: 2000 },
            Segment::Tween { duration_ms: 250, easing: Easing::CubicOut, start: null_white, end: white },
        ],
        1,
        Some(AppState::Home.ordinal()),
    )
    .unwrap();
    let mut app = App::new(MAIN, SUB, [false; 7]);
    let h = app.player.play(EXTRA, timeline).unwrap();
    let mut t = targets();
    let mut completions = Vec::new();
    for tick in 1..=30u64 {
        let evs = app.tick(100, &mut t);
        let elapsed = tick * 100;
        let v = t[EXTRA].unwrap();
        if elapsed <= 500 {
            assert_eq!(v, white);
        } else if elapsed < 750 {
            assert!(v.a < white.a && v.a > 0);
            assert_eq!((v.r, v.g, v.b), (white.r, white.g, white.b));
        } else if elapsed <= 2750 {
            assert_eq!(v, null_white);
        } else if elapsed < 3000 {
            assert!(v.a > 0 && v.a < white.a);
        } else {
            assert_eq!(v, white);
        }
        for e in evs {
            if e.handle == h {
                completions.push(elapsed);
            }
        }
        if elapsed < 3000 {
            assert_eq!(app.state, AppState::Splash);
        }
    }
    assert_eq!(completions, vec![3000]);
    assert_eq!(app.state, AppState::Home);
}

#[test]
fn rotation_is_normalized() {
    let mut d = DeviceInfo::default();
    assert_eq!(d.rotation_degrees, 0);
    d.set_rotation_degrees(370);
    assert_eq!(d.rotation_degrees, 10);
    d.set_rotation_degrees(-30);
    assert_eq!(d.rotation_degrees, 330);
    d.set_rotation_degrees(360);
    assert_eq!(d.rotation_degrees, 360);
    d.set_rotation_degrees(720);
    assert_eq!(d.rotation_degrees, 0);
}

#[test]
fn wheel_turns_the_handle() {
    let mut d = DeviceInfo::default();
    d.set_rotation_degrees(350);
    get_handle_rotation(&mut d, 2);
    assert_eq!(d.rotation_degrees, 20);
    get_handle_rotation(&mut d, -3);
    assert_eq!(d.rotation_degrees, 335);
}
