use nekopet::config::Config;
use nekopet::pet::{elapsed_ms, shows_pupils, Animations, FrameInput, Pet};
use nekopet::sheet::Frames;
use nekopet::state::State;

fn quiet(time: u32) -> FrameInput {
    FrameInput {
        time,
        key_pressed: false,
        secs_since_stretch: 0,
        secs_since_bounce: 0,
        secs_since_lean: 0,
        typing_deadline_passed: true,
    }
}

fn pet() -> Pet {
    let mut p = Pet::new(&Config::default(), 3, 5, 2);
    p.on_configure(1920, 1080);
    p
}

#[test]
fn new_pet_starts_idle_at_display_size() {
    let p = Pet::new(&Config::default(), 3, 5, 2);
    assert_eq!(p.state, State::Idle);
    assert_eq!(p.disp_w, 96);
    assert_eq!(p.disp_h, 96);
    assert_eq!(p.width, 96);
    assert_eq!(p.body_l, 9);
    assert_eq!(p.body_r, 30);
    assert!(p.corner_right && !p.corner_top);
    assert_eq!(p.stretch_transition_ms, 500);
}

#[test]
fn first_configure_places_the_pet_in_its_corner() {
    let mut p = Pet::new(&Config::default(), 3, 5, 2);
    let load = p.on_configure(1920, 1080);
    assert!(load);
    assert_eq!((p.pos_x, p.pos_y), (1920 - 96 - 16, 1080 - 96 - 16));
    // a second configure keeps the place
    p.pos_x = 5;
    assert!(p.on_configure(800, 600));
    assert_eq!(p.pos_x, 5);
    assert_eq!((p.width, p.height), (800, 600));
    // a zero side keeps the known one
    p.on_configure(0, 700);
    assert_eq!((p.width, p.height), (800, 700));
}

#[test]
fn top_left_corner() {
    let mut cfg = Config::default();
    cfg.corner = "top-left".to_string();
    let mut p = Pet::new(&cfg, 1, 1, 1);
    p.on_configure(500, 400);
    assert_eq!((p.pos_x, p.pos_y), (16, 16));
}

#[test]
fn no_placement_while_the_screen_is_too_short() {
    let mut p = Pet::new(&Config::default(), 1, 1, 1);
    p.on_configure(500, 96);
    assert!(!p.pos_initialized);
    p.on_configure(0, 97);
    assert!(p.pos_initialized);
    assert_eq!(p.pos_y, 0);
}

#[test]
fn idle_frames_advance_every_anim_interval() {
    let mut p = pet();
    p.on_frame(&quiet(1000));
    assert_eq!(p.last_anim_ms, 1000);
    p.on_frame(&quiet(1100));
    assert_eq!(p.frame_idx, 0);
    p.on_frame(&quiet(1120));
    assert_eq!(p.frame_idx, 1);
    p.on_frame(&quiet(1240));
    p.on_frame(&quiet(1360));
    p.on_frame(&quiet(1480));
    assert_eq!(p.frame_idx, 0);
}

#[test]
fn idle_spell_restarts_after_its_duration() {
    let mut p = pet();
    p.on_frame(&quiet(1000));
    p.on_frame(&quiet(1120));
    assert_eq!(p.frame_idx, 1);
    // duration at time 4100 is 3000 + 100; 3100 ms have passed since 1000
    p.on_frame(&quiet(4100));
    assert_eq!(p.state_start_ms, 4100);
    assert_eq!(p.frame_idx, 0);
}

#[test]
fn key_press_starts_typing_and_steps_frames() {
    let mut p = pet();
    p.on_frame(&quiet(1000));
    let mut input = quiet(1010);
    input.key_pressed = true;
    let out = p.on_frame(&input);
    assert!(out.restart_typing_deadline);
    assert_eq!(p.state, State::Typing);
    assert_eq!(p.frame_idx, 0);
    input.time = 1020;
    p.on_frame(&input);
    assert_eq!(p.frame_idx, 1);
    // typing frames do not advance with time
    let mut q = quiet(5000);
    q.typing_deadline_passed = false;
    p.on_frame(&q);
    assert_eq!((p.state, p.frame_idx), (State::Typing, 1));
    p.on_frame(&quiet(5001));
    assert_eq!(p.state, State::Idle);
}

#[test]
fn drag_follows_the_pointer_within_the_screen() {
    let mut p = pet();
    p.pos_x = 100;
    p.pos_y = 100;
    p.on_press();
    assert_eq!((p.state, p.frame_idx, p.dragging), (State::Drag, 1, true));
    p.on_motion(50, -20);
    assert_eq!((p.pos_x, p.pos_y), (150, 80));
    p.on_motion(-1000, -1000);
    assert_eq!((p.pos_x, p.pos_y), (-9, 0));
    p.on_motion(5000, 5000);
    assert_eq!((p.pos_x, p.pos_y), (1920 - 96 + 30, 1080 - 96));
    p.on_release();
    assert_eq!((p.state, p.frame_idx, p.dragging), (State::Idle, 0, false));
    // motion without a drag moves nothing
    p.on_motion(1, 1);
    assert_eq!((p.pos_x, p.pos_y), (1920 - 96 + 30, 1080 - 96));
}

#[test]
fn bounce_plays_once() {
    let mut p = pet();
    p.on_frame(&quiet(1000));
    let mut input = quiet(1010);
    input.secs_since_bounce = 60;
    let out = p.on_frame(&input);
    assert!(out.restart_bounce_timer);
    assert!(!out.restart_lean_timer);
    assert_eq!(p.state, State::Bounce);
    let mut t = 1010;
    for expected in 1..5 {
        t += 120;
        p.on_frame(&quiet(t));
        assert_eq!(p.frame_idx, expected);
    }
    t += 120;
    p.on_frame(&quiet(t));
    assert_eq!((p.state, p.frame_idx), (State::Idle, 0));
}

#[test]
fn lean_when_no_bounce_is_due() {
    let mut p = pet();
    p.on_frame(&quiet(1000));
    let mut input = quiet(1010);
    input.secs_since_lean = 45;
    let out = p.on_frame(&input);
    assert!(out.restart_lean_timer);
    assert_eq!(p.state, State::Lean);
}

#[test]
fn stretch_zooms_in_holds_and_zooms_out() {
    let mut p = pet();
    p.on_frame(&quiet(1000));
    // no stretch before its frames are known
    let mut input = quiet(1010);
    input.secs_since_stretch = 1800;
    assert!(!p.on_frame(&input).restart_stretch_timer);
    p.stretch_frames_loaded(2);
    let out = p.on_frame(&input);
    assert!(out.restart_stretch_timer);
    assert_eq!(p.state, State::Stretch);
    assert_eq!(p.stretch_transition_ms, 0);
    assert_eq!(p.stretch_frame(), 0);
    p.on_frame(&quiet(1260));
    assert_eq!(p.stretch_transition_ms, 250);
    p.on_frame(&quiet(1420));
    assert_eq!(p.stretch_transition_ms, 410);
    assert_eq!(p.frame_idx, 1);
    p.on_frame(&quiet(1520));
    assert_eq!(p.stretch_transition_ms, 500);
    assert_eq!(p.stretch_frame(), 1);
    // last frame: the hold starts at the next step
    p.on_frame(&quiet(1820));
    assert_eq!(p.stretch_hold_start, Some(1820));
    assert_eq!(p.frame_idx, 1);
    p.on_frame(&quiet(3320));
    assert!(p.stretch_zooming_out);
    assert_eq!(p.frame_idx, 1);
    p.on_frame(&quiet(3570));
    assert_eq!(p.stretch_out_ms, 250);
    assert_eq!(p.input_region(), None);
    p.on_frame(&quiet(3820));
    assert_eq!((p.state, p.frame_idx, p.stretch_zooming_out), (State::Idle, 0, false));
}

#[test]
fn stretch_disabled_by_zero_period() {
    let mut cfg = Config::default();
    cfg.stretch_every_secs = 0;
    let mut p = Pet::new(&cfg, 2, 2, 2);
    assert!(!p.on_configure(800, 600));
    p.on_frame(&quiet(10));
    let mut input = quiet(20);
    input.secs_since_stretch = u64::MAX;
    p.on_frame(&input);
    assert_ne!(p.state, State::Stretch);
}

#[test]
fn input_region_follows_the_body() {
    let mut p = pet();
    p.pos_x = 100;
    p.pos_y = 200;
    assert_eq!(p.input_region(), Some((109, 203, 96 - 9 - 30, 93)));
    p.pos_x = 1900;
    p.pos_y = 1050;
    assert_eq!(p.input_region(), Some((1909, 1053, 11, 27)));
    p.on_press();
    assert_eq!(p.input_region(), Some((0, 0, 1920, 1080)));
}

#[test]
fn clock_wraps() {
    assert_eq!(elapsed_ms(5, u32::MAX - 4), 10);
    assert_eq!(elapsed_ms(10, 4), 6);
}

#[test]
fn pupils_follow_in_some_states() {
    assert!(shows_pupils(State::Idle));
    assert!(shows_pupils(State::Drag));
    assert!(shows_pupils(State::Bounce));
    assert!(shows_pupils(State::Lean));
    assert!(!shows_pupils(State::Typing));
    assert!(!shows_pupils(State::Stretch));
}

#[test]
fn animations_hand_out_existing_frames() {
    let f = |n: usize| Frames { right: (0..n).map(|i| vec![i as u8; 4]).collect() };
    let a = Animations { idle: f(4), typing: f(4), drag: f(2), bounce: f(3), lean: f(1), stretch: f(0) };
    assert_eq!(a.frame(State::Drag, 1), Some(&vec![1u8; 4]));
    assert_eq!(a.frame(State::Lean, 1), None);
    assert_eq!(a.frame(State::Stretch, 0), None);
    assert_eq!(a.frame(State::Typing, 3), Some(&vec![3u8; 4]));
}

#[test]
fn bounce_and_lean_disabled_by_zero_period() {
    let mut cfg = Config::default();
    cfg.bounce_every_secs = 0;
    cfg.lean_every_secs = 0;
    let mut p = Pet::new(&cfg, 2, 2, 2);
    p.on_configure(800, 600);
    p.on_frame(&quiet(10));
    let mut input = quiet(20);
    input.secs_since_bounce = u64::MAX;
    input.secs_since_lean = u64::MAX;
    let out = p.on_frame(&input);
    assert!(!out.restart_bounce_timer && !out.restart_lean_timer);
    assert_eq!(p.state, State::Idle);
}

#[test]
fn key_press_while_dragged_keeps_the_drag() {
    let mut p = pet();
    p.on_frame(&quiet(1000));
    p.on_press();
    let mut input = quiet(1010);
    input.key_pressed = true;
    p.on_frame(&input);
    assert_eq!((p.state, p.frame_idx), (State::Drag, 1));
}

#[test]
fn stretch_size_is_half_the_screen() {
    let p = pet();
    assert_eq!(p.stretch_size(), (960, 540));
}

#[test]
fn frames_keep_the_pet_in_place() {
    let mut p = pet();
    let (x, y) = (p.pos_x, p.pos_y);
    let mut t = 1000;
    for i in 0..50u64 {
        t += 97;
        let mut input = quiet(t);
        input.key_pressed = i % 7 == 0;
        input.secs_since_bounce = i;
        input.secs_since_lean = i;
        p.on_frame(&input);
        assert_eq!((p.pos_x, p.pos_y, p.dragging), (x, y, false));
    }
}

#[test]
fn drag_survives_frame_callbacks() {
    let mut p = pet();
    p.on_frame(&quiet(1000));
    p.on_press();
    p.on_motion(10, 10);
    let (x, y) = (p.pos_x, p.pos_y);
    let mut input = quiet(9000);
    input.key_pressed = true;
    input.secs_since_bounce = 1000;
    input.secs_since_lean = 1000;
    input.secs_since_stretch = 100000;
    p.stretch_frames_loaded(3);
    p.on_frame(&input);
    assert_eq!((p.state, p.frame_idx, p.pos_x, p.pos_y), (State::Drag, 1, x, y));
}

#[test]
fn large_screen_sizes() {
    let mut p = Pet::new(&Config::default(), 2, 2, 2);
    p.on_configure(nekopet::pet::DIM_MAX, nekopet::pet::DIM_MAX);
    assert_eq!(p.pos_x, 0x7fff_ffff - 96 - 16);
    p.on_press();
    p.on_motion(i32::MAX - p.pos_x, -5);
    assert_eq!(p.pos_x, 0x7fff_ffff - 96 + 30);
    assert_eq!(p.pos_y, 0x7fff_ffff - 96 - 16 - 5);
    p.on_release();
    assert_eq!(p.input_region(), Some((0x7fff_ffff - 96 + 30 + 9, 0x7fff_ffff - 96 - 16 - 5 + 3, 96 - 39, 93)));
}
