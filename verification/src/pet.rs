//! The pet's behaviour: what it is doing, where it is, and how each frame, pointer event
//! and screen configuration changes that.
use vstd::prelude::*;
use crate::state::{State, spec_idle_duration};
use crate::config::{Config, corner_edges, has_run};
use crate::sheet::Frames;
use vstd::string::StringSliceAdditionalSpecFns;

verus! {

/// Largest screen side that the pet handles, in pixels: sides are used as `i32`
/// coordinates, and a larger side would not be one.
pub const DIM_MAX: u32 = 0x7fff_ffff;

/// Largest sprite scale that the pet handles: the sprite's side, and the sprite's side
/// plus the 16-pixel screen margin, stay `i32` coordinates.
pub const SCALE_MAX: u32 = 0x3ff_ffff;

/// How long the stretch zoom takes, in each direction, in milliseconds.
pub const ZOOM_MS: u32 = 500;

/// Distance of the pet from the screen edges at start, in pixels.
pub const CAT_BOTTOM_MARGIN: i32 = 16;

/// Transparent sprite columns left of the body, in sheet pixels.
pub const BODY_L_SRC: i32 = 3;

/// Transparent sprite columns right of the body, in sheet pixels.
pub const BODY_R_SRC: i32 = 10;

/// Everything the pet's behaviour depends on, and everything it decides.
pub struct Pet {
    /// Current animation state.
    pub state: State,
    /// Frame clock time at which the current state (or idle spell) began.
    pub state_start_ms: u32,
    /// Frame of the current animation being shown.
    pub frame_idx: usize,
    /// Frame clock time of the last animation step; 0 before the first frame.
    pub last_anim_ms: u32,
    /// Frame clock time of the latest frame.
    pub frame_time_ms: u32,
    /// The left button holds the pet.
    pub dragging: bool,
    /// Screen size, in pixels.
    pub width: u32,
    pub height: u32,
    /// Sprite scale, and the sprite's size and transparent side margins on screen.
    pub scale: u32,
    pub disp_w: u32,
    pub disp_h: u32,
    pub body_l: i32,
    pub body_r: i32,
    /// Milliseconds per animation frame.
    pub anim_ms: u32,
    /// The configured starting corner is on the right, and on the top.
    pub corner_right: bool,
    pub corner_top: bool,
    /// Top-left corner of the sprite on screen, and whether it has been placed.
    pub pos_x: i32,
    pub pos_y: i32,
    pub pos_initialized: bool,
    /// The sprite's corner when the drag began.
    pub drag_start_pos_x: i32,
    pub drag_start_pos_y: i32,
    /// Number of frames of the drag, bounce, lean and stretch animations.
    pub drag_frame_count: usize,
    pub bounce_frame_count: usize,
    pub lean_frame_count: usize,
    pub stretch_frame_count: usize,
    /// The stretch frames have been looked for (they are loaded at screen size).
    pub stretch_loaded: bool,
    /// Stretch timing: period (0 disables), milliseconds per frame, hold of the last frame.
    pub stretch_every_secs: u64,
    pub stretch_anim_ms: u32,
    pub stretch_hold_ms: u32,
    /// Milliseconds of zoom-in done, up to `ZOOM_MS`.
    pub stretch_transition_ms: u32,
    /// Milliseconds of zoom-out done, up to `ZOOM_MS`.
    pub stretch_out_ms: u32,
    /// The stretch is zooming back out.
    pub stretch_zooming_out: bool,
    /// The sprite's corner when the stretch began.
    pub stretch_start_x: i32,
    pub stretch_start_y: i32,
    /// Frame clock time at which the last stretch frame started holding.
    pub stretch_hold_start: Option<u32>,
    /// Bounce and lean periods, in seconds; 0 disables.
    pub bounce_every_secs: u64,
    pub lean_every_secs: u64,
}

/// What the surroundings report at a frame callback.
pub struct FrameInput {
    /// The frame clock, in milliseconds; it may wrap around.
    pub time: u32,
    /// A key was pressed since the last frame.
    pub key_pressed: bool,
    /// Whole seconds since the stretch, bounce and lean timers were last restarted.
    pub secs_since_stretch: u64,
    pub secs_since_bounce: u64,
    pub secs_since_lean: u64,
    /// There is no typing deadline, or it has passed.
    pub typing_deadline_passed: bool,
}

/// What the surroundings are to do after a frame callback.
#[derive(Clone, Copy, Debug, PartialEq, Eq, Structural)]
pub struct FrameOutput {
    /// Restart the stretch, bounce and lean timers from now.
    pub restart_stretch_timer: bool,
    pub restart_bounce_timer: bool,
    pub restart_lean_timer: bool,
    /// Set the typing deadline to 300 milliseconds from now.
    pub restart_typing_deadline: bool,
}

/// Milliseconds from `since` to `now` on a clock that wraps around at 2^32.
pub open spec fn ms_since(now: u32, since: u32) -> u32 {
    if now >= since { (now - since) as u32 } else { (now - since + 0x1_0000_0000) as u32 }
}

/// `n` frames, counting an animation without frames as one.
pub open spec fn at_least_one(n: usize) -> int {
    if n > 1 { n as int } else { 1 }
}


impl Pet {
    /// Number of frames that the animation of state `st` cycles through.
    pub open spec fn frames_in(self, st: State) -> int {
        match st {
            State::Stretch => at_least_one(self.stretch_frame_count),
            State::Drag => at_least_one(self.drag_frame_count),
            State::Bounce => at_least_one(self.bounce_frame_count),
            State::Lean => at_least_one(self.lean_frame_count),
            _ => 4,
        }
    }

    /// A column the sprite's corner may take: at most its transparent left margin off the
    /// screen, and its body's left edge still an `i32` coordinate.
    pub open spec fn x_ok(self, x: i32) -> bool {
        -self.body_l <= x <= i32::MAX - self.body_l
    }

    /// A row the sprite's corner may take: not above the screen, and its bottom edge still an
    /// `i32` coordinate.
    pub open spec fn y_ok(self, y: i32) -> bool {
        0 <= y <= i32::MAX - self.disp_h
    }

    /// The pet's invariant: sizes derived from the scale and within bounds, positions
    /// within bounds, zoom progress within its span, stretch only with stretch frames,
    /// dragging while in the drag state, and the frame index within the animation.
    pub open spec fn wf(self) -> bool {
        &&& self.scale <= SCALE_MAX
        &&& self.disp_w == 32 * self.scale
        &&& self.disp_h == 32 * self.scale
        &&& self.body_l == 3 * self.scale
        &&& self.body_r == 10 * self.scale
        &&& self.width <= DIM_MAX
        &&& self.height <= DIM_MAX
        &&& self.x_ok(self.pos_x) && self.y_ok(self.pos_y)
        &&& self.x_ok(self.drag_start_pos_x) && self.y_ok(self.drag_start_pos_y)
        &&& self.x_ok(self.stretch_start_x) && self.y_ok(self.stretch_start_y)
        &&& self.stretch_transition_ms <= ZOOM_MS
        &&& self.stretch_out_ms <= ZOOM_MS
        &&& !self.stretch_loaded ==> self.stretch_frame_count == 0
        &&& self.state == State::Stretch ==> self.stretch_frame_count > 0
        &&& self.state == State::Drag ==> self.dragging && self.frame_idx == 1
        &&& self.state != State::Drag ==> self.frame_idx < self.frames_in(self.state)
    }
}

} // verus!

verus! {

/// The frame clock ticks: the frame time is recorded, and the first frame also starts the
/// animation and the current state.
pub open spec fn clock_phase(s: Pet, time: u32) -> Pet {
    if s.last_anim_ms == 0 {
        Pet { frame_time_ms: time, last_anim_ms: time, state_start_ms: time, ..s }
    } else {
        Pet { frame_time_ms: time, ..s }
    }
}

/// Milliseconds per frame of the current animation.
pub open spec fn anim_interval(s: Pet) -> u32 {
    if s.state == State::Stretch { s.stretch_anim_ms } else { s.anim_ms }
}

/// The animation steps when a frame's time has passed, except while dragged or typing
/// (those frames follow the pointer and the keys). At the last frame the stretch starts
/// holding instead of wrapping around (and stays on its last frame while it holds or zooms
/// out), and a bounce or lean ends in the idle state.
pub open spec fn advance_phase(s: Pet, time: u32) -> Pet {
    if s.state != State::Drag && s.state != State::Typing && ms_since(time, s.last_anim_ms) >= anim_interval(s) {
        let next = (s.frame_idx + 1) % s.frames_in(s.state);
        let is_last = next == 0;
        let s1 = if is_last && s.state == State::Stretch && s.stretch_hold_start is None && !s.stretch_zooming_out {
            Pet { stretch_hold_start: Some(time), ..s }
        } else if !is_last || (s.stretch_hold_start is None && !s.stretch_zooming_out) {
            Pet { frame_idx: next as usize, ..s }
        } else {
            s
        };
        let s2 = if is_last && (s.state == State::Bounce || s.state == State::Lean) {
            Pet { state: State::Idle, state_start_ms: time, frame_idx: 0, ..s1 }
        } else {
            s1
        };
        Pet { last_anim_ms: time, ..s2 }
    } else {
        s
    }
}

/// An idle spell that has lasted its duration starts over from the first frame.
pub open spec fn idle_phase(s: Pet, time: u32) -> Pet {
    if !s.dragging && s.state == State::Idle && ms_since(time, s.state_start_ms) >= spec_idle_duration(time) {
        Pet { state: State::Idle, state_start_ms: time, frame_idx: 0, ..s }
    } else {
        s
    }
}

/// The stretch is due: enabled, with frames, not dragged, not already stretching or typing,
/// and its period has passed.
pub open spec fn stretch_due(s: Pet, input: FrameInput) -> bool {
    &&& s.stretch_every_secs > 0
    &&& s.stretch_frame_count > 0
    &&& !s.dragging
    &&& s.state != State::Stretch
    &&& s.state != State::Typing
    &&& input.secs_since_stretch >= s.stretch_every_secs
}

/// A due stretch starts: zoom-in from the pet's place, from the first frame.
pub open spec fn stretch_start_phase(s: Pet, input: FrameInput) -> Pet {
    if stretch_due(s, input) {
        Pet {
            stretch_start_x: s.pos_x,
            stretch_start_y: s.pos_y,
            stretch_transition_ms: 0,
            stretch_out_ms: 0,
            stretch_zooming_out: false,
            stretch_hold_start: None,
            state: State::Stretch,
            frame_idx: 0,
            state_start_ms: input.time,
            ..s
        }
    } else {
        s
    }
}

/// The zoom-in progresses with the time since the stretch began, up to its full span.
pub open spec fn zoom_in_phase(s: Pet, time: u32) -> Pet {
    if s.state == State::Stretch && s.stretch_transition_ms < ZOOM_MS {
        let e = ms_since(time, s.state_start_ms);
        Pet { stretch_transition_ms: if e < ZOOM_MS { e } else { ZOOM_MS }, ..s }
    } else {
        s
    }
}

/// When the last stretch frame has held long enough, the zoom-out begins.
pub open spec fn hold_phase(s: Pet, time: u32) -> Pet {
    match s.stretch_hold_start {
        Some(h) => if ms_since(time, h) >= s.stretch_hold_ms {
            Pet {
                stretch_hold_start: None,
                stretch_zooming_out: true,
                stretch_out_ms: 0,
                state_start_ms: time,
                ..s
            }
        } else {
            s
        },
        None => s,
    }
}

/// The zoom-out progresses with the time since it began; when it is complete the pet is
/// idle again.
pub open spec fn zoom_out_phase(s: Pet, time: u32) -> Pet {
    if s.stretch_zooming_out {
        let e = ms_since(time, s.state_start_ms);
        if e >= ZOOM_MS {
            Pet {
                stretch_zooming_out: false,
                stretch_out_ms: 0,
                state: State::Idle,
                state_start_ms: time,
                frame_idx: 0,
                ..s
            }
        } else {
            Pet { stretch_out_ms: e, ..s }
        }
    } else {
        s
    }
}

/// A one-shot animation (bounce or lean) may start: it is enabled, has frames, the pet is
/// not dragged and not stretching, typing, bouncing or leaning, and its period has passed.
pub open spec fn one_shot_due(s: Pet, every: u64, frames: usize, secs: u64) -> bool {
    &&& every > 0
    &&& frames > 0
    &&& !s.dragging
    &&& s.state != State::Stretch
    &&& s.state != State::Typing
    &&& s.state != State::Bounce
    &&& s.state != State::Lean
    &&& secs >= every
}

/// A due bounce starts from its first frame.
pub open spec fn bounce_phase(s: Pet, input: FrameInput) -> Pet {
    if one_shot_due(s, s.bounce_every_secs, s.bounce_frame_count, input.secs_since_bounce) {
        Pet { state: State::Bounce, frame_idx: 0, state_start_ms: input.time, ..s }
    } else {
        s
    }
}

/// A due lean starts from its first frame.
pub open spec fn lean_phase(s: Pet, input: FrameInput) -> Pet {
    if one_shot_due(s, s.lean_every_secs, s.lean_frame_count, input.secs_since_lean) {
        Pet { state: State::Lean, frame_idx: 0, state_start_ms: input.time, ..s }
    } else {
        s
    }
}

/// A key press starts typing, unless the pet is dragged or stretching; while typing, each
/// key press shows the next typing frame.
pub open spec fn key_phase(s: Pet, input: FrameInput) -> Pet {
    if input.key_pressed {
        if !s.dragging && s.state != State::Typing && s.state != State::Stretch {
            Pet { state: State::Typing, state_start_ms: input.time, frame_idx: 0, ..s }
        } else if s.state == State::Typing {
            Pet { frame_idx: ((s.frame_idx + 1) % 4) as usize, ..s }
        } else {
            s
        }
    } else {
        s
    }
}

/// Typing ends, back to idle, once its deadline has passed; a key press this frame has
/// just moved the deadline 300 milliseconds ahead.
pub open spec fn typing_end_phase(s: Pet, input: FrameInput) -> Pet {
    if s.state == State::Typing && !input.key_pressed && input.typing_deadline_passed {
        Pet { state: State::Idle, state_start_ms: input.time, frame_idx: 0, ..s }
    } else {
        s
    }
}

/// The pet after a frame callback: the phases above, in order.
pub open spec fn frame_step(s: Pet, input: FrameInput) -> Pet {
    let t = input.time;
    let s1 = clock_phase(s, t);
    let s2 = advance_phase(s1, t);
    let s3 = idle_phase(s2, t);
    let s4 = stretch_start_phase(s3, input);
    let s5 = zoom_in_phase(s4, t);
    let s6 = hold_phase(s5, t);
    let s7 = zoom_out_phase(s6, t);
    let s8 = bounce_phase(s7, input);
    let s9 = lean_phase(s8, input);
    let s10 = key_phase(s9, input);
    typing_end_phase(s10, input)
}

/// What the surroundings are told after a frame callback: which timers the started
/// animations restart, and whether a key press moved the typing deadline.
pub open spec fn frame_output(s: Pet, input: FrameInput) -> FrameOutput {
    let t = input.time;
    let s3 = idle_phase(advance_phase(clock_phase(s, t), t), t);
    let s7 = zoom_out_phase(hold_phase(zoom_in_phase(stretch_start_phase(s3, input), t), t), t);
    let s8 = bounce_phase(s7, input);
    FrameOutput {
        restart_stretch_timer: stretch_due(s3, input),
        restart_bounce_timer: one_shot_due(s7, s7.bounce_every_secs, s7.bounce_frame_count, input.secs_since_bounce),
        restart_lean_timer: one_shot_due(s8, s8.lean_every_secs, s8.lean_frame_count, input.secs_since_lean),
        restart_typing_deadline: input.key_pressed,
    }
}

} // verus!

verus! {

fn at_least_one_frame(n: usize) -> (r: usize)
    ensures
        r == at_least_one(n),
{
    if n > 1 { n } else { 1 }
}

/// Milliseconds from `since` to `now` on the wrapping frame clock.
pub fn elapsed_ms(now: u32, since: u32) -> (e: u32)
    ensures
        e == ms_since(now, since),
{
    now.wrapping_sub(since)
}

impl Pet {
    /// Number of frames that the current state's animation cycles through.
    pub fn current_frame_total(&self) -> (n: usize)
        ensures
            n == self.frames_in(self.state),
    {
        match self.state {
            State::Stretch => at_least_one_frame(self.stretch_frame_count),
            State::Drag => at_least_one_frame(self.drag_frame_count),
            State::Bounce => at_least_one_frame(self.bounce_frame_count),
            State::Lean => at_least_one_frame(self.lean_frame_count),
            State::Idle | State::Typing => self.state.frame_count(),
        }
    }

    fn tick_clock(&mut self, time: u32)
        ensures
            *final(self) == clock_phase(*old(self), time),
    {
        self.frame_time_ms = time;
        if self.last_anim_ms == 0 {
            self.last_anim_ms = time;
            self.state_start_ms = time;
        }
    }

    fn advance_animation(&mut self, time: u32)
        requires
            old(self).wf(),
        ensures
            *final(self) == advance_phase(*old(self), time),
    {
        let interval = if self.state == State::Stretch { self.stretch_anim_ms } else { self.anim_ms };
        if self.state != State::Drag && self.state != State::Typing && elapsed_ms(time, self.last_anim_ms) >= interval {
            let total = self.current_frame_total();
            let next = (self.frame_idx + 1) % total;
            let is_last = next == 0;
            if is_last && self.state == State::Stretch && self.stretch_hold_start.is_none() && !self.stretch_zooming_out {
                self.stretch_hold_start = Some(time);
            } else if !is_last || (self.stretch_hold_start.is_none() && !self.stretch_zooming_out) {
                self.frame_idx = next;
            }
            if is_last && (self.state == State::Bounce || self.state == State::Lean) {
                self.state = State::Idle;
                self.state_start_ms = time;
                self.frame_idx = 0;
            }
            self.last_anim_ms = time;
        }
    }

    fn end_idle_spell(&mut self, time: u32)
        ensures
            *final(self) == idle_phase(*old(self), time),
    {
        if !self.dragging && self.state == State::Idle {
            if elapsed_ms(time, self.state_start_ms) >= self.state.duration_ms(time) {
                self.state = State::Idle;
                self.state_start_ms = time;
                self.frame_idx = 0;
            }
        }
    }

    fn maybe_start_stretch(&mut self, input: &FrameInput) -> (started: bool)
        ensures
            *final(self) == stretch_start_phase(*old(self), *input),
            started == stretch_due(*old(self), *input),
    {
        if self.stretch_every_secs > 0 && self.stretch_frame_count > 0 && !self.dragging
            && self.state != State::Stretch && self.state != State::Typing
            && input.secs_since_stretch >= self.stretch_every_secs {
            self.stretch_start_x = self.pos_x;
            self.stretch_start_y = self.pos_y;
            self.stretch_transition_ms = 0;
            self.stretch_out_ms = 0;
            self.stretch_zooming_out = false;
            self.stretch_hold_start = None;
            self.state = State::Stretch;
            self.frame_idx = 0;
            self.state_start_ms = input.time;
            true
        } else {
            false
        }
    }

    fn zoom_in(&mut self, time: u32)
        ensures
            *final(self) == zoom_in_phase(*old(self), time),
    {
        if self.state == State::Stretch && self.stretch_transition_ms < ZOOM_MS {
            let e = elapsed_ms(time, self.state_start_ms);
            self.stretch_transition_ms = if e < ZOOM_MS { e } else { ZOOM_MS };
        }
    }

    fn end_hold(&mut self, time: u32)
        ensures
            *final(self) == hold_phase(*old(self), time),
    {
        if let Some(hold_start) = self.stretch_hold_start {
            if elapsed_ms(time, hold_start) >= self.stretch_hold_ms {
                self.stretch_hold_start = None;
                self.stretch_zooming_out = true;
                self.stretch_out_ms = 0;
                self.state_start_ms = time;
            }
        }
    }

    fn zoom_out(&mut self, time: u32)
        ensures
            *final(self) == zoom_out_phase(*old(self), time),
    {
        if self.stretch_zooming_out {
            let e = elapsed_ms(time, self.state_start_ms);
            if e >= ZOOM_MS {
                self.stretch_zooming_out = false;
                self.stretch_out_ms = 0;
                self.state = State::Idle;
                self.state_start_ms = time;
                self.frame_idx = 0;
            } else {
                self.stretch_out_ms = e;
            }
        }
    }

    fn one_shot_is_due(&self, every: u64, frames: usize, secs: u64) -> (due: bool)
        ensures
            due == one_shot_due(*self, every, frames, secs),
    {
        every > 0 && frames > 0 && !self.dragging && self.state != State::Stretch && self.state != State::Typing
            && self.state != State::Bounce && self.state != State::Lean && secs >= every
    }

    fn maybe_start_bounce(&mut self, input: &FrameInput) -> (started: bool)
        ensures
            *final(self) == bounce_phase(*old(self), *input),
            started == one_shot_due(*old(self), old(self).bounce_every_secs, old(self).bounce_frame_count, input.secs_since_bounce),
    {
        if self.one_shot_is_due(self.bounce_every_secs, self.bounce_frame_count, input.secs_since_bounce) {
            self.state = State::Bounce;
            self.frame_idx = 0;
            self.state_start_ms = input.time;
            true
        } else {
            false
        }
    }

    fn maybe_start_lean(&mut self, input: &FrameInput) -> (started: bool)
        ensures
            *final(self) == lean_phase(*old(self), *input),
            started == one_shot_due(*old(self), old(self).lean_every_secs, old(self).lean_frame_count, input.secs_since_lean),
    {
        if self.one_shot_is_due(self.lean_every_secs, self.lean_frame_count, input.secs_since_lean) {
            self.state = State::Lean;
            self.frame_idx = 0;
            self.state_start_ms = input.time;
            true
        } else {
            false
        }
    }

    fn handle_key(&mut self, input: &FrameInput)
        requires
            old(self).state == State::Typing ==> old(self).frame_idx < 4,
        ensures
            *final(self) == key_phase(*old(self), *input),
    {
        if input.key_pressed {
            if !self.dragging && self.state != State::Typing && self.state != State::Stretch {
                self.state = State::Typing;
                self.state_start_ms = input.time;
                self.frame_idx = 0;
            } else if self.state == State::Typing {
                let total = self.state.frame_count();
                self.frame_idx = (self.frame_idx + 1) % total;
            }
        }
    }

    fn end_typing(&mut self, input: &FrameInput)
        ensures
            *final(self) == typing_end_phase(*old(self), *input),
    {
        if self.state == State::Typing && !input.key_pressed && input.typing_deadline_passed {
            self.state = State::Idle;
            self.state_start_ms = input.time;
            self.frame_idx = 0;
        }
    }
}

} // verus!

verus! {

proof fn lemma_advance_keeps_wf(s: Pet, time: u32)
    requires
        s.wf(),
    ensures
        advance_phase(s, time).wf(),
{
    if s.state != State::Drag && s.state != State::Typing && ms_since(time, s.last_anim_ms) >= anim_interval(s) {
        let total = s.frames_in(s.state);
        let next = (s.frame_idx + 1) % total;
        assert(0 <= next < total);
    }
}

proof fn lemma_clock_phase_keeps_wf(s: Pet, t: u32)
    requires
        s.wf(),
    ensures
        clock_phase(s, t).wf(),
{
}

proof fn lemma_idle_phase_keeps_wf(s: Pet, t: u32)
    requires
        s.wf(),
    ensures
        idle_phase(s, t).wf(),
{
}

proof fn lemma_stretch_start_phase_keeps_wf(s: Pet, input: FrameInput)
    requires
        s.wf(),
    ensures
        stretch_start_phase(s, input).wf(),
{
}

proof fn lemma_zoom_in_phase_keeps_wf(s: Pet, t: u32)
    requires
        s.wf(),
    ensures
        zoom_in_phase(s, t).wf(),
{
}

proof fn lemma_hold_phase_keeps_wf(s: Pet, t: u32)
    requires
        s.wf(),
    ensures
        hold_phase(s, t).wf(),
{
}

proof fn lemma_zoom_out_phase_keeps_wf(s: Pet, t: u32)
    requires
        s.wf(),
    ensures
        zoom_out_phase(s, t).wf(),
{
}

proof fn lemma_bounce_phase_keeps_wf(s: Pet, input: FrameInput)
    requires
        s.wf(),
    ensures
        bounce_phase(s, input).wf(),
{
}

proof fn lemma_lean_phase_keeps_wf(s: Pet, input: FrameInput)
    requires
        s.wf(),
    ensures
        lean_phase(s, input).wf(),
{
}

proof fn lemma_key_phase_keeps_wf(s: Pet, input: FrameInput)
    requires
        s.wf(),
    ensures
        key_phase(s, input).wf(),
{
}

proof fn lemma_typing_end_phase_keeps_wf(s: Pet, input: FrameInput)
    requires
        s.wf(),
    ensures
        typing_end_phase(s, input).wf(),
{
}

/// Every frame callback keeps the pet's invariant.
pub proof fn lemma_frame_step_keeps_wf(s: Pet, input: FrameInput)
    requires
        s.wf(),
    ensures
        frame_step(s, input).wf(),
{
    let t = input.time;
    let s1 = clock_phase(s, t);
    lemma_clock_phase_keeps_wf(s, t);
    let s2 = advance_phase(s1, t);
    lemma_advance_keeps_wf(s1, t);
    let s3 = idle_phase(s2, t);
    lemma_idle_phase_keeps_wf(s2, t);
    let s4 = stretch_start_phase(s3, input);
    lemma_stretch_start_phase_keeps_wf(s3, input);
    let s5 = zoom_in_phase(s4, t);
    lemma_zoom_in_phase_keeps_wf(s4, t);
    let s6 = hold_phase(s5, t);
    lemma_hold_phase_keeps_wf(s5, t);
    let s7 = zoom_out_phase(s6, t);
    lemma_zoom_out_phase_keeps_wf(s6, t);
    let s8 = bounce_phase(s7, input);
    lemma_bounce_phase_keeps_wf(s7, input);
    let s9 = lean_phase(s8, input);
    lemma_lean_phase_keeps_wf(s8, input);
    let s10 = key_phase(s9, input);
    lemma_key_phase_keeps_wf(s9, input);
    lemma_typing_end_phase_keeps_wf(s10, input);
}

} // verus!

verus! {

impl Pet {
    /// Handles a frame callback: steps the animation, ends or starts states as their time
    /// comes, and reacts to a key press. The result says which timers to restart.
    pub fn on_frame(&mut self, input: &FrameInput) -> (out: FrameOutput)
        requires
            old(self).wf(),
        ensures
            *final(self) == frame_step(*old(self), *input),
            out == frame_output(*old(self), *input),
            final(self).wf(),
    {
        let ghost s0 = *self;
        let t = input.time;
        self.tick_clock(t);
        proof {
            lemma_clock_phase_keeps_wf(s0, t);
        }
        self.advance_animation(t);
        proof {
            lemma_advance_keeps_wf(clock_phase(s0, t), t);
        }
        self.end_idle_spell(t);
        let ghost s3 = *self;
        proof {
            lemma_idle_phase_keeps_wf(advance_phase(clock_phase(s0, t), t), t);
        }
        let restart_stretch_timer = self.maybe_start_stretch(input);
        proof {
            lemma_stretch_start_phase_keeps_wf(s3, *input);
        }
        self.zoom_in(t);
        self.end_hold(t);
        self.zoom_out(t);
        let ghost s7 = *self;
        let restart_bounce_timer = self.maybe_start_bounce(input);
        let ghost s8 = *self;
        let restart_lean_timer = self.maybe_start_lean(input);
        proof {
            let s4 = stretch_start_phase(s3, *input);
            lemma_zoom_in_phase_keeps_wf(s4, t);
            lemma_hold_phase_keeps_wf(zoom_in_phase(s4, t), t);
            lemma_zoom_out_phase_keeps_wf(hold_phase(zoom_in_phase(s4, t), t), t);
            lemma_bounce_phase_keeps_wf(s7, *input);
            lemma_lean_phase_keeps_wf(s8, *input);
        }
        self.handle_key(input);
        self.end_typing(input);
        proof {
            let s10 = key_phase(lean_phase(s8, *input), *input);
            lemma_key_phase_keeps_wf(lean_phase(s8, *input), *input);
            lemma_typing_end_phase_keeps_wf(s10, *input);
        }
        FrameOutput {
            restart_stretch_timer,
            restart_bounce_timer,
            restart_lean_timer,
            restart_typing_deadline: input.key_pressed,
        }
    }
}

} // verus!

verus! {

/// `v` kept within [`lo`, `hi`].
pub open spec fn clamp(v: int, lo: int, hi: int) -> int {
    if v < lo { lo } else if v > hi { hi } else { v }
}

/// The larger of `v` and 0.
pub open spec fn nonneg(v: int) -> int {
    if v > 0 { v } else { 0 }
}

/// The pet as it starts: idle, at display size, in the screen's origin until the screen
/// is configured, with the configured timings and the given frame counts.
pub open spec fn initial_pet(cfg: Config, drag_frames: usize, bounce_frames: usize, lean_frames: usize) -> Pet {
    Pet {
        state: State::Idle,
        state_start_ms: 0,
        frame_idx: 0,
        last_anim_ms: 0,
        frame_time_ms: 0,
        dragging: false,
        width: (32 * cfg.scale) as u32,
        height: (32 * cfg.scale) as u32,
        scale: cfg.scale,
        disp_w: (32 * cfg.scale) as u32,
        disp_h: (32 * cfg.scale) as u32,
        body_l: (3 * cfg.scale) as i32,
        body_r: (10 * cfg.scale) as i32,
        anim_ms: cfg.anim_ms,
        corner_right: has_run(vstd::utf8::encode_utf8(cfg.corner@), "right".spec_bytes()),
        corner_top: has_run(vstd::utf8::encode_utf8(cfg.corner@), "top".spec_bytes()),
        pos_x: 0,
        pos_y: 0,
        pos_initialized: false,
        drag_start_pos_x: 0,
        drag_start_pos_y: 0,
        drag_frame_count: drag_frames,
        bounce_frame_count: bounce_frames,
        lean_frame_count: lean_frames,
        stretch_frame_count: 0,
        stretch_loaded: false,
        stretch_every_secs: cfg.stretch_every_secs,
        stretch_anim_ms: cfg.stretch_anim_ms,
        stretch_hold_ms: cfg.stretch_hold_ms,
        stretch_transition_ms: ZOOM_MS,
        stretch_out_ms: 0,
        stretch_zooming_out: false,
        stretch_start_x: 0,
        stretch_start_y: 0,
        stretch_hold_start: None,
        bounce_every_secs: cfg.bounce_every_secs,
        lean_every_secs: cfg.lean_every_secs,
    }
}

/// The left button picks the pet up: it is dragged, shown on the second drag frame, and
/// its place is remembered.
pub open spec fn press_step(s: Pet) -> Pet {
    Pet {
        dragging: true,
        state: State::Drag,
        frame_idx: 1,
        drag_start_pos_x: s.pos_x,
        drag_start_pos_y: s.pos_y,
        ..s
    }
}

/// Releasing the left button drops a dragged pet, idle again from the last animation step.
pub open spec fn release_step(s: Pet) -> Pet {
    if s.dragging {
        Pet { dragging: false, state: State::Idle, state_start_ms: s.last_anim_ms, frame_idx: 0, ..s }
    } else {
        s
    }
}

/// Rightmost place of a dragged pet: its body may reach the screen's right edge.
pub open spec fn drag_max_x(s: Pet) -> int {
    nonneg(s.width - s.disp_w + s.body_r)
}

/// Lowest place of a dragged pet: its sprite stays above the screen's bottom edge.
pub open spec fn drag_max_y(s: Pet) -> int {
    nonneg(s.height - s.disp_h)
}

/// The pointer moved (`dx`, `dy`) from where the drag began: a dragged pet follows it,
/// kept on the screen (its transparent left margin may leave it).
pub open spec fn motion_step(s: Pet, dx: i32, dy: i32) -> Pet {
    if s.dragging {
        Pet {
            pos_x: clamp(s.drag_start_pos_x + dx, -s.body_l, drag_max_x(s)) as i32,
            pos_y: clamp(s.drag_start_pos_y + dy, 0, drag_max_y(s)) as i32,
            ..s
        }
    } else {
        s
    }
}

/// The screen is configured: a non-zero side replaces the known one, and the first time the
/// screen can hold the pet it is placed in the configured corner, 16 pixels from the edges.
pub open spec fn configure_step(s: Pet, new_w: u32, new_h: u32) -> Pet {
    let w = if new_w != 0 { new_w } else { s.width };
    let h = if new_h != 0 { new_h } else { s.height };
    let s1 = Pet { width: w, height: h, ..s };
    if !s1.pos_initialized && w > 0 && h > s1.disp_h {
        Pet {
            pos_x: (if s1.corner_right { nonneg(w - s1.disp_w - CAT_BOTTOM_MARGIN) } else { CAT_BOTTOM_MARGIN as int }) as i32,
            pos_y: (if s1.corner_top { CAT_BOTTOM_MARGIN as int } else { nonneg(h - s1.disp_h - CAT_BOTTOM_MARGIN) }) as i32,
            pos_initialized: true,
            ..s1
        }
    } else {
        s1
    }
}

/// The stretch frames are to be loaded now: not yet looked for, the screen has a size, and
/// the stretch is enabled.
pub open spec fn wants_stretch_frames(s: Pet) -> bool {
    !s.stretch_loaded && s.width > 0 && s.height > 0 && s.stretch_every_secs > 0
}

/// The stretch frames have been looked for, and `count` were found.
pub open spec fn stretch_loaded_step(s: Pet, count: usize) -> Pet {
    Pet { stretch_loaded: true, stretch_frame_count: if count > 0 { count } else { s.stretch_frame_count }, ..s }
}

/// The part of the screen that takes pointer input: nothing while stretching, the whole
/// screen while dragged, else the cat's body (the sprite without its transparent margins
/// and top row), clipped to the screen. As (x, y, width, height).
pub open spec fn input_rect(s: Pet) -> Option<(int, int, int, int)> {
    if s.state == State::Stretch {
        None
    } else if s.dragging {
        Some((0, 0, s.width as int, s.height as int))
    } else {
        let ir_x = nonneg(s.pos_x + s.body_l);
        let ir_y = nonneg(s.pos_y + s.scale);
        let body_w = s.disp_w - s.body_l - s.body_r;
        let ir_w = nonneg(if body_w < s.width - ir_x { body_w } else { s.width - ir_x });
        let bottom = if s.pos_y + s.disp_h < s.height { s.pos_y + s.disp_h } else { s.height as int };
        Some((ir_x, ir_y, ir_w, nonneg(bottom - ir_y)))
    }
}

/// The stretch frame on screen: the first during the zoom-in, else the current one.
pub open spec fn spec_stretch_frame(s: Pet) -> usize {
    if !s.stretch_zooming_out && s.stretch_transition_ms < ZOOM_MS { 0 } else { s.frame_idx }
}

/// The pupils follow the cursor in these states.
pub open spec fn spec_shows_pupils(st: State) -> bool {
    st == State::Idle || st == State::Drag || st == State::Bounce || st == State::Lean
}

} // verus!

verus! {

impl Pet {
    /// The pet as it starts, from the settings and the number of drag, bounce and lean
    /// frames found on the sprite sheet.
    pub fn new(cfg: &Config, drag_frames: usize, bounce_frames: usize, lean_frames: usize) -> (p: Pet)
        requires
            cfg.scale <= SCALE_MAX,
        ensures
            p == initial_pet(*cfg, drag_frames, bounce_frames, lean_frames),
            p.wf(),
    {
        let (corner_right, corner_top) = corner_edges(cfg.corner.as_str());
        let disp_w = 32 * cfg.scale;
        let disp_h = 32 * cfg.scale;
        Pet {
            state: State::Idle,
            state_start_ms: 0,
            frame_idx: 0,
            last_anim_ms: 0,
            frame_time_ms: 0,
            dragging: false,
            width: disp_w,
            height: disp_h,
            scale: cfg.scale,
            disp_w,
            disp_h,
            body_l: BODY_L_SRC * cfg.scale as i32,
            body_r: BODY_R_SRC * cfg.scale as i32,
            anim_ms: cfg.anim_ms,
            corner_right,
            corner_top,
            pos_x: 0,
            pos_y: 0,
            pos_initialized: false,
            drag_start_pos_x: 0,
            drag_start_pos_y: 0,
            drag_frame_count: drag_frames,
            bounce_frame_count: bounce_frames,
            lean_frame_count: lean_frames,
            stretch_frame_count: 0,
            stretch_loaded: false,
            stretch_every_secs: cfg.stretch_every_secs,
            stretch_anim_ms: cfg.stretch_anim_ms,
            stretch_hold_ms: cfg.stretch_hold_ms,
            stretch_transition_ms: ZOOM_MS,
            stretch_out_ms: 0,
            stretch_zooming_out: false,
            stretch_start_x: 0,
            stretch_start_y: 0,
            stretch_hold_start: None,
            bounce_every_secs: cfg.bounce_every_secs,
            lean_every_secs: cfg.lean_every_secs,
        }
    }

    /// The left button is pressed on the pet.
    pub fn on_press(&mut self)
        requires
            old(self).wf(),
        ensures
            *final(self) == press_step(*old(self)),
            final(self).wf(),
    {
        self.dragging = true;
        self.state = State::Drag;
        self.frame_idx = 1;
        self.drag_start_pos_x = self.pos_x;
        self.drag_start_pos_y = self.pos_y;
    }

    /// The left button is released.
    pub fn on_release(&mut self)
        requires
            old(self).wf(),
        ensures
            *final(self) == release_step(*old(self)),
            final(self).wf(),
    {
        if self.dragging {
            self.dragging = false;
            self.state = State::Idle;
            self.state_start_ms = self.last_anim_ms;
            self.frame_idx = 0;
        }
    }

    /// The pointer moved to (`dx`, `dy`) screen pixels from where the drag began. A dragged
    /// pet follows, kept on the screen.
    pub fn on_motion(&mut self, dx: i32, dy: i32)
        requires
            old(self).wf(),
            old(self).dragging ==> i32::MIN <= old(self).drag_start_pos_x + dx <= i32::MAX,
            old(self).dragging ==> i32::MIN <= old(self).drag_start_pos_y + dy <= i32::MAX,
        ensures
            *final(self) == motion_step(*old(self), dx, dy),
            final(self).wf(),
            old(self).dragging ==> -final(self).body_l <= final(self).pos_x <= drag_max_x(*final(self)),
            old(self).dragging ==> 0 <= final(self).pos_y <= drag_max_y(*final(self)),
    {
        if self.dragging {
            let mx = self.width as i32 - self.disp_w as i32 + self.body_r;
            let max_x = if mx > 0 { mx } else { 0 };
            let my = self.height as i32 - self.disp_h as i32;
            let max_y = if my > 0 { my } else { 0 };
            let x = self.drag_start_pos_x + dx;
            let y = self.drag_start_pos_y + dy;
            let min_x = -self.body_l;
            self.pos_x = if x < min_x { min_x } else if x > max_x { max_x } else { x };
            self.pos_y = if y < 0 { 0 } else if y > max_y { max_y } else { y };
        }
    }

    /// The screen was configured at `new_w` by `new_h` (0 keeps a side as it is). Places the
    /// pet the first time the screen can hold it; the result says whether the stretch frames
    /// are to be loaded now, at half the screen's size.
    pub fn on_configure(&mut self, new_w: u32, new_h: u32) -> (load_stretch: bool)
        requires
            old(self).wf(),
            new_w <= DIM_MAX,
            new_h <= DIM_MAX,
        ensures
            *final(self) == configure_step(*old(self), new_w, new_h),
            load_stretch == wants_stretch_frames(*final(self)),
            final(self).wf(),
    {
        if new_w != 0 {
            self.width = new_w;
        }
        if new_h != 0 {
            self.height = new_h;
        }
        let load_stretch = !self.stretch_loaded && self.width > 0 && self.height > 0 && self.stretch_every_secs > 0;
        if !self.pos_initialized && self.width > 0 && self.height > self.disp_h {
            let m = CAT_BOTTOM_MARGIN;
            self.pos_x = if self.corner_right {
                let x = self.width as i32 - self.disp_w as i32 - m;
                if x > 0 { x } else { 0 }
            } else {
                m
            };
            self.pos_y = if self.corner_top {
                m
            } else {
                let y = self.height as i32 - self.disp_h as i32 - m;
                if y > 0 { y } else { 0 }
            };
            self.pos_initialized = true;
        }
        load_stretch
    }

    /// The stretch frames have been looked for, and `count` were found.
    pub fn stretch_frames_loaded(&mut self, count: usize)
        requires
            old(self).wf(),
            !old(self).stretch_loaded,
        ensures
            *final(self) == stretch_loaded_step(*old(self), count),
            final(self).wf(),
    {
        self.stretch_loaded = true;
        if count > 0 {
            self.stretch_frame_count = count;
        }
    }

    /// The part of the screen that takes pointer input, as (x, y, width, height); `None` for
    /// no part at all.
    pub fn input_region(&self) -> (r: Option<(i32, i32, i32, i32)>)
        requires
            self.wf(),
        ensures
            r matches Some(t) ==> input_rect(*self) == Some((t.0 as int, t.1 as int, t.2 as int, t.3 as int)),
            r is None <==> input_rect(*self) is None,
    {
        if self.state == State::Stretch {
            None
        } else if self.dragging {
            Some((0, 0, self.width as i32, self.height as i32))
        } else {
            let body_t = self.scale as i32;
            let ax = self.pos_x + self.body_l;
            let ir_x = if ax > 0 { ax } else { 0 };
            let ay = self.pos_y + body_t;
            let ir_y = if ay > 0 { ay } else { 0 };
            let body_w = self.disp_w as i32 - self.body_l - self.body_r;
            let room = self.width as i32 - ir_x;
            let w = if body_w < room { body_w } else { room };
            let ir_w = if w > 0 { w } else { 0 };
            let b = self.pos_y + self.disp_h as i32;
            let bottom = if b < self.height as i32 { b } else { self.height as i32 };
            let h = bottom - ir_y;
            let ir_h = if h > 0 { h } else { 0 };
            Some((ir_x, ir_y, ir_w, ir_h))
        }
    }

    /// Which stretch frame is on screen: the first during the zoom-in, else the current one.
    pub fn stretch_frame(&self) -> (i: usize)
        ensures
            i == spec_stretch_frame(*self),
    {
        if !self.stretch_zooming_out && self.stretch_transition_ms < ZOOM_MS { 0 } else { self.frame_idx }
    }
}

/// Whether the pupils follow the cursor in state `st`.
pub fn shows_pupils(st: State) -> (r: bool)
    ensures
        r == spec_shows_pupils(st),
{
    st == State::Idle || st == State::Drag || st == State::Bounce || st == State::Lean
}

} // verus!

verus! {

/// A key press makes a pet that is not being dragged type, unless a stretch is under way.
pub proof fn law_key_press_starts_typing(s: Pet, input: FrameInput)
    requires
        s.wf(),
        input.key_pressed,
        !s.dragging,
    ensures
        frame_step(s, input).state == State::Typing || frame_step(s, input).state == State::Stretch,
{
}

/// Typing stops once its deadline has passed and no key was pressed.
pub proof fn law_typing_ends_without_keys(s: Pet, input: FrameInput)
    requires
        s.wf(),
        !input.key_pressed,
        input.typing_deadline_passed,
    ensures
        frame_step(s, input).state != State::Typing,
{
}

/// A stretch period of 0 disables the stretch: no frame starts one.
pub proof fn law_stretch_disabled(s: Pet, input: FrameInput)
    requires
        s.wf(),
        s.stretch_every_secs == 0,
        s.state != State::Stretch,
    ensures
        frame_step(s, input).state != State::Stretch,
        frame_output(s, input).restart_stretch_timer == false,
{
}

/// Bounce and lean play once: when their last frame's time is up, the pet is idle again,
/// from the first idle frame.
pub proof fn law_one_shot_returns_to_idle(s: Pet, time: u32)
    requires
        s.wf(),
        s.state == State::Bounce || s.state == State::Lean,
        s.frame_idx + 1 == s.frames_in(s.state),
        ms_since(time, s.last_anim_ms) >= s.anim_ms,
    ensures
        advance_phase(s, time).state == State::Idle,
        advance_phase(s, time).frame_idx == 0,
        advance_phase(s, time).state_start_ms == time,
{
}

/// The stretch holds its last frame: when that frame's time is up, the hold starts and the
/// frame stays.
pub proof fn law_stretch_holds_last_frame(s: Pet, time: u32)
    requires
        s.wf(),
        s.state == State::Stretch,
        s.stretch_hold_start is None,
        !s.stretch_zooming_out,
        s.frame_idx + 1 == s.frames_in(s.state),
        ms_since(time, s.last_anim_ms) >= s.stretch_anim_ms,
    ensures
        advance_phase(s, time).stretch_hold_start == Some(time),
        advance_phase(s, time).frame_idx == s.frame_idx,
        advance_phase(s, time).state == State::Stretch,
{
}

/// A stretch ends in the idle state once its zoom-out has run its full span.
pub proof fn law_stretch_ends_after_zoom_out(s: Pet, time: u32)
    requires
        s.stretch_zooming_out,
        ms_since(time, s.state_start_ms) >= ZOOM_MS,
    ensures
        zoom_out_phase(s, time).state == State::Idle,
        !zoom_out_phase(s, time).stretch_zooming_out,
        zoom_out_phase(s, time).frame_idx == 0,
{
}

/// Picking the pet up and dropping it leaves it idle, not dragged, on its first frame.
pub proof fn law_drop_after_pick_up(s: Pet)
    requires
        s.wf(),
    ensures
        release_step(press_step(s)).state == State::Idle,
        !release_step(press_step(s)).dragging,
        release_step(press_step(s)).frame_idx == 0,
        release_step(press_step(s)).pos_x == s.pos_x,
        release_step(press_step(s)).pos_y == s.pos_y,
{
}

/// A dragged pet stays on the screen: after any pointer motion its sprite's corner lies
/// between its transparent left margin off the left edge and the rightmost place, and
/// between the top edge and the lowest place.
pub proof fn law_drag_stays_on_screen(s: Pet, dx: i32, dy: i32)
    requires
        s.wf(),
        s.dragging,
        i32::MIN <= s.drag_start_pos_x + dx <= i32::MAX,
        i32::MIN <= s.drag_start_pos_y + dy <= i32::MAX,
    ensures
        -s.body_l <= motion_step(s, dx, dy).pos_x <= drag_max_x(s),
        0 <= motion_step(s, dx, dy).pos_y <= drag_max_y(s),
{
}

/// When the screen first has room for the pet and a margin on each side, the pet is
/// placed wholly on the screen.
pub proof fn law_first_placement_on_screen(s: Pet, new_w: u32, new_h: u32)
    requires
        s.wf(),
        !s.pos_initialized,
        new_w <= DIM_MAX,
        new_h <= DIM_MAX,
        new_w >= s.disp_w + 2 * CAT_BOTTOM_MARGIN,
        new_h >= s.disp_h + 2 * CAT_BOTTOM_MARGIN,
    ensures
        configure_step(s, new_w, new_h).pos_initialized,
        0 <= configure_step(s, new_w, new_h).pos_x,
        configure_step(s, new_w, new_h).pos_x + s.disp_w <= new_w,
        0 <= configure_step(s, new_w, new_h).pos_y,
        configure_step(s, new_w, new_h).pos_y + s.disp_h <= new_h,
{
}

} // verus!

verus! {

/// The loaded animations of the pet's body, one `Frames` per state; `stretch` is empty
/// until its frames are loaded.
pub struct Animations {
    pub idle: Frames,
    pub typing: Frames,
    pub drag: Frames,
    pub bounce: Frames,
    pub lean: Frames,
    pub stretch: Frames,
}

impl Animations {
    /// The frames that state `st` plays.
    pub open spec fn frames_of(&self, st: State) -> Seq<Vec<u8>> {
        match st {
            State::Idle => self.idle.right@,
            State::Typing => self.typing.right@,
            State::Drag => self.drag.right@,
            State::Bounce => self.bounce.right@,
            State::Lean => self.lean.right@,
            State::Stretch => self.stretch.right@,
        }
    }

    /// The animations hold as many frames as the pet counts for them: four idle and four
    /// typing frames, and the drag, bounce, lean and stretch counts.
    pub open spec fn fit(&self, pet: Pet) -> bool {
        &&& self.idle.right@.len() == 4
        &&& self.typing.right@.len() == 4
        &&& self.drag.right@.len() == pet.drag_frame_count
        &&& self.bounce.right@.len() == pet.bounce_frame_count
        &&& self.lean.right@.len() == pet.lean_frame_count
        &&& self.stretch.right@.len() == pet.stretch_frame_count
    }

    /// Frame `idx` of the animation of state `st`, if it has one.
    pub fn frame(&self, st: State, idx: usize) -> (r: Option<&Vec<u8>>)
        ensures
            idx < self.frames_of(st).len() ==> r == Some(&self.frames_of(st)[idx as int]),
            idx >= self.frames_of(st).len() ==> r is None,
    {
        let frames = match st {
            State::Idle => &self.idle,
            State::Typing => &self.typing,
            State::Drag => &self.drag,
            State::Bounce => &self.bounce,
            State::Lean => &self.lean,
            State::Stretch => &self.stretch,
        };
        if idx < frames.right.len() {
            Some(&frames.right[idx])
        } else {
            None
        }
    }
}

/// The frame that the pet shows exists, whenever the animations fit the pet, the bounce and
/// lean rows have a frame, and (for the drag, shown from its second frame) the drag row has
/// two; the stretch shows an existing frame too.
pub proof fn law_shown_frame_exists(pet: Pet, anims: Animations)
    requires
        pet.wf(),
        anims.fit(pet),
        pet.bounce_frame_count >= 1,
        pet.lean_frame_count >= 1,
        pet.state == State::Drag ==> pet.drag_frame_count >= 2,
    ensures
        pet.state != State::Stretch ==> pet.frame_idx < anims.frames_of(pet.state).len(),
        pet.state == State::Stretch ==> spec_stretch_frame(pet) < anims.frames_of(pet.state).len(),
{
}

} // verus!

verus! {

/// A bounce period of 0 disables the bounce: no frame starts one.
pub proof fn law_bounce_disabled(s: Pet, input: FrameInput)
    requires
        s.wf(),
        s.bounce_every_secs == 0,
        s.state != State::Bounce,
    ensures
        frame_step(s, input).state != State::Bounce,
        frame_output(s, input).restart_bounce_timer == false,
{
}

/// A lean period of 0 disables the lean: no frame starts one.
pub proof fn law_lean_disabled(s: Pet, input: FrameInput)
    requires
        s.wf(),
        s.lean_every_secs == 0,
        s.state != State::Lean,
    ensures
        frame_step(s, input).state != State::Lean,
        frame_output(s, input).restart_lean_timer == false,
{
}

impl Pet {
    /// The size at which the stretch is shown at its largest: half the screen's size.
    pub fn stretch_size(&self) -> (r: (u32, u32))
        ensures
            r.0 == self.width / 2,
            r.1 == self.height / 2,
    {
        (self.width / 2, self.height / 2)
    }
}

} // verus!

verus! {

/// Frame callbacks never move the pet, never pick it up or drop it, and never change the
/// screen size: only the pointer and the screen configuration do.
pub proof fn law_frames_do_not_move_the_pet(s: Pet, input: FrameInput)
    requires
        s.wf(),
    ensures
        frame_step(s, input).pos_x == s.pos_x,
        frame_step(s, input).pos_y == s.pos_y,
        frame_step(s, input).dragging == s.dragging,
        frame_step(s, input).width == s.width,
        frame_step(s, input).height == s.height,
{
    let t = input.time;
    let s1 = clock_phase(s, t);
    let s2 = advance_phase(s1, t);
    let s3 = idle_phase(s2, t);
    let s4 = stretch_start_phase(s3, input);
    let s5 = zoom_in_phase(s4, t);
    let s6 = hold_phase(s5, t);
    let s7 = zoom_out_phase(s6, t);
    let s8 = bounce_phase(s7, input);
    let s9 = lean_phase(s8, input);
    let s10 = key_phase(s9, input);
    assert(s2.pos_x == s.pos_x && s2.pos_y == s.pos_y && s2.dragging == s.dragging && s2.width == s.width
        && s2.height == s.height);
    assert(s4.pos_x == s.pos_x && s4.pos_y == s.pos_y && s4.dragging == s.dragging && s4.width == s.width
        && s4.height == s.height);
    assert(s7.pos_x == s.pos_x && s7.pos_y == s.pos_y && s7.dragging == s.dragging && s7.width == s.width
        && s7.height == s.height);
    assert(s10.pos_x == s.pos_x && s10.pos_y == s.pos_y && s10.dragging == s.dragging && s10.width == s.width
        && s10.height == s.height);
}

/// Once placed, the pet keeps its place when the screen is configured again; and while the
/// screen has no room for it yet, configuring leaves it unplaced where it is.
pub proof fn law_placement_happens_once(s: Pet, new_w: u32, new_h: u32)
    requires
        s.wf(),
        s.pos_initialized || configure_step(s, new_w, new_h).width == 0
            || configure_step(s, new_w, new_h).height <= s.disp_h,
    ensures
        configure_step(s, new_w, new_h).pos_x == s.pos_x,
        configure_step(s, new_w, new_h).pos_y == s.pos_y,
        configure_step(s, new_w, new_h).pos_initialized == s.pos_initialized,
{
}

/// A drag goes on through frame callbacks while no stretch is under way: no timer, key press
/// or scheduled animation interrupts it, and the pet stays where the pointer put it.
pub proof fn law_drag_survives_frames(s: Pet, input: FrameInput)
    requires
        s.wf(),
        s.dragging,
        s.state == State::Drag,
        s.stretch_hold_start is None,
        !s.stretch_zooming_out,
    ensures
        frame_step(s, input).state == State::Drag,
        frame_step(s, input).frame_idx == s.frame_idx,
        frame_step(s, input).pos_x == s.pos_x,
        frame_step(s, input).pos_y == s.pos_y,
{
}

/// Picking the pet up shows an existing drag frame, when the drag row has two frames and
/// the animations fit the pet.
pub proof fn law_pick_up_shows_an_existing_frame(s: Pet, anims: Animations)
    requires
        s.wf(),
        anims.fit(s),
        s.drag_frame_count >= 2,
    ensures
        press_step(s).frame_idx < anims.frames_of(press_step(s).state).len(),
{
}

} // verus!

verus! {

/// While the pet types, each key press shows the next typing frame, and after the last of
/// the four frames the first one again: the typing animation cycles with the keys. (A pet
/// that is dragged, or whose stretch is still holding or zooming out, is left out.)
pub proof fn law_typing_cycles_with_key_presses(s: Pet, input: FrameInput)
    requires
        s.wf(),
        s.state == State::Typing,
        !s.dragging,
        s.stretch_hold_start is None,
        !s.stretch_zooming_out,
        input.key_pressed,
    ensures
        frame_step(s, input).state == State::Typing,
        s.frame_idx < 3 ==> frame_step(s, input).frame_idx == s.frame_idx + 1,
        s.frame_idx == 3 ==> frame_step(s, input).frame_idx == 0,
        frame_step(s, input).frame_idx < 4,
{
}

/// The stretch frame on screen: the first one only while zooming in; while zooming out,
/// and once the zoom-in is done, the current frame.
pub proof fn law_stretch_frame_shown(s: Pet)
    ensures
        s.stretch_zooming_out ==> spec_stretch_frame(s) == s.frame_idx,
        s.stretch_transition_ms >= ZOOM_MS ==> spec_stretch_frame(s) == s.frame_idx,
        (!s.stretch_zooming_out && s.stretch_transition_ms < ZOOM_MS) ==> spec_stretch_frame(s) == 0,
{
}

/// The held last stretch frame stays on screen through the zoom-out: a frame callback that
/// leaves the pet stretching keeps that frame, and it is the one shown.
pub proof fn law_zoom_out_keeps_the_held_frame(s: Pet, input: FrameInput)
    requires
        s.wf(),
        s.state == State::Stretch,
        s.stretch_zooming_out,
        s.frame_idx + 1 == s.frames_in(State::Stretch),
    ensures
        frame_step(s, input).state == State::Stretch ==> {
            &&& frame_step(s, input).stretch_zooming_out
            &&& frame_step(s, input).frame_idx == s.frame_idx
            &&& spec_stretch_frame(frame_step(s, input)) == s.frame_idx
        },
{
    let t = input.time;
    let s1 = clock_phase(s, t);
    vstd::arithmetic::div_mod::lemma_mod_self_0(s.frames_in(State::Stretch));
    let s2 = advance_phase(s1, t);
    assert(s2.frame_idx == s.frame_idx && s2.state == State::Stretch && s2.stretch_zooming_out);
    let s3 = idle_phase(s2, t);
    let s4 = stretch_start_phase(s3, input);
    assert(s4.frame_idx == s.frame_idx && s4.state == State::Stretch && s4.stretch_zooming_out);
    let s5 = zoom_in_phase(s4, t);
    let s6 = hold_phase(s5, t);
    let s7 = zoom_out_phase(s6, t);
    assert(s7.state == State::Stretch ==> s7.frame_idx == s.frame_idx && s7.stretch_zooming_out);
    let s8 = bounce_phase(s7, input);
    let s9 = lean_phase(s8, input);
    let s10 = key_phase(s9, input);
    assert(s10.state == State::Stretch ==> s10.frame_idx == s.frame_idx && s10.stretch_zooming_out);
}

/// The first placement puts the pet in its configured corner, 16 pixels in from the two
/// edges that meet there: a top corner puts it 16 pixels below the top edge whatever its
/// side, a bottom corner 16 pixels above the bottom edge; a left corner 16 pixels right of
/// the left edge whatever its height, a right corner 16 pixels left of the right edge
/// (each as far as the screen has room; else at the edge).
pub proof fn law_placed_in_the_configured_corner(s: Pet, new_w: u32, new_h: u32)
    requires
        s.wf(),
        !s.pos_initialized,
        0 < new_w <= DIM_MAX,
        s.disp_h < new_h <= DIM_MAX,
    ensures
        configure_step(s, new_w, new_h).pos_initialized,
        s.corner_top ==> configure_step(s, new_w, new_h).pos_y == CAT_BOTTOM_MARGIN,
        !s.corner_top && new_h >= s.disp_h + CAT_BOTTOM_MARGIN ==> configure_step(s, new_w, new_h).pos_y
            + s.disp_h + CAT_BOTTOM_MARGIN == new_h,
        !s.corner_top && new_h < s.disp_h + CAT_BOTTOM_MARGIN ==> configure_step(s, new_w, new_h).pos_y == 0,
        !s.corner_right ==> configure_step(s, new_w, new_h).pos_x == CAT_BOTTOM_MARGIN,
        s.corner_right && new_w >= s.disp_w + CAT_BOTTOM_MARGIN ==> configure_step(s, new_w, new_h).pos_x
            + s.disp_w + CAT_BOTTOM_MARGIN == new_w,
        s.corner_right && new_w < s.disp_w + CAT_BOTTOM_MARGIN ==> configure_step(s, new_w, new_h).pos_x == 0,
{
}

/// The corner comes from the configured text: a new pet whose corner text contains "top"
/// is placed 16 pixels below the top edge, and one whose text lacks "right" 16 pixels right
/// of the left edge, when the screen is first configured.
pub proof fn law_corner_text_picks_the_edges(
    cfg: Config,
    drag_frames: usize,
    bounce_frames: usize,
    lean_frames: usize,
    new_w: u32,
    new_h: u32,
)
    requires
        cfg.scale <= SCALE_MAX,
        0 < new_w <= DIM_MAX,
        32 * cfg.scale < new_h <= DIM_MAX,
    ensures
        ({
            let text = vstd::utf8::encode_utf8(cfg.corner@);
            let p = configure_step(initial_pet(cfg, drag_frames, bounce_frames, lean_frames), new_w, new_h);
            &&& has_run(text, "top".spec_bytes()) ==> p.pos_y == CAT_BOTTOM_MARGIN
            &&& !has_run(text, "right".spec_bytes()) ==> p.pos_x == CAT_BOTTOM_MARGIN
            &&& (has_run(text, "right".spec_bytes()) && new_w >= 32 * cfg.scale + CAT_BOTTOM_MARGIN) ==> p.pos_x + 32
                * cfg.scale + CAT_BOTTOM_MARGIN == new_w
            &&& (!has_run(text, "top".spec_bytes()) && new_h >= 32 * cfg.scale + CAT_BOTTOM_MARGIN) ==> p.pos_y + 32
                * cfg.scale + CAT_BOTTOM_MARGIN == new_h
        }),
{
    let s = initial_pet(cfg, drag_frames, bounce_frames, lean_frames);
    law_placed_in_the_configured_corner(s, new_w, new_h);
}

} // verus!
