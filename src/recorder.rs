//! The recording state machine: when sessions start and stop.
use vstd::prelude::*;
use crate::clock::now_millis;
use crate::log::{MotionEvent, MotionEventView, MovementLog};
use crate::names::{is_random_name, random_alphanumeric};

verus! {

/// How long, in milliseconds, a session goes on without a motion signal
/// before it stops.
pub const QUIET_PERIOD_MS: u64 = 5000;

/// What the recorder learnt since its last step: a motion signal arrived, or
/// the quiet period passed without one.
#[derive(Clone, Copy, Debug, PartialEq, Eq, Structural)]
pub enum Observation {
    Motion,
    Quiet,
}

/// Whether a session is active, and since when.
#[derive(Clone, Copy, Debug, PartialEq, Eq, Structural)]
pub enum Phase {
    Idle,
    Recording { start_ms: i64 },
}

/// What the caller is to do after a step.
#[derive(Debug)]
pub enum Action {
    /// Nothing changes.
    Nothing,
    /// Start mirroring the stream into a new clip of this name.
    StartClip { clip: String },
    /// Stop the active clip; the event has been appended to the log, which
    /// is to be persisted.
    StopClip { event: MotionEvent },
}

pub enum ActionView {
    Nothing,
    StartClip { clip: Seq<char> },
    StopClip { event: MotionEventView },
}

impl View for Action {
    type V = ActionView;

    open spec fn view(&self) -> ActionView {
        match self {
            Action::Nothing => ActionView::Nothing,
            Action::StartClip { clip } => ActionView::StartClip { clip: clip@ },
            Action::StopClip { event } => ActionView::StopClip { event: event@ },
        }
    }
}

/// The recorder: at most one session at a time, and the log of the finished
/// ones.
pub struct Recorder {
    phase: Phase,
    next_clip: String,
    log: MovementLog,
}

pub struct RecorderView {
    pub phase: Phase,
    /// The name the next session's clip will have.
    pub next_clip: Seq<char>,
    pub log: Seq<MotionEventView>,
}

impl View for Recorder {
    type V = RecorderView;

    closed spec fn view(&self) -> RecorderView {
        RecorderView { phase: self.phase, next_clip: self.next_clip@, log: self.log@ }
    }
}

/// The recorder after observing `obs` at time `now`; `fresh` is the name
/// reserved for the session after the one that stops, if one stops.
pub open spec fn next_state(s: RecorderView, obs: Observation, now: i64, fresh: Seq<char>) -> RecorderView {
    match (s.phase, obs) {
        (Phase::Idle, Observation::Motion) => RecorderView { phase: Phase::Recording { start_ms: now }, ..s },
        (Phase::Recording { start_ms }, Observation::Quiet) => RecorderView {
            phase: Phase::Idle,
            next_clip: fresh,
            log: s.log.push(MotionEventView { start_ms, end_ms: now, clip: s.next_clip }),
        },
        _ => s,
    }
}

/// What the caller is told to do after observing `obs` at time `now`.
pub open spec fn next_action(s: RecorderView, obs: Observation, now: i64) -> ActionView {
    match (s.phase, obs) {
        (Phase::Idle, Observation::Motion) => ActionView::StartClip { clip: s.next_clip },
        (Phase::Recording { start_ms }, Observation::Quiet) => ActionView::StopClip {
            event: MotionEventView { start_ms, end_ms: now, clip: s.next_clip },
        },
        _ => ActionView::Nothing,
    }
}

impl Recorder {
    /// An idle recorder with an empty log whose first clip will be named
    /// `first_clip`.
    pub fn new(first_clip: String) -> (r: Self)
        ensures
            r@.phase == Phase::Idle,
            r@.next_clip == first_clip@,
            r@.log == Seq::<MotionEventView>::empty(),
    {
        Recorder { phase: Phase::Idle, next_clip: first_clip, log: MovementLog::new() }
    }

    /// An idle recorder with an empty log and a random name for its first
    /// clip.
    pub fn with_random_name() -> (r: Self)
        ensures
            r@.phase == Phase::Idle,
            is_random_name(r@.next_clip),
            r@.log == Seq::<MotionEventView>::empty(),
    {
        Recorder::new(random_alphanumeric())
    }

    pub fn phase(&self) -> (r: Phase)
        ensures
            r == self@.phase,
    {
        self.phase
    }

    pub fn is_recording(&self) -> (r: bool)
        ensures
            r == (self@.phase is Recording),
    {
        match self.phase {
            Phase::Idle => false,
            Phase::Recording { .. } => true,
        }
    }

    /// The log of finished sessions.
    pub fn log(&self) -> (r: &MovementLog)
        ensures
            r@ == self@.log,
    {
        &self.log
    }

    /// One step of the state machine. Idle and motion: a session starts at
    /// `now` under the reserved name. Recording and quiet: the session
    /// stops, its event `{start, now, name}` is appended to the log, and
    /// `fresh` is reserved for the next session. Otherwise nothing changes:
    /// motion during a session never starts a second one.
    pub fn step(&mut self, obs: Observation, now: i64, fresh: String) -> (r: Action)
        ensures
            final(self)@ == next_state(old(self)@, obs, now, fresh@),
            r@ == next_action(old(self)@, obs, now),
    {
        match (self.phase, obs) {
            (Phase::Idle, Observation::Motion) => {
                self.phase = Phase::Recording { start_ms: now };
                Action::StartClip { clip: self.next_clip.clone() }
            },
            (Phase::Recording { start_ms }, Observation::Quiet) => {
                let event = MotionEvent::new(start_ms, now, self.next_clip.clone());
                let reported = event.duplicate();
                self.log.append(event);
                self.next_clip = fresh;
                self.phase = Phase::Idle;
                Action::StopClip { event: reported }
            },
            _ => Action::Nothing,
        }
    }

    /// A step at the current time; a session that stops reserves a random
    /// name of 32 ASCII letters and digits for the next one.
    pub fn step_now(&mut self, obs: Observation) -> (r: Action)
        ensures
            exists|now: i64, fresh: Seq<char>|
                {
                    &&& final(self)@ == next_state(old(self)@, obs, now, fresh)
                    &&& r@ == next_action(old(self)@, obs, now)
                    &&& (obs == Observation::Quiet && old(self)@.phase is Recording)
                        ==> is_random_name(fresh)
                },
    {
        let now = now_millis();
        let fresh = if obs == Observation::Quiet && self.is_recording() {
            random_alphanumeric()
        } else {
            String::new()
        };
        self.step(obs, now, fresh)
    }
}

/// Motion during a session changes nothing: no second session starts, the
/// start time and the reserved name stay, and nothing is asked of the caller.
pub proof fn lemma_motion_while_recording_is_idempotent(
    s: RecorderView,
    now: i64,
    fresh: Seq<char>,
)
    requires
        s.phase is Recording,
    ensures
        next_state(s, Observation::Motion, now, fresh) == s,
        next_action(s, Observation::Motion, now) == ActionView::Nothing,
{
}

/// A session started at `t0` and followed by no motion stops when the quiet
/// period has passed, at `t0 + QUIET_PERIOD_MS`, and leaves exactly one new
/// event, from `t0` to `t0 + QUIET_PERIOD_MS`, under the reserved name.
pub proof fn lemma_quiet_session_stops_after_quiet_period(
    s: RecorderView,
    t0: i64,
    fresh1: Seq<char>,
    fresh2: Seq<char>,
)
    requires
        s.phase == Phase::Idle,
        t0 + QUIET_PERIOD_MS <= i64::MAX,
    ensures
        ({
            let t1 = (t0 + QUIET_PERIOD_MS) as i64;
            let started = next_state(s, Observation::Motion, t0, fresh1);
            let stopped = next_state(started, Observation::Quiet, t1, fresh2);
            &&& started.phase == Phase::Recording { start_ms: t0 }
            &&& next_action(started, Observation::Quiet, t1) == ActionView::StopClip {
                event: MotionEventView { start_ms: t0, end_ms: t1, clip: s.next_clip },
            }
            &&& stopped.phase == Phase::Idle
            &&& stopped.log == s.log.push(
                MotionEventView { start_ms: t0, end_ms: t1, clip: s.next_clip },
            )
        }),
{
}

} // verus!
