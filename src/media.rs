use vstd::prelude::*;
use crate::event_loop::LoopEvent;

verus! {

/// The frame rate assumed for a source that reports none, in thousandths of
/// a frame per second (30 fps).
pub const DEFAULT_FPS_MILLI: u32 = 30_000;

/// The frame rate the scheduler paces at, in thousandths of a frame per
/// second.
pub open spec fn effective_fps(fps_milli: u32) -> u32 {
    if fps_milli == 0 { DEFAULT_FPS_MILLI } else { fps_milli }
}

/// The pacing budget in milliseconds for a rate of `fps_milli` thousandths
/// of a frame per second: `floor(1000 / fps)`, at least one.
pub open spec fn budget_of(fps_milli: nat) -> nat {
    if fps_milli == 0 || 1_000_000nat / fps_milli == 0 { 1 } else { 1_000_000nat / fps_milli }
}

/// The frames that `seconds` span at `fps_milli` thousandths of a frame per
/// second: `seconds * fps`, truncated toward zero.
pub open spec fn frames_in(seconds: int, fps_milli: int) -> int {
    if seconds >= 0 {
        seconds * fps_milli / 1000
    } else {
        -(((-seconds) * fps_milli) / 1000)
    }
}

/// How many frames a frame that took `t` ms is behind a budget of `b` ms:
/// `ceil((t - b) / b)`.
pub open spec fn frames_behind(t: nat, b: nat) -> nat {
    (((t - b) + b - 1) / (b as int)) as nat
}

/// A frame that overran its budget makes the scheduler drop just enough
/// frames to cover the overrun, and no more: the dropped frames' budgets
/// reach at least the overrun and fall short of it plus one budget, so the
/// stream never drifts more than one frame behind the clock.
pub proof fn lemma_catch_up_covers_overrun(t: nat, b: nat)
    requires
        b > 0,
        t >= b,
    ensures
        frames_behind(t, b) * b >= t - b,
        frames_behind(t, b) * b < t,
{
    let o = t - b;
    let k = frames_behind(t, b);
    vstd::arithmetic::div_mod::lemma_fundamental_div_mod(o + b - 1, b as int);
    let r = (o + b - 1) % (b as int);
    assert(o + b - 1 == b * k + r);
    assert(k * b >= o) by (nonlinear_arith)
        requires o + b - 1 == b * k + r, 0 <= r < b;
    assert(k * b < t) by (nonlinear_arith)
        requires o + b - 1 == b * k + r, 0 <= r, t == o + b;
}

/// What the scheduler does once a frame is out.
#[derive(Debug, Clone, Copy, PartialEq, Eq, Structural)]
pub enum Pacing {
    /// On time: sleep this many milliseconds, then go on.
    Sleep(u64),
    /// Behind: read and drop this many frames, then go on at once.
    CatchUp(u64),
}

/// The pacing rule: sleep off what is left of the budget, or drop the frames
/// that the overrun covers.
pub open spec fn pacing_of(t: nat, b: nat) -> Pacing {
    if t < b {
        Pacing::Sleep((b - t) as u64)
    } else {
        Pacing::CatchUp(frames_behind(t, b) as u64)
    }
}

/// Frames that a pacing decision advances the stream position by.
pub open spec fn advance_of(p: Pacing) -> nat {
    match p {
        Pacing::Sleep(_) => 1,
        Pacing::CatchUp(n) => (1 + n) as nat,
    }
}

/// A frame index kept within `0 ..= i64::MAX`.
pub open spec fn clamp_index(t: int) -> int {
    if t < 0 { 0 } else if t > i64::MAX { i64::MAX as int } else { t }
}

/// The frame a seek of `seconds` lands on: `max(0, index + seconds * fps)`.
pub open spec fn skip_target(index: int, seconds: int, fps_milli: int) -> int {
    clamp_index(index + frames_in(seconds, fps_milli))
}

/// What the scheduler does next.
#[derive(Debug, Clone, Copy, PartialEq, Eq, Structural)]
pub enum SchedulerAction {
    /// Stop: release the source and return.
    Exit,
    /// Take the next command, waiting for one while paused.
    TakeCommand,
    /// Read, encode and send the next frame.
    ProduceFrame,
}

/// The playback scheduler's own state.
#[derive(Debug, Clone, Copy, PartialEq, Eq, Structural)]
pub struct PlaybackClock {
    /// Position in the stream, in frames.
    pub frame_index: i64,
    pub is_playing: bool,
    pub is_shutdown: bool,
    /// The frame rate paced at, in thousandths of a frame per second.
    pub fps_milli: u32,
}

/// The state after one transport command.
pub open spec fn after_command(c: PlaybackClock, event: LoopEvent) -> PlaybackClock {
    match event {
        LoopEvent::PlayPause => PlaybackClock {
            frame_index: c.frame_index,
            is_playing: !c.is_playing,
            is_shutdown: c.is_shutdown,
            fps_milli: c.fps_milli,
        },
        LoopEvent::Skip(seconds) => PlaybackClock {
            frame_index: skip_target(c.frame_index as int, seconds as int, c.fps_milli as int) as i64,
            is_playing: c.is_playing,
            is_shutdown: c.is_shutdown,
            fps_milli: c.fps_milli,
        },
        LoopEvent::Shutdown => PlaybackClock {
            frame_index: c.frame_index,
            is_playing: c.is_playing,
            is_shutdown: true,
            fps_milli: c.fps_milli,
        },
    }
}

/// The next step: exit once shut down; commands come before frames, and a
/// paused scheduler only waits for commands.
pub open spec fn action_of(c: PlaybackClock, command_pending: bool) -> SchedulerAction {
    if c.is_shutdown {
        SchedulerAction::Exit
    } else if command_pending || !c.is_playing {
        SchedulerAction::TakeCommand
    } else {
        SchedulerAction::ProduceFrame
    }
}

/// The pacing budget for a rate of `fps_milli` thousandths of a frame per
/// second: `floor(1000 / fps)` milliseconds, at least one.
pub fn frame_budget_ms(fps_milli: u32) -> (r: u64)
    ensures
        r as nat == budget_of(fps_milli as nat),
        r >= 1,
{
    if fps_milli == 0 || 1_000_000 / fps_milli == 0 {
        1
    } else {
        (1_000_000 / fps_milli) as u64
    }
}

/// Decides how to pace after a frame that took `elapsed_ms`.
pub fn pacing(elapsed_ms: u64, budget_ms: u64) -> (r: Pacing)
    requires
        budget_ms > 0,
    ensures
        r == pacing_of(elapsed_ms as nat, budget_ms as nat),
{
    if elapsed_ms < budget_ms {
        Pacing::Sleep(budget_ms - elapsed_ms)
    } else {
        let over = elapsed_ms - budget_ms;
        let n = over / budget_ms + if over % budget_ms == 0 { 0 } else { 1 };
        proof {
            let b = budget_ms as int;
            let o = over as int;
            vstd::arithmetic::div_mod::lemma_fundamental_div_mod(o, b);
            let q = o / b;
            let m = o % b;
            if m == 0 {
                assert(o + b - 1 == q * b + (b - 1)) by (nonlinear_arith)
                    requires o == b * q + m, m == 0;
                assert((o + b - 1) / b == q) by {
                    vstd::arithmetic::div_mod::lemma_fundamental_div_mod_converse(o + b - 1, b, q, b - 1);
                }
            } else {
                assert(o + b - 1 == (q + 1) * b + (m - 1)) by (nonlinear_arith)
                    requires o == b * q + m;
                assert((o + b - 1) / b == q + 1) by {
                    vstd::arithmetic::div_mod::lemma_fundamental_div_mod_converse(o + b - 1, b, q + 1, m - 1);
                }
            }
        }
        Pacing::CatchUp(n)
    }
}

impl PlaybackClock {
    /// The index is never negative and the frame rate is positive.
    pub open spec fn wf(&self) -> bool {
        self.frame_index >= 0 && self.fps_milli > 0
    }

    /// A scheduler at the stream's start, playing, at `fps_milli` thousandths
    /// of a frame per second; zero stands for a rate the source does not
    /// report.
    pub fn new(fps_milli: u32) -> (r: Self)
        ensures
            r.wf(),
            r == (PlaybackClock { frame_index: 0, is_playing: true, is_shutdown: false, fps_milli: effective_fps(fps_milli) }),
    {
        PlaybackClock {
            frame_index: 0,
            is_playing: true,
            is_shutdown: false,
            fps_milli: if fps_milli == 0 { DEFAULT_FPS_MILLI } else { fps_milli },
        }
    }

    /// The next step, given whether a command is waiting.
    pub fn next_action(&self, command_pending: bool) -> (r: SchedulerAction)
        ensures
            r == action_of(*self, command_pending),
    {
        if self.is_shutdown {
            SchedulerAction::Exit
        } else if command_pending || !self.is_playing {
            SchedulerAction::TakeCommand
        } else {
            SchedulerAction::ProduceFrame
        }
    }

    /// Applies a transport command. For a seek it returns the frame that the
    /// source must be moved to.
    pub fn apply(&mut self, event: LoopEvent) -> (r: Option<i64>)
        requires
            old(self).wf(),
        ensures
            final(self).wf(),
            *final(self) == after_command(*old(self), event),
            r == (match event {
                LoopEvent::Skip(_) => Some(final(self).frame_index),
                _ => None,
            }),
    {
        match event {
            LoopEvent::PlayPause => {
                self.is_playing = !self.is_playing;
                None
            },
            LoopEvent::Skip(seconds) => {
                let d = seconds as i128;
                let f = self.fps_milli as i128;
                let frames: i128 = if d >= 0 {
                    assert(0 <= d * f <= 0x8000_0000_0000_0000) by (nonlinear_arith)
                        requires 0 <= d <= 0x8000_0000, 0 <= f <= 0xffff_ffff;
                    d * f / 1000
                } else {
                    assert(0 <= (-d) * f <= 0x8000_0000_0000_0000) by (nonlinear_arith)
                        requires -0x8000_0000 <= d < 0, 0 <= f <= 0xffff_ffff;
                    -(((-d) * f) / 1000)
                };
                let t: i128 = self.frame_index as i128 + frames;
                let target: i64 = if t < 0 {
                    0
                } else if t > i64::MAX as i128 {
                    i64::MAX
                } else {
                    t as i64
                };
                self.frame_index = target;
                Some(target)
            },
            LoopEvent::Shutdown => {
                self.is_shutdown = true;
                None
            },
        }
    }

    /// The pacing budget in milliseconds.
    pub fn budget_ms(&self) -> (r: u64)
        ensures
            r as nat == budget_of(self.fps_milli as nat),
            r >= 1,
    {
        frame_budget_ms(self.fps_milli)
    }

    /// Records a frame sent after `elapsed_ms` of work: the position moves
    /// past it and past the frames to drop, and the pacing is returned.
    pub fn finish_frame(&mut self, elapsed_ms: u64) -> (r: Pacing)
        requires
            old(self).wf(),
        ensures
            final(self).wf(),
            r == pacing_of(elapsed_ms as nat, budget_of(old(self).fps_milli as nat)),
            final(self).frame_index == clamp_index(old(self).frame_index + advance_of(r)),
            final(self).is_playing == old(self).is_playing,
            final(self).is_shutdown == old(self).is_shutdown,
            final(self).fps_milli == old(self).fps_milli,
    {
        let b = self.budget_ms();
        let p = pacing(elapsed_ms, b);
        let step: u64 = match p {
            Pacing::Sleep(_) => 0,
            Pacing::CatchUp(n) => n,
        };
        let t: i128 = self.frame_index as i128 + 1 + step as i128;
        self.frame_index = if t > i64::MAX as i128 { i64::MAX } else { t as i64 };
        p
    }
}

} // verus!
