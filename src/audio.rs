use vstd::prelude::*;
use crate::event_loop::LoopEvent;

verus! {

/// What the audio player does with the device on a transport command.
#[derive(Debug, Clone, Copy, PartialEq, Eq, Structural)]
pub enum AudioAction {
    Play,
    Pause,
    /// Stop the device and exit.
    Stop,
    /// Leave the device as it is.
    Ignore,
}

/// Play-pause toggles the device, shutdown stops it, a seek leaves it alone.
pub open spec fn audio_response(is_paused: bool, event: LoopEvent) -> AudioAction {
    match event {
        LoopEvent::PlayPause => if is_paused { AudioAction::Play } else { AudioAction::Pause },
        LoopEvent::Skip(_) => AudioAction::Ignore,
        LoopEvent::Shutdown => AudioAction::Stop,
    }
}

/// The audio player's response to a command, given whether it is paused.
pub fn audio_action(is_paused: bool, event: LoopEvent) -> (r: AudioAction)
    ensures
        r == audio_response(is_paused, event),
{
    match event {
        LoopEvent::PlayPause => if is_paused { AudioAction::Play } else { AudioAction::Pause },
        LoopEvent::Skip(_) => AudioAction::Ignore,
        LoopEvent::Shutdown => AudioAction::Stop,
    }
}

} // verus!
