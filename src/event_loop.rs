use vstd::prelude::*;
use crossbeam::channel::{Receiver, Sender};
use crate::terminal::stops_renderer;
use crate::audio::{audio_response, AudioAction};
use crate::media::{action_of, after_command, PlaybackClock, SchedulerAction};

verus! {

/// A transport command, broadcast to every unit of the player.
#[derive(Debug, Clone, Copy, PartialEq, Eq, Structural)]
pub enum LoopEvent {
    /// Toggle between playing and paused.
    PlayPause,
    /// Seek by a signed number of seconds.
    Skip(i32),
    /// Stop playback and exit.
    Shutdown,
}

/// A key press, as far as the transport controls tell keys apart.
#[derive(Debug, Clone, Copy, PartialEq, Eq, Structural)]
pub enum KeyInput {
    /// A printable character.
    Char(char),
    /// A character typed with Ctrl held.
    Ctrl(char),
    /// Any other key.
    Other,
}

/// The command bound to a key: space or `k` toggles play, `j` and `l` seek
/// ten seconds back and forward, Ctrl-C shuts down; other keys do nothing.
pub open spec fn key_command(key: KeyInput) -> Option<LoopEvent> {
    match key {
        KeyInput::Char(c) => if c == ' ' || c == 'k' {
            Some(LoopEvent::PlayPause)
        } else if c == 'j' {
            Some(LoopEvent::Skip(-10i32))
        } else if c == 'l' {
            Some(LoopEvent::Skip(10i32))
        } else {
            None
        },
        KeyInput::Ctrl(c) => if c == 'c' {
            Some(LoopEvent::Shutdown)
        } else {
            None
        },
        KeyInput::Other => None,
    }
}

/// Maps a key press to its transport command, if it has one.
pub fn command_for_key(key: KeyInput) -> (r: Option<LoopEvent>)
    ensures
        r == key_command(key),
{
    match key {
        KeyInput::Char(c) => if c == ' ' || c == 'k' {
            Some(LoopEvent::PlayPause)
        } else if c == 'j' {
            Some(LoopEvent::Skip(-10i32))
        } else if c == 'l' {
            Some(LoopEvent::Skip(10i32))
        } else {
            None
        },
        KeyInput::Ctrl(c) => if c == 'c' {
            Some(LoopEvent::Shutdown)
        } else {
            None
        },
        KeyInput::Other => None,
    }
}

/// crossbeam's channel receiver, carried through unopened.
#[verifier::external_type_specification]
#[verifier::external_body]
#[verifier::reject_recursive_types(T)]
pub struct ExReceiver<T>(Receiver<T>);

/// The sending end of one subscriber's command queue: an unbounded crossbeam
/// channel, so that a send never waits.
#[verifier::external_body]
pub struct Subscriber {
    sender: Sender<LoopEvent>,
}

/// Every command handed to a subscriber's sender, in order.
pub uninterp spec fn handed(s: Subscriber) -> Seq<LoopEvent>;

/// The commands that a subscriber's channel accepted, in order: what its
/// receiver reads, oldest first.
pub uninterp spec fn queued(s: Subscriber) -> Seq<LoopEvent>;

/// Relies on crossbeam's `unbounded`: a new channel, with nothing in it.
#[verifier::external_body]
fn open_channel() -> (r: (Subscriber, Receiver<LoopEvent>))
    ensures
        handed(r.0) == Seq::<LoopEvent>::empty(),
        queued(r.0) == Seq::<LoopEvent>::empty(),
{
    let (sender, receiver) = crossbeam::channel::unbounded();
    (Subscriber { sender }, receiver)
}

/// Relies on crossbeam's `Sender::try_send`, which never waits: it returns
/// `Ok` once the command is in the channel, and otherwise leaves the channel
/// as it was (on an unbounded channel, only when the receiver is gone).
#[verifier::external_body]
fn offer(s: &mut Subscriber, event: LoopEvent) -> (r: bool)
    ensures
        handed(*final(s)) == handed(*old(s)).push(event),
        queued(*final(s)) == if r { queued(*old(s)).push(event) } else { queued(*old(s)) },
{
    s.sender.try_send(event).is_ok()
}

/// Opens one subscriber queue: the sender for the bus, the receiver for the
/// unit that subscribes.
pub fn subscribe() -> (r: (Subscriber, Receiver<LoopEvent>))
    ensures
        handed(r.0) == Seq::<LoopEvent>::empty(),
        queued(r.0) == Seq::<LoopEvent>::empty(),
{
    open_channel()
}

/// What one broadcast of `event` does to a subscriber: the command is handed
/// to it once more, and its queue gains it at the tail exactly when the
/// channel took it.
pub open spec fn broadcast_step(before: Subscriber, after: Subscriber, event: LoopEvent, taken: bool) -> bool {
    &&& handed(after) == handed(before).push(event)
    &&& queued(after) == if taken { queued(before).push(event) } else { queued(before) }
}

/// Fans each transport command out to one queue per subscriber.
pub struct EventLoopController {
    event_loop_senders: Vec<Subscriber>,
}

impl View for EventLoopController {
    /// The subscribers, in the order commands reach them.
    type V = Seq<Subscriber>;

    closed spec fn view(&self) -> Seq<Subscriber> {
        self.event_loop_senders@
    }
}

impl EventLoopController {
    /// A bus over exactly the given subscribers, in the given order. Nothing
    /// is sent.
    pub fn new(event_loop_senders: Vec<Subscriber>) -> (r: Self)
        ensures
            r@ == event_loop_senders@,
    {
        EventLoopController { event_loop_senders }
    }

    /// Hands `event` once to every subscriber, in subscriber order, without
    /// waiting. Entry `i` of the result tells whether subscriber `i`'s channel
    /// took it; a subscriber that has exited does not stop the others.
    pub fn send(&mut self, event: LoopEvent) -> (r: Vec<bool>)
        ensures
            final(self)@.len() == old(self)@.len(),
            r@.len() == old(self)@.len(),
            forall|i: int| 0 <= i < old(self)@.len() ==> broadcast_step(
                #[trigger] old(self)@[i],
                final(self)@[i],
                event,
                r@[i],
            ),
    {
        let ghost start = self.event_loop_senders@;
        let mut pending: Vec<Subscriber> = Vec::new();
        std::mem::swap(&mut pending, &mut self.event_loop_senders);
        let mut taken: Vec<bool> = Vec::new();
        while pending.len() > 0
            invariant
                self.event_loop_senders@.len() + pending@.len() == start.len(),
                taken@.len() == self.event_loop_senders@.len(),
                pending@ == start.subrange(self.event_loop_senders@.len() as int, start.len() as int),
                forall|k: int| 0 <= k < self.event_loop_senders@.len() ==> broadcast_step(
                    #[trigger] start[k],
                    self.event_loop_senders@[k],
                    event,
                    taken@[k],
                ),
            decreases pending@.len(),
        {
            let mut s = pending.remove(0);
            let ok = offer(&mut s, event);
            self.event_loop_senders.push(s);
            taken.push(ok);
        }
        taken
    }
}

/// How many times `event` stands in a log.
pub open spec fn occurrences(log: Seq<LoopEvent>, event: LoopEvent) -> nat {
    log.filter(|e: LoopEvent| e == event).len()
}

/// A shutdown broadcast once is handed to every subscriber exactly once
/// more; each queue that took it holds it once more, behind all earlier
/// commands; and each unit stops on it: the scheduler's next step is to exit
/// whatever else is waiting, the renderer stops, and the audio player stops
/// its device.
pub proof fn lemma_shutdown_reaches_every_unit(
    before: Seq<Subscriber>,
    after: Seq<Subscriber>,
    taken: Seq<bool>,
    clock: PlaybackClock,
    audio_paused: bool,
    command_pending: bool,
)
    requires
        after.len() == before.len(),
        taken.len() == before.len(),
        forall|i: int| 0 <= i < before.len() ==> broadcast_step(
            #[trigger] before[i],
            after[i],
            LoopEvent::Shutdown,
            taken[i],
        ),
    ensures
        forall|i: int| 0 <= i < before.len() ==> occurrences(handed(#[trigger] after[i]), LoopEvent::Shutdown)
            == occurrences(handed(before[i]), LoopEvent::Shutdown) + 1,
        forall|i: int| 0 <= i < before.len() && taken[i] ==> {
            &&& queued(#[trigger] after[i]).last() == LoopEvent::Shutdown
            &&& queued(after[i]).drop_last() == queued(before[i])
            &&& occurrences(queued(after[i]), LoopEvent::Shutdown)
                == occurrences(queued(before[i]), LoopEvent::Shutdown) + 1
        },
        action_of(after_command(clock, LoopEvent::Shutdown), command_pending) == SchedulerAction::Exit,
        stops_renderer(LoopEvent::Shutdown),
        audio_response(audio_paused, LoopEvent::Shutdown) == AudioAction::Stop,
{
    assert forall|i: int| 0 <= i < before.len() implies occurrences(handed(#[trigger] after[i]), LoopEvent::Shutdown)
        == occurrences(handed(before[i]), LoopEvent::Shutdown) + 1 by {
        lemma_occurrences_push(handed(before[i]), LoopEvent::Shutdown);
    }
    assert forall|i: int| 0 <= i < before.len() && taken[i] implies {
        &&& queued(#[trigger] after[i]).last() == LoopEvent::Shutdown
        &&& queued(after[i]).drop_last() == queued(before[i])
        &&& occurrences(queued(after[i]), LoopEvent::Shutdown)
            == occurrences(queued(before[i]), LoopEvent::Shutdown) + 1
    } by {
        assert(queued(after[i]).drop_last() == queued(before[i]));
        lemma_occurrences_push(queued(before[i]), LoopEvent::Shutdown);
    }
}

proof fn lemma_occurrences_push(log: Seq<LoopEvent>, event: LoopEvent)
    ensures
        occurrences(log.push(event), event) == occurrences(log, event) + 1,
{
    reveal(Seq::filter);
    assert(log.push(event).drop_last() == log);
}

} // verus!
