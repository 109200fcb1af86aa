use termplay::audio::{audio_action, AudioAction};
use termplay::event_loop::{command_for_key, subscribe, EventLoopController, KeyInput, LoopEvent};
use termplay::media::{frame_budget_ms, pacing, Pacing, PlaybackClock, SchedulerAction};

#[test]
fn budget_from_frame_rate() {
    assert_eq!(frame_budget_ms(10_000), 100);
    assert_eq!(frame_budget_ms(25_000), 40);
    assert_eq!(frame_budget_ms(30_000), 33);
    assert_eq!(frame_budget_ms(23_976), 41);
    assert_eq!(frame_budget_ms(0), 1);
    assert_eq!(frame_budget_ms(5_000_000), 1);
}

#[test]
fn slow_frame_skips_two() {
    assert_eq!(pacing(250, 100), Pacing::CatchUp(2));
    let mut c = PlaybackClock::new(10_000);
    assert_eq!(c.budget_ms(), 100);
    assert_eq!(c.finish_frame(250), Pacing::CatchUp(2));
    assert_eq!(c.frame_index, 3);
    assert_eq!(c.finish_frame(30), Pacing::Sleep(70));
    assert_eq!(c.frame_index, 4);
}

#[test]
fn pacing_edges() {
    assert_eq!(pacing(0, 100), Pacing::Sleep(100));
    assert_eq!(pacing(99, 100), Pacing::Sleep(1));
    assert_eq!(pacing(100, 100), Pacing::CatchUp(0));
    assert_eq!(pacing(101, 100), Pacing::CatchUp(1));
    assert_eq!(pacing(200, 100), Pacing::CatchUp(1));
    assert_eq!(pacing(201, 100), Pacing::CatchUp(2));
}

#[test]
fn skip_back_never_seeks_before_start() {
    let mut c = PlaybackClock::new(25_000);
    c.frame_index = 50;
    assert_eq!(c.apply(LoopEvent::Skip(-10)), Some(0));
    assert_eq!(c.frame_index, 0);
}

#[test]
fn skip_forward_and_back() {
    let mut c = PlaybackClock::new(25_000);
    c.frame_index = 50;
    assert_eq!(c.apply(LoopEvent::Skip(10)), Some(300));
    assert_eq!(c.apply(LoopEvent::Skip(-10)), Some(50));
    assert!(c.is_playing);
}

#[test]
fn unknown_rate_counts_as_thirty() {
    let mut c = PlaybackClock::new(0);
    assert_eq!(c.fps_milli, 30_000);
    assert_eq!(c.apply(LoopEvent::Skip(1)), Some(30));
}

#[test]
fn play_pause_and_shutdown_states() {
    let mut c = PlaybackClock::new(30_000);
    assert_eq!(c.next_action(false), SchedulerAction::ProduceFrame);
    assert_eq!(c.next_action(true), SchedulerAction::TakeCommand);
    assert_eq!(c.apply(LoopEvent::PlayPause), None);
    assert!(!c.is_playing);
    assert_eq!(c.next_action(false), SchedulerAction::TakeCommand);
    c.apply(LoopEvent::PlayPause);
    assert!(c.is_playing);
    assert_eq!(c.apply(LoopEvent::Shutdown), None);
    assert_eq!(c.next_action(true), SchedulerAction::Exit);
    assert_eq!(c.next_action(false), SchedulerAction::Exit);
}

#[test]
fn keys_map_to_commands() {
    assert_eq!(command_for_key(KeyInput::Char(' ')), Some(LoopEvent::PlayPause));
    assert_eq!(command_for_key(KeyInput::Char('k')), Some(LoopEvent::PlayPause));
    assert_eq!(command_for_key(KeyInput::Char('j')), Some(LoopEvent::Skip(-10)));
    assert_eq!(command_for_key(KeyInput::Char('l')), Some(LoopEvent::Skip(10)));
    assert_eq!(command_for_key(KeyInput::Ctrl('c')), Some(LoopEvent::Shutdown));
    assert_eq!(command_for_key(KeyInput::Char('c')), None);
    assert_eq!(command_for_key(KeyInput::Ctrl('x')), None);
    assert_eq!(command_for_key(KeyInput::Other), None);
}

#[test]
fn audio_follows_commands() {
    assert_eq!(audio_action(false, LoopEvent::PlayPause), AudioAction::Pause);
    assert_eq!(audio_action(true, LoopEvent::PlayPause), AudioAction::Play);
    assert_eq!(audio_action(false, LoopEvent::Skip(-10)), AudioAction::Ignore);
    assert_eq!(audio_action(true, LoopEvent::Shutdown), AudioAction::Stop);
}

fn bus(n: usize) -> (EventLoopController, Vec<crossbeam::channel::Receiver<LoopEvent>>) {
    let mut subs = Vec::new();
    let mut rxs = Vec::new();
    for _ in 0..n {
        let (s, r) = subscribe();
        subs.push(s);
        rxs.push(r);
    }
    (EventLoopController::new(subs), rxs)
}

#[test]
fn shutdown_reaches_all_three_subscribers_once() {
    let (mut bus, rxs) = bus(3);
    assert_eq!(bus.send(LoopEvent::PlayPause), vec![true, true, true]);
    assert_eq!(bus.send(LoopEvent::Shutdown), vec![true, true, true]);
    for rx in &rxs {
        assert_eq!(rx.len(), 2);
        assert_eq!(rx.try_recv(), Ok(LoopEvent::PlayPause));
        assert_eq!(rx.try_recv(), Ok(LoopEvent::Shutdown));
        assert!(rx.try_recv().is_err());
    }
    let mut clock = PlaybackClock::new(30_000);
    clock.apply(LoopEvent::Shutdown);
    assert_eq!(clock.next_action(false), SchedulerAction::Exit);
}

#[test]
fn departed_subscriber_does_not_stop_the_others() {
    let (mut bus, mut rxs) = bus(3);
    drop(rxs.remove(1));
    assert_eq!(bus.send(LoopEvent::Shutdown), vec![true, false, true]);
    assert_eq!(bus.send(LoopEvent::Shutdown), vec![true, false, true]);
    for rx in &rxs {
        assert_eq!(rx.try_recv(), Ok(LoopEvent::Shutdown));
        assert_eq!(rx.try_recv(), Ok(LoopEvent::Shutdown));
    }
}

#[test]
fn key_sequence_reaches_every_queue_in_order() {
    let (mut bus, rxs) = bus(3);
    let keys = [KeyInput::Char(' '), KeyInput::Char('x'), KeyInput::Char('l'), KeyInput::Char('j'), KeyInput::Ctrl('c')];
    for key in keys {
        if let Some(event) = command_for_key(key) {
            bus.send(event);
        }
    }
    for rx in &rxs {
        let got: Vec<LoopEvent> = rx.try_iter().collect();
        assert_eq!(got, vec![LoopEvent::PlayPause, LoopEvent::Skip(10), LoopEvent::Skip(-10), LoopEvent::Shutdown]);
    }
}

#[test]
fn empty_bus_sends_nothing() {
    let (mut bus, _rxs) = bus(0);
    assert!(bus.send(LoopEvent::PlayPause).is_empty());
}

#[test]
fn fractional_rate_seeks_truncate_toward_zero() {
    let mut c = PlaybackClock::new(23_976);
    assert_eq!(c.budget_ms(), 41);
    assert_eq!(c.apply(LoopEvent::Skip(10)), Some(239));
    c.frame_index = 300;
    assert_eq!(c.apply(LoopEvent::Skip(-10)), Some(61));
}
