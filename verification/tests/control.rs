use homepod_cast::control::{Cmd, Control, Effect, Received, Status, KEEPALIVE_NS};
use homepod_cast::volume::from_slider;

fn start(c: &mut Control, device: usize, now: u64) {
    c.receive(Received::Command(Cmd::Start(device)));
    assert_eq!(c.started(device, true, now), Status::Streaming(device));
}

#[test]
fn control_starts_stopped() {
    let c = Control::new(2, from_slider(25), 7);
    assert_eq!(c.session, None);
    assert!(!c.keepalive(u64::MAX));
}

#[test]
fn starting_uses_the_volume_that_was_set_last() {
    let mut c = Control::new(2, from_slider(25), 0);
    let set = c.receive(Received::Command(Cmd::SetVolume(from_slider(40))));
    assert_eq!(set, vec![Effect::SaveVolume(from_slider(40))]);
    c.receive(Received::Nothing);
    c.receive(Received::Command(Cmd::Stop));
    let effects = c.receive(Received::Command(Cmd::Start(1)));
    assert_eq!(effects, vec![Effect::StartSession { device: 1, volume: from_slider(40) }]);
}

#[test]
fn without_a_set_volume_the_one_at_start_counts() {
    let mut c = Control::new(2, from_slider(33), 0);
    start(&mut c, 0, 1);
    c.receive(Received::Command(Cmd::Stop));
    let effects = c.receive(Received::Command(Cmd::Start(1)));
    assert_eq!(effects, vec![Effect::StartSession { device: 1, volume: from_slider(33) }]);
}

#[test]
fn switching_ends_the_running_session_first() {
    let mut c = Control::new(2, from_slider(25), 0);
    start(&mut c, 0, 5);
    let effects = c.receive(Received::Command(Cmd::Start(1)));
    assert_eq!(
        effects,
        vec![Effect::StopSession, Effect::StartSession { device: 1, volume: from_slider(25) }]
    );
    assert_eq!(c.session, None);
    assert_eq!(c.started(1, false, 9), Status::Stopped);
    assert_eq!(c.session, None);
}

#[test]
fn unknown_device_ends_the_session_and_that_is_reported() {
    let mut c = Control::new(1, from_slider(25), 0);
    start(&mut c, 0, 5);
    let stopped = Effect::Report(Status::Stopped);
    let unknown = Received::Command(Cmd::Start(1));
    assert_eq!(c.receive(unknown), vec![Effect::StopSession, stopped]);
    assert_eq!(c.session, None);
    assert_eq!(c.receive(unknown), vec![stopped]);
}

#[test]
fn stopping_is_always_reported() {
    let mut c = Control::new(1, from_slider(25), 0);
    let stop = Received::Command(Cmd::Stop);
    assert_eq!(c.receive(stop), vec![Effect::Report(Status::Stopped)]);
    start(&mut c, 0, 5);
    assert_eq!(c.receive(stop), vec![Effect::StopSession, Effect::Report(Status::Stopped)]);
    assert_eq!(c.session, None);
}

#[test]
fn volume_applies_to_a_running_session() {
    let mut c = Control::new(1, from_slider(25), 0);
    start(&mut c, 0, 5);
    let v = from_slider(60);
    let effects = c.receive(Received::Command(Cmd::SetVolume(v)));
    assert_eq!(effects, vec![Effect::SaveVolume(v), Effect::ApplyVolume(v)]);
    assert_eq!(c.session, Some(0));
}

#[test]
fn quitting_ends_the_session_and_hanging_up_does_not() {
    let mut c = Control::new(1, from_slider(25), 0);
    start(&mut c, 0, 5);
    let mut d = c;
    assert_eq!(d.receive(Received::HungUp), vec![Effect::Exit]);
    assert_eq!(c.receive(Received::Command(Cmd::Quit)), vec![Effect::StopSession, Effect::Exit]);
    assert_eq!(c.receive(Received::Command(Cmd::Quit)), vec![Effect::Exit]);
}

#[test]
fn keepalive_is_due_every_two_seconds() {
    let mut c = Control::new(1, from_slider(25), 0);
    start(&mut c, 0, 100);
    assert!(!c.keepalive(50));
    assert!(!c.keepalive(99 + KEEPALIVE_NS));
    assert!(c.keepalive(100 + KEEPALIVE_NS));
    // Sending took a while: the next one is due two seconds after it was sent.
    c.kept_alive(150 + KEEPALIVE_NS);
    assert!(!c.keepalive(149 + 2 * KEEPALIVE_NS));
    assert!(c.keepalive(150 + 2 * KEEPALIVE_NS));
    assert_eq!(c.session, Some(0));
}

/// Runs rounds as the control thread does and returns what the tray was told last.
fn told(c: &mut Control, rounds: &[(Received, bool)]) -> Status {
    let mut last = Status::Stopped;
    for (received, ok) in rounds {
        for effect in c.receive(*received) {
            match effect {
                Effect::StartSession { device, .. } => last = c.started(device, *ok, 1),
                Effect::Report(status) => last = status,
                _ => {}
            }
        }
    }
    last
}

#[test]
fn last_report_is_true() {
    let start = |i| Received::Command(Cmd::Start(i));
    let stop = Received::Command(Cmd::Stop);
    let louder = Received::Command(Cmd::SetVolume(from_slider(99)));
    let histories = vec![
        (vec![], None),
        (vec![(start(0), true)], Some(0)),
        (vec![(start(0), true), (start(1), false)], None),
        (vec![(start(0), false), (louder, false), (start(1), true)], Some(1)),
        (vec![(start(1), true), (louder, false), (Received::Nothing, false)], Some(1)),
        (vec![(start(1), true), (stop, false), (stop, true)], None),
        (vec![(start(0), true), (start(2), true)], None),
    ];
    for (rounds, session) in histories {
        let mut c = Control::new(2, from_slider(25), 0);
        let last = told(&mut c, &rounds);
        assert_eq!(c.session, session);
        match session {
            Some(i) => assert_eq!(last, Status::Streaming(i)),
            None => assert_eq!(last, Status::Stopped),
        }
    }
}
