//! The control thread: it owns the running session, obeys the tray and reports the true state.
use vstd::prelude::*;

use crate::volume::Volume;

verus! {

/// How long the control thread waits for a command, in milliseconds.
pub const COMMAND_WAIT_MS: u64 = 1_000;

/// The time between two keepalives, in nanoseconds. Without them the speaker drops the session.
pub const KEEPALIVE_NS: u64 = 2_000_000_000;

/// A command from the tray. Devices are named by their place in the menu.
#[derive(Clone, Copy, Debug, PartialEq, Eq, Structural)]
pub enum Cmd {
    Start(usize),
    Stop,
    SetVolume(Volume),
    Quit,
}

/// The true state, as reported to the tray.
#[derive(Clone, Copy, Debug, PartialEq, Eq, Structural)]
pub enum Status {
    Streaming(usize),
    Stopped,
}

/// What came of waiting for a command.
#[derive(Clone, Copy, Debug, PartialEq, Eq, Structural)]
pub enum Received {
    Command(Cmd),
    Nothing,
    /// The tray is gone.
    HungUp,
}

/// Something for the control thread to do.
#[derive(Clone, Copy, Debug, PartialEq, Eq, Structural)]
pub enum Effect {
    /// End the running session.
    StopSession,
    /// Start a session, and tell [`Control::started`] how that went.
    StartSession { device: usize, volume: Volume },
    /// Tell the tray.
    Report(Status),
    /// Keep the volume across restarts.
    SaveVolume(Volume),
    /// Change the volume of the running session.
    ApplyVolume(Volume),
    /// Leave the loop.
    Exit,
}

/// The state of the control thread.
#[derive(Clone, Copy, Debug, PartialEq, Eq, Structural)]
pub struct Control {
    /// How many devices there are.
    pub devices: usize,
    /// The device that the running session streams to.
    pub session: Option<usize>,
    /// The volume for the next session.
    pub volume: Volume,
    /// When the last keepalive was sent, or the session started, in nanoseconds.
    pub last_feedback: u64,
}

/// The report that is true of a session.
pub open spec fn status_of(session: Option<usize>) -> Status {
    match session {
        Some(i) => Status::Streaming(i),
        None => Status::Stopped,
    }
}

/// Ending the running session, if there is one.
pub open spec fn ending(session: Option<usize>) -> Seq<Effect> {
    match session {
        Some(_) => seq![Effect::StopSession],
        None => Seq::empty(),
    }
}

/// What to do on what was received, in this order.
pub open spec fn effects_of(c: Control, r: Received) -> Seq<Effect> {
    match r {
        Received::Command(Cmd::Start(i)) => ending(c.session) + if i < c.devices {
            seq![Effect::StartSession { device: i, volume: c.volume }]
        } else {
            seq![Effect::Report(Status::Stopped)]
        },
        Received::Command(Cmd::Stop) => ending(c.session) + seq![Effect::Report(Status::Stopped)],
        Received::Command(Cmd::SetVolume(v)) => seq![Effect::SaveVolume(v)] + match c.session {
            Some(_) => seq![Effect::ApplyVolume(v)],
            None => Seq::empty(),
        },
        Received::Command(Cmd::Quit) => ending(c.session) + seq![Effect::Exit],
        Received::Nothing => Seq::empty(),
        Received::HungUp => seq![Effect::Exit],
    }
}

/// The state after what was received.
pub open spec fn state_after(c: Control, r: Received) -> Control {
    match r {
        Received::Command(Cmd::SetVolume(v)) => Control { volume: v, ..c },
        Received::Command(_) => Control { session: None, ..c },
        Received::Nothing | Received::HungUp => c,
    }
}

/// Whether a keepalive is due: a session runs and the last one is two seconds ago.
pub open spec fn keepalive_due(c: Control, now: u64) -> bool {
    c.session is Some && now - c.last_feedback >= KEEPALIVE_NS
}

/// The state after a session was to start, at some time.
pub open spec fn after_start(c: Control, device: usize, ok: bool, now: u64) -> Control {
    if ok {
        Control { session: Some(device), last_feedback: now, ..c }
    } else {
        Control { session: None, ..c }
    }
}

/// The state after a keepalive was sent, at some time.
pub open spec fn after_keepalive(c: Control, now: u64) -> Control {
    Control { last_feedback: now, ..c }
}

impl Control {
    /// The state at the start of the control thread: stopped.
    pub fn new(devices: usize, volume: Volume, now: u64) -> (c: Control)
        ensures
            c == (Control { devices, session: None, volume, last_feedback: now }),
    {
        Control { devices, session: None, volume, last_feedback: now }
    }

    /// Decides what to do on what was received.
    pub fn receive(&mut self, r: Received) -> (effects: Vec<Effect>)
        ensures
            effects@ == effects_of(*old(self), r),
            *final(self) == state_after(*old(self), r),
    {
        let mut effects: Vec<Effect> = Vec::new();
        match r {
            Received::Command(cmd) => {
                match cmd {
                    Cmd::Start(i) => {
                        self.end(&mut effects);
                        if i < self.devices {
                            effects.push(Effect::StartSession { device: i, volume: self.volume });
                        } else {
                            effects.push(Effect::Report(Status::Stopped));
                        }
                    },
                    Cmd::Stop => {
                        self.end(&mut effects);
                        effects.push(Effect::Report(Status::Stopped));
                    },
                    Cmd::SetVolume(v) => {
                        self.volume = v;
                        effects.push(Effect::SaveVolume(v));
                        if self.session.is_some() {
                            effects.push(Effect::ApplyVolume(v));
                        }
                    },
                    Cmd::Quit => {
                        self.end(&mut effects);
                        effects.push(Effect::Exit);
                    },
                }
            },
            Received::Nothing => {},
            Received::HungUp => {
                effects.push(Effect::Exit);
            },
        }
        assert(effects@ =~= effects_of(*old(self), r));
        effects
    }

    /// Ends the running session, if there is one.
    fn end(&mut self, effects: &mut Vec<Effect>)
        requires
            old(effects)@.len() == 0,
        ensures
            final(effects)@ == ending(old(self).session),
            *final(self) == (Control { session: None, ..*old(self) }),
    {
        if self.session.is_some() {
            effects.push(Effect::StopSession);
            self.session = None;
        }
        assert(effects@ =~= ending(old(self).session));
    }

    /// Takes note of how starting a session went, and says what to report of it.
    pub fn started(&mut self, device: usize, ok: bool, now: u64) -> (status: Status)
        ensures
            *final(self) == after_start(*old(self), device, ok, now),
            ok ==> *final(self) == (Control {
                session: Some(device),
                last_feedback: now,
                ..*old(self)
            }),
            !ok ==> *final(self) == (Control { session: None, ..*old(self) }),
            status == status_of(final(self).session),
            status == if ok {
                Status::Streaming(device)
            } else {
                Status::Stopped
            },
    {
        if ok {
            self.session = Some(device);
            self.last_feedback = now;
            Status::Streaming(device)
        } else {
            self.session = None;
            Status::Stopped
        }
    }

    /// Whether to send a keepalive now.
    pub fn keepalive(&self, now: u64) -> (send: bool)
        ensures
            send == keepalive_due(*self, now),
            send == (self.session is Some && now - self.last_feedback >= 2_000_000_000),
    {
        self.session.is_some() && now >= self.last_feedback && now - self.last_feedback
            >= KEEPALIVE_NS
    }

    /// Takes note of when a keepalive has been sent.
    pub fn kept_alive(&mut self, now: u64)
        ensures
            *final(self) == after_keepalive(*old(self), now),
            *final(self) == (Control { last_feedback: now, ..*old(self) }),
    {
        self.last_feedback = now;
    }
}

/// Whether a session still runs after some effects that start none.
pub open spec fn running_after(running: bool, effects: Seq<Effect>) -> bool
    decreases effects.len(),
{
    if effects.len() == 0 {
        running
    } else {
        match effects.last() {
            Effect::StopSession => false,
            _ => running_after(running, effects.drop_last()),
        }
    }
}

/// At most one session runs: one is started only as the last thing and when none runs, and one is
/// ended only when one runs. What the state says of the session is true.
pub proof fn law_one_session_at_a_time(c: Control, r: Received, i: int)
    requires
        0 <= i < effects_of(c, r).len(),
    ensures
        effects_of(c, r)[i] is StartSession ==> i == effects_of(c, r).len() - 1,
        effects_of(c, r)[i] is StartSession ==> !running_after(
            c.session is Some,
            effects_of(c, r).take(i),
        ),
        effects_of(c, r)[i] is StopSession ==> running_after(
            c.session is Some,
            effects_of(c, r).take(i),
        ),
{
    let effects = effects_of(c, r);
    reveal_with_fuel(running_after, 3);
    if i == 0 {
        assert(effects.take(0) == Seq::<Effect>::empty());
    } else {
        assert(effects.take(1).drop_last() == Seq::<Effect>::empty());
        assert(effects.take(1).last() == effects[0]);
    }
}

/// After the effects, a session runs exactly if the state says so; after quitting none does.
pub proof fn law_state_is_true(c: Control, r: Received)
    ensures
        running_after(c.session is Some, effects_of(c, r)) == (state_after(c, r).session is Some),
        r == Received::Command(Cmd::Quit) ==> !running_after(
            c.session is Some,
            effects_of(c, r),
        ),
{
    let effects = effects_of(c, r);
    reveal_with_fuel(running_after, 3);
    if effects.len() == 1 {
        assert(effects.drop_last() == Seq::<Effect>::empty());
    }
    if effects.len() == 2 {
        assert(effects.drop_last().last() == effects[0]);
        assert(effects.drop_last().drop_last() == Seq::<Effect>::empty());
    }
}

/// Only the truth is reported.
pub proof fn law_reports_are_true(c: Control, r: Received, i: int)
    requires
        0 <= i < effects_of(c, r).len(),
    ensures
        effects_of(c, r)[i] matches Effect::Report(status) ==> status == status_of(
            state_after(c, r).session,
        ),
{
}

/// A change is reported, at once or when the start of a session has come out. Quitting is not: the
/// tray has gone by then.
pub proof fn law_changes_are_reported(c: Control, r: Received)
    requires
        r != Received::Command(Cmd::Quit),
        state_after(c, r).session != c.session,
    ensures
        effects_of(c, r).last() == Effect::Report(status_of(state_after(c, r).session))
            || effects_of(c, r).last() is StartSession,
{
}

/// A round of the control thread: what was received, and, should that start a session, whether it
/// did start and when.
pub struct Round {
    pub received: Received,
    pub ok: bool,
    pub now: u64,
}

/// The state after a round.
pub open spec fn state_after_round(c: Control, round: Round) -> Control {
    let s = state_after(c, round.received);
    let effects = effects_of(c, round.received);
    if effects.len() > 0 && effects.last() is StartSession && round.ok {
        Control {
            session: Some(effects.last()->device),
            last_feedback: round.now,
            ..s
        }
    } else {
        s
    }
}

/// What a round reports to the tray, if anything.
pub open spec fn report_of_round(c: Control, round: Round) -> Option<Status> {
    let effects = effects_of(c, round.received);
    if effects.len() == 0 {
        None
    } else {
        match effects.last() {
            Effect::StartSession { .. } => Some(status_of(state_after_round(c, round).session)),
            Effect::Report(status) => Some(status),
            _ => None,
        }
    }
}

/// The state after many rounds.
pub open spec fn state_after_rounds(c: Control, rounds: Seq<Round>) -> Control
    decreases rounds.len(),
{
    if rounds.len() == 0 {
        c
    } else {
        state_after_round(state_after_rounds(c, rounds.drop_last()), rounds.last())
    }
}

/// What the tray was told last in many rounds; as long as it was told nothing, it takes the stream
/// to be stopped.
pub open spec fn last_report(c: Control, rounds: Seq<Round>) -> Status
    decreases rounds.len(),
{
    if rounds.len() == 0 {
        Status::Stopped
    } else {
        match report_of_round(state_after_rounds(c, rounds.drop_last()), rounds.last()) {
            Some(status) => status,
            None => last_report(c, rounds.drop_last()),
        }
    }
}

/// What the tray was told last is true, however many rounds there were, whichever devices were
/// asked for and whichever sessions failed to start. (Quitting is not reported: the tray has gone
/// by then.)
pub proof fn law_last_report_is_true(c: Control, rounds: Seq<Round>)
    requires
        c.session is None,
        forall|k: int|
            0 <= k < rounds.len() ==> (#[trigger] rounds[k]).received != Received::Command(
                Cmd::Quit,
            ),
    ensures
        last_report(c, rounds) == status_of(state_after_rounds(c, rounds).session),
    decreases rounds.len(),
{
    if rounds.len() > 0 {
        let before = rounds.drop_last();
        assert forall|k: int| 0 <= k < before.len() implies (#[trigger] before[k]).received
            != Received::Command(Cmd::Quit) by {
            assert(before[k] == rounds[k]);
        }
        law_last_report_is_true(c, before);
        let round = rounds.last();
        assert(round == rounds[rounds.len() - 1]);
        let s = state_after_rounds(c, before);
        if round.received is Command && round.received->Command_0 is SetVolume {
            assert(report_of_round(s, round) is None);
        }
    }
}

/// The volume that was set last is the one that the next session starts with.
pub proof fn law_last_volume_counts(c: Control, rounds: Seq<Round>, at: int, v: Volume)
    requires
        0 <= at < rounds.len(),
        rounds[at].received == Received::Command(Cmd::SetVolume(v)),
        forall|j: int|
            at < j < rounds.len() ==> !((#[trigger] rounds[j]).received matches Received::Command(
                Cmd::SetVolume(_),
            )),
    ensures
        state_after_rounds(c, rounds).volume == v,
        forall|i: usize|
            i < c.devices ==> #[trigger] effects_of(
                state_after_rounds(c, rounds),
                Received::Command(Cmd::Start(i)),
            ).last() == (Effect::StartSession { device: i, volume: v }),
    decreases rounds.len(),
{
    lemma_devices_stay(c, rounds);
    if at < rounds.len() - 1 {
        let before = rounds.drop_last();
        assert(before[at] == rounds[at]);
        assert forall|j: int| at < j < before.len() implies !((
        #[trigger] before[j]).received matches Received::Command(Cmd::SetVolume(_))) by {
            assert(before[j] == rounds[j]);
        }
        law_last_volume_counts(c, before, at, v);
        assert(!(rounds[rounds.len() - 1].received matches Received::Command(Cmd::SetVolume(_))));
    }
}

/// As long as no volume was set, sessions start with the volume at start.
pub proof fn law_first_volume_counts(c: Control, rounds: Seq<Round>)
    requires
        forall|j: int|
            0 <= j < rounds.len() ==> !((#[trigger] rounds[j]).received matches Received::Command(
                Cmd::SetVolume(_),
            )),
    ensures
        state_after_rounds(c, rounds).volume == c.volume,
        forall|i: usize|
            i < c.devices ==> #[trigger] effects_of(
                state_after_rounds(c, rounds),
                Received::Command(Cmd::Start(i)),
            ).last() == (Effect::StartSession { device: i, volume: c.volume }),
    decreases rounds.len(),
{
    lemma_devices_stay(c, rounds);
    if rounds.len() > 0 {
        let before = rounds.drop_last();
        assert forall|j: int| 0 <= j < before.len() implies !((
        #[trigger] before[j]).received matches Received::Command(Cmd::SetVolume(_))) by {
            assert(before[j] == rounds[j]);
        }
        law_first_volume_counts(c, before);
        assert(!(rounds[rounds.len() - 1].received matches Received::Command(Cmd::SetVolume(_))));
    }
}

/// The number of devices never changes.
proof fn lemma_devices_stay(c: Control, rounds: Seq<Round>)
    ensures
        state_after_rounds(c, rounds).devices == c.devices,
    decreases rounds.len(),
{
    if rounds.len() > 0 {
        lemma_devices_stay(c, rounds.drop_last());
    }
}

/// A new volume is kept across restarts, and a running session changes to it at once.
pub proof fn law_volume_applies_live(c: Control, v: Volume)
    ensures
        effects_of(c, Received::Command(Cmd::SetVolume(v)))[0] == Effect::SaveVolume(v),
        c.session is Some ==> effects_of(c, Received::Command(Cmd::SetVolume(v))).contains(
            Effect::ApplyVolume(v),
        ),
        state_after(c, Received::Command(Cmd::SetVolume(v))).session == c.session,
{
    if c.session is Some {
        assert(effects_of(c, Received::Command(Cmd::SetVolume(v)))[1] == Effect::ApplyVolume(v));
    }
}

/// After a keepalive the next one falls due two seconds after it was sent, and not before.
pub proof fn law_next_keepalive_is_two_seconds_later(c: Control, sent: u64, now: u64)
    requires
        c.session is Some,
        c.last_feedback == sent,
    ensures
        keepalive_due(c, now) <==> now - sent >= KEEPALIVE_NS,
{
}

/// A running session that is looked after at most `wait` apart is never longer without a keepalive
/// than two seconds and `wait`.
pub proof fn law_keepalives_come_in_time(c: Control, earlier: u64, now: u64, wait: int)
    requires
        c.session is Some,
        earlier <= now <= earlier + wait,
        !keepalive_due(c, earlier),
    ensures
        now - c.last_feedback < KEEPALIVE_NS + wait,
{
}

/// Everything that is done has its reason, and every reason is acted on: a session ends when one
/// runs and another is to start, or it is to stop, or all is to end; one starts when a device of the
/// menu is asked for, with the volume that is set; a stop, and a device that does not exist, are
/// answered; a volume is kept, and applied where a session runs.
pub proof fn law_every_effect_has_its_reason(c: Control, r: Received, x: Effect)
    ensures
        effects_of(c, r).contains(x) <==> match x {
            Effect::StopSession => c.session is Some && {
                ||| r matches Received::Command(Cmd::Start(_))
                ||| r == Received::Command(Cmd::Stop)
                ||| r == Received::Command(Cmd::Quit)
            },
            Effect::StartSession { device, volume } => r == Received::Command(Cmd::Start(device))
                && device < c.devices && volume == c.volume,
            Effect::Report(status) => status == Status::Stopped && {
                ||| r == Received::Command(Cmd::Stop)
                ||| r matches Received::Command(Cmd::Start(i)) && i >= c.devices
            },
            Effect::SaveVolume(v) => r == Received::Command(Cmd::SetVolume(v)),
            Effect::ApplyVolume(v) => r == Received::Command(Cmd::SetVolume(v)) && c.session is Some,
            Effect::Exit => r == Received::Command(Cmd::Quit) || r == Received::HungUp,
        },
{
    let effects = effects_of(c, r);
    if effects.len() > 0 {
        assert(effects.contains(effects[0]));
    }
    if effects.len() > 1 {
        assert(effects.contains(effects[1]));
    }
    if effects.contains(x) {
        let i = choose|i: int| 0 <= i < effects.len() && effects[i] == x;
        assert(i == 0 || i == 1);
    }
}

/// Nothing is done twice; ending the running session comes first; leaving the loop, a report and
/// the start of a session come last; a volume is kept before it is applied.
pub proof fn law_effects_come_in_order(c: Control, r: Received, i: int, j: int)
    requires
        0 <= i < j < effects_of(c, r).len(),
    ensures
        effects_of(c, r)[i] != effects_of(c, r)[j],
        effects_of(c, r)[i] is StopSession || effects_of(c, r)[i] is SaveVolume,
        !(effects_of(c, r)[j] is StopSession) && !(effects_of(c, r)[j] is SaveVolume),
{
}

/// What was received changes no more than it must: starting, stopping and quitting end the session,
/// a volume is noted, and neither the devices nor the time of the last keepalive change.
pub proof fn law_state_changes_no_more_than_it_must(c: Control, r: Received)
    ensures
        state_after(c, r).devices == c.devices,
        state_after(c, r).last_feedback == c.last_feedback,
        state_after(c, r).session == match r {
            Received::Command(Cmd::Start(_)) => None,
            Received::Command(Cmd::Stop) => None,
            Received::Command(Cmd::Quit) => None,
            _ => c.session,
        },
        state_after(c, r).volume == match r {
            Received::Command(Cmd::SetVolume(v)) => v,
            _ => c.volume,
        },
{
}

/// A keepalive is due exactly when a session runs and two seconds, in nanoseconds, have passed; once
/// due, it stays due.
pub proof fn law_keepalive_falls_due_after_two_seconds(c: Control, now: u64, later: u64)
    requires
        now <= later,
    ensures
        keepalive_due(c, now) <==> c.session is Some && now >= c.last_feedback + 2_000_000_000,
        keepalive_due(c, now) ==> keepalive_due(c, later),
{
}

/// A report names the device of the session, or says that there is none.
pub proof fn law_report_names_the_session(device: usize)
    ensures
        status_of(Some(device)) == Status::Streaming(device),
        status_of(None) == Status::Stopped,
{
}

/// A session that started is noted with its device, and one that did not is not; nothing else
/// changes but the time from which keepalives count.
pub proof fn law_starts_are_noted(c: Control, device: usize, now: u64)
    ensures
        status_of(after_start(c, device, true, now).session) == Status::Streaming(device),
        status_of(after_start(c, device, false, now).session) == Status::Stopped,
        after_start(c, device, true, now).volume == c.volume,
        after_start(c, device, true, now).devices == c.devices,
        after_start(c, device, false, now).volume == c.volume,
        after_start(c, device, false, now).devices == c.devices,
        after_start(c, device, false, now).last_feedback == c.last_feedback,
{
}

/// After the start of a session and after every keepalive, the next keepalive falls due two seconds
/// later and not before; a keepalive changes nothing else.
pub proof fn law_keepalives_count_from_start_and_from_each_other(
    c: Control,
    device: usize,
    now: u64,
    later: u64,
)
    ensures
        keepalive_due(after_start(c, device, true, now), later) <==> later - now >= 2_000_000_000,
        !keepalive_due(after_start(c, device, false, now), later),
        keepalive_due(after_keepalive(c, now), later) <==> c.session is Some && later - now
            >= 2_000_000_000,
        after_keepalive(c, now).session == c.session,
        after_keepalive(c, now).volume == c.volume,
        after_keepalive(c, now).devices == c.devices,
{
}

} // verus!
