//! A stream to one speaker: the order in which it is brought up and taken down.
//!
//! The work itself (the network, the capture thread) is done elsewhere. A [`Session`] names the
//! next piece of it, is told how that went, and moves on.
use vstd::prelude::*;

use crate::device;
use crate::device::{first_ipv4, Address, Device};
use crate::volume::Volume;

verus! {

/// Least latency of the stream, in samples.
pub const LATENCY_MIN: u32 = 22_050;

/// Greatest latency of the stream, in samples.
pub const LATENCY_MAX: u32 = 88_200;

/// How audio is sent.
#[derive(Clone, Copy, Debug, PartialEq, Eq, Structural)]
pub enum Delivery {
    /// As it is captured.
    Realtime,
    /// Ahead of time.
    Buffered,
}

/// How the clocks of both ends are brought together.
#[derive(Clone, Copy, Debug, PartialEq, Eq, Structural)]
pub enum Timing {
    Ntp,
    Ptp,
}

/// Which end would lead under PTP.
#[derive(Clone, Copy, Debug, PartialEq, Eq, Structural)]
pub enum ClockRole {
    Master,
    Follower,
}

/// What a connection and its stream are asked for with.
pub struct StreamPlan {
    pub delivery: Delivery,
    pub timing: Timing,
    pub clock_role: ClockRole,
    /// Least latency, in samples.
    pub latency_min: u32,
    /// Greatest latency, in samples.
    pub latency_max: u32,
    pub supports_dynamic_stream_id: bool,
    /// The code of transient pairing.
    pub pairing_code: &'static str,
}

/// The plan of every stream: realtime audio with NTP timing.
pub fn stream_plan() -> (p: StreamPlan)
    ensures
        p.delivery == Delivery::Realtime,
        p.timing == Timing::Ntp,
        p.clock_role == ClockRole::Master,
        p.latency_min == LATENCY_MIN,
        p.latency_max == LATENCY_MAX,
        p.latency_min == 22_050,
        p.latency_max == 88_200,
        p.supports_dynamic_stream_id,
        p.pairing_code@ == "3939"@,
{
    StreamPlan {
        delivery: Delivery::Realtime,
        timing: Timing::Ntp,
        clock_role: ClockRole::Master,
        latency_min: LATENCY_MIN,
        latency_max: LATENCY_MAX,
        supports_dynamic_stream_id: true,
        pairing_code: "3939",
    }
}

/// How long taking down the connection may block, in milliseconds.
pub const DISCONNECT_TIMEOUT_MS: u64 = 4_000;

/// How long the self-test streams, in seconds.
pub const SELFTEST_SECS: u32 = 50;

/// The seconds between two keepalives of the self-test.
pub const SELFTEST_STEP_SECS: u32 = 2;

/// What comes next in the self-test after some seconds: another keepalive, and the seconds after
/// it, or the end.
pub fn selftest_next(elapsed: u32) -> (r: Option<u32>)
    ensures
        r == (if elapsed < SELFTEST_SECS {
            Some((elapsed + SELFTEST_STEP_SECS) as u32)
        } else {
            None
        }),
        r is Some <==> elapsed < 50,
        r matches Some(e) ==> e == elapsed + 2,
{
    if elapsed < SELFTEST_SECS {
        Some(elapsed + SELFTEST_STEP_SECS)
    } else {
        None
    }
}

/// A piece of work to do.
#[derive(Clone, Copy, Debug, PartialEq, Eq, Structural)]
pub enum Step {
    /// Describe the encoder to the speaker.
    MakeCookie,
    /// Connect to the speaker at its address, as [`stream_plan`] says.
    Connect(Address),
    /// Set up the stream.
    Setup,
    /// Set the speaker's volume.
    SetVolume(Volume),
    /// Start the capture thread.
    StartCapture,
    /// Let the captured audio play.
    StartStreaming,
    /// Tell the capture thread to end.
    StopCapture,
    /// Wait for the end of the capture thread.
    JoinCapture,
    /// Take down the connection, within [`DISCONNECT_TIMEOUT_MS`].
    Disconnect,
    /// Send the keepalive that the speaker expects every two seconds.
    SendFeedback,
}

/// How far a session has come.
#[derive(Clone, Copy, Debug, PartialEq, Eq, Structural)]
pub enum Phase {
    MakingCookie,
    Connecting,
    SettingUp,
    SettingVolume,
    StartingCapture,
    StartingStream,
    Streaming,
    AbandoningCapture,
    AwaitingAbandoned,
    Failed,
    StoppingCapture,
    AwaitingCapture,
    Disconnecting,
    Closed,
}

/// Why a session cannot even begin.
#[derive(Clone, Copy, Debug, PartialEq, Eq, Structural)]
pub enum StartError {
    NoIpv4Address,
}

/// A stream to one speaker.
pub struct Session {
    pub phase: Phase,
    pub address: Address,
    pub volume: Volume,
}

/// The work that a session needs next; none while it streams and after its end.
pub open spec fn step_of(s: Session) -> Option<Step> {
    match s.phase {
        Phase::MakingCookie => Some(Step::MakeCookie),
        Phase::Connecting => Some(Step::Connect(s.address)),
        Phase::SettingUp => Some(Step::Setup),
        Phase::SettingVolume => Some(Step::SetVolume(s.volume)),
        Phase::StartingCapture => Some(Step::StartCapture),
        Phase::StartingStream => Some(Step::StartStreaming),
        Phase::AbandoningCapture | Phase::StoppingCapture => Some(Step::StopCapture),
        Phase::AwaitingAbandoned | Phase::AwaitingCapture => Some(Step::JoinCapture),
        Phase::Disconnecting => Some(Step::Disconnect),
        Phase::Streaming | Phase::Failed | Phase::Closed => None,
    }
}

/// The phase after the work of a phase was done, well or not. Failing to set the volume is
/// forgiven, and so is all that goes wrong while a session ends.
pub open spec fn phase_after(phase: Phase, ok: bool) -> Phase {
    match phase {
        Phase::MakingCookie => if ok {
            Phase::Connecting
        } else {
            Phase::Failed
        },
        Phase::Connecting => if ok {
            Phase::SettingUp
        } else {
            Phase::Failed
        },
        Phase::SettingUp => if ok {
            Phase::SettingVolume
        } else {
            Phase::Failed
        },
        Phase::SettingVolume => Phase::StartingCapture,
        Phase::StartingCapture => Phase::StartingStream,
        Phase::StartingStream => if ok {
            Phase::Streaming
        } else {
            Phase::AbandoningCapture
        },
        Phase::AbandoningCapture => Phase::AwaitingAbandoned,
        Phase::AwaitingAbandoned => Phase::Failed,
        Phase::StoppingCapture => Phase::AwaitingCapture,
        Phase::AwaitingCapture => Phase::Disconnecting,
        Phase::Disconnecting => Phase::Closed,
        Phase::Streaming | Phase::Failed | Phase::Closed => phase,
    }
}

/// A session after its volume was changed.
pub open spec fn with_volume(s: Session, volume: Volume) -> Session {
    Session { volume, ..s }
}

/// What a change of volume asks for at once.
pub open spec fn volume_work(s: Session, volume: Volume) -> Option<Step> {
    if s.phase == Phase::Streaming {
        Some(Step::SetVolume(volume))
    } else {
        None
    }
}

/// What a keepalive asks for.
pub open spec fn feedback_work(s: Session) -> Option<Step> {
    if s.phase == Phase::Streaming {
        Some(Step::SendFeedback)
    } else {
        None
    }
}

/// A session after it was asked to end.
pub open spec fn asked_to_end(s: Session) -> Session {
    if s.phase == Phase::Streaming {
        Session { phase: Phase::StoppingCapture, ..s }
    } else {
        s
    }
}

/// The session after a piece of work was done, well or not.
pub open spec fn moved_on(s: Session, ok: bool) -> Session {
    Session { phase: phase_after(s.phase, ok), ..s }
}

impl Session {
    /// Begins a session: the speaker is reached at its first IPv4 address. The encoder needs
    /// describing only if it is ALAC.
    pub fn start(device: &Device, alac: bool, volume: Volume) -> (r: Result<Session, StartError>)
        ensures
            r is Err <==> device::first_v4(device.addresses@) is None,
            r is Err <==> forall|i: int|
                0 <= i < device.addresses@.len() ==> (#[trigger] device.addresses@[i]) is V6,
            r matches Err(e) ==> e == StartError::NoIpv4Address,
            r matches Ok(s) ==> exists|i: int|
                0 <= i < device.addresses@.len() && #[trigger] device.addresses@[i] == s.address
                    && s.address is V4 && forall|j: int|
                    0 <= j < i ==> (#[trigger] device.addresses@[j]) is V6,
            r matches Ok(s) ==> {
                &&& Some(s.address) == device::first_v4(device.addresses@)
                &&& s.volume == volume
                &&& s.phase == if alac {
                    Phase::MakingCookie
                } else {
                    Phase::Connecting
                }
            },
    {
        match first_ipv4(&device.addresses) {
            None => Err(StartError::NoIpv4Address),
            Some(address) => {
                let phase: Phase = if alac {
                    Phase::MakingCookie
                } else {
                    Phase::Connecting
                };
                Ok(Session { phase, address, volume })
            },
        }
    }

    /// The work to do next.
    pub fn step(&self) -> (r: Option<Step>)
        ensures
            r == step_of(*self),
            r matches Some(Step::SetVolume(v)) ==> v == self.volume,
            r matches Some(Step::Connect(a)) ==> a == self.address,
            r is None <==> {
                ||| self.phase == Phase::Streaming
                ||| self.phase == Phase::Failed
                ||| self.phase == Phase::Closed
            },
    {
        match self.phase {
            Phase::MakingCookie => Some(Step::MakeCookie),
            Phase::Connecting => Some(Step::Connect(self.address)),
            Phase::SettingUp => Some(Step::Setup),
            Phase::SettingVolume => Some(Step::SetVolume(self.volume)),
            Phase::StartingCapture => Some(Step::StartCapture),
            Phase::StartingStream => Some(Step::StartStreaming),
            Phase::AbandoningCapture => Some(Step::StopCapture),
            Phase::StoppingCapture => Some(Step::StopCapture),
            Phase::AwaitingAbandoned => Some(Step::JoinCapture),
            Phase::AwaitingCapture => Some(Step::JoinCapture),
            Phase::Disconnecting => Some(Step::Disconnect),
            Phase::Streaming => None,
            Phase::Failed => None,
            Phase::Closed => None,
        }
    }

    /// Moves on after the work was done, well or not.
    pub fn advance(&mut self, ok: bool)
        ensures
            *final(self) == moved_on(*old(self), ok),
            final(self).phase == phase_after(old(self).phase, ok),
            final(self).address == old(self).address,
            final(self).volume == old(self).volume,
    {
        self.phase = match self.phase {
            Phase::MakingCookie => if ok {
                Phase::Connecting
            } else {
                Phase::Failed
            },
            Phase::Connecting => if ok {
                Phase::SettingUp
            } else {
                Phase::Failed
            },
            Phase::SettingUp => if ok {
                Phase::SettingVolume
            } else {
                Phase::Failed
            },
            Phase::SettingVolume => Phase::StartingCapture,
            Phase::StartingCapture => Phase::StartingStream,
            Phase::StartingStream => if ok {
                Phase::Streaming
            } else {
                Phase::AbandoningCapture
            },
            Phase::AbandoningCapture => Phase::AwaitingAbandoned,
            Phase::AwaitingAbandoned => Phase::Failed,
            Phase::StoppingCapture => Phase::AwaitingCapture,
            Phase::AwaitingCapture => Phase::Disconnecting,
            Phase::Disconnecting => Phase::Closed,
            Phase::Streaming => Phase::Streaming,
            Phase::Failed => Phase::Failed,
            Phase::Closed => Phase::Closed,
        };
    }

    /// The work of a keepalive, for a session that streams.
    pub fn feedback(&self) -> (r: Option<Step>)
        ensures
            r == feedback_work(*self),
            r == (if self.phase == Phase::Streaming {
                Some(Step::SendFeedback)
            } else {
                None
            }),
    {
        if self.is_streaming() {
            Some(Step::SendFeedback)
        } else {
            None
        }
    }

    /// Changes the volume. A session that streams sends it to the speaker at once; one that is not
    /// there yet, when its turn comes.
    pub fn set_volume(&mut self, volume: Volume) -> (r: Option<Step>)
        ensures
            r == volume_work(*old(self), volume),
            *final(self) == with_volume(*old(self), volume),
            r == (if old(self).phase == Phase::Streaming {
                Some(Step::SetVolume(volume))
            } else {
                None
            }),
            final(self).volume == volume,
            final(self).phase == old(self).phase,
            final(self).address == old(self).address,
    {
        self.volume = volume;
        if self.is_streaming() {
            Some(Step::SetVolume(volume))
        } else {
            None
        }
    }

    /// Asks a running session to end: capture first, then the connection. A session that does not
    /// stream is left as it is.
    pub fn stop(&mut self)
        ensures
            *final(self) == asked_to_end(*old(self)),
            final(self).phase == if old(self).phase == Phase::Streaming {
                Phase::StoppingCapture
            } else {
                old(self).phase
            },
            final(self).address == old(self).address,
            final(self).volume == old(self).volume,
    {
        match self.phase {
            Phase::Streaming => {
                self.phase = Phase::StoppingCapture;
            },
            _ => {},
        }
    }

    /// Whether the session streams.
    pub fn is_streaming(&self) -> (r: bool)
        ensures
            r == (self.phase == Phase::Streaming),
    {
        match self.phase {
            Phase::Streaming => true,
            _ => false,
        }
    }
}

/// What the work of a session has brought about.
pub struct World {
    /// The volume that was sent to the speaker last, whether or not it arrived.
    pub volume: Option<Volume>,
    /// The capture thread exists.
    pub capturing: bool,
    /// The capture thread was told to end.
    pub told_to_end: bool,
    /// Captured audio plays.
    pub playing: bool,
    /// The address to which a connection stands.
    pub connected: Option<Address>,
}

/// The world before a session.
pub open spec fn untouched() -> World {
    World {
        volume: None,
        capturing: false,
        told_to_end: false,
        playing: false,
        connected: None,
    }
}

/// The world after a piece of work.
pub open spec fn world_after(w: World, step: Step, ok: bool) -> World {
    match step {
        Step::MakeCookie => w,
        Step::Connect(a) => World {
            connected: if ok {
                Some(a)
            } else {
                None
            },
            ..w
        },
        Step::Setup => w,
        Step::SetVolume(v) => World { volume: Some(v), ..w },
        Step::StartCapture => World { capturing: true, ..w },
        Step::StartStreaming => World { playing: ok, ..w },
        Step::StopCapture => World { told_to_end: true, ..w },
        Step::JoinCapture => World { capturing: false, ..w },
        Step::Disconnect => World { playing: false, connected: None, ..w },
        Step::SendFeedback => w,
    }
}

/// Whether the world is as it should be for a session.
pub open spec fn as_expected(s: Session, w: World) -> bool {
    match s.phase {
        Phase::MakingCookie | Phase::Connecting => w == untouched(),
        Phase::SettingUp | Phase::SettingVolume => w == World {
            connected: Some(s.address),
            ..untouched()
        },
        Phase::StartingCapture => w == World {
            connected: Some(s.address),
            volume: Some(s.volume),
            ..untouched()
        },
        Phase::StartingStream => w == World {
            connected: Some(s.address),
            volume: Some(s.volume),
            capturing: true,
            ..untouched()
        },
        Phase::Streaming | Phase::StoppingCapture => {
            &&& w.connected == Some(s.address)
            &&& w.volume == Some(s.volume)
            &&& w.capturing && w.playing
            &&& !w.told_to_end
        },
        Phase::AbandoningCapture => w.capturing && !w.told_to_end && !w.playing,
        Phase::AwaitingAbandoned => w.capturing && w.told_to_end && !w.playing,
        Phase::AwaitingCapture => {
            w.capturing && w.told_to_end && w.connected == Some(s.address)
        },
        Phase::Disconnecting => !w.capturing && w.connected == Some(s.address),
        Phase::Failed => !w.capturing && !w.playing,
        Phase::Closed => !w.capturing && !w.playing && w.connected is None,
    }
}

/// A session begins in an untouched world, and ends from the world of a running stream.
pub proof fn law_beginnings_are_as_expected(s: Session, w: World)
    ensures
        s.phase == Phase::MakingCookie || s.phase == Phase::Connecting ==> as_expected(
            s,
            untouched(),
        ),
        s.phase == Phase::Streaming && as_expected(s, w) ==> as_expected(
            Session { phase: Phase::StoppingCapture, ..s },
            w,
        ),
{
}

/// Whatever goes wrong, the world is as it should be after every piece of work.
pub proof fn law_world_stays_as_expected(s: Session, w: World, ok: bool)
    requires
        as_expected(s, w),
    ensures
        step_of(s) matches Some(step) ==> as_expected(moved_on(s, ok), world_after(w, step, ok)),
{
}

/// Keepalives and changes of volume leave a running stream as it should be; so does a change of
/// volume before the session has sent one.
pub proof fn law_live_work_disturbs_nothing(s: Session, w: World, volume: Volume, ok: bool)
    requires
        as_expected(s, w),
    ensures
        s.phase == Phase::Streaming ==> as_expected(s, world_after(w, Step::SendFeedback, ok)),
        s.phase == Phase::Streaming ==> as_expected(
            Session { volume, ..s },
            world_after(w, Step::SetVolume(volume), ok),
        ),
        w.volume is None ==> as_expected(Session { volume, ..s }, w),
{
}

/// The speaker is set to the session's volume, over a connection to the session's address, and
/// capture runs before any audio plays; the capture thread is awaited only after it was told to
/// end; the connection is taken down only after capture ended.
pub proof fn law_work_comes_in_order(s: Session, w: World)
    requires
        as_expected(s, w),
    ensures
        step_of(s) == Some(Step::StartStreaming) ==> {
            &&& w.volume == Some(s.volume)
            &&& w.capturing
            &&& w.connected == Some(s.address)
        },
        step_of(s) == Some(Step::JoinCapture) ==> w.told_to_end,
        step_of(s) == Some(Step::Disconnect) ==> !w.capturing,
        w.playing && s.phase == Phase::Streaming ==> {
            &&& w.volume == Some(s.volume)
            &&& w.capturing
            &&& w.connected == Some(s.address)
        },
{
}

/// What a session asks to be sent is its own, in every phase: its volume, its address.
pub proof fn law_work_is_the_sessions_own(s: Session)
    ensures
        step_of(s) matches Some(Step::SetVolume(v)) ==> v == s.volume,
        step_of(s) matches Some(Step::Connect(a)) ==> a == s.address,
{
}

/// Which piece of work follows which. Failing to describe the encoder, to connect or to set up ends
/// the session; failing to set the volume or to start capture does not; failing to stream ends
/// capture first. Taking a session down goes on whatever fails.
pub proof fn law_what_follows_what(s: Session, ok: bool)
    ensures
        ({
            let next = step_of(moved_on(s, ok));
            match step_of(s) {
                Some(Step::MakeCookie) => next == if ok {
                    Some(Step::Connect(s.address))
                } else {
                    None
                },
                Some(Step::Connect(_)) => next == if ok {
                    Some(Step::Setup)
                } else {
                    None
                },
                Some(Step::Setup) => next == if ok {
                    Some(Step::SetVolume(s.volume))
                } else {
                    None
                },
                Some(Step::SetVolume(_)) => next == Some(Step::StartCapture),
                Some(Step::StartCapture) => next == Some(Step::StartStreaming),
                Some(Step::StartStreaming) => next == if ok {
                    None
                } else {
                    Some(Step::StopCapture)
                },
                Some(Step::StopCapture) => next == Some(Step::JoinCapture),
                Some(Step::JoinCapture) => next is None || next == Some(Step::Disconnect),
                Some(Step::Disconnect) => next is None,
                Some(Step::SendFeedback) => false,
                None => next is None,
            }
        }),
        moved_on(s, ok).phase == Phase::Streaming <==> s.phase == Phase::Streaming || ok && step_of(s)
            == Some(Step::StartStreaming),
        moved_on(s, ok).phase == Phase::Closed <==> s.phase == Phase::Closed || step_of(s) == Some(
            Step::Disconnect,
        ),
{
}

/// The session after some pieces of work, each done well or not.
pub open spec fn session_after(s: Session, outcomes: Seq<bool>) -> Session
    decreases outcomes.len(),
{
    if outcomes.len() == 0 {
        s
    } else {
        moved_on(session_after(s, outcomes.drop_last()), outcomes.last())
    }
}

/// The work that was done until then.
pub open spec fn work_done(s: Session, outcomes: Seq<bool>) -> Seq<Step>
    decreases outcomes.len(),
{
    if outcomes.len() == 0 {
        Seq::empty()
    } else {
        let before = work_done(s, outcomes.drop_last());
        match step_of(session_after(s, outcomes.drop_last())) {
            Some(step) => before.push(step),
            None => before,
        }
    }
}

/// What was done by the time that each phase of bringing a session up is reached.
proof fn lemma_bring_up(s: Session, outcomes: Seq<bool>)
    requires
        s.phase == Phase::MakingCookie || s.phase == Phase::Connecting,
    ensures
        ({
            let t = session_after(s, outcomes);
            let done = work_done(s, outcomes);
            let cookie = if s.phase == Phase::MakingCookie {
                seq![Step::MakeCookie]
            } else {
                Seq::empty()
            };
            let connected = cookie.push(Step::Connect(s.address));
            let set = connected.push(Step::Setup).push(Step::SetVolume(s.volume));
            let tried = set.push(Step::StartCapture).push(Step::StartStreaming);
            &&& t.address == s.address && t.volume == s.volume
            &&& match t.phase {
                Phase::MakingCookie => s.phase == Phase::MakingCookie && done == Seq::<Step>::empty(),
                Phase::Connecting => done == cookie,
                Phase::SettingUp => done == connected,
                Phase::SettingVolume => done == connected.push(Step::Setup),
                Phase::StartingCapture => done == set,
                Phase::StartingStream => done == set.push(Step::StartCapture),
                Phase::Streaming | Phase::AbandoningCapture => done == tried,
                Phase::AwaitingAbandoned => done == tried.push(Step::StopCapture),
                Phase::Failed => {
                    ||| done == tried.push(Step::StopCapture).push(Step::JoinCapture)
                    ||| done == cookie
                    ||| done == connected
                    ||| done == connected.push(Step::Setup)
                },
                _ => false,
            }
        }),
    decreases outcomes.len(),
{
    if outcomes.len() > 0 {
        lemma_bring_up(s, outcomes.drop_last());
    } else {
        assert(work_done(s, outcomes) == Seq::<Step>::empty());
    }
}

/// However the work comes out, a session that streams has connected to its own address, set the
/// stream up, sent its own volume, started capture and then let the audio play: this, in this
/// order, and nothing else, but for the description of the encoder before. One that failed has done
/// a part of it, and has ended capture if it had started it.
pub proof fn law_streaming_takes_exactly_this_work(s: Session, outcomes: Seq<bool>)
    requires
        s.phase == Phase::MakingCookie || s.phase == Phase::Connecting,
    ensures
        ({
            let t = session_after(s, outcomes);
            let done = work_done(s, outcomes);
            let cookie = if s.phase == Phase::MakingCookie {
                seq![Step::MakeCookie]
            } else {
                Seq::empty()
            };
            let tried = cookie + seq![
                Step::Connect(s.address),
                Step::Setup,
                Step::SetVolume(s.volume),
                Step::StartCapture,
                Step::StartStreaming,
            ];
            &&& t.phase == Phase::Streaming ==> done == tried
            &&& step_of(t) == Some(Step::StartStreaming) ==> done == tried.drop_last()
            &&& t.phase == Phase::Failed ==> {
                ||| done == tried + seq![Step::StopCapture, Step::JoinCapture]
                ||| done.is_prefix_of(tried) && !done.contains(Step::StartCapture)
            }
        }),
{
    lemma_bring_up(s, outcomes);
    let done = work_done(s, outcomes);
    let cookie = if s.phase == Phase::MakingCookie {
        seq![Step::MakeCookie]
    } else {
        Seq::empty()
    };
    let connected = cookie.push(Step::Connect(s.address));
    let tried = connected.push(Step::Setup).push(Step::SetVolume(s.volume)).push(
        Step::StartCapture,
    ).push(Step::StartStreaming);
    assert(tried =~= cookie + seq![
        Step::Connect(s.address),
        Step::Setup,
        Step::SetVolume(s.volume),
        Step::StartCapture,
        Step::StartStreaming,
    ]);
    assert(tried.drop_last() =~= connected.push(Step::Setup).push(Step::SetVolume(s.volume)).push(
        Step::StartCapture,
    ));
    assert(tried.push(Step::StopCapture).push(Step::JoinCapture) =~= tried + seq![
        Step::StopCapture,
        Step::JoinCapture,
    ]);
    assert(cookie =~= tried.subrange(0, cookie.len() as int));
    assert(connected =~= tried.subrange(0, connected.len() as int));
    assert(connected.push(Step::Setup) =~= tried.subrange(0, (connected.len() + 1) as int));
}

/// If everything succeeds, a session streams.
pub proof fn law_success_leads_to_a_stream(s: Session, outcomes: Seq<bool>)
    requires
        s.phase == Phase::MakingCookie && outcomes.len() >= 6 || s.phase == Phase::Connecting
            && outcomes.len() >= 5,
        forall|i: int| 0 <= i < outcomes.len() ==> #[trigger] outcomes[i],
    ensures
        session_after(s, outcomes).phase == Phase::Streaming,
{
    lemma_success(s, outcomes);
}

/// How far a session has come after successes only.
proof fn lemma_success(s: Session, outcomes: Seq<bool>)
    requires
        s.phase == Phase::MakingCookie || s.phase == Phase::Connecting,
        forall|i: int| 0 <= i < outcomes.len() ==> #[trigger] outcomes[i],
    ensures
        ({
            let p = session_after(s, outcomes).phase;
            let n = outcomes.len() + if s.phase == Phase::MakingCookie {
                0int
            } else {
                1
            };
            p == if n == 0 {
                Phase::MakingCookie
            } else if n == 1 {
                Phase::Connecting
            } else if n == 2 {
                Phase::SettingUp
            } else if n == 3 {
                Phase::SettingVolume
            } else if n == 4 {
                Phase::StartingCapture
            } else if n == 5 {
                Phase::StartingStream
            } else {
                Phase::Streaming
            }
        }),
    decreases outcomes.len(),
{
    if outcomes.len() > 0 {
        let before = outcomes.drop_last();
        assert forall|i: int| 0 <= i < before.len() implies #[trigger] before[i] by {
            assert(before[i] == outcomes[i]);
        }
        lemma_success(s, before);
        assert(outcomes[outcomes.len() - 1]);
    }
}

/// A session that streams and is asked to end tells capture to end, awaits it, and takes the
/// connection down, whatever fails on the way; then it is closed. Any other is left as it is.
pub proof fn law_ending_takes_exactly_this_work(session: Session, a: bool, b: bool, c: bool)
    ensures
        session.phase == Phase::Streaming || session.phase == Phase::StoppingCapture ==> {
            let s = asked_to_end(session);
            &&& work_done(s, seq![a, b, c]) == seq![
                Step::StopCapture,
                Step::JoinCapture,
                Step::Disconnect,
            ]
            &&& session_after(s, seq![a, b, c]).phase == Phase::Closed
        },
        session.phase != Phase::Streaming ==> asked_to_end(session) == session,
{
    let s = asked_to_end(session);
    let all = seq![a, b, c];
    assert(all.drop_last() =~= seq![a, b]);
    assert(seq![a, b].drop_last() =~= seq![a]);
    assert(seq![a].drop_last() =~= Seq::<bool>::empty());
    reveal_with_fuel(work_done, 4);
    reveal_with_fuel(session_after, 4);
    if s.phase == Phase::StoppingCapture {
        assert(work_done(s, all) =~= seq![Step::StopCapture, Step::JoinCapture, Step::Disconnect]);
    }
}

/// A session that streams sends a changed volume, that one, at once and streams on; one whose turn to
/// set the volume is still to come sends it then. Nothing but the volume changes.
pub proof fn law_changed_volume_is_sent(s: Session, volume: Volume, ok: bool)
    ensures
        s.phase == Phase::Streaming ==> {
            &&& volume_work(s, volume) == Some(Step::SetVolume(volume))
            &&& with_volume(s, volume).phase == Phase::Streaming
        },
        s.phase != Phase::Streaming ==> volume_work(s, volume) is None,
        s.phase == Phase::SettingVolume ==> step_of(with_volume(s, volume)) == Some(
            Step::SetVolume(volume),
        ),
        moved_on(with_volume(s, volume), ok) == with_volume(moved_on(s, ok), volume),
        with_volume(s, volume).address == s.address,
{
}

/// Keepalives are sent while a session streams, and only then.
pub proof fn law_keepalives_belong_to_streams(s: Session)
    ensures
        feedback_work(s) == Some(Step::SendFeedback) <==> s.phase == Phase::Streaming,
        feedback_work(s) is Some ==> step_of(s) is None,
{
}

/// A session that failed or was closed leaves no capture running and nothing playing, and a closed
/// one no connection.
pub proof fn law_nothing_is_left_running(s: Session, w: World)
    requires
        as_expected(s, w),
        s.phase == Phase::Failed || s.phase == Phase::Closed,
    ensures
        !w.capturing,
        !w.playing,
        s.phase == Phase::Closed ==> w.connected is None,
{
}

/// How many pieces of work lie at most ahead of a phase.
pub open spec fn work_ahead(phase: Phase) -> nat {
    match phase {
        Phase::MakingCookie => 8,
        Phase::Connecting => 7,
        Phase::SettingUp => 6,
        Phase::SettingVolume => 5,
        Phase::StartingCapture => 4,
        Phase::StartingStream => 3,
        Phase::AbandoningCapture => 2,
        Phase::AwaitingAbandoned => 1,
        Phase::StoppingCapture => 3,
        Phase::AwaitingCapture => 2,
        Phase::Disconnecting => 1,
        Phase::Streaming | Phase::Failed | Phase::Closed => 0,
    }
}

/// Bringing a session up or down comes to an end: every piece of work leaves fewer ahead.
pub proof fn law_work_ends(s: Session, ok: bool)
    ensures
        step_of(s) is Some ==> work_ahead(phase_after(s.phase, ok)) < work_ahead(s.phase),
        step_of(s) is None ==> work_ahead(s.phase) == 0,
{
}

/// Every device that is offered has an address to start a session with; and one that speaks AirPlay
/// 2 and has such an address is offered.
pub proof fn law_offered_devices_can_start(d: Device)
    ensures
        device::usable(d) ==> device::first_v4(d.addresses@) is Some,
        d.supports_airplay2 && device::first_v4(d.addresses@) is Some ==> device::usable(d),
{
    device::lemma_first_v4(d.addresses@);
}

} // verus!
