use homepod_cast::device::{Address, Device};
use homepod_cast::session::{
    selftest_next, stream_plan, ClockRole, Delivery, Phase, Session, Step, Timing,
};
use homepod_cast::volume::{from_slider, Volume};

const HOME: Address = Address::V4(0xc0a8_0001);

fn speaker() -> Device {
    Device {
        name: "Kitchen".to_string(),
        model: "AudioAccessory5,1".to_string(),
        supports_airplay2: true,
        addresses: vec![Address::V6(5), HOME, Address::V4(9)],
    }
}

/// Brings a session up (or down), with the work at the places in `failing` going wrong.
fn run(s: &mut Session, failing: &[usize]) -> Vec<Step> {
    let mut done = Vec::new();
    while let Some(step) = s.step() {
        let ok = !failing.contains(&done.len());
        done.push(step);
        s.advance(ok);
    }
    done
}

fn begin(alac: bool) -> Session {
    match Session::start(&speaker(), alac, from_slider(25)) {
        Ok(s) => s,
        Err(_) => panic!("refused"),
    }
}

#[test]
fn session_comes_up_in_order() {
    let v = from_slider(25);
    let mut s = begin(true);
    let done = run(&mut s, &[]);
    assert_eq!(
        done,
        vec![
            Step::MakeCookie,
            Step::Connect(HOME),
            Step::Setup,
            Step::SetVolume(v),
            Step::StartCapture,
            Step::StartStreaming,
        ]
    );
    assert!(s.is_streaming());
    let mut s = begin(false);
    assert_eq!(run(&mut s, &[])[0], Step::Connect(HOME));
}

#[test]
fn session_goes_down_in_order() {
    let mut s = begin(true);
    run(&mut s, &[]);
    s.stop();
    assert!(!s.is_streaming());
    let done = run(&mut s, &[0, 1, 2]);
    assert_eq!(done, vec![Step::StopCapture, Step::JoinCapture, Step::Disconnect]);
    assert_eq!(s.phase, Phase::Closed);
}

#[test]
fn early_failures_end_the_session() {
    for failing in 0..3 {
        let mut s = begin(true);
        let done = run(&mut s, &[failing]);
        assert_eq!(done.len(), failing + 1);
        assert_eq!(s.phase, Phase::Failed);
    }
}

#[test]
fn volume_that_cannot_be_set_is_forgiven() {
    let mut s = begin(true);
    run(&mut s, &[3, 4]);
    assert!(s.is_streaming());
}

#[test]
fn stream_that_does_not_start_takes_capture_down() {
    let mut s = begin(true);
    let done = run(&mut s, &[5]);
    assert_eq!(done[5..], [Step::StartStreaming, Step::StopCapture, Step::JoinCapture]);
    assert_eq!(s.phase, Phase::Failed);
    assert_eq!(s.step(), None);
}

#[test]
fn only_a_running_session_can_be_stopped() {
    let mut s = begin(true);
    s.stop();
    assert_eq!(s.phase, Phase::MakingCookie);
}

#[test]
fn live_work_needs_a_running_session() {
    let loud: Volume = from_slider(90);
    let mut s = begin(true);
    assert_eq!(s.feedback(), None);
    assert_eq!(s.set_volume(loud), None);
    let done = run(&mut s, &[]);
    assert_eq!(done[3], Step::SetVolume(loud));
    assert_eq!(s.feedback(), Some(Step::SendFeedback));
    assert_eq!(s.set_volume(from_slider(10)), Some(Step::SetVolume(from_slider(10))));
    assert!(s.is_streaming());
}

#[test]
fn selftest_sends_twenty_five_keepalives() {
    let mut elapsed = 0;
    let mut sent = 0;
    while let Some(next) = selftest_next(elapsed) {
        assert_eq!(next, elapsed + 2);
        elapsed = next;
        sent += 1;
    }
    assert_eq!(sent, 25);
    assert_eq!(elapsed, 50);
    assert_eq!(selftest_next(u32::MAX), None);
}

#[test]
fn streams_are_realtime_with_ntp_timing() {
    let p = stream_plan();
    assert_eq!(p.delivery, Delivery::Realtime);
    assert_eq!(p.timing, Timing::Ntp);
    assert_eq!(p.clock_role, ClockRole::Master);
    assert_eq!((p.latency_min, p.latency_max), (22_050, 88_200));
    assert!(p.supports_dynamic_stream_id);
    assert_eq!(p.pairing_code, "3939");
}
