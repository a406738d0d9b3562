use homepod_cast::control::{Cmd, Control, Effect, Received, Status};
use homepod_cast::hotkey::Hotkey;
use homepod_cast::tray::{
    build_menu, is_toggle, Entry, Event, MenuIds, Reaction, Target, Tray, WM_HOTKEY,
};
use homepod_cast::volume::from_slider;

const KEY: Hotkey = Hotkey { mods: 0x4003, vk: 0x48 };

fn shown(e: &Entry) -> String {
    match e {
        Entry::Separator => "-".to_string(),
        Entry::Check { label, checked, target } => format!("{label}|{checked}|{target:?}"),
        Entry::Item { label, target } => format!("{label}|{target:?}"),
        Entry::Note { label } => format!("{label}|disabled"),
    }
}

#[test]
fn menu_lists_the_devices() {
    let names = vec!["Living Room".to_string(), "Kitchen".to_string()];
    let menu: Vec<String> = build_menu(&names).iter().map(shown).collect();
    assert_eq!(
        menu,
        vec![
            "\u{25A0}  Stopped|true|Stopped",
            "-",
            "\u{25B6}  Living Room|false|Device(0)",
            "\u{25B6}  Kitchen|false|Device(1)",
            "-",
            "Settings\u{2026}|Settings",
            "-",
            "Quit|Quit",
        ]
    );
}

#[test]
fn menu_says_that_there_are_no_devices() {
    let menu: Vec<String> = build_menu(&Vec::new()).iter().map(shown).collect();
    assert_eq!(menu.len(), 7);
    assert_eq!(menu[2], "No AirPlay devices found|disabled");
}

fn ids() -> MenuIds {
    MenuIds {
        stopped: "1".to_string(),
        devices: vec!["2".to_string(), "3".to_string()],
        settings: "4".to_string(),
        quit: "5".to_string(),
    }
}

#[test]
fn clicks_find_their_entries() {
    let ids = ids();
    let at = |id: &str| ids.target(&id.to_string());
    assert_eq!(at("1"), Some(Target::Stopped));
    assert_eq!(at("2"), Some(Target::Device(0)));
    assert_eq!(at("3"), Some(Target::Device(1)));
    assert_eq!(at("4"), Some(Target::Settings));
    assert_eq!(at("5"), Some(Target::Quit));
    assert_eq!(at("6"), None);
}

#[test]
fn only_the_registered_hotkey_toggles() {
    assert!(is_toggle(WM_HOTKEY, 1));
    assert!(!is_toggle(WM_HOTKEY, 2));
    assert!(!is_toggle(0x0311, 1));
}

fn quiet() -> Reaction {
    Reaction { command: None, redraw: false, open_settings: false, hotkey: None }
}

fn drawn(command: Option<Cmd>) -> Reaction {
    Reaction { command, redraw: true, ..quiet() }
}

#[test]
fn hotkey_toggles_the_last_device() {
    let mut t = Tray::new(2, KEY);
    assert_eq!(t.react(Event::Toggle), drawn(Some(Cmd::Start(0))));
    assert_eq!(t.active, Some(0));
    assert_eq!(t.react(Event::Click(Target::Device(1))), drawn(Some(Cmd::Start(1))));
    let before = t;
    assert_eq!(t.react(Event::Toggle), drawn(Some(Cmd::Stop)));
    assert_eq!(t.active, None);
    assert_eq!(t.react(Event::Toggle), drawn(Some(Cmd::Start(1))));
    assert_eq!(t, before);
}

#[test]
fn hotkey_without_devices_does_nothing() {
    let mut t = Tray::new(0, KEY);
    assert_eq!(t.react(Event::Toggle), drawn(None));
    assert_eq!(t.active, None);
}

#[test]
fn clicking_what_is_ticked_sends_nothing() {
    let mut t = Tray::new(2, KEY);
    assert_eq!(t.react(Event::Click(Target::Stopped)), drawn(None));
    t.react(Event::Click(Target::Device(1)));
    assert_eq!(t.react(Event::Click(Target::Device(1))), drawn(None));
    assert_eq!(t.react(Event::Click(Target::Stopped)), drawn(Some(Cmd::Stop)));
}

#[test]
fn settings_quit_and_chosen_hotkey() {
    let mut t = Tray::new(2, KEY);
    let open = t.react(Event::Click(Target::Settings));
    assert_eq!(open, Reaction { open_settings: true, ..quiet() });
    let other = Hotkey { mods: 0x4001, vk: 0x41 };
    assert_eq!(t.react(Event::Chosen(other)), Reaction { hotkey: Some(other), ..quiet() });
    assert_eq!(t.hotkey, other);
    assert!(!t.quit);
    let quit = t.react(Event::Click(Target::Quit));
    assert_eq!(quit, Reaction { command: Some(Cmd::Quit), ..quiet() });
    assert!(t.quit);
}

#[test]
fn report_corrects_the_guess() {
    let mut t = Tray::new(2, KEY);
    t.react(Event::Click(Target::Device(1)));
    assert_eq!(t.react(Event::Reported(Status::Stopped)), drawn(None));
    assert_eq!(t.active, None);
    assert_eq!(t.last_device, 1);
    t.react(Event::Reported(Status::Streaming(0)));
    assert_eq!(t.active, Some(0));
    assert_eq!(t.last_device, 0);
}

#[test]
fn exactly_one_entry_is_ticked() {
    let mut t = Tray::new(3, KEY);
    for e in [
        Event::Toggle,
        Event::Click(Target::Device(2)),
        Event::Click(Target::Stopped),
        Event::Reported(Status::Streaming(1)),
    ] {
        t.react(e);
        let m = t.apply_state();
        let ticked = m.devices.iter().filter(|d| **d).count() + usize::from(m.stopped);
        assert_eq!(ticked, 1);
        assert_eq!(m.devices.len(), 3);
        assert_eq!(m.streaming, !m.stopped);
        if let Some(i) = t.active {
            assert!(m.devices[i]);
        }
    }
}

#[test]
fn tray_and_control_agree() {
    let mut t = Tray::new(2, KEY);
    let mut c = Control::new(2, from_slider(25), 0);
    for e in [
        Event::Toggle,
        Event::Click(Target::Device(1)),
        Event::Click(Target::Device(1)),
        Event::Toggle,
        Event::Toggle,
        Event::Click(Target::Stopped),
    ] {
        let mut reports = Vec::new();
        if let Some(cmd) = t.react(e).command {
            for effect in c.receive(Received::Command(cmd)) {
                match effect {
                    Effect::StartSession { device, .. } => {
                        reports.push(c.started(device, true, 5));
                    }
                    Effect::Report(status) => reports.push(status),
                    _ => {}
                }
            }
        }
        assert_eq!(t.active, c.session);
        for status in reports {
            t.react(Event::Reported(status));
        }
        assert_eq!(t.active, c.session);
    }
}
