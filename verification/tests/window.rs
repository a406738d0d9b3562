use homepod_cast::hotkey::{initial_hotkey, to_box};
use homepod_cast::volume::{from_slider, load_volume};
use homepod_cast::window::{
    children, make_lparam, open, percent_label, wide, wnd_proc, Action, Role, ID_CLOSE, ID_SAVE,
    WM_CLOSE, WM_COMMAND, WM_DESTROY, WM_HSCROLL,
};

fn encoded(s: &str) -> Vec<u16> {
    s.encode_utf16().chain(std::iter::once(0)).collect()
}

#[test]
fn texts_are_utf16_with_a_zero() {
    for s in ["", "Volume", "HomePod Cast \u{2014} Settings", "\u{ffff}", "\u{10000}", "\u{10ffff}a\u{1f50a}"] {
        assert_eq!(wide(s), encoded(s));
    }
    assert_eq!(wide("Hi"), vec![72, 105, 0]);
}

#[test]
fn a_text_has_its_only_zero_at_the_end() {
    let r = wide("Toggle on/off shortcut \u{1f50a}");
    assert_eq!(r.iter().position(|u| *u == 0), Some(r.len() - 1));
}

#[test]
fn percent_label_shows_the_position() {
    for pos in [0, 7, 25, 100, -1, 1234, i32::MAX, i32::MIN] {
        assert_eq!(percent_label(pos), encoded(&format!("{pos}%")));
    }
}

#[test]
fn low_words_are_packed() {
    for low in [0, 1, 100, -1, 0x1_2345, i32::MIN, i32::MAX] {
        for high in [0, 1, 100, -1, 0x1_2345, i32::MIN, i32::MAX] {
            let expected = ((high as u32) << 16) | (low as u32 & 0xffff);
            assert_eq!(make_lparam(low, high), expected);
        }
    }
}

#[test]
fn window_opens_on_the_current_settings() {
    let h = initial_hotkey(None);
    let s = open(false, load_volume(None), h).unwrap();
    assert_eq!(s.position, 25);
    assert_eq!(s.percent, encoded("25%"));
    assert_eq!(s.range, 100 << 16);
    assert_eq!(s.hotkey, to_box(h));
    assert_eq!(s.children.len(), 7);
}

#[test]
fn only_one_window_opens() {
    assert!(open(true, from_slider(50), initial_hotkey(None)).is_none());
}

#[test]
fn controls_are_laid_out() {
    const BASE: u32 = 0x4000_0000 | 0x1000_0000;
    let all: Vec<(Role, &str, &str, u32, [i32; 4], usize)> = children()
        .iter()
        .map(|c| (c.role, c.class, c.text, c.style, [c.x, c.y, c.width, c.height], c.id))
        .collect();
    let tab: u32 = 0x0001_0000;
    assert_eq!(
        all,
        vec![
            (Role::Caption, "STATIC", "Volume", BASE, [16, 16, 120, 20], 0),
            (Role::Slider, "msctls_trackbar32", "", BASE | tab | 1, [14, 40, 250, 32], 0),
            (Role::Percent, "STATIC", "", BASE, [280, 44, 60, 20], 0),
            (Role::Caption, "STATIC", "Toggle on/off shortcut", BASE, [16, 92, 220, 20], 0),
            (Role::HotkeyBox, "msctls_hotkey32", "", BASE | tab | 0x0080_0000, [16, 114, 200, 24], 0),
            (Role::Button, "BUTTON", "Save shortcut", BASE | tab, [16, 158, 110, 30], 100),
            (Role::Button, "BUTTON", "Close", BASE | tab, [250, 158, 90, 30], 101),
        ]
    );
}

fn action(message: u32, wparam: usize, has_state: bool) -> Action {
    wnd_proc(message, wparam, has_state).action
}

#[test]
fn messages_lead_to_actions() {
    assert_eq!(action(WM_HSCROLL, 0, true), Action::FollowSlider);
    assert_eq!(action(WM_HSCROLL, 0, false), Action::Default);
    assert_eq!(action(WM_COMMAND, ID_SAVE, true), Action::SaveAndClose);
    assert_eq!(action(WM_COMMAND, 0x3_0000 + ID_CLOSE, true), Action::Close);
    assert_eq!(action(WM_COMMAND, 7, true), Action::Nothing);
    assert_eq!(action(WM_COMMAND, ID_SAVE, false), Action::Default);
    assert_eq!(action(WM_CLOSE, 0, false), Action::Close);
    assert_eq!(action(WM_DESTROY, 0, true), Action::Leave { release: true });
    assert_eq!(action(WM_DESTROY, 0, false), Action::Leave { release: false });
    assert_eq!(action(0x000f, 0, true), Action::Default);
}

#[test]
fn state_is_released_once_and_then_left_alone() {
    let mut has_state = true;
    let mut actions = Vec::new();
    for (message, wparam) in [
        (WM_HSCROLL, 0),
        (WM_DESTROY, 0),
        (WM_HSCROLL, 0),
        (WM_COMMAND, ID_SAVE),
        (WM_DESTROY, 0),
    ] {
        let r = wnd_proc(message, wparam, has_state);
        has_state = r.has_state;
        actions.push(r.action);
    }
    assert_eq!(
        actions,
        vec![
            Action::FollowSlider,
            Action::Leave { release: true },
            Action::Default,
            Action::Default,
            Action::Leave { release: false },
        ]
    );
    assert!(!has_state);
}
