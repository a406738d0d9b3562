use homepod_cast::hotkey::{
    from_box, hotkeyf_to_mod, initial_hotkey, load_hotkey, mod_to_hotkeyf, save_hotkey, set_hotkey,
    to_box, Call, Hotkey, DEFAULT_HOTKEY_MODS, DEFAULT_HOTKEY_VK, HOTKEYF_ALT, HOTKEYF_CONTROL,
    HOTKEYF_SHIFT, MOD_ALT, MOD_CONTROL, MOD_NOREPEAT, MOD_SHIFT,
};

#[test]
fn modifiers_are_translated() {
    assert_eq!(mod_to_hotkeyf(MOD_ALT), HOTKEYF_ALT);
    assert_eq!(mod_to_hotkeyf(MOD_CONTROL), HOTKEYF_CONTROL);
    assert_eq!(mod_to_hotkeyf(MOD_SHIFT), HOTKEYF_SHIFT);
    assert_eq!(mod_to_hotkeyf(0xffff_ffff), 7);
    assert_eq!(mod_to_hotkeyf(MOD_NOREPEAT), 0);
    assert_eq!(hotkeyf_to_mod(0), MOD_NOREPEAT);
    assert_eq!(hotkeyf_to_mod(HOTKEYF_ALT), MOD_NOREPEAT | MOD_ALT);
    assert_eq!(hotkeyf_to_mod(HOTKEYF_CONTROL), MOD_NOREPEAT | MOD_CONTROL);
    assert_eq!(hotkeyf_to_mod(HOTKEYF_SHIFT | 0xf8), MOD_NOREPEAT | MOD_SHIFT);
}

#[test]
fn modifiers_survive_the_way_to_the_box_and_back() {
    for flags in 0..8 {
        assert_eq!(mod_to_hotkeyf(hotkeyf_to_mod(flags)), flags);
        assert_eq!(hotkeyf_to_mod(mod_to_hotkeyf(MOD_NOREPEAT + flags)), MOD_NOREPEAT + flags);
    }
}

#[test]
fn default_hotkey_is_ctrl_alt_h() {
    let h = initial_hotkey(None);
    assert_eq!(h.mods, MOD_CONTROL | MOD_ALT | MOD_NOREPEAT);
    assert_eq!(h.vk, 'H' as u32);
    assert_eq!(h, Hotkey { mods: DEFAULT_HOTKEY_MODS, vk: DEFAULT_HOTKEY_VK });
    let kept = Hotkey { mods: 5, vk: 6 };
    assert_eq!(initial_hotkey(Some(kept)), kept);
}

#[test]
fn box_shows_key_and_flags() {
    assert_eq!(to_box(initial_hotkey(None)), 0x0648);
    assert_eq!(to_box(Hotkey { mods: MOD_SHIFT, vk: 0x1_0241 }), 0x0141);
}

#[test]
fn box_without_a_key_gives_no_hotkey() {
    assert_eq!(from_box(0), None);
    assert_eq!(from_box(0x0700), None);
    assert_eq!(from_box(0x0241), Some(Hotkey { mods: MOD_NOREPEAT | MOD_CONTROL, vk: 0x41 }));
}

#[test]
fn untouched_box_gives_the_hotkey_back() {
    for vk in 1..256 {
        for flags in 0..8 {
            let h = Hotkey { mods: hotkeyf_to_mod(flags), vk };
            assert_eq!(from_box(to_box(h)), Some(h));
        }
    }
    let odd = Hotkey { mods: 0xffff_ff0a, vk: 0x1_0241 };
    assert_eq!(from_box(to_box(odd)), Some(Hotkey { mods: 0x4002, vk: 0x41 }));
}

#[test]
fn hotkey_without_a_key_is_not_registered() {
    assert_eq!(set_hotkey(Hotkey { mods: 3, vk: 0 }), vec![Call::Unregister]);
    let h = Hotkey { mods: 3, vk: 65 };
    assert_eq!(set_hotkey(h), vec![Call::Unregister, Call::Register(h)]);
}

#[test]
fn only_the_hotkey_set_last_is_registered() {
    let key = |vk| Hotkey { mods: 0x4001, vk };
    for (set, expected) in [
        (vec![key(1)], vec![key(1)]),
        (vec![key(1), key(2), key(2)], vec![key(2)]),
        (vec![key(1), key(0)], vec![]),
        (vec![key(1), key(0), key(3)], vec![key(3)]),
    ] {
        let mut registered: Vec<Hotkey> = Vec::new();
        for h in set {
            for call in set_hotkey(h) {
                match call {
                    Call::Unregister => registered.clear(),
                    Call::Register(h) => registered.push(h),
                }
            }
        }
        assert_eq!(registered, expected);
    }
}

#[test]
fn hotkey_is_kept_as_text() {
    let h = initial_hotkey(None);
    assert_eq!(save_hotkey(h), b"16387,72");
    for h in [
        h,
        Hotkey { mods: 0, vk: 0 },
        Hotkey { mods: u32::MAX, vk: u32::MAX },
        Hotkey { mods: 10, vk: 4_294_967_290 },
    ] {
        assert_eq!(load_hotkey(&save_hotkey(h)), Some(h));
    }
}

#[test]
fn text_that_is_no_hotkey_is_refused() {
    for text in ["", ",", "1", "1,", ",1", "1,2,3", "1,x", "x,1", "1 ,2", "4294967296,1", "1,99999999999"] {
        assert_eq!(load_hotkey(&text.as_bytes().to_vec()), None, "{text}");
    }
    assert_eq!(load_hotkey(&b"007,0".to_vec()), Some(Hotkey { mods: 7, vk: 0 }));
}
