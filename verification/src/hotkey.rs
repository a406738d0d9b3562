//! The global toggle hotkey: its modifier flags, the word that the hotkey box shows, and the text
//! that keeps it across restarts.
use vstd::prelude::*;

use crate::decimal;

verus! {

// Modifier flags of a registered hotkey.
pub const MOD_ALT: u32 = 0x0001;

pub const MOD_CONTROL: u32 = 0x0002;

pub const MOD_SHIFT: u32 = 0x0004;

pub const MOD_NOREPEAT: u32 = 0x4000;

// Modifier flags of the hotkey box.
pub const HOTKEYF_SHIFT: u32 = 0x01;

pub const HOTKEYF_CONTROL: u32 = 0x02;

pub const HOTKEYF_ALT: u32 = 0x04;

/// The identifier under which the toggle hotkey is registered.
pub const HOTKEY_ID: i32 = 1;

/// Modifiers of the default hotkey, Ctrl+Alt+H.
pub const DEFAULT_HOTKEY_MODS: u32 = 0x4003;

/// Key of the default hotkey, Ctrl+Alt+H.
pub const DEFAULT_HOTKEY_VK: u32 = 0x48;

/// A key and the modifiers to hold with it. The key 0 stands for no hotkey at all.
#[derive(Clone, Copy, Debug, PartialEq, Eq, Structural)]
pub struct Hotkey {
    pub mods: u32,
    pub vk: u32,
}

/// `flag` where `on` holds, else nothing.
pub open spec fn flag_if(on: bool, flag: u32) -> u32 {
    if on {
        flag
    } else {
        0
    }
}

/// The hotkey box's flags for the modifiers of a registered hotkey.
pub open spec fn box_flags(mods: u32) -> u32 {
    (flag_if(mods & MOD_ALT != 0, HOTKEYF_ALT) + flag_if(mods & MOD_CONTROL != 0, HOTKEYF_CONTROL)
        + flag_if(mods & MOD_SHIFT != 0, HOTKEYF_SHIFT)) as u32
}

/// The modifiers of a registered hotkey for the hotkey box's flags: holding the keys down does not
/// trigger it again.
pub open spec fn registered_mods(flags: u32) -> u32 {
    (MOD_NOREPEAT + flag_if(flags & HOTKEYF_ALT != 0, MOD_ALT) + flag_if(
        flags & HOTKEYF_CONTROL != 0,
        MOD_CONTROL,
    ) + flag_if(flags & HOTKEYF_SHIFT != 0, MOD_SHIFT)) as u32
}

/// Translates the modifiers of a registered hotkey into the hotkey box's flags.
pub fn mod_to_hotkeyf(mods: u32) -> (f: u32)
    ensures
        f == box_flags(mods),
        f <= 7,
        f & 4 != 0 <==> mods & 1 != 0,
        f & 2 != 0 <==> mods & 2 != 0,
        f & 1 != 0 <==> mods & 4 != 0,
{
    proof {
        law_modifiers_keep_their_meaning(mods);
    }

    let mut f: u32 = 0;
    if mods & MOD_ALT != 0 {
        f = f + HOTKEYF_ALT;
    }
    if mods & MOD_CONTROL != 0 {
        f = f + HOTKEYF_CONTROL;
    }
    if mods & MOD_SHIFT != 0 {
        f = f + HOTKEYF_SHIFT;
    }
    f
}

/// Translates the hotkey box's flags into the modifiers of a registered hotkey.
pub fn hotkeyf_to_mod(f: u32) -> (m: u32)
    ensures
        m == registered_mods(f),
        0x4000 <= m <= 0x4007,
        m & 1 != 0 <==> f & 4 != 0,
        m & 2 != 0 <==> f & 2 != 0,
        m & 4 != 0 <==> f & 1 != 0,
{
    proof {
        law_modifiers_keep_their_meaning(f);
    }

    let mut m: u32 = MOD_NOREPEAT;
    if f & HOTKEYF_ALT != 0 {
        m = m + MOD_ALT;
    }
    if f & HOTKEYF_CONTROL != 0 {
        m = m + MOD_CONTROL;
    }
    if f & HOTKEYF_SHIFT != 0 {
        m = m + MOD_SHIFT;
    }
    m
}

/// Whether Alt, Control and Shift are the only modifiers, and holding the keys down does not
/// trigger the hotkey again: every hotkey that the hotkey box can produce.
pub open spec fn producible_mods(mods: u32) -> bool {
    MOD_NOREPEAT <= mods <= MOD_NOREPEAT + 7
}

/// Alt, Control and Shift survive the way into the box and back, whatever other modifiers there
/// are. So modifiers that the box can produce survive as they are.
pub proof fn law_mods_survive_the_box(mods: u32)
    ensures
        registered_mods(box_flags(mods)) == (mods & 7) | MOD_NOREPEAT,
        producible_mods(mods) ==> registered_mods(box_flags(mods)) == mods,
{
    assert(registered_mods(box_flags(mods)) == (mods & 7) | MOD_NOREPEAT) by (bit_vector);
    assert(0x4000 <= mods <= 0x4007 ==> (mods & 7) | 0x4000 == mods) by (bit_vector);
}

/// The hotkey box's flags survive the way into a registered hotkey and back.
pub proof fn law_box_flags_survive_registering(flags: u32)
    ensures
        box_flags(registered_mods(flags)) == flags & 7,
        flags <= 7 ==> box_flags(registered_mods(flags)) == flags,
        producible_mods(registered_mods(flags)),
{
    assert(box_flags(registered_mods(flags)) == flags & 7) by (bit_vector);
    assert(flags <= 7 ==> flags & 7 == flags) by (bit_vector);
}

/// Alt stays Alt, Control stays Control and Shift stays Shift, either way: 1, 2 and 4 where a hotkey
/// is registered, 4, 2 and 1 in the box. The box has no other flags; a registered hotkey has no
/// other modifiers but that holding the keys down does not trigger it again.
pub proof fn law_modifiers_keep_their_meaning(x: u32)
    ensures
        box_flags(x) <= 7,
        box_flags(x) & 4 != 0 <==> x & 1 != 0,
        box_flags(x) & 2 != 0 <==> x & 2 != 0,
        box_flags(x) & 1 != 0 <==> x & 4 != 0,
        0x4000 <= registered_mods(x) <= 0x4007,
        registered_mods(x) & 1 != 0 <==> x & 4 != 0,
        registered_mods(x) & 2 != 0 <==> x & 2 != 0,
        registered_mods(x) & 4 != 0 <==> x & 1 != 0,
{
    assert(box_flags(x) <= 7 && (box_flags(x) & 4 != 0 <==> x & 1 != 0) && (box_flags(x) & 2 != 0
        <==> x & 2 != 0) && (box_flags(x) & 1 != 0 <==> x & 4 != 0)) by (bit_vector);
    assert(0x4000 <= registered_mods(x) <= 0x4007 && (registered_mods(x) & 1 != 0 <==> x & 4 != 0)
        && (registered_mods(x) & 2 != 0 <==> x & 2 != 0) && (registered_mods(x) & 4 != 0 <==> x & 1
        != 0)) by (bit_vector);
}

/// The word that shows a hotkey in the hotkey box: the key in the low byte, the flags above it.
pub open spec fn box_word(h: Hotkey) -> int {
    h.vk % 0x100 + 0x100 * box_flags(h.mods)
}

/// The hotkey that a word of the hotkey box stands for, if it has a key.
pub open spec fn hotkey_in_box(word: u32) -> Option<Hotkey> {
    if word % 0x100 == 0 {
        None
    } else {
        Some(Hotkey { mods: registered_mods((word / 0x100 % 0x100) as u32), vk: (word % 0x100) as u32 })
    }
}

/// The word to show a hotkey in the hotkey box.
pub fn to_box(h: Hotkey) -> (word: u32)
    ensures
        word == box_word(h),
{
    h.vk % 0x100 + 0x100 * mod_to_hotkeyf(h.mods)
}

/// The hotkey that the user left in the hotkey box.
pub fn from_box(word: u32) -> (r: Option<Hotkey>)
    ensures
        r == hotkey_in_box(word),
{
    let vk: u32 = word % 0x100;
    let flags: u32 = word / 0x100 % 0x100;
    if vk != 0 {
        Some(Hotkey { mods: hotkeyf_to_mod(flags), vk })
    } else {
        None
    }
}

/// The box gives back the key that it shows, with Alt, Control and Shift as they were. So a hotkey
/// that the box can produce is read back as it was shown.
pub proof fn law_box_gives_back_what_it_shows(h: Hotkey)
    requires
        h.vk % 0x100 != 0,
    ensures
        hotkey_in_box(box_word(h) as u32) == Some(
            Hotkey { mods: (h.mods & 7) | MOD_NOREPEAT, vk: (h.vk % 0x100) as u32 },
        ),
        producible_mods(h.mods) && h.vk < 0x100 ==> hotkey_in_box(box_word(h) as u32) == Some(h),
{
    law_mods_survive_the_box(h.mods);
}

/// What the box gives can be shown in it again: a key of one byte with modifiers that the box has.
pub proof fn law_box_gives_what_it_can_show(word: u32)
    ensures
        hotkey_in_box(word) matches Some(h) ==> producible_mods(h.mods) && 0 < h.vk < 0x100,
{
}

/// A call to the system about the toggle hotkey.
#[derive(Clone, Copy, Debug, PartialEq, Eq, Structural)]
pub enum Call {
    /// Take back what is registered under [`HOTKEY_ID`].
    Unregister,
    /// Register a hotkey under [`HOTKEY_ID`].
    Register(Hotkey),
}

/// The calls that make a hotkey the global toggle: the one before is always taken back first, and
/// a hotkey without a key is not registered.
pub open spec fn calls_for(h: Hotkey) -> Seq<Call> {
    if h.vk == 0 {
        seq![Call::Unregister]
    } else {
        seq![Call::Unregister, Call::Register(h)]
    }
}

/// The calls that make a hotkey the global toggle, in this order.
pub fn set_hotkey(h: Hotkey) -> (calls: Vec<Call>)
    ensures
        calls@ == calls_for(h),
        h.vk == 0 ==> calls@ == seq![Call::Unregister],
        h.vk != 0 ==> calls@ == seq![Call::Unregister, Call::Register(h)],
{
    let mut calls: Vec<Call> = Vec::new();
    calls.push(Call::Unregister);
    if h.vk != 0 {
        calls.push(Call::Register(h));
    }
    assert(calls@ =~= calls_for(h));
    calls
}

/// What is registered as the toggle after some calls. A registration comes on top of those that
/// stand, unless the system refuses it, as `ok` says.
pub open spec fn registered_after(registered: Set<Hotkey>, calls: Seq<Call>, ok: bool) -> Set<
    Hotkey,
>
    decreases calls.len(),
{
    if calls.len() == 0 {
        registered
    } else {
        let before = registered_after(registered, calls.drop_last(), ok);
        match calls.last() {
            Call::Unregister => Set::empty(),
            Call::Register(h) => if ok {
                before.insert(h)
            } else {
                before
            },
        }
    }
}

/// What is registered after hotkeys were set one after another, each accepted or refused.
pub open spec fn registered_after_all(registered: Set<Hotkey>, set: Seq<(Hotkey, bool)>) -> Set<
    Hotkey,
>
    decreases set.len(),
{
    if set.len() == 0 {
        registered
    } else {
        registered_after(
            registered_after_all(registered, set.drop_last()),
            calls_for(set.last().0),
            set.last().1,
        )
    }
}

/// However often hotkeys were set, nothing is registered but the one that was set last: none if it
/// has no key or the system refused it.
pub proof fn law_only_the_last_hotkey_is_registered(
    registered: Set<Hotkey>,
    set: Seq<(Hotkey, bool)>,
)
    requires
        set.len() > 0,
    ensures
        registered_after_all(registered, set) == if set.last().0.vk != 0 && set.last().1 {
            Set::empty().insert(set.last().0)
        } else {
            Set::empty()
        },
{
    let calls = calls_for(set.last().0);
    reveal_with_fuel(registered_after, 3);
    if calls.len() == 2 {
        assert(calls.drop_last().last() == Call::Unregister);
    }
}

/// The comma between the modifiers and the key in the kept text.
pub const COMMA: u8 = 0x2c;

/// The text that keeps a hotkey across restarts: modifiers and key in decimal, a comma between.
pub open spec fn hotkey_text(h: Hotkey) -> Seq<u8> {
    decimal::decimal(h.mods as nat) + seq![COMMA] + decimal::decimal(h.vk as nat)
}

/// The hotkey in a kept text: a number before the first comma and one behind it.
pub open spec fn hotkey_in_text(text: Seq<u8>) -> Option<Hotkey> {
    match text.index_of_first(COMMA) {
        None => None,
        Some(i) => match (
            decimal::number_in(text.take(i)),
            decimal::number_in(text.skip(i + 1)),
        ) {
            (Some(mods), Some(vk)) => Some(Hotkey { mods, vk }),
            _ => None,
        },
    }
}

/// The text that keeps a hotkey across restarts.
pub fn save_hotkey(h: Hotkey) -> (text: Vec<u8>)
    ensures
        text@ == hotkey_text(h),
{
    let mut text: Vec<u8> = Vec::new();
    decimal::push_decimal(&mut text, h.mods);
    text.push(COMMA);
    decimal::push_decimal(&mut text, h.vk);
    assert(text@ =~= hotkey_text(h));
    text
}

/// The hotkey in a kept text, if the text holds one.
pub fn load_hotkey(text: &Vec<u8>) -> (r: Option<Hotkey>)
    ensures
        r == hotkey_in_text(text@),
{
    proof {
        text@.index_of_first_ensures(COMMA);
    }
    let mut i: usize = 0;
    while i < text.len() && text[i] != COMMA
        invariant
            i <= text@.len(),
            forall|j: int| 0 <= j < i ==> text@[j] != COMMA,
        decreases text@.len() - i,
    {
        i = i + 1;
    }
    if i == text.len() {
        return None;
    }
    assert(text@.index_of_first(COMMA) == Some(i as int));
    assert(text@.subrange(0, i as int) == text@.take(i as int));
    assert(text@.subrange(i + 1, text@.len() as int) == text@.skip(i + 1));
    let mods: Option<u32> = decimal::read_number(text, 0, i);
    let vk: Option<u32> = decimal::read_number(text, i + 1, text.len());
    match (mods, vk) {
        (Some(mods), Some(vk)) => Some(Hotkey { mods, vk }),
        _ => None,
    }
}

/// A hotkey is read back from the text that keeps it.
pub proof fn law_hotkey_is_kept(h: Hotkey)
    ensures
        hotkey_in_text(hotkey_text(h)) == Some(h),
{
    let text = hotkey_text(h);
    let left = decimal::decimal(h.mods as nat);
    let right = decimal::decimal(h.vk as nat);
    decimal::lemma_decimal(h.mods as nat);
    decimal::lemma_decimal(h.vk as nat);
    text.index_of_first_ensures(COMMA);
    let k = left.len() as int;
    assert(text[k] == COMMA);
    assert forall|j: int| 0 <= j < k implies text[j] != COMMA by {
        assert(decimal::is_digit(left[j]));
    }
    assert(text.index_of_first(COMMA) == Some(k));
    assert(text.take(k) == left);
    assert(text.skip(k + 1) == right);
}

/// The hotkey to register at start: the kept one, or Ctrl+Alt+H.
pub fn initial_hotkey(kept: Option<Hotkey>) -> (h: Hotkey)
    ensures
        kept matches Some(k) ==> h == k,
        kept is None ==> h.mods == DEFAULT_HOTKEY_MODS && h.vk == DEFAULT_HOTKEY_VK,
        kept is None ==> h.mods == 0x4003 && h.vk == 0x48,
{
    match kept {
        Some(h) => h,
        None => Hotkey { mods: DEFAULT_HOTKEY_MODS, vk: DEFAULT_HOTKEY_VK },
    }
}

/// The box's word holds the key's low byte in its low byte and the flags in the byte above; a word
/// without a key in its low byte is no hotkey, and any other is that key with the flags of the byte
/// above.
pub proof fn law_box_word_has_its_bytes(h: Hotkey, word: u32)
    ensures
        0 <= box_word(h) < 0x800,
        box_word(h) % 0x100 == h.vk % 0x100,
        box_word(h) / 0x100 == box_flags(h.mods),
        hotkey_in_box(word) is None <==> word % 0x100 == 0,
        hotkey_in_box(word) matches Some(k) ==> {
            &&& k.vk == word % 0x100
            &&& k.mods == registered_mods(((word / 0x100) % 0x100) as u32)
        },
{
    law_modifiers_keep_their_meaning(h.mods);
}

/// What a kept text says: two numbers with the first comma between them, the modifiers before it and
/// the key behind it; a text without a comma, or with anything else than a number on either side,
/// says nothing.
pub proof fn law_kept_text_is_two_numbers(before: Seq<u8>, behind: Seq<u8>)
    requires
        !before.contains(0x2c),
    ensures
        hotkey_in_text(before) is None,
        hotkey_in_text(before.push(0x2c) + behind) is Some <==> decimal::number_in(before) is Some
            && decimal::number_in(behind) is Some,
        hotkey_in_text(before.push(0x2c) + behind) matches Some(h) ==> {
            &&& Some(h.mods) == decimal::number_in(before)
            &&& Some(h.vk) == decimal::number_in(behind)
        },
{
    let text = before.push(0x2c) + behind;
    let k = before.len() as int;
    before.index_of_first_ensures(COMMA);
    text.index_of_first_ensures(COMMA);
    assert(text[k] == COMMA);
    assert forall|j: int| 0 <= j < k implies text[j] != COMMA by {
        assert(text[j] == before[j]);
        assert(before.contains(before[j]));
    }
    assert(text.index_of_first(COMMA) == Some(k));
    assert(text.take(k) == before);
    assert(text.skip(k + 1) == behind);
}

/// The text that keeps a hotkey is its modifiers and its key in decimal, without leading zeros, with
/// a comma between.
pub proof fn law_kept_text_has_modifiers_then_key(h: Hotkey)
    ensures
        hotkey_text(h) == decimal::decimal(h.mods as nat).push(0x2c) + decimal::decimal(h.vk as nat),
        exists|mods: Seq<u8>, vk: Seq<u8>| #[trigger]
            (mods.push(0x2c) + vk) == hotkey_text(h) && decimal::number_in(mods) == Some(h.mods)
                && decimal::number_in(vk) == Some(h.vk),
{
    let mods = decimal::decimal(h.mods as nat);
    let vk = decimal::decimal(h.vk as nat);
    decimal::lemma_decimal(h.mods as nat);
    decimal::lemma_decimal(h.vk as nat);
    assert(mods.push(0x2c) + vk =~= hotkey_text(h));
}

} // verus!
