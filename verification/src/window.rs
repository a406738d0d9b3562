//! The settings window: a volume slider and a box to choose the hotkey in.
use vstd::prelude::*;

use crate::decimal;
use crate::hotkey;
use crate::hotkey::{to_box, Hotkey};
use crate::volume;
use crate::volume::{slider_position, Volume};

verus! {

/// The UTF-16 code units of one character: itself, or a surrogate pair.
pub open spec fn utf16_units(c: char) -> Seq<u16> {
    let code = c as int;
    if code < 0x1_0000 {
        seq![code as u16]
    } else {
        seq![
            (0xd800 + (code - 0x1_0000) / 0x400) as u16,
            (0xdc00 + (code - 0x1_0000) % 0x400) as u16,
        ]
    }
}

/// The UTF-16 code units of a text.
pub open spec fn utf16(text: Seq<char>) -> Seq<u16>
    decreases text.len(),
{
    if text.len() == 0 {
        Seq::empty()
    } else {
        utf16(text.drop_last()) + utf16_units(text.last())
    }
}

/// The range of characters.
proof fn lemma_char_range(c: char)
    ensures
        0 <= c as int <= 0x10_ffff,
        c as u32 == c as int,
{
}

/// A text as the window system takes it: in UTF-16, with a zero behind it.
pub fn wide(s: &str) -> (r: Vec<u16>)
    ensures
        r@ == utf16(s@).push(0),
{
    let mut r: Vec<u16> = Vec::new();
    for c in it: s.chars()
        invariant
            r@ == utf16(s@.take(it.index() as int)),
            it.seq() == s@,
    {
        let code: u32 = c as u32;
        proof {
            lemma_char_range(c);
            let i = it.index() as int;
            assert(s@.take(i + 1).drop_last() == s@.take(i));
        }
        if code < 0x1_0000 {
            r.push(code as u16);
        } else {
            r.push((0xd800 + (code - 0x1_0000) / 0x400) as u16);
            r.push((0xdc00 + (code - 0x1_0000) % 0x400) as u16);
        }
    }
    proof {
        assert(s@.take(s@.len() as int) == s@);
    }
    r.push(0);
    r
}

/// A text without a zero in it has, as the window system takes it, its only zero at the end.
pub proof fn law_wide_text_ends_at_its_end(text: Seq<char>, i: int)
    requires
        forall|k: int| 0 <= k < text.len() ==> #[trigger] text[k] != '\0',
        0 <= i < utf16(text).len(),
    ensures
        utf16(text)[i] != 0,
    decreases text.len(),
{
    let before = text.drop_last();
    let last = text.last();
    assert(text[text.len() - 1] == last);
    lemma_char_range(last);
    assert(last as int != 0);
    let units = utf16_units(last);
    assert(forall|k: int| 0 <= k < units.len() ==> units[k] != 0);
    if i < utf16(before).len() {
        assert forall|k: int| 0 <= k < before.len() implies #[trigger] before[k] != '\0' by {
            assert(before[k] == text[k]);
        }
        law_wide_text_ends_at_its_end(before, i);
    } else {
        assert(utf16(text)[i] == units[i - utf16(before).len()]);
    }
}

/// A character that fits is one unit, itself; any other is a high and a low surrogate, which between
/// them hold the bits of what it lies beyond the first 65536.
pub proof fn law_units_stand_for_their_character(c: char)
    ensures
        (c as int) < 0x1_0000 ==> utf16_units(c).len() == 1 && utf16_units(c)[0] == c as int,
        c as int >= 0x1_0000 ==> {
            let u = utf16_units(c);
            &&& u.len() == 2
            &&& 0xd800 <= u[0] < 0xdc00
            &&& 0xdc00 <= u[1] < 0xe000
            &&& c as int == 0x1_0000 + 0x400 * (u[0] - 0xd800) + (u[1] - 0xdc00)
        },
{
    lemma_char_range(c);
}

/// The units of a text are those of its characters, one character behind the other: joining two
/// texts joins their units.
pub proof fn law_joined_texts_have_joined_units(first: Seq<char>, second: Seq<char>)
    ensures
        utf16(first + second) == utf16(first) + utf16(second),
        second.len() == 1 ==> utf16(second) == utf16_units(second[0]),
    decreases second.len(),
{
    if second.len() == 0 {
        assert(first + second == first);
    } else {
        law_joined_texts_have_joined_units(first, second.drop_last());
        assert((first + second).drop_last() == first + second.drop_last());
        assert(utf16(first + second) == utf16(first) + utf16(second));
        if second.len() == 1 {
            assert(second.drop_last() == Seq::<char>::empty());
            assert(utf16(second.drop_last()) == Seq::<u16>::empty());
        }
    }
}

// Window messages.
pub const WM_DESTROY: u32 = 0x0002;

pub const WM_CLOSE: u32 = 0x0010;

pub const WM_COMMAND: u32 = 0x0111;

pub const WM_HSCROLL: u32 = 0x0114;

// Messages of the slider and of the hotkey box.
pub const TBM_GETPOS: u32 = 0x0400;

pub const TBM_SETPOS: u32 = 0x0405;

pub const TBM_SETRANGE: u32 = 0x0406;

pub const HKM_SETHOTKEY: u32 = 0x0401;

pub const HKM_GETHOTKEY: u32 = 0x0402;

/// A visible window within another.
pub const CHILD: u32 = 0x5000_0000;

/// Can be reached with the tab key.
pub const TABSTOP: u32 = 0x0001_0000;

/// Has a thin border.
pub const BORDER: u32 = 0x0080_0000;

/// A slider with ticks.
pub const TICKS: u32 = 0x0001;

/// A window with a title bar and a close button.
pub const WINDOW: u32 = 0x00c8_0000;

/// Width and height of the window.
pub const WINDOW_WIDTH: i32 = 372;

pub const WINDOW_HEIGHT: i32 = 250;

/// The identifier of the save button.
pub const ID_SAVE: usize = 100;

/// The identifier of the close button.
pub const ID_CLOSE: usize = 101;

/// What a control is for.
#[derive(Clone, Copy, Debug, PartialEq, Eq, Structural)]
pub enum Role {
    Caption,
    Slider,
    Percent,
    HotkeyBox,
    Button,
}

/// A control of the window.
pub struct Child {
    pub role: Role,
    pub class: &'static str,
    pub text: &'static str,
    pub style: u32,
    pub x: i32,
    pub y: i32,
    pub width: i32,
    pub height: i32,
    pub id: usize,
}

/// The controls of the window.
pub open spec fn layout() -> Seq<Child> {
    seq![
        Child {
            role: Role::Caption,
            class: "STATIC",
            text: "Volume",
            style: CHILD,
            x: 16,
            y: 16,
            width: 120,
            height: 20,
            id: 0,
        },
        Child {
            role: Role::Slider,
            class: "msctls_trackbar32",
            text: "",
            style: (CHILD + TABSTOP + TICKS) as u32,
            x: 14,
            y: 40,
            width: 250,
            height: 32,
            id: 0,
        },
        Child {
            role: Role::Percent,
            class: "STATIC",
            text: "",
            style: CHILD,
            x: 280,
            y: 44,
            width: 60,
            height: 20,
            id: 0,
        },
        Child {
            role: Role::Caption,
            class: "STATIC",
            text: "Toggle on/off shortcut",
            style: CHILD,
            x: 16,
            y: 92,
            width: 220,
            height: 20,
            id: 0,
        },
        Child {
            role: Role::HotkeyBox,
            class: "msctls_hotkey32",
            text: "",
            style: (CHILD + TABSTOP + BORDER) as u32,
            x: 16,
            y: 114,
            width: 200,
            height: 24,
            id: 0,
        },
        Child {
            role: Role::Button,
            class: "BUTTON",
            text: "Save shortcut",
            style: (CHILD + TABSTOP) as u32,
            x: 16,
            y: 158,
            width: 110,
            height: 30,
            id: ID_SAVE,
        },
        Child {
            role: Role::Button,
            class: "BUTTON",
            text: "Close",
            style: (CHILD + TABSTOP) as u32,
            x: 250,
            y: 158,
            width: 90,
            height: 30,
            id: ID_CLOSE,
        },
    ]
}

/// One control.
fn child(
    role: Role,
    class: &'static str,
    text: &'static str,
    style: u32,
    x: i32,
    y: i32,
    width: i32,
    height: i32,
    id: usize,
) -> (c: Child)
    requires
        style <= 0x0fff_ffff,
    ensures
        c == (Child { role, class, text, style: (CHILD + style) as u32, x, y, width, height, id }),
{
    Child { role, class, text, style: CHILD + style, x, y, width, height, id }
}

/// Lays out the controls of the window.
pub fn children() -> (r: Vec<Child>)
    ensures
        r@ == layout(),
{
    let mut r: Vec<Child> = Vec::new();
    r.push(child(Role::Caption, "STATIC", "Volume", 0, 16, 16, 120, 20, 0));
    r.push(child(Role::Slider, "msctls_trackbar32", "", TABSTOP + TICKS, 14, 40, 250, 32, 0));
    r.push(child(Role::Percent, "STATIC", "", 0, 280, 44, 60, 20, 0));
    r.push(child(Role::Caption, "STATIC", "Toggle on/off shortcut", 0, 16, 92, 220, 20, 0));
    r.push(child(Role::HotkeyBox, "msctls_hotkey32", "", TABSTOP + BORDER, 16, 114, 200, 24, 0));
    r.push(child(Role::Button, "BUTTON", "Save shortcut", TABSTOP, 16, 158, 110, 30, ID_SAVE));
    r.push(child(Role::Button, "BUTTON", "Close", TABSTOP, 250, 158, 90, 30, ID_CLOSE));
    assert(r@ =~= layout());
    r
}

/// The low 16 bits of a number.
pub open spec fn low_word(n: int) -> int {
    n % 0x1_0000
}

/// Packs the low words of two numbers into one.
pub fn make_lparam(low: i32, high: i32) -> (r: u32)
    ensures
        r == 0x1_0000 * low_word(high as int) + low_word(low as int),
        r == 0x1_0000 * (high as int % 0x1_0000) + low as int % 0x1_0000,
{
    let h: u32 = #[verifier::truncate]
    (high as u32);
    let l: u32 = #[verifier::truncate]
    (low as u32);
    assert(((high as u32) << 16u32) | ((low as u32) & 0xffff) == 0x1_0000 * ((high as u32) % 0x1_0000)
        + (low as u32) % 0x1_0000) by (bit_vector);
    proof {
        lemma_word_of_negative(high);
        lemma_word_of_negative(low);
    }
    (h << 16) | (l & 0xffff)
}

/// Reading a number as unsigned keeps its low word.
proof fn lemma_word_of_negative(n: i32)
    ensures
        (n as u32) % 0x1_0000 == low_word(n as int),
{
    assert(n >= 0 ==> n as u32 == n) by (bit_vector);
    assert(n < 0 ==> n as u32 == n + 0x1_0000_0000) by (bit_vector);
}

/// The text behind the slider: its position and a percent sign, as the window system takes it.
pub open spec fn percent_text(pos: int) -> Seq<u16> {
    let digits = decimal::decimal(
        (if pos < 0 {
            -pos
        } else {
            pos
        }) as nat,
    );
    let sign = if pos < 0 {
        seq![0x2du16]
    } else {
        Seq::<u16>::empty()
    };
    sign + digits.map_values(|b: u8| b as u16) + seq![0x25u16, 0u16]
}

/// The text behind the slider.
pub fn percent_label(pos: i32) -> (r: Vec<u16>)
    ensures
        r@ == percent_text(pos as int),
{
    let size: u32 = if pos < 0 {
        (-(pos as i64)) as u32
    } else {
        pos as u32
    };
    let mut digits: Vec<u8> = Vec::new();
    decimal::push_decimal(&mut digits, size);
    assert(digits@ =~= decimal::decimal(size as nat));
    let mut r: Vec<u16> = Vec::new();
    if pos < 0 {
        r.push(0x2d);
    }
    let ghost sign = r@;
    let ghost wide_digits = digits@.map_values(|b: u8| b as u16);
    let mut i: usize = 0;
    assert(r@ =~= sign + wide_digits.take(0));
    while i < digits.len()
        invariant
            i <= digits@.len(),
            wide_digits == digits@.map_values(|b: u8| b as u16),
            r@ == sign + wide_digits.take(i as int),
        decreases digits@.len() - i,
    {
        r.push(digits[i] as u16);
        assert(r@ =~= sign + wide_digits.take(i + 1));
        i = i + 1;
    }
    assert(wide_digits.take(digits@.len() as int) =~= wide_digits);
    r.push(0x25);
    r.push(0);
    assert(r@ =~= percent_text(pos as int));
    r
}

/// The text behind the slider is the position in decimal, a percent sign and the zero that ends it.
pub proof fn law_label_shows_the_position(pos: int, digits: Seq<u8>)
    requires
        decimal::is_number(digits),
        decimal::number(digits) == pos,
        digits[0] != 0x30 || digits.len() == 1,
    ensures
        percent_text(pos) == digits.map_values(|b: u8| b as u16) + seq![0x25u16, 0u16],
        pos > 0 ==> percent_text(-pos) == seq![0x2du16] + percent_text(pos),
{
    decimal::law_digits_are_the_number(digits);
    assert(percent_text(pos) =~= digits.map_values(|b: u8| b as u16) + seq![0x25u16, 0u16]);
    if pos > 0 {
        assert(percent_text(-pos) =~= seq![0x2du16] + percent_text(pos));
    }
}

/// How the window looks when it opens.
pub struct Setup {
    pub children: Vec<Child>,
    /// The slider's range, from 0 to 100.
    pub range: u32,
    /// Where the slider stands.
    pub position: i32,
    /// The text behind the slider.
    pub percent: Vec<u16>,
    /// What the hotkey box shows.
    pub hotkey: u32,
}

/// Opens the window on the volume and the hotkey that are set; not a second one beside one that
/// is open.
pub fn open(is_open: bool, volume: Volume, hotkey: Hotkey) -> (r: Option<Setup>)
    ensures
        r is None <==> is_open,
        r matches Some(s) ==> {
            &&& s.children@ == layout()
            &&& s.range == 100 * 0x1_0000
            &&& 0 <= s.position <= 100
            &&& s.position == volume::position(volume)
            &&& s.percent@ == percent_text(volume::position(volume))
            &&& s.hotkey == hotkey::box_word(hotkey)
        },
{
    if is_open {
        return None;
    }
    let position: i32 = slider_position(volume);
    Some(
        Setup {
            children: children(),
            range: make_lparam(0, 100),
            position,
            percent: percent_label(position),
            hotkey: to_box(hotkey),
        },
    )
}

/// What the window does on a message.
#[derive(Clone, Copy, Debug, PartialEq, Eq, Structural)]
pub enum Action {
    /// Set the volume to the slider's position and show it.
    FollowSlider,
    /// Report the hotkey in the box, if it has a key, and close the window.
    SaveAndClose,
    /// Close the window.
    Close,
    /// Do nothing.
    Nothing,
    /// Leave the message loop, after releasing the window's state if it has one.
    Leave { release: bool },
    /// What the system does by itself.
    Default,
}

/// What the window does on a message.
pub open spec fn action_on(message: u32, wparam: usize, has_state: bool) -> Action {
    if message == WM_HSCROLL && has_state {
        Action::FollowSlider
    } else if message == WM_COMMAND && has_state {
        if wparam % 0x1_0000 == ID_SAVE {
            Action::SaveAndClose
        } else if wparam % 0x1_0000 == ID_CLOSE {
            Action::Close
        } else {
            Action::Nothing
        }
    } else if message == WM_CLOSE {
        Action::Close
    } else if message == WM_DESTROY {
        Action::Leave { release: has_state }
    } else {
        Action::Default
    }
}

/// Whether the window has its state after a message: it is gone once it was released.
pub open spec fn state_after(message: u32, has_state: bool) -> bool {
    has_state && message != WM_DESTROY
}

/// The answer to a message.
#[derive(Clone, Copy, Debug, PartialEq, Eq, Structural)]
pub struct Response {
    /// What to do.
    pub action: Action,
    /// Whether the window has its state afterwards.
    pub has_state: bool,
}

/// Decides what the window does on a message, and whether it has its state afterwards.
pub fn wnd_proc(message: u32, wparam: usize, has_state: bool) -> (r: Response)
    ensures
        r.action == action_on(message, wparam, has_state),
        r.has_state == state_after(message, has_state),
        has_state && message == 0x0114 ==> r.action == Action::FollowSlider,
        has_state && message == 0x0111 ==> r.action == if wparam % 0x1_0000 == 100 {
            Action::SaveAndClose
        } else if wparam % 0x1_0000 == 101 {
            Action::Close
        } else {
            Action::Nothing
        },
        !has_state && (message == 0x0114 || message == 0x0111) ==> r.action == Action::Default,
        message == 0x0010 ==> r.action == Action::Close,
        message == 0x0002 ==> r.action == (Action::Leave { release: has_state }),
        message != 0x0114 && message != 0x0111 && message != 0x0010 && message != 0x0002 ==> r.action
            == Action::Default,
        r.has_state == (has_state && message != 0x0002),
{
    let action: Action = if message == WM_HSCROLL && has_state {
        Action::FollowSlider
    } else if message == WM_COMMAND && has_state {
        let id: usize = wparam % 0x1_0000;
        if id == ID_SAVE {
            Action::SaveAndClose
        } else if id == ID_CLOSE {
            Action::Close
        } else {
            Action::Nothing
        }
    } else if message == WM_CLOSE {
        Action::Close
    } else if message == WM_DESTROY {
        Action::Leave { release: has_state }
    } else {
        Action::Default
    };
    let released: bool = match action {
        Action::Leave { release } => release,
        _ => false,
    };
    Response { action, has_state: has_state && !released }
}

/// Whether the window has its state when the message at `k` arrives.
pub open spec fn state_before(has_state: bool, messages: Seq<(u32, usize)>, k: int) -> bool
    decreases k,
{
    if k <= 0 {
        has_state
    } else {
        state_after(messages[k - 1].0, state_before(has_state, messages, k - 1))
    }
}

/// What the window does on the message at `k`.
pub open spec fn action_at(has_state: bool, messages: Seq<(u32, usize)>, k: int) -> Action {
    action_on(messages[k].0, messages[k].1, state_before(has_state, messages, k))
}

/// The state is there until the first message that destroys the window, and not behind it.
proof fn lemma_state_before(has_state: bool, messages: Seq<(u32, usize)>, k: int)
    requires
        0 <= k <= messages.len(),
    ensures
        state_before(has_state, messages, k) <==> has_state && forall|i: int|
            0 <= i < k ==> (#[trigger] messages[i]).0 != WM_DESTROY,
    decreases k,
{
    if k > 0 {
        lemma_state_before(has_state, messages, k - 1);
        if state_before(has_state, messages, k) {
            assert forall|i: int| 0 <= i < k implies (#[trigger] messages[i]).0 != WM_DESTROY by {
                if i == k - 1 {
                    assert(messages[k - 1].0 != WM_DESTROY);
                }
            }
        }
    }
}

/// Every destruction ends the message loop; exactly the first one releases the state, if the window
/// has one.
pub proof fn law_state_is_released_once(has_state: bool, messages: Seq<(u32, usize)>, k: int)
    requires
        0 <= k < messages.len(),
    ensures
        action_at(has_state, messages, k) is Leave <==> messages[k].0 == WM_DESTROY,
        action_at(has_state, messages, k) == (Action::Leave { release: true }) <==> {
            &&& has_state
            &&& messages[k].0 == WM_DESTROY
            &&& forall|i: int| 0 <= i < k ==> (#[trigger] messages[i]).0 != WM_DESTROY
        },
{
    lemma_state_before(has_state, messages, k);
}

/// Once the window was destroyed, sliders and buttons go to the system, and nothing is released
/// again.
pub proof fn law_nothing_touches_a_released_state(
    has_state: bool,
    messages: Seq<(u32, usize)>,
    i: int,
    k: int,
)
    requires
        0 <= i < k < messages.len(),
        messages[i].0 == WM_DESTROY,
    ensures
        !(action_at(has_state, messages, k) is FollowSlider),
        !(action_at(has_state, messages, k) is SaveAndClose),
        action_at(has_state, messages, k) != (Action::Leave { release: true }),
        messages[k].0 == WM_HSCROLL || messages[k].0 == WM_COMMAND ==> action_at(
            has_state,
            messages,
            k,
        ) == Action::Default,
{
    lemma_state_before(has_state, messages, k);
}

/// While the window has its state, every message of the slider is followed, whatever it carries: a
/// drag, a page, the keys.
pub proof fn law_every_slider_message_is_followed(wparam: usize)
    ensures
        action_on(0x0114, wparam, true) == Action::FollowSlider,
{
}

/// While the window has its state, a command of the save button saves and closes, one of the close
/// button closes, whatever its high word says, and no other does anything.
pub proof fn law_buttons_do_what_they_say(wparam: usize)
    ensures
        wparam % 0x1_0000 == 100 ==> action_on(0x0111, wparam, true) == Action::SaveAndClose,
        wparam % 0x1_0000 == 101 ==> action_on(0x0111, wparam, true) == Action::Close,
        wparam % 0x1_0000 != 100 && wparam % 0x1_0000 != 101 ==> action_on(0x0111, wparam, true)
            == Action::Nothing,
{
}

/// The window can always be closed, with its state and without, and a destroyed one leaves the
/// message loop and gives its state up.
pub proof fn law_window_can_always_be_closed(wparam: usize, has_state: bool)
    ensures
        action_on(0x0010, wparam, has_state) == Action::Close,
        action_on(0x0002, wparam, has_state) == (Action::Leave { release: has_state }),
        !state_after(0x0002, has_state),
{
}

/// Without its state the window leaves slider and buttons to the system; it always leaves every
/// other message to it, and keeps its state.
pub proof fn law_other_messages_go_to_the_system(message: u32, wparam: usize, has_state: bool)
    ensures
        message != 0x0010 && message != 0x0002 && !has_state ==> action_on(message, wparam, false)
            == Action::Default,
        message != 0x0114 && message != 0x0111 && message != 0x0010 && message != 0x0002
            ==> action_on(message, wparam, has_state) == Action::Default,
        message != 0x0002 ==> state_after(message, has_state) == has_state,
{
}

/// From opening to destruction, however many messages came before, the slider is followed and the
/// buttons work.
pub proof fn law_window_stays_alive(messages: Seq<(u32, usize)>, k: int)
    requires
        0 <= k < messages.len(),
        forall|i: int| 0 <= i < k ==> (#[trigger] messages[i]).0 != 0x0002,
    ensures
        messages[k].0 == 0x0114 ==> action_at(true, messages, k) == Action::FollowSlider,
        messages[k].0 == 0x0111 && messages[k].1 % 0x1_0000 == 100 ==> action_at(true, messages, k)
            == Action::SaveAndClose,
        messages[k].0 == 0x0111 && messages[k].1 % 0x1_0000 == 101 ==> action_at(true, messages, k)
            == Action::Close,
{
    lemma_state_before(true, messages, k);
}

/// The controls lie within the window, none over another.
pub proof fn law_controls_have_their_place(i: int, j: int)
    requires
        0 <= i < layout().len(),
        0 <= j < layout().len(),
        i != j,
    ensures
        ({
            let a = layout()[i];
            let b = layout()[j];
            &&& 0 < a.width && 0 <= a.x && a.x + a.width <= 372
            &&& 0 < a.height && 0 <= a.y && a.y + a.height <= 250
            &&& {
                ||| a.x + a.width <= b.x
                ||| b.x + b.width <= a.x
                ||| a.y + a.height <= b.y
                ||| b.y + b.height <= a.y
            }
        }),
{
}

/// There is one slider, one text behind it and one hotkey box, each of the system's class for it.
/// Only the two buttons have identifiers: those to which saving and closing listen.
pub proof fn law_controls_have_their_purpose(i: int)
    requires
        0 <= i < layout().len(),
    ensures
        ({
            let c = layout()[i];
            &&& layout().len() == 7
            &&& c.role == Role::Slider <==> i == 1
            &&& c.role == Role::Percent <==> i == 2
            &&& c.role == Role::HotkeyBox <==> i == 4
            &&& c.role == Role::Button <==> i == 5 || i == 6
            &&& c.role == Role::Slider ==> c.class == "msctls_trackbar32"
            &&& c.role == Role::HotkeyBox ==> c.class == "msctls_hotkey32"
            &&& c.role == Role::Button ==> c.class == "BUTTON"
            &&& c.role == Role::Caption || c.role == Role::Percent ==> c.class == "STATIC"
            &&& c.id == if i == 5 {
                100int
            } else if i == 6 {
                101
            } else {
                0
            }
            &&& i == 5 ==> c.text == "Save shortcut"
            &&& i == 6 ==> c.text == "Close"
            &&& i == 0 ==> c.text == "Volume"
            &&& i == 3 ==> c.text == "Toggle on/off shortcut"
            &&& c.style == 0x5000_0000 + match c.role {
                Role::Slider => 0x0001_0001int,
                Role::HotkeyBox => 0x0081_0000,
                Role::Button => 0x0001_0000,
                _ => 0,
            }
        }),
{
}

} // verus!
