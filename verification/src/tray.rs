//! The tray: its menu, what a click or the hotkey does, and the ticks that show the state.
use vstd::prelude::*;
use vstd::string::StringExecFns;

use crate::control;
use crate::control::{Cmd, Status};
use crate::hotkey::{Hotkey, HOTKEY_ID};

verus! {

/// The window message of a pressed hotkey.
pub const WM_HOTKEY: u32 = 0x0312;

/// How long the tray waits for the first scan, in milliseconds.
pub const SCAN_WAIT_MS: u64 = 8_000;

/// How long the tray rests between two rounds, in milliseconds.
pub const ROUND_MS: u64 = 50;

/// What a menu entry is for.
#[derive(Clone, Copy, Debug, PartialEq, Eq, Structural)]
pub enum Target {
    Stopped,
    Device(usize),
    Settings,
    Quit,
}

/// An entry of the menu.
pub enum Entry {
    Separator,
    /// An entry that can be ticked.
    Check { label: String, checked: bool, target: Target },
    /// A plain entry.
    Item { label: String, target: Target },
    /// A disabled entry that only informs.
    Note { label: String },
}

/// An entry of the menu, with its label as characters.
pub enum EntryView {
    Separator,
    Check { label: Seq<char>, checked: bool, target: Target },
    Item { label: Seq<char>, target: Target },
    Note { label: Seq<char> },
}

impl View for Entry {
    type V = EntryView;

    open spec fn view(&self) -> EntryView {
        match *self {
            Entry::Separator => EntryView::Separator,
            Entry::Check { label, checked, target } => EntryView::Check {
                label: label@,
                checked,
                target,
            },
            Entry::Item { label, target } => EntryView::Item { label: label@, target },
            Entry::Note { label } => EntryView::Note { label: label@ },
        }
    }
}

/// The entry of a device.
pub open spec fn device_entry(names: Seq<String>, i: int) -> EntryView {
    EntryView::Check {
        label: "\u{25B6}  "@ + names[i]@,
        checked: false,
        target: Target::Device(i as usize),
    }
}

/// The middle of the menu: a tickable entry for each device, or a note that there is none.
pub open spec fn device_entries(names: Seq<String>) -> Seq<EntryView> {
    if names.len() == 0 {
        seq![EntryView::Note { label: "No AirPlay devices found"@ }]
    } else {
        Seq::new(names.len(), |i: int| device_entry(names, i))
    }
}

/// The top of the menu.
pub open spec fn menu_top() -> Seq<EntryView> {
    seq![
        EntryView::Check {
            label: "\u{25A0}  Stopped"@,
            checked: true,
            target: Target::Stopped,
        },
        EntryView::Separator,
    ]
}

/// The bottom of the menu.
pub open spec fn menu_bottom() -> Seq<EntryView> {
    seq![
        EntryView::Separator,
        EntryView::Item { label: "Settings\u{2026}"@, target: Target::Settings },
        EntryView::Separator,
        EntryView::Item { label: "Quit"@, target: Target::Quit },
    ]
}

/// The menu, from top to bottom. It starts with nothing but "Stopped" ticked.
pub open spec fn menu(names: Seq<String>) -> Seq<EntryView> {
    menu_top() + device_entries(names) + menu_bottom()
}

/// The entries as they are seen.
pub open spec fn views(entries: Seq<Entry>) -> Seq<EntryView> {
    entries.map_values(|e: Entry| e@)
}

/// Builds the menu for the devices of the first scan.
pub fn build_menu(names: &Vec<String>) -> (entries: Vec<Entry>)
    ensures
        views(entries@) == menu(names@),
{
    let mut entries: Vec<Entry> = Vec::new();
    entries.push(
        Entry::Check {
            label: "\u{25A0}  Stopped".to_string(),
            checked: true,
            target: Target::Stopped,
        },
    );
    entries.push(Entry::Separator);
    let ghost head = menu_top();
    assert(views(entries@) =~= head);
    if names.len() == 0 {
        entries.push(
            Entry::Note { label: "No AirPlay devices found".to_string() },
        );
    } else {
        let mut i: usize = 0;
        assert(head + device_entries(names@).take(0) =~= head);
        while i < names.len()
            invariant
                i <= names@.len(),
                names@.len() > 0,
                views(entries@) == head + device_entries(names@).take(i as int),
            decreases names@.len() - i,
        {
            let mut label: String = "\u{25B6}  ".to_string();
            label.append(names[i].as_str());
            let ghost before = views(entries@);
            entries.push(Entry::Check { label, checked: false, target: Target::Device(i) });
            assert(views(entries@) =~= before.push(device_entry(names@, i as int)));
            assert(views(entries@) =~= head + device_entries(names@).take(i + 1));
            i = i + 1;
        }
        assert(device_entries(names@).take(names@.len() as int) =~= device_entries(names@));
    }
    let ghost upper = views(entries@);
    assert(upper =~= head + device_entries(names@));
    entries.push(Entry::Separator);
    entries.push(
        Entry::Item {
            label: "Settings\u{2026}".to_string(),
            target: Target::Settings,
        },
    );
    entries.push(Entry::Separator);
    entries.push(
        Entry::Item { label: "Quit".to_string(), target: Target::Quit },
    );
    assert(views(entries@) =~= upper + menu_bottom());
    entries
}

/// The identifiers under which clicks on the menu arrive.
pub struct MenuIds {
    pub stopped: String,
    pub devices: Vec<String>,
    pub settings: String,
    pub quit: String,
}

/// The first place of an identifier in a list.
pub open spec fn place_of(ids: Seq<String>, id: Seq<char>) -> Option<int>
    decreases ids.len(),
{
    if ids.len() == 0 {
        None
    } else if ids[0]@ == id {
        Some(0)
    } else {
        match place_of(ids.drop_first(), id) {
            Some(i) => Some(i + 1),
            None => None,
        }
    }
}

/// What a click with an identifier is for, if it is for anything.
pub open spec fn target_of(ids: MenuIds, id: Seq<char>) -> Option<Target> {
    if id == ids.quit@ {
        Some(Target::Quit)
    } else if id == ids.stopped@ {
        Some(Target::Stopped)
    } else if id == ids.settings@ {
        Some(Target::Settings)
    } else {
        match place_of(ids.devices@, id) {
            Some(i) => Some(Target::Device(i as usize)),
            None => None,
        }
    }
}

/// A place is one in the list, the first that has the identifier.
proof fn lemma_place(ids: Seq<String>, id: Seq<char>)
    ensures
        place_of(ids, id) matches Some(i) ==> 0 <= i < ids.len() && ids[i]@ == id && forall|j: int|
            0 <= j < i ==> (#[trigger] ids[j])@ != id,
        place_of(ids, id) is None ==> forall|j: int| 0 <= j < ids.len() ==> (#[trigger] ids[j])@ != id,
    decreases ids.len(),
{
    if ids.len() > 0 && ids[0]@ != id {
        let rest = ids.drop_first();
        lemma_place(rest, id);
        assert forall|j: int| 0 < j < ids.len() implies #[trigger] ids[j] == rest[j - 1] by {}
    }
}

/// A click that is for a device is for one of the menu.
pub proof fn law_clicks_are_for_devices_of_the_menu(ids: MenuIds, id: Seq<char>)
    requires
        ids.devices@.len() <= usize::MAX,
    ensures
        target_of(ids, id) matches Some(Target::Device(i)) ==> i < ids.devices@.len(),
{
    lemma_place(ids.devices@, id);
}

/// Whether all identifiers differ.
pub open spec fn all_differ(ids: MenuIds) -> bool {
    &&& ids.quit@ != ids.stopped@
    &&& ids.quit@ != ids.settings@
    &&& ids.stopped@ != ids.settings@
    &&& forall|i: int|
        0 <= i < ids.devices@.len() ==> {
            let id = (#[trigger] ids.devices@[i])@;
            id != ids.quit@ && id != ids.stopped@ && id != ids.settings@
        }
    &&& forall|i: int, j: int|
        0 <= i < j < ids.devices@.len() ==> (#[trigger] ids.devices@[i])@ != (
        #[trigger] ids.devices@[j])@
}

/// Where all identifiers differ, a click on an entry is for that entry.
pub proof fn law_entries_are_told_apart(ids: MenuIds, i: int)
    requires
        all_differ(ids),
        0 <= i < ids.devices@.len() <= usize::MAX,
    ensures
        target_of(ids, ids.devices@[i]@) == Some(Target::Device(i as usize)),
        target_of(ids, ids.stopped@) == Some(Target::Stopped),
        target_of(ids, ids.settings@) == Some(Target::Settings),
        target_of(ids, ids.quit@) == Some(Target::Quit),
{
    lemma_place(ids.devices@, ids.devices@[i]@);
}

impl MenuIds {
    /// What a click is for, if it is for anything.
    pub fn target(&self, id: &String) -> (r: Option<Target>)
        ensures
            r == target_of(*self, id@),
    {
        if *id == self.quit {
            return Some(Target::Quit);
        }
        if *id == self.stopped {
            return Some(Target::Stopped);
        }
        if *id == self.settings {
            return Some(Target::Settings);
        }
        let mut i: usize = 0;
        assert(self.devices@.skip(0) == self.devices@);
        while i < self.devices.len()
            invariant
                i <= self.devices@.len(),
                place_of(self.devices@, id@) == match place_of(
                    self.devices@.skip(i as int),
                    id@,
                ) {
                    Some(k) => Some(k + i),
                    None => None,
                },
                id@ != self.quit@,
                id@ != self.stopped@,
                id@ != self.settings@,
            decreases self.devices@.len() - i,
        {
            assert(self.devices@.skip(i as int).drop_first() == self.devices@.skip(i + 1));
            if *id == self.devices[i] {
                return Some(Target::Device(i));
            }
            i = i + 1;
        }
        None
    }
}

/// Whether a window message is the toggle hotkey.
pub fn is_toggle(message: u32, wparam: usize) -> (r: bool)
    ensures
        r == (message == WM_HOTKEY && wparam == HOTKEY_ID),
        r == (message == 0x0312 && wparam == 1),
{
    message == WM_HOTKEY && wparam == HOTKEY_ID as usize
}

/// What the tray shows and remembers.
#[derive(Clone, Copy, Debug, PartialEq, Eq, Structural)]
pub struct Tray {
    /// How many devices the menu has.
    pub devices: usize,
    /// The device that is taken to stream; none while stopped.
    pub active: Option<usize>,
    /// The device that the hotkey turns on.
    pub last_device: usize,
    /// The registered hotkey.
    pub hotkey: Hotkey,
    /// Whether the user has quit.
    pub quit: bool,
}

/// Something that happens to the tray.
#[derive(Clone, Copy, Debug, PartialEq, Eq, Structural)]
pub enum Event {
    /// The hotkey was pressed.
    Toggle,
    /// A menu entry was clicked.
    Click(Target),
    /// A hotkey was chosen in the settings window.
    Chosen(Hotkey),
    /// The control thread reported the true state.
    Reported(Status),
}

/// What the tray does on an event.
#[derive(Clone, Copy, Debug, PartialEq, Eq, Structural)]
pub struct Reaction {
    /// The command to send to the control thread.
    pub command: Option<Cmd>,
    /// Whether to bring ticks and icon up to date.
    pub redraw: bool,
    /// Whether to open the settings window.
    pub open_settings: bool,
    /// The hotkey to register and to keep.
    pub hotkey: Option<Hotkey>,
}

/// The reaction that is none.
pub open spec fn no_reaction() -> Reaction {
    Reaction { command: None, redraw: false, open_settings: false, hotkey: None }
}

/// The device that is taken to stream after an event. A guess ahead of the control thread, which
/// reports how it came out.
pub open spec fn active_after(t: Tray, e: Event) -> Option<usize> {
    match e {
        Event::Toggle => if t.active is None && t.devices > 0 {
            Some(t.last_device)
        } else {
            None
        },
        Event::Click(Target::Stopped) => None,
        Event::Click(Target::Device(i)) => Some(i),
        Event::Click(Target::Settings) | Event::Click(Target::Quit) | Event::Chosen(_) => t.active,
        Event::Reported(Status::Streaming(i)) => Some(i),
        Event::Reported(Status::Stopped) => None,
    }
}

/// The tray after an event.
pub open spec fn tray_after(t: Tray, e: Event) -> Tray {
    Tray {
        devices: t.devices,
        active: active_after(t, e),
        last_device: match e {
            Event::Click(Target::Device(i)) => i,
            Event::Reported(Status::Streaming(i)) => i,
            _ => t.last_device,
        },
        hotkey: match e {
            Event::Chosen(h) => h,
            _ => t.hotkey,
        },
        quit: t.quit || e == Event::Click(Target::Quit),
    }
}

/// The command that makes true what is shown, if it is not true yet: the events that come from the
/// user.
pub open spec fn command_towards(from: Option<usize>, to: Option<usize>) -> Option<Cmd> {
    if from == to {
        None
    } else {
        match to {
            Some(i) => Some(Cmd::Start(i)),
            None => Some(Cmd::Stop),
        }
    }
}

/// What the tray does on an event.
pub open spec fn reaction_to(t: Tray, e: Event) -> Reaction {
    match e {
        Event::Toggle | Event::Click(Target::Stopped) | Event::Click(Target::Device(_)) => Reaction {
            command: command_towards(t.active, active_after(t, e)),
            redraw: true,
            ..no_reaction()
        },
        Event::Click(Target::Settings) => Reaction { open_settings: true, ..no_reaction() },
        Event::Click(Target::Quit) => Reaction { command: Some(Cmd::Quit), ..no_reaction() },
        Event::Chosen(h) => Reaction { hotkey: Some(h), ..no_reaction() },
        Event::Reported(_) => Reaction { redraw: true, ..no_reaction() },
    }
}

impl Tray {
    /// The tray at start: stopped, with the first device for the hotkey.
    pub fn new(devices: usize, hotkey: Hotkey) -> (t: Tray)
        ensures
            t == (Tray { devices, active: None, last_device: 0, hotkey, quit: false }),
    {
        Tray { devices, active: None, last_device: 0, hotkey, quit: false }
    }

    /// Decides what to do on an event.
    pub fn react(&mut self, e: Event) -> (r: Reaction)
        ensures
            r == reaction_to(*old(self), e),
            *final(self) == tray_after(*old(self), e),
            final(self).last_device == match e {
                Event::Click(Target::Device(i)) => i,
                Event::Reported(Status::Streaming(i)) => i,
                _ => old(self).last_device,
            },
            final(self).active != old(self).active ==> r.redraw,
            e == Event::Toggle && old(self).active is Some ==> r.command == Some(Cmd::Stop),
            e == Event::Toggle && old(self).active is None && old(self).devices > 0 ==> r.command
                == Some(Cmd::Start(old(self).last_device)),
            e == Event::Click(Target::Stopped) ==> final(self).active is None,
            e matches Event::Click(Target::Device(i)) ==> final(self).active == Some(i),
    {
        let mut r: Reaction = Reaction {
            command: None,
            redraw: false,
            open_settings: false,
            hotkey: None,
        };
        match e {
            Event::Toggle => {
                if self.active.is_some() {
                    r.command = Some(Cmd::Stop);
                    self.active = None;
                } else if self.devices > 0 {
                    r.command = Some(Cmd::Start(self.last_device));
                    self.active = Some(self.last_device);
                }
                r.redraw = true;
            },
            Event::Click(target) => {
                match target {
                    Target::Quit => {
                        r.command = Some(Cmd::Quit);
                        self.quit = true;
                    },
                    Target::Stopped => {
                        if self.active.is_some() {
                            r.command = Some(Cmd::Stop);
                            self.active = None;
                        }
                        r.redraw = true;
                    },
                    Target::Settings => {
                        r.open_settings = true;
                    },
                    Target::Device(i) => {
                        self.last_device = i;
                        let running: bool = match self.active {
                            Some(a) => a == i,
                            None => false,
                        };
                        if !running {
                            r.command = Some(Cmd::Start(i));
                            self.active = Some(i);
                        }
                        r.redraw = true;
                    },
                }
            },
            Event::Chosen(h) => {
                self.hotkey = h;
                r.hotkey = Some(h);
            },
            Event::Reported(status) => {
                match status {
                    Status::Streaming(i) => {
                        self.last_device = i;
                        self.active = Some(i);
                    },
                    Status::Stopped => {
                        self.active = None;
                    },
                }
                r.redraw = true;
            },
        }
        r
    }

    /// The ticks and the icon that show the state.
    pub fn apply_state(&self) -> (m: Marks)
        ensures
            m.stopped == (self.active is None),
            m.devices@ == device_ticks(*self),
            m.devices@.len() == self.devices,
            forall|i: int|
                0 <= i < self.devices ==> #[trigger] m.devices@[i] == (self.active == Some(i as usize)),
            m.streaming == (self.active is Some),
    {
        let mut devices: Vec<bool> = Vec::new();
        let mut i: usize = 0;
        while i < self.devices
            invariant
                i <= self.devices,
                devices@ == device_ticks(*self).take(i as int),
            decreases self.devices - i,
        {
            let ticked: bool = match self.active {
                Some(a) => a == i,
                None => false,
            };
            devices.push(ticked);
            assert(devices@ =~= device_ticks(*self).take(i + 1));
            i = i + 1;
        }
        assert(device_ticks(*self).take(self.devices as int) =~= device_ticks(*self));
        Marks { stopped: self.active.is_none(), devices, streaming: self.active.is_some() }
    }
}

/// Ticks and icon: whether "Stopped" is ticked, whether each device is, and whether the icon is
/// the disc of a running stream.
pub struct Marks {
    pub stopped: bool,
    pub devices: Vec<bool>,
    pub streaming: bool,
}

/// The ticks of the devices.
pub open spec fn device_ticks(t: Tray) -> Seq<bool> {
    Seq::new(t.devices as nat, |i: int| t.active == Some(i as usize))
}

/// All ticks, "Stopped" first.
pub open spec fn ticks(t: Tray) -> Seq<bool> {
    seq![t.active is None] + device_ticks(t)
}

/// Whether what the tray remembers fits together: devices are those of the menu, and the hotkey
/// turns on what was on last.
pub open spec fn consistent(t: Tray) -> bool {
    &&& t.devices > 0 ==> t.last_device < t.devices
    &&& t.active matches Some(i) ==> i < t.devices && i == t.last_device
}

/// Whether an event names only devices of the menu.
pub open spec fn within_menu(t: Tray, e: Event) -> bool {
    match e {
        Event::Click(Target::Device(i)) => i < t.devices,
        Event::Reported(Status::Streaming(i)) => i < t.devices,
        _ => true,
    }
}

/// The tray starts consistent, and stopped.
pub proof fn law_starts_consistent(devices: usize, hotkey: Hotkey)
    ensures
        consistent(Tray { devices, active: None, last_device: 0, hotkey, quit: false }),
{
}

/// Every event leaves the tray consistent.
pub proof fn law_stays_consistent(t: Tray, e: Event)
    requires
        consistent(t),
        within_menu(t, e),
    ensures
        consistent(tray_after(t, e)),
{
}

/// Exactly one entry is ticked: "Stopped", or the device that streams.
pub proof fn law_exactly_one_tick(t: Tray)
    requires
        consistent(t),
    ensures
        exists|k: int|
            0 <= k < ticks(t).len() && #[trigger] ticks(t)[k] && forall|j: int|
                0 <= j < ticks(t).len() && j != k ==> !#[trigger] ticks(t)[j],
{
    let k = match t.active {
        None => 0,
        Some(i) => i + 1,
    };
    assert(ticks(t)[k]);
    assert forall|j: int| 0 <= j < ticks(t).len() && j != k implies !#[trigger] ticks(t)[j] by {
        if j > 0 {
            assert(ticks(t)[j] == device_ticks(t)[j - 1]);
        }
    }
}

/// What changes is redrawn.
pub proof fn law_changes_are_drawn(t: Tray, e: Event)
    ensures
        tray_after(t, e).active != t.active ==> reaction_to(t, e).redraw,
{
}

/// The control thread is only told to start devices of the menu.
pub proof fn law_starts_devices_of_the_menu(t: Tray, e: Event)
    requires
        consistent(t),
        within_menu(t, e),
    ensures
        reaction_to(t, e).command matches Some(Cmd::Start(i)) ==> i < t.devices,
{
}

/// Pressing the hotkey twice brings back what was on.
pub proof fn law_toggling_twice_restores(t: Tray)
    requires
        consistent(t),
    ensures
        tray_after(tray_after(t, Event::Toggle), Event::Toggle) == t,
{
}

/// The tick follows reality: after a report of the control thread the tray shows the session that
/// runs.
pub proof fn law_tick_follows_reality(t: Tray, session: Option<usize>)
    ensures
        tray_after(t, Event::Reported(control::status_of(session))).active == session,
        reaction_to(t, Event::Reported(control::status_of(session))).redraw,
{
}

/// What the tray shows after a click or the hotkey is what the control thread makes of the
/// command, if a session that is to start does start.
pub proof fn law_guess_comes_true(t: Tray, e: Event, c: control::Control)
    requires
        consistent(t),
        within_menu(t, e),
        c.devices == t.devices,
        c.session == t.active,
        e is Toggle || e is Click,
    ensures
        reaction_to(t, e).command matches Some(cmd) ==> cmd != Cmd::Quit ==> {
            let r = control::Received::Command(cmd);
            match active_after(t, e) {
                Some(i) => control::effects_of(c, r).last() == (control::Effect::StartSession {
                    device: i,
                    volume: c.volume,
                }),
                None => control::state_after(c, r).session is None,
            }
        },
        reaction_to(t, e).command is None ==> active_after(t, e) == c.session,
{
}

/// The hotkey, pressed while something streams, stops it; pressed while stopped, it starts the
/// remembered device; without devices it does nothing.
pub proof fn law_hotkey_toggles(t: Tray)
    ensures
        t.active is Some ==> {
            &&& reaction_to(t, Event::Toggle).command == Some(Cmd::Stop)
            &&& tray_after(t, Event::Toggle) == (Tray { active: None, ..t })
        },
        t.active is None && t.devices > 0 ==> {
            &&& reaction_to(t, Event::Toggle).command == Some(Cmd::Start(t.last_device))
            &&& tray_after(t, Event::Toggle) == (Tray { active: Some(t.last_device), ..t })
        },
        t.active is None && t.devices == 0 ==> {
            &&& reaction_to(t, Event::Toggle).command is None
            &&& tray_after(t, Event::Toggle) == t
        },
{
}

/// Clicking a device starts it, unless it is the one that streams, and makes it the hotkey's;
/// clicking "Stopped" stops what streams, and leaves the hotkey its device.
pub proof fn law_clicks_pick_what_streams(t: Tray, i: usize)
    ensures
        tray_after(t, Event::Click(Target::Device(i))) == (Tray {
            active: Some(i),
            last_device: i,
            ..t
        }),
        reaction_to(t, Event::Click(Target::Device(i))).command == if t.active == Some(i) {
            None
        } else {
            Some(Cmd::Start(i))
        },
        tray_after(t, Event::Click(Target::Stopped)) == (Tray { active: None, ..t }),
        reaction_to(t, Event::Click(Target::Stopped)).command == if t.active is None {
            None
        } else {
            Some(Cmd::Stop)
        },
{
}

/// Settings, quitting and a chosen hotkey leave alone what streams and what the hotkey turns on; a
/// report changes both but commands nothing.
pub proof fn law_other_events_do_one_thing(t: Tray, h: Hotkey, status: Status)
    ensures
        tray_after(t, Event::Click(Target::Settings)) == t,
        reaction_to(t, Event::Click(Target::Settings)).command is None,
        tray_after(t, Event::Click(Target::Quit)) == (Tray { quit: true, ..t }),
        reaction_to(t, Event::Click(Target::Quit)).command == Some(Cmd::Quit),
        tray_after(t, Event::Chosen(h)) == (Tray { hotkey: h, ..t }),
        reaction_to(t, Event::Chosen(h)).command is None,
        reaction_to(t, Event::Reported(status)).command is None,
        tray_after(t, Event::Reported(status)) == match status {
            Status::Streaming(i) => Tray { active: Some(i), last_device: i, ..t },
            Status::Stopped => Tray { active: None, ..t },
        },
{
}

/// The settings window opens on its entry alone, a hotkey is registered and kept exactly when it
/// was chosen, and all that can change what is shown is drawn.
pub proof fn law_reactions_have_their_events(t: Tray, e: Event)
    ensures
        reaction_to(t, e).open_settings <==> e == Event::Click(Target::Settings),
        reaction_to(t, e).hotkey == match e {
            Event::Chosen(h) => Some(h),
            _ => None,
        },
        reaction_to(t, e).redraw <==> {
            ||| e is Toggle
            ||| e is Reported
            ||| e == Event::Click(Target::Stopped)
            ||| e matches Event::Click(Target::Device(_))
        },
{
}

/// The hotkey's device changes only when a device is clicked or reported as streaming; stopping, by
/// whichever way, keeps it.
pub proof fn law_only_named_devices_are_remembered(t: Tray, e: Event)
    requires
        !(e matches Event::Click(Target::Device(_))),
        !(e matches Event::Reported(Status::Streaming(_))),
    ensures
        tray_after(t, e).last_device == t.last_device,
        tray_after(t, e).devices == t.devices,
{
}

/// The tray after many events.
pub open spec fn tray_after_all(t: Tray, events: Seq<Event>) -> Tray
    decreases events.len(),
{
    if events.len() == 0 {
        t
    } else {
        tray_after(tray_after_all(t, events.drop_last()), events.last())
    }
}

/// The number of devices never changes.
proof fn lemma_devices_stay(t: Tray, events: Seq<Event>)
    ensures
        tray_after_all(t, events).devices == t.devices,
    decreases events.len(),
{
    if events.len() > 0 {
        lemma_devices_stay(t, events.drop_last());
    }
}

/// Whatever happened since, the hotkey turns on the device that was clicked or reported as streaming
/// last.
pub proof fn law_hotkey_starts_the_device_named_last(
    t: Tray,
    events: Seq<Event>,
    at: int,
    i: usize,
)
    requires
        0 <= at < events.len(),
        events[at] == Event::Click(Target::Device(i)) || events[at] == Event::Reported(
            Status::Streaming(i),
        ),
        forall|j: int|
            at < j < events.len() ==> !((#[trigger] events[j]) matches Event::Click(
                Target::Device(_),
            )) && !(events[j] matches Event::Reported(Status::Streaming(_))),
    ensures
        tray_after_all(t, events).last_device == i,
        tray_after_all(t, events).active is None && t.devices > 0 ==> {
            &&& reaction_to(tray_after_all(t, events), Event::Toggle).command == Some(Cmd::Start(i))
            &&& tray_after_all(t, events.push(Event::Toggle)).active == Some(i)
        },
    decreases events.len(),
{
    lemma_devices_stay(t, events);
    assert(events.push(Event::Toggle).drop_last() == events);
    if at < events.len() - 1 {
        let before = events.drop_last();
        assert(before[at] == events[at]);
        assert forall|j: int| at < j < before.len() implies !((
        #[trigger] before[j]) matches Event::Click(Target::Device(_)))
            && !(before[j] matches Event::Reported(Status::Streaming(_))) by {
            assert(before[j] == events[j]);
        }
        law_hotkey_starts_the_device_named_last(t, before, at, i);
        assert(events.last() == events[events.len() - 1]);
    }
}

/// As long as no device was clicked or reported as streaming, the hotkey turns on the device that
/// it had at first.
pub proof fn law_hotkey_starts_the_first_device_until_then(t: Tray, events: Seq<Event>)
    requires
        forall|j: int|
            0 <= j < events.len() ==> !((#[trigger] events[j]) matches Event::Click(
                Target::Device(_),
            )) && !(events[j] matches Event::Reported(Status::Streaming(_))),
    ensures
        tray_after_all(t, events).last_device == t.last_device,
        tray_after_all(t, events).active is None && t.devices > 0 ==> reaction_to(
            tray_after_all(t, events),
            Event::Toggle,
        ).command == Some(Cmd::Start(t.last_device)),
    decreases events.len(),
{
    lemma_devices_stay(t, events);
    if events.len() > 0 {
        let before = events.drop_last();
        assert forall|j: int| 0 <= j < before.len() implies !((
        #[trigger] before[j]) matches Event::Click(Target::Device(_)))
            && !(before[j] matches Event::Reported(Status::Streaming(_))) by {
            assert(before[j] == events[j]);
        }
        law_hotkey_starts_the_first_device_until_then(t, before);
        assert(events.last() == events[events.len() - 1]);
    }
}

/// The hotkey that was chosen last is the one that the tray has.
pub proof fn law_hotkey_chosen_last_counts(t: Tray, events: Seq<Event>, at: int, h: Hotkey)
    requires
        0 <= at < events.len(),
        events[at] == Event::Chosen(h),
        forall|j: int| at < j < events.len() ==> !((#[trigger] events[j]) is Chosen),
    ensures
        tray_after_all(t, events).hotkey == h,
    decreases events.len(),
{
    if at < events.len() - 1 {
        let before = events.drop_last();
        assert(before[at] == events[at]);
        assert forall|j: int| at < j < before.len() implies !((#[trigger] before[j]) is Chosen) by {
            assert(before[j] == events[j]);
        }
        law_hotkey_chosen_last_counts(t, before, at, h);
        assert(!(events[events.len() - 1] is Chosen));
    }
}

/// Between "Stopped" on top and settings and quitting at the bottom, the menu has an entry for each
/// device, in order, with its name and without a tick; it is for that device.
pub proof fn law_menu_has_every_device(names: Seq<String>, i: int)
    requires
        0 <= i < names.len() <= usize::MAX,
    ensures
        menu(names).len() == names.len() + 6,
        menu(names)[2 + i] == (EntryView::Check {
            label: "\u{25B6}  "@ + names[i]@,
            checked: false,
            target: Target::Device(i as usize),
        }),
{
}

/// What the menu has whatever was found: "Stopped", the only entry with a tick, on top, settings and
/// quitting at the bottom, and a note where no device was found.
pub proof fn law_menu_has_its_frame(names: Seq<String>)
    ensures
        ({
            let m = menu(names);
            let n = m.len() as int;
            &&& names.len() == 0 ==> n == 7 && m[2] == (EntryView::Note {
                label: "No AirPlay devices found"@,
            })
            &&& m[0] == (EntryView::Check {
                label: "\u{25A0}  Stopped"@,
                checked: true,
                target: Target::Stopped,
            })
            &&& m[1] is Separator && m[n - 4] is Separator && m[n - 2] is Separator
            &&& m[n - 3] == (EntryView::Item {
                label: "Settings\u{2026}"@,
                target: Target::Settings,
            })
            &&& m[n - 1] == (EntryView::Item { label: "Quit"@, target: Target::Quit })
        }),
{
}

/// A click is for the entry that has its identifier: quitting, "Stopped" and settings before the
/// devices, the first of several devices, and nothing where no entry has it.
pub proof fn law_clicks_are_for_what_has_their_identifier(ids: MenuIds, id: Seq<char>)
    requires
        ids.devices@.len() <= usize::MAX,
    ensures
        target_of(ids, id) == Some(Target::Quit) <==> id == ids.quit@,
        target_of(ids, id) == Some(Target::Stopped) <==> id == ids.stopped@ && id != ids.quit@,
        target_of(ids, id) == Some(Target::Settings) <==> id == ids.settings@ && id != ids.quit@
            && id != ids.stopped@,
        target_of(ids, id) is None <==> {
            &&& id != ids.quit@ && id != ids.stopped@ && id != ids.settings@
            &&& forall|j: int| 0 <= j < ids.devices@.len() ==> (#[trigger] ids.devices@[j])@ != id
        },
        target_of(ids, id) matches Some(Target::Device(i)) ==> {
            &&& i < ids.devices@.len() && ids.devices@[i as int]@ == id
            &&& forall|j: int| 0 <= j < i ==> (#[trigger] ids.devices@[j])@ != id
        },
{
    lemma_place(ids.devices@, id);
}

} // verus!
