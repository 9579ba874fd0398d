//! The tray icon's state and menu: which icon shows, what the pause item
//! reads, and what a menu click does.  Drawing the icon and building the
//! native menu are the caller's.

use vstd::prelude::*;

verus! {

/// The flags the tray icon shows.  A value has a single owner and is not
/// copied; the tray and the commands share one state by holding it behind a
/// lock (`Arc<Mutex<TrayState>>`).
#[derive(Debug)]
pub struct TrayState {
    pub paused: bool,
    pub recording: bool,
    pub error: bool,
}

/// The four icons.
#[derive(Clone, Copy, Debug, PartialEq, Eq, Structural)]
pub enum IconKind {
    Recording,
    Paused,
    Idle,
    Error,
}

/// The icon for a state: an error shows first; a paused recording shows
/// as paused; a recording as recording; otherwise idle.
pub open spec fn icon_for(s: TrayState) -> IconKind {
    if s.error {
        IconKind::Error
    } else if s.recording {
        if s.paused { IconKind::Paused } else { IconKind::Recording }
    } else {
        IconKind::Idle
    }
}

impl TrayState {
    /// Nothing recorded, paused or failed.
    pub fn new() -> (s: Self)
        ensures
            !s.paused && !s.recording && !s.error,
    {
        TrayState { paused: false, recording: false, error: false }
    }

    pub fn set_recording(&mut self, v: bool)
        ensures
            *final(self) == (TrayState { recording: v, ..*old(self) }),
    {
        self.recording = v;
    }

    pub fn set_paused(&mut self, v: bool)
        ensures
            *final(self) == (TrayState { paused: v, ..*old(self) }),
    {
        self.paused = v;
    }

    pub fn set_error(&mut self, v: bool)
        ensures
            *final(self) == (TrayState { error: v, ..*old(self) }),
    {
        self.error = v;
    }

    /// The icon to show (see `icon_for`).
    pub fn icon_kind(&self) -> (k: IconKind)
        ensures
            k == icon_for(*self),
    {
        if self.error {
            return IconKind::Error;
        }
        if self.recording {
            if self.paused {
                return IconKind::Paused;
            }
            return IconKind::Recording;
        }
        IconKind::Idle
    }

    /// Flips the pause flag from the menu and returns the new value.
    pub fn toggle_pause(&mut self) -> (now_paused: bool)
        ensures
            now_paused == !old(self).paused,
            *final(self) == toggled(*old(self)),
    {
        self.paused = !self.paused;
        self.paused
    }
}

impl Default for TrayState {
    fn default() -> (s: Self)
        ensures
            !s.paused && !s.recording && !s.error,
    {
        Self::new()
    }
}

/// The state with the pause flag flipped.
pub open spec fn toggled(s: TrayState) -> TrayState {
    TrayState { paused: !s.paused, ..s }
}

/// Toggling pause twice from the menu gives the state back, and a toggle
/// never changes whether an error or a recording is shown.
pub proof fn lemma_toggle_twice(s: TrayState)
    ensures
        toggled(toggled(s)) == s,
        toggled(s).error == s.error,
        toggled(s).recording == s.recording,
        s.error ==> icon_for(toggled(s)) == IconKind::Error,
{
}

/// The icon shows an error exactly when there is one; without an error,
/// toggling pause during a recording switches the icon between recording
/// and paused, and outside a recording the icon stays idle.
pub proof fn lemma_icon_follows_state(s: TrayState)
    ensures
        (icon_for(s) == IconKind::Error) <==> s.error,
        (icon_for(s) == IconKind::Idle) <==> (!s.error && !s.recording),
        !s.error && s.recording ==> (icon_for(s) == IconKind::Paused <==> s.paused),
        !s.error && s.recording && !s.paused ==> icon_for(toggled(s)) == IconKind::Paused,
        !s.error && s.recording && s.paused ==> icon_for(toggled(s)) == IconKind::Recording,
        !s.error && !s.recording ==> icon_for(toggled(s)) == IconKind::Idle,
{
}

/// The colour of an icon, as red, green and blue.
pub fn icon_color(k: IconKind) -> (c: (u8, u8, u8))
    ensures
        c == match k {
            IconKind::Recording => (232u8, 57u8, 57u8),
            IconKind::Paused => (149u8, 149u8, 149u8),
            IconKind::Idle => (76u8, 175u8, 80u8),
            IconKind::Error => (255u8, 160u8, 0u8),
        },
{
    match k {
        IconKind::Recording => (232, 57, 57),
        IconKind::Paused => (149, 149, 149),
        IconKind::Idle => (76, 175, 80),
        IconKind::Error => (255, 160, 0),
    }
}

/// Menu item ids.
pub const MENU_SHOW: &'static str = "show";
pub const MENU_PAUSE: &'static str = "pause";
pub const MENU_QUIT: &'static str = "quit";

/// What a click on a menu item does.
#[derive(Clone, Copy, Debug, PartialEq, Eq, Structural)]
pub enum MenuAction {
    ToggleWindow,
    TogglePause,
    Quit,
    Ignore,
}

/// The action of the menu item with id `id`.
pub fn menu_action(id: &str) -> (a: MenuAction)
    ensures
        a == if id@ == MENU_SHOW@ {
            MenuAction::ToggleWindow
        } else if id@ == MENU_PAUSE@ {
            MenuAction::TogglePause
        } else if id@ == MENU_QUIT@ {
            MenuAction::Quit
        } else {
            MenuAction::Ignore
        },
{
    if crate::text::str_eq(id, MENU_SHOW) {
        MenuAction::ToggleWindow
    } else if crate::text::str_eq(id, MENU_PAUSE) {
        MenuAction::TogglePause
    } else if crate::text::str_eq(id, MENU_QUIT) {
        MenuAction::Quit
    } else {
        MenuAction::Ignore
    }
}

/// The label of the pause item: "resume" while paused, else "pause".
pub fn pause_label(paused: bool) -> (l: &'static str)
    ensures
        l@ == if paused { "恢复记录"@ } else { "暂停记录"@ },
{
    if paused { "恢复记录" } else { "暂停记录" }
}

/// The label of the item that shows the window.
pub fn show_label() -> (l: &'static str)
    ensures
        l@ == "打开 WorkFlow"@,
{
    "打开 WorkFlow"
}

/// The label of the item that quits.
pub fn quit_label() -> (l: &'static str)
    ensures
        l@ == "退出"@,
{
    "退出"
}

} // verus!
