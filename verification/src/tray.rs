//! System-tray state shared with the window, and the tray's texts, icons and
//! menu decisions.
//!
//! The tray service itself (D-Bus, menus, the shared lock) runs outside this
//! library; it renders the icons in the colours chosen here and calls these
//! methods from its menu and click handlers.

use vstd::prelude::*;
use crate::vpn::{ConnectionState, StateView};
use crate::text::{push_str, string_of};

verus! {

broadcast use vstd::string::group_string_axioms;

/// State shared between the tray and the window.
pub struct SharedState {
    pub connection_state: ConnectionState,
    pub connected_profile: Option<String>,
    pub show_window: bool,
    /// Edge-triggered request to bring the window to the front (consumed by
    /// the window's poll).
    pub raise_requested: bool,
    pub quit_requested: bool,
    pub force_quit: bool,
    pub quick_connect_requested: bool,
    pub disconnect_requested: bool,
    pub last_connected_profile: Option<String>,
}

/// Name shown in the tray's tooltip and title.
pub open spec fn app_title() -> Seq<char> {
    "OpenForti Manager"@
}

/// Tooltip: the application, the state's label and, while a profile is
/// connected, its name in parentheses.
pub open spec fn spec_tooltip(s: SharedState) -> Seq<char> {
    let head = app_title() + " \u{2014} "@ + s.connection_state.spec_label();
    match s.connected_profile {
        Some(p) => head + " ("@ + p@ + ")"@,
        None => head,
    }
}

/// The state after a left click on the tray icon.
pub open spec fn activated(s: SharedState) -> SharedState {
    SharedState { show_window: !s.show_window, raise_requested: s.raise_requested || !s.show_window, ..s }
}

/// Two clicks on the tray icon give the window back its visibility and
/// change nothing but the raise request.
pub proof fn lemma_activate_twice(s: SharedState)
    ensures
        activated(activated(s)).show_window == s.show_window,
        activated(activated(s)) == (SharedState { raise_requested: true, ..s }),
{
}

/// A click that shows the window always asks for it to be raised.
pub proof fn lemma_activate_shows_raised(s: SharedState)
    ensures
        activated(s).show_window ==> activated(s).raise_requested,
{
}

impl SharedState {
    pub fn new() -> (s: Self)
        ensures
            s.connection_state@ == StateView::Disconnected,
            s.connected_profile is None,
            s.show_window,
            !s.raise_requested,
            !s.quit_requested,
            !s.force_quit,
            !s.quick_connect_requested,
            !s.disconnect_requested,
            s.last_connected_profile is None,
    {
        SharedState {
            connection_state: ConnectionState::Disconnected,
            connected_profile: None,
            show_window: true,
            raise_requested: false,
            quit_requested: false,
            force_quit: false,
            quick_connect_requested: false,
            disconnect_requested: false,
            last_connected_profile: None,
        }
    }

    /// Left click on the tray icon: toggle the window; when it is to be
    /// shown, also ask for it to be raised.
    pub fn activate(&mut self)
        ensures
            *final(self) == activated(*old(self)),
    {
        self.show_window = !self.show_window;
        if self.show_window {
            self.raise_requested = true;
        }
    }

    /// "Show Window": show the window and bring it to the front, even if it
    /// is open already.
    pub fn show_window_requested(&mut self)
        ensures
            final(self).show_window,
            final(self).raise_requested,
            final(self).connection_state == old(self).connection_state,
            final(self).connected_profile == old(self).connected_profile,
            final(self).quit_requested == old(self).quit_requested,
            final(self).force_quit == old(self).force_quit,
            final(self).quick_connect_requested == old(self).quick_connect_requested,
            final(self).disconnect_requested == old(self).disconnect_requested,
            final(self).last_connected_profile == old(self).last_connected_profile,
    {
        self.show_window = true;
        self.raise_requested = true;
    }

    /// Label of the connection menu entry.
    pub fn primary_action_label(&self) -> (l: &str)
        ensures
            l@ == (if self.connection_state.spec_is_active() { "Disconnect"@ } else { "Quick Connect"@ }),
    {
        if self.connection_state.is_active() {
            "Disconnect"
        } else {
            "Quick Connect"
        }
    }

    /// The connection menu entry: disconnect an active connection, otherwise
    /// ask for a quick connect and hide the window.
    pub fn primary_action(&mut self)
        ensures
            old(self).connection_state.spec_is_active() ==> final(self).disconnect_requested
                && final(self).quick_connect_requested == old(self).quick_connect_requested
                && final(self).show_window == old(self).show_window,
            !old(self).connection_state.spec_is_active() ==> final(self).quick_connect_requested
                && !final(self).show_window
                && final(self).disconnect_requested == old(self).disconnect_requested,
            final(self).connection_state == old(self).connection_state,
            final(self).connected_profile == old(self).connected_profile,
            final(self).raise_requested == old(self).raise_requested,
            final(self).quit_requested == old(self).quit_requested,
            final(self).force_quit == old(self).force_quit,
            final(self).last_connected_profile == old(self).last_connected_profile,
    {
        if self.connection_state.is_active() {
            self.disconnect_requested = true;
        } else {
            self.quick_connect_requested = true;
            self.show_window = false;
        }
    }

    /// "Quit": ask the window to confirm the exit.
    pub fn request_quit(&mut self)
        ensures
            final(self).quit_requested,
            final(self).connection_state == old(self).connection_state,
            final(self).connected_profile == old(self).connected_profile,
            final(self).show_window == old(self).show_window,
            final(self).raise_requested == old(self).raise_requested,
            final(self).force_quit == old(self).force_quit,
            final(self).quick_connect_requested == old(self).quick_connect_requested,
            final(self).disconnect_requested == old(self).disconnect_requested,
            final(self).last_connected_profile == old(self).last_connected_profile,
    {
        self.quit_requested = true;
    }

    /// The tray tooltip for this state.
    pub fn tooltip(&self) -> (t: String)
        ensures
            t@ == spec_tooltip(*self),
    {
        let mut v: Vec<char> = Vec::new();
        push_str(&mut v, "OpenForti Manager \u{2014} ");
        push_str(&mut v, self.connection_state.label());
        match &self.connected_profile {
            Some(p) => {
                push_str(&mut v, " (");
                push_str(&mut v, p.as_str());
                push_str(&mut v, ")");
            },
            None => {},
        }
        proof {
            reveal_strlit("OpenForti Manager \u{2014} ");
            reveal_strlit("OpenForti Manager");
            reveal_strlit(" \u{2014} ");
        }
        assert(v@ =~= spec_tooltip(*self));
        string_of(v.as_slice())
    }
}

/// Side of the square status icons, in pixels.
pub const ICON_SIZE: u32 = 64;

/// Colour (red, green, blue) of the status icon of a state: grey when
/// disconnected, amber while connecting, green when connected, orange while
/// disconnecting, red on error.
pub open spec fn spec_state_color(s: StateView) -> (u8, u8, u8) {
    match s {
        StateView::Disconnected => (158, 158, 158),
        StateView::Connecting => (255, 193, 7),
        StateView::Connected => (76, 175, 80),
        StateView::Disconnecting => (255, 152, 0),
        StateView::Error(_) => (244, 67, 54),
    }
}

pub fn state_color(state: &ConnectionState) -> (c: (u8, u8, u8))
    ensures
        c == spec_state_color(state@),
{
    match state {
        ConnectionState::Disconnected => (158, 158, 158),
        ConnectionState::Connecting => (255, 193, 7),
        ConnectionState::Connected => (76, 175, 80),
        ConnectionState::Disconnecting => (255, 152, 0),
        ConnectionState::Error(_) => (244, 67, 54),
    }
}

/// The tray's icon set: one pre-rendered ARGB32 image per state, all of the
/// same square size.
pub struct AppTray {
    pub icon_disconnected: Vec<u8>,
    pub icon_connecting: Vec<u8>,
    pub icon_connected: Vec<u8>,
    pub icon_disconnecting: Vec<u8>,
    pub icon_error: Vec<u8>,
    pub icon_size: u32,
}

impl AppTray {
    /// An icon set from images rendered in `state_color`'s colours.
    pub fn new(
        icon_size: u32,
        icon_disconnected: Vec<u8>,
        icon_connecting: Vec<u8>,
        icon_connected: Vec<u8>,
        icon_disconnecting: Vec<u8>,
        icon_error: Vec<u8>,
    ) -> (t: Self)
        ensures
            t.icon_size == icon_size,
            t.icon_disconnected@ == icon_disconnected@,
            t.icon_connecting@ == icon_connecting@,
            t.icon_connected@ == icon_connected@,
            t.icon_disconnecting@ == icon_disconnecting@,
            t.icon_error@ == icon_error@,
    {
        AppTray { icon_disconnected, icon_connecting, icon_connected, icon_disconnecting, icon_error, icon_size }
    }

    /// The image shown for a connection state.
    pub open spec fn spec_icon(&self, s: StateView) -> Seq<u8> {
        match s {
            StateView::Disconnected => self.icon_disconnected@,
            StateView::Connecting => self.icon_connecting@,
            StateView::Connected => self.icon_connected@,
            StateView::Disconnecting => self.icon_disconnecting@,
            StateView::Error(_) => self.icon_error@,
        }
    }

    pub fn icon_for(&self, state: &ConnectionState) -> (img: &[u8])
        ensures
            img@ == self.spec_icon(state@),
    {
        match state {
            ConnectionState::Disconnected => self.icon_disconnected.as_slice(),
            ConnectionState::Connecting => self.icon_connecting.as_slice(),
            ConnectionState::Connected => self.icon_connected.as_slice(),
            ConnectionState::Disconnecting => self.icon_disconnecting.as_slice(),
            ConnectionState::Error(_) => self.icon_error.as_slice(),
        }
    }

    /// The tray item's identifier.
    pub fn id() -> (s: String)
        ensures
            s@ == "open-forti-manager"@,
    {
        "open-forti-manager".to_string()
    }

    /// The tray item's title.
    pub fn title() -> (s: String)
        ensures
            s@ == app_title(),
    {
        "OpenForti Manager".to_string()
    }
}

}
