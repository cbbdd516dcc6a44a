//! Connection state shown by the front-end, and the backend interface it drives.

use vstd::prelude::*;
use crate::config::VpnProfile;

verus! {

/// Current state of the VPN connection.
#[derive(Debug, Clone)]
pub enum ConnectionState {
    Disconnected,
    Connecting,
    Connected,
    Disconnecting,
    Error(String),
}

/// Mathematical picture of a connection state.
pub enum StateView {
    Disconnected,
    Connecting,
    Connected,
    Disconnecting,
    Error(Seq<char>),
}

impl View for ConnectionState {
    type V = StateView;

    open spec fn view(&self) -> StateView {
        match self {
            ConnectionState::Disconnected => StateView::Disconnected,
            ConnectionState::Connecting => StateView::Connecting,
            ConnectionState::Connected => StateView::Connected,
            ConnectionState::Disconnecting => StateView::Disconnecting,
            ConnectionState::Error(s) => StateView::Error(s@),
        }
    }
}

impl PartialEq for ConnectionState {
    fn eq(&self, other: &Self) -> (r: bool) {
        match self {
            ConnectionState::Disconnected => matches!(other, ConnectionState::Disconnected),
            ConnectionState::Connecting => matches!(other, ConnectionState::Connecting),
            ConnectionState::Connected => matches!(other, ConnectionState::Connected),
            ConnectionState::Disconnecting => matches!(other, ConnectionState::Disconnecting),
            ConnectionState::Error(a) => match other {
                ConnectionState::Error(b) => *a == *b,
                _ => false,
            },
        }
    }
}

impl vstd::std_specs::cmp::PartialEqSpecImpl for ConnectionState {
    open spec fn obeys_eq_spec() -> bool {
        true
    }

    open spec fn eq_spec(&self, other: &Self) -> bool {
        match self {
            ConnectionState::Disconnected => other is Disconnected,
            ConnectionState::Connecting => other is Connecting,
            ConnectionState::Connected => other is Connected,
            ConnectionState::Disconnecting => other is Disconnecting,
            ConnectionState::Error(a) => match other {
                ConnectionState::Error(b) => a@ == b@,
                _ => false,
            },
        }
    }
}

impl ConnectionState {
    /// Human-readable label of a state.
    pub open spec fn spec_label(&self) -> Seq<char> {
        match self {
            ConnectionState::Disconnected => "Disconnected"@,
            ConnectionState::Connecting => "Connecting\u{2026}"@,
            ConnectionState::Connected => "Connected"@,
            ConnectionState::Disconnecting => "Disconnecting\u{2026}"@,
            ConnectionState::Error(_) => "Error"@,
        }
    }

    pub fn label(&self) -> (l: &str)
        ensures
            l@ == self.spec_label(),
    {
        match self {
            ConnectionState::Disconnected => "Disconnected",
            ConnectionState::Connecting => "Connecting\u{2026}",
            ConnectionState::Connected => "Connected",
            ConnectionState::Disconnecting => "Disconnecting\u{2026}",
            ConnectionState::Error(_) => "Error",
        }
    }

    /// A connection attempt is under way or established.
    pub open spec fn spec_is_active(&self) -> bool {
        self is Connecting || self is Connected
    }

    pub fn is_active(&self) -> (b: bool)
        ensures
            b == self.spec_is_active(),
    {
        match self {
            ConnectionState::Connecting | ConnectionState::Connected => true,
            _ => false,
        }
    }
}

/// The interface the front-end drives; the native engine implements it.
pub trait VpnBackend {
    fn connect(&mut self, profile: &VpnProfile) -> Result<(), String>;

    fn disconnect(&mut self) -> Result<(), String>;

    fn check_status(&mut self);

    fn state(&self) -> &ConnectionState;

    fn drain_log(&mut self) -> Vec<String>;
}

}
