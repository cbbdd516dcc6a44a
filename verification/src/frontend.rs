//! Decisions of the desktop window: what a click, a close request or a poll
//! of the shared tray state leads to, and how form fields map to profile
//! settings. The widgets themselves live outside this library.

use vstd::prelude::*;
use crate::config::{profile_index, AppConfig, VpnProfile};
use crate::tray::SharedState;
use crate::vpn::{ConnectionState, StateView};
use crate::text::{
    before_first, before_first_chars, chars_of, contains_seq, find, find_chars, lemma_find_from_found, matches_at,
    slice_chars, string_of, trim, trim_chars, decimal, lemma_decimal_digits, parse_usize, push_decimal,
    spec_parse_usize, is_digit,
};

verus! {

broadcast use vstd::string::group_string_axioms;

// ---------------------------------------------------------------------------
// Form fields
// ---------------------------------------------------------------------------

/// An entry's text as an optional setting: empty text means unset.
pub fn opt(s: &str) -> (r: Option<String>)
    ensures
        s@.len() == 0 ==> r is None,
        s@.len() > 0 ==> (r matches Some(t) && t@ == s@),
{
    let c = chars_of(s);
    if c.len() == 0 {
        None
    } else {
        Some(s.to_string())
    }
}

/// Selection index of a Default / Yes / No drop-down for a tri-state setting.
pub open spec fn spec_tri_index(v: Option<bool>) -> u32 {
    match v {
        Some(true) => 1,
        Some(false) => 2,
        None => 0,
    }
}

/// The tri-state setting a drop-down selection stands for.
pub open spec fn spec_tri_value(i: u32) -> Option<bool> {
    if i == 1 {
        Some(true)
    } else if i == 2 {
        Some(false)
    } else {
        None
    }
}

pub fn tri_set(v: Option<bool>) -> (i: u32)
    ensures
        i == spec_tri_index(v),
{
    match v {
        Some(true) => 1,
        Some(false) => 2,
        None => 0,
    }
}

pub fn tri_get(i: u32) -> (v: Option<bool>)
    ensures
        v == spec_tri_value(i),
{
    if i == 1 {
        Some(true)
    } else if i == 2 {
        Some(false)
    } else {
        None
    }
}

/// Reading back a drop-down set from a tri-state setting gives the setting.
pub proof fn lemma_tri_roundtrip(v: Option<bool>)
    ensures
        spec_tri_value(spec_tri_index(v)) == v,
{
}

/// The trusted-cert of a saved profile: the Profiles tab's field wins, the
/// Certificates tab's is the fallback.
pub fn pick_trusted_cert(profiles_tab: &str, certs_tab: &str) -> (r: Option<String>)
    ensures
        profiles_tab@.len() > 0 ==> (r matches Some(t) && t@ == profiles_tab@),
        profiles_tab@.len() == 0 && certs_tab@.len() > 0 ==> (r matches Some(t) && t@ == certs_tab@),
        profiles_tab@.len() == 0 && certs_tab@.len() == 0 ==> r is None,
{
    let a = chars_of(profiles_tab);
    if a.len() > 0 {
        opt(profiles_tab)
    } else {
        opt(certs_tab)
    }
}

/// Selection of the auto-connect drop-down: 0 is "(None)", profile `k` is at
/// `k + 1`; a configured name that is not listed selects "(None)".
pub fn auto_connect_selection(names: &[String], configured: &Option<String>) -> (sel: u32)
    requires
        names@.len() < u32::MAX,
    ensures
        match *configured {
            Some(n) => match name_index(names@, n@) {
                Some(k) => sel == k + 1,
                None => sel == 0,
            },
            None => sel == 0,
        },
{
    match configured {
        Some(n) => {
            let mut i: usize = 0;
            while i < names.len()
                invariant
                    i <= names@.len(),
                    names@.len() < u32::MAX,
                    match *configured {
                        Some(c) => c@ == n@,
                        None => false,
                    },
                    name_index(names@, n@) == name_index_from(names@, n@, i as int),
                decreases names@.len() - i,
            {
                if string_eq(names[i].as_str(), n.as_str()) {
                    proof { lemma_name_index_from(names@, n@, i as int); }
                    return (i + 1) as u32;
                }
                i = i + 1;
            }
            0
        },
        None => 0,
    }
}

/// The auto-connect setting a drop-down selection stands for.
pub fn auto_connect_choice(names: &[String], sel: u32) -> (r: Option<String>)
    ensures
        sel == 0 ==> r is None,
        sel > 0 && sel - 1 < names@.len() ==> (r matches Some(t) && t@ == names@[sel - 1]@),
        sel > 0 && sel - 1 >= names@.len() ==> r is None,
{
    if sel == 0 {
        None
    } else {
        let k = (sel - 1) as usize;
        if k < names.len() {
            Some(names[k].as_str().to_string())
        } else {
            None
        }
    }
}

/// `str::parse::<u16>`: an optional `+` sign, at least one ASCII digit, and
/// a value that fits in 16 bits.
pub open spec fn spec_parse_port(s: Seq<char>) -> Option<u16> {
    match spec_parse_usize(s) {
        Some(v) => if v <= 65535 { Some(v as u16) } else { None },
        None => None,
    }
}

/// A port field as saved: its number, or unset when it does not parse.
pub fn parse_port(text: &str) -> (p: Option<u16>)
    ensures
        p == spec_parse_port(text@),
{
    let c = chars_of(text);
    match parse_usize(c.as_slice()) {
        Some(v) => if v <= 65535 { Some(v as u16) } else { None },
        None => None,
    }
}

/// A port setting as the form shows it: its number, or an empty field.
pub open spec fn spec_port_text(p: Option<u16>) -> Seq<char> {
    match p {
        Some(v) => decimal(v as nat),
        None => Seq::empty(),
    }
}

pub fn port_text(p: Option<u16>) -> (t: String)
    ensures
        t@ == spec_port_text(p),
{
    let mut v: Vec<char> = Vec::new();
    match p {
        Some(x) => push_decimal(&mut v, x as u64),
        None => {},
    }
    assert(v@ =~= spec_port_text(p));
    string_of(v.as_slice())
}

/// Saving the form keeps the port it was loaded with.
pub proof fn lemma_port_roundtrip(p: Option<u16>)
    ensures
        spec_parse_port(spec_port_text(p)) == p,
{
    match p {
        Some(v) => {
            lemma_decimal_digits(v as nat);
            let d = decimal(v as nat);
            assert(d[0] != '+') by {
                assert(is_digit(d[0]));
            }
        },
        None => {},
    }
}

/// First position at or after `i` holding `name`.
pub open spec fn name_index_from(names: Seq<String>, name: Seq<char>, i: int) -> Option<int>
    decreases names.len() - i,
{
    if i < 0 || i >= names.len() {
        None
    } else if names[i]@ == name {
        Some(i)
    } else {
        name_index_from(names, name, i + 1)
    }
}

pub open spec fn name_index(names: Seq<String>, name: Seq<char>) -> Option<int> {
    name_index_from(names, name, 0)
}

proof fn lemma_name_index_from(names: Seq<String>, name: Seq<char>, i: int)
    requires
        0 <= i < names.len(),
        names[i]@ == name,
    ensures
        name_index_from(names, name, i) == Some(i),
{
}

fn string_eq(a: &str, b: &str) -> (r: bool)
    ensures
        r == (a@ == b@),
{
    let x = chars_of(a);
    let y = chars_of(b);
    if x.len() != y.len() {
        return false;
    }
    let mut i: usize = 0;
    while i < x.len()
        invariant
            x@ == a@,
            y@ == b@,
            x@.len() == y@.len(),
            i <= x@.len(),
            forall|k: int| 0 <= k < i ==> x@[k] == y@[k],
        decreases x@.len() - i,
    {
        if x[i] != y[i] {
            return false;
        }
        i = i + 1;
    }
    assert(x@ =~= y@);
    true
}

// ---------------------------------------------------------------------------
// Connection log
// ---------------------------------------------------------------------------

/// The piece of a line between its first and second single quote (to the
/// end when there is no second one); `None` without a quote.
pub open spec fn quoted_piece(line: Seq<char>) -> Option<Seq<char>> {
    match find(line, seq!['\'']) {
        Some(i) => Some(before_first(line.skip(i + 1), '\'')),
        None => None,
    }
}

/// The SAML URL announced in a batch of log lines: taken from the last line
/// that says "Authenticate at" (none when that line has no quote).
pub open spec fn saml_url_in(lines: Seq<Seq<char>>) -> Option<Seq<char>>
    decreases lines.len(),
{
    if lines.len() == 0 {
        None
    } else if contains_seq(lines.last(), "Authenticate at"@) {
        quoted_piece(lines.last())
    } else {
        saml_url_in(lines.drop_last())
    }
}

fn quoted_piece_of(line: &[char]) -> (r: Option<Vec<char>>)
    ensures
        match quoted_piece(line@) {
            Some(p) => r matches Some(v) && v@ == p,
            None => r is None,
        },
{
    let mut q: Vec<char> = Vec::new();
    q.push('\'');
    assert(q@ =~= seq!['\'']);
    assert(q@.len() == 1);
    proof { lemma_find_from_found(line@, q@, 0); }
    match find_chars(line, q.as_slice(), 0) {
        Some(i) => {
            let n = line.len();
            assert(matches_at(line@, q@, i as int));
            let rest = slice_chars(line, i + 1, n);
            assert(rest@ =~= line@.skip(i + 1));
            Some(before_first_chars(rest.as_slice(), '\''))
        },
        None => None,
    }
}

/// Scan appended log lines for a SAML URL to open in the browser.
pub fn saml_url_from_log(lines: &[String]) -> (r: Option<String>)
    ensures
        match saml_url_in(crate::text::strings_view(lines@)) {
            Some(u) => r matches Some(s) && s@ == u,
            None => r is None,
        },
{
    let ghost lv = crate::text::strings_view(lines@);
    let pat = chars_of("Authenticate at");
    let mut found: Option<Vec<char>> = None;
    let mut i: usize = 0;
    while i < lines.len()
        invariant
            i <= lines@.len(),
            lv == crate::text::strings_view(lines@),
            pat@ == "Authenticate at"@,
            match saml_url_in(lv.take(i as int)) {
                Some(u) => found matches Some(v) && v@ == u,
                None => found is None,
            },
        decreases lines@.len() - i,
    {
        assert(lv.take(i + 1).drop_last() =~= lv.take(i as int));
        let line = chars_of(lines[i].as_str());
        assert(lv.take(i + 1).last() == line@);
        proof { lemma_find_from_found(line@, pat@, 0); }
        if find_chars(line.as_slice(), pat.as_slice(), 0).is_some() {
            found = quoted_piece_of(line.as_slice());
        }
        i = i + 1;
    }
    assert(lv.take(lv.len() as int) =~= lv);
    match found {
        Some(v) => Some(string_of(v.as_slice())),
        None => None,
    }
}

// ---------------------------------------------------------------------------
// Window decisions
// ---------------------------------------------------------------------------

/// What a request to close the window leads to.
#[derive(Debug, Clone, Copy, PartialEq, Eq, Structural)]
pub enum CloseAction {
    /// Let the window close.
    Proceed,
    /// Hide the window to the tray instead.
    HideToTray,
    /// Ask whether to keep the connection running.
    AskKeepConnection,
}

/// Close request: a forced quit proceeds once (the flag is consumed);
/// otherwise minimize-to-tray hides the window, an active connection asks
/// first, and anything else closes.
pub fn close_action(shared: &mut SharedState, minimize_to_tray: bool, vpn_active: bool) -> (a: CloseAction)
    ensures
        old(shared).force_quit ==> a == CloseAction::Proceed && !final(shared).force_quit
            && final(shared).show_window == old(shared).show_window,
        !old(shared).force_quit && minimize_to_tray ==> a == CloseAction::HideToTray
            && !final(shared).show_window && !final(shared).force_quit,
        !old(shared).force_quit && !minimize_to_tray && vpn_active ==> a == CloseAction::AskKeepConnection
            && *final(shared) == *old(shared),
        !old(shared).force_quit && !minimize_to_tray && !vpn_active ==> a == CloseAction::Proceed
            && *final(shared) == *old(shared),
        final(shared).connection_state == old(shared).connection_state,
        final(shared).raise_requested == old(shared).raise_requested,
        final(shared).quit_requested == old(shared).quit_requested,
        final(shared).quick_connect_requested == old(shared).quick_connect_requested,
        final(shared).disconnect_requested == old(shared).disconnect_requested,
{
    if shared.force_quit {
        shared.force_quit = false;
        CloseAction::Proceed
    } else if minimize_to_tray {
        shared.show_window = false;
        CloseAction::HideToTray
    } else if vpn_active {
        CloseAction::AskKeepConnection
    } else {
        CloseAction::Proceed
    }
}

/// What the Quit request (from the tray or the window) leads to.
#[derive(Debug, Clone, Copy, PartialEq, Eq, Structural)]
pub enum QuitPlan {
    /// Nothing is connected: close for real now (minimize-to-tray bypassed).
    CloseNow,
    /// Ask whether to keep the connection: Cancel, Disconnect and Quit, or
    /// Keep Connected.
    AskKeepConnection,
}

pub fn quit_plan(shared: &mut SharedState, vpn_active: bool) -> (p: QuitPlan)
    ensures
        !vpn_active ==> p == QuitPlan::CloseNow && final(shared).force_quit,
        vpn_active ==> p == QuitPlan::AskKeepConnection && final(shared).force_quit == old(shared).force_quit,
        final(shared).connection_state == old(shared).connection_state,
        final(shared).show_window == old(shared).show_window,
        final(shared).raise_requested == old(shared).raise_requested,
        final(shared).quit_requested == old(shared).quit_requested,
        final(shared).quick_connect_requested == old(shared).quick_connect_requested,
        final(shared).disconnect_requested == old(shared).disconnect_requested,
{
    if !vpn_active {
        shared.force_quit = true;
        QuitPlan::CloseNow
    } else {
        QuitPlan::AskKeepConnection
    }
}

/// The answer to "Keep VPN connection?".
#[derive(Debug, Clone, Copy, PartialEq, Eq, Structural)]
pub enum QuitChoice {
    Cancel,
    DisconnectAndQuit,
    KeepConnected,
}

/// Whether an answer closes the window; both closing answers force the quit
/// past minimize-to-tray (the disconnect itself is the caller's).
pub fn apply_quit_choice(shared: &mut SharedState, choice: QuitChoice) -> (closes: bool)
    ensures
        closes == (choice != QuitChoice::Cancel),
        closes ==> final(shared).force_quit,
        !closes ==> *final(shared) == *old(shared),
        final(shared).connection_state == old(shared).connection_state,
        final(shared).show_window == old(shared).show_window,
{
    match choice {
        QuitChoice::Cancel => false,
        _ => {
            shared.force_quit = true;
            true
        },
    }
}

/// What the connect button does.
pub enum ToggleAction {
    /// Disconnect the active connection.
    Disconnect,
    /// Connect with the selected profile.
    Connect,
    /// Refuse with this message and open the Profiles tab.
    Refuse(String),
}

/// Connect button: disconnect when active; otherwise connect the selected
/// profile when it has a gateway, else explain what is missing.
pub fn toggle_connection(vpn_active: bool, selected: Option<&VpnProfile>) -> (a: ToggleAction)
    ensures
        vpn_active ==> a is Disconnect,
        !vpn_active && selected is None ==> (a matches ToggleAction::Refuse(m)
            && m@ == "No profile selected. Create one on the Profiles tab first."@),
        !vpn_active && (selected matches Some(p) && trim(p.host@).len() == 0) ==> (a matches ToggleAction::Refuse(m)
            && m@ == "No gateway configured. Open the Profiles tab and set the VPN host, then Save."@),
        !vpn_active && (selected matches Some(p) && trim(p.host@).len() > 0) ==> a is Connect,
{
    if vpn_active {
        return ToggleAction::Disconnect;
    }
    match selected {
        Some(p) => {
            let host = chars_of(p.host.as_str());
            let t = trim_chars(host.as_slice());
            if t.len() == 0 {
                ToggleAction::Refuse(
                    "No gateway configured. Open the Profiles tab and set the VPN host, then Save.".to_string(),
                )
            } else {
                ToggleAction::Connect
            }
        },
        None => ToggleAction::Refuse("No profile selected. Create one on the Profiles tab first.".to_string()),
    }
}

/// Label of the connect button.
pub fn connect_button_label(vpn_active: bool) -> (l: &'static str)
    ensures
        l@ == (if vpn_active { "Disconnect"@ } else { "Connect"@ }),
{
    if vpn_active {
        "Disconnect"
    } else {
        "Connect"
    }
}

/// A tray request taken from the shared state by the window's poll.
pub enum TrayCommand {
    /// Disconnect the active connection.
    Disconnect,
    /// Connect with the profile at this position.
    Connect(usize),
}

/// Take the pending tray request: a disconnect request wins and applies to
/// an active connection; a quick connect reconnects the last connected
/// profile when it still exists and nothing is active. Both flags are
/// consumed.
pub fn take_tray_request(shared: &mut SharedState, config: &AppConfig, vpn_active: bool) -> (c: Option<TrayCommand>)
    ensures
        old(shared).disconnect_requested ==> !final(shared).disconnect_requested
            && final(shared).quick_connect_requested == old(shared).quick_connect_requested
            && (if vpn_active { c matches Some(TrayCommand::Disconnect) } else { c is None }),
        !old(shared).disconnect_requested && old(shared).quick_connect_requested ==> !final(shared).quick_connect_requested && final(shared).disconnect_requested == old(shared).disconnect_requested
            && match old(shared).last_connected_profile {
            Some(name) => match profile_index(config.profiles@, name@) {
                Some(k) => if vpn_active {
                    c is None
                } else {
                    c matches Some(TrayCommand::Connect(i)) && i == k
                },
                None => c is None,
            },
            None => c is None,
        },
        !old(shared).disconnect_requested && !old(shared).quick_connect_requested ==> c is None
            && *final(shared) == *old(shared),
        final(shared).connection_state == old(shared).connection_state,
        final(shared).show_window == old(shared).show_window,
        final(shared).raise_requested == old(shared).raise_requested,
        final(shared).quit_requested == old(shared).quit_requested,
        final(shared).force_quit == old(shared).force_quit,
        final(shared).last_connected_profile == old(shared).last_connected_profile,
{
    if shared.disconnect_requested {
        shared.disconnect_requested = false;
        if vpn_active {
            Some(TrayCommand::Disconnect)
        } else {
            None
        }
    } else if shared.quick_connect_requested {
        shared.quick_connect_requested = false;
        match &shared.last_connected_profile {
            Some(name) => match config.profile_position(name.as_str()) {
                Some(i) => if vpn_active {
                    None
                } else {
                    Some(TrayCommand::Connect(i))
                },
                None => None,
            },
            None => None,
        }
    } else {
        None
    }
}

/// The poll's view of a newly established connection: on the transition to
/// Connected the selected profile is remembered for quick connect, and the
/// window is hidden when minimize-after-connect is set. Returns whether the
/// connection is up now and whether to hide the window.
pub fn note_connection(
    shared: &mut SharedState,
    was_connected: bool,
    state: &ConnectionState,
    selected_name: Option<String>,
    minimize_after_connect: bool,
) -> (r: (bool, bool))
    ensures
        r.0 == (state@ is Connected),
        r.1 == (r.0 && !was_connected && minimize_after_connect),
        r.1 ==> !final(shared).show_window,
        !r.1 ==> final(shared).show_window == old(shared).show_window,
        (r.0 && !was_connected && selected_name is Some) ==> final(shared).last_connected_profile == selected_name,
        !(r.0 && !was_connected && selected_name is Some) ==> final(shared).last_connected_profile == old(shared).last_connected_profile,
        final(shared).connection_state == old(shared).connection_state,
        final(shared).raise_requested == old(shared).raise_requested,
        final(shared).quit_requested == old(shared).quit_requested,
        final(shared).force_quit == old(shared).force_quit,
        final(shared).quick_connect_requested == old(shared).quick_connect_requested,
        final(shared).disconnect_requested == old(shared).disconnect_requested,
{
    let is_connected = match state {
        ConnectionState::Connected => true,
        _ => false,
    };
    let mut hide_window = false;
    if is_connected && !was_connected {
        match selected_name {
            Some(n) => {
                shared.last_connected_profile = Some(n);
            },
            None => {},
        }
        if minimize_after_connect {
            shared.show_window = false;
            hide_window = true;
        }
    }
    (is_connected, hide_window)
}

/// What the poll does with the window after the tray's show/raise flags.
#[derive(Debug, Clone, Copy, PartialEq, Eq, Structural)]
pub enum WindowRequest {
    /// Map the window and raise it.
    Raise,
    /// Hide the visible window (the tray toggled it off).
    Hide,
    Nothing,
}

/// Consume the raise request: raise when requested, otherwise hide a visible
/// window that should not be shown.
pub fn take_window_request(shared: &mut SharedState, window_visible: bool) -> (w: WindowRequest)
    ensures
        old(shared).raise_requested ==> w == WindowRequest::Raise,
        !old(shared).raise_requested && !old(shared).show_window && window_visible ==> w == WindowRequest::Hide,
        !old(shared).raise_requested && !(!old(shared).show_window && window_visible) ==> w
            == WindowRequest::Nothing,
        !final(shared).raise_requested,
        final(shared).show_window == old(shared).show_window,
        final(shared).connection_state == old(shared).connection_state,
        final(shared).quit_requested == old(shared).quit_requested,
        final(shared).force_quit == old(shared).force_quit,
        final(shared).quick_connect_requested == old(shared).quick_connect_requested,
        final(shared).disconnect_requested == old(shared).disconnect_requested,
        final(shared).last_connected_profile == old(shared).last_connected_profile,
{
    let raise = shared.raise_requested;
    shared.raise_requested = false;
    if raise {
        WindowRequest::Raise
    } else if !shared.show_window && window_visible {
        WindowRequest::Hide
    } else {
        WindowRequest::Nothing
    }
}

/// Consume the tray's quit request.
pub fn take_quit_request(shared: &mut SharedState) -> (q: bool)
    ensures
        q == old(shared).quit_requested,
        !final(shared).quit_requested,
        final(shared).connection_state == old(shared).connection_state,
        final(shared).show_window == old(shared).show_window,
        final(shared).raise_requested == old(shared).raise_requested,
        final(shared).force_quit == old(shared).force_quit,
        final(shared).quick_connect_requested == old(shared).quick_connect_requested,
        final(shared).disconnect_requested == old(shared).disconnect_requested,
        final(shared).last_connected_profile == old(shared).last_connected_profile,
{
    let q = shared.quit_requested;
    shared.quit_requested = false;
    q
}


// ---------------------------------------------------------------------------
// Profile editor form
// ---------------------------------------------------------------------------

/// The profile editor's fields as text, check box and drop-down selections.
pub struct ProfileForm {
    pub name: String,
    pub host: String,
    pub port: String,
    pub username: String,
    pub password: String,
    pub realm: String,
    pub trusted_cert: String,
    pub saml_login: bool,
    pub saml_port: String,
    pub set_dns: u32,
    pub set_routes: u32,
    pub half_internet: u32,
}

/// Text of an optional setting in an entry: empty when unset.
pub open spec fn opt_field(o: Option<String>) -> Seq<char> {
    match o {
        Some(s) => s@,
        None => Seq::empty(),
    }
}

/// The setting an entry's text stands for: unset when empty.
pub open spec fn field_setting(text: Seq<char>, o: Option<String>) -> bool {
    if text.len() == 0 {
        o is None
    } else {
        o matches Some(s) && s@ == text
    }
}

/// The form shows this profile.
pub open spec fn shows(f: ProfileForm, p: VpnProfile) -> bool {
    &&& f.name@ == p.name@
    &&& f.host@ == p.host@
    &&& f.port@ == spec_port_text(p.port)
    &&& f.username@ == p.username@
    &&& f.password@ == opt_field(p.password)
    &&& f.realm@ == opt_field(p.realm)
    &&& f.trusted_cert@ == opt_field(p.trusted_cert)
    &&& f.saml_login == (p.saml_login == Some(true))
    &&& f.saml_port@ == spec_port_text(p.saml_port)
    &&& f.set_dns == spec_tri_index(p.set_dns)
    &&& f.set_routes == spec_tri_index(p.set_routes)
    &&& f.half_internet == spec_tri_index(p.half_internet_routes)
}

/// The profile's editable settings are those the form holds.
pub open spec fn saved_from(q: VpnProfile, f: ProfileForm) -> bool {
    &&& q.name@ == f.name@
    &&& q.host@ == f.host@
    &&& q.port == spec_parse_port(f.port@)
    &&& q.username@ == f.username@
    &&& field_setting(f.password@, q.password)
    &&& field_setting(f.realm@, q.realm)
    &&& field_setting(f.trusted_cert@, q.trusted_cert)
    &&& q.saml_login == Some(f.saml_login)
    &&& q.saml_port == spec_parse_port(f.saml_port@)
    &&& q.set_dns == spec_tri_value(f.set_dns)
    &&& q.set_routes == spec_tri_value(f.set_routes)
    &&& q.half_internet_routes == spec_tri_value(f.half_internet)
}

fn field_of(o: &Option<String>) -> (s: String)
    ensures
        s@ == opt_field(*o),
{
    proof { reveal_strlit(""); }
    match o {
        Some(x) => x.as_str().to_string(),
        None => "".to_string(),
    }
}

impl ProfileForm {
    /// The form showing a profile.
    pub fn load(p: &VpnProfile) -> (f: Self)
        ensures
            shows(f, *p),
    {
        proof { reveal_strlit(""); }
        ProfileForm {
            name: p.name.as_str().to_string(),
            host: p.host.as_str().to_string(),
            port: port_text(p.port),
            username: p.username.as_str().to_string(),
            password: field_of(&p.password),
            realm: field_of(&p.realm),
            trusted_cert: field_of(&p.trusted_cert),
            saml_login: match p.saml_login {
                Some(b) => b,
                None => false,
            },
            saml_port: port_text(p.saml_port),
            set_dns: tri_set(p.set_dns),
            set_routes: tri_set(p.set_routes),
            half_internet: tri_set(p.half_internet_routes),
        }
    }

    /// Username and password are edited only without SAML login.
    pub fn credentials_editable(&self) -> (b: bool)
        ensures
            b == !self.saml_login,
    {
        !self.saml_login
    }

    /// Save the form into a profile; the certificate paths are kept.
    pub fn save_into(&self, p: &mut VpnProfile)
        ensures
            saved_from(*final(p), *self),
            final(p).ca_file == old(p).ca_file,
            final(p).user_cert == old(p).user_cert,
            final(p).user_key == old(p).user_key,
    {
        p.name = self.name.as_str().to_string();
        p.host = self.host.as_str().to_string();
        p.port = parse_port(self.port.as_str());
        p.username = self.username.as_str().to_string();
        p.password = opt(self.password.as_str());
        p.realm = opt(self.realm.as_str());
        p.trusted_cert = opt(self.trusted_cert.as_str());
        p.saml_login = Some(self.saml_login);
        p.saml_port = parse_port(self.saml_port.as_str());
        p.set_dns = tri_get(self.set_dns);
        p.set_routes = tri_get(self.set_routes);
        p.half_internet_routes = tri_get(self.half_internet);
    }
}

/// A profile the editor shows faithfully: no optional text is set but
/// empty, and the SAML choice is explicit.
pub open spec fn editor_normal(p: VpnProfile) -> bool {
    &&& p.password matches Some(s) ==> s@.len() > 0
    &&& p.realm matches Some(s) ==> s@.len() > 0
    &&& p.trusted_cert matches Some(s) ==> s@.len() > 0
    &&& p.saml_login is Some
}

/// Saving the form a profile was loaded into gives back every setting of a
/// profile the editor shows faithfully.
pub proof fn lemma_form_roundtrip(p: VpnProfile, form: ProfileForm, q: VpnProfile)
    requires
        editor_normal(p),
        shows(form, p),
        saved_from(q, form),
    ensures
        q.name@ == p.name@,
        q.host@ == p.host@,
        q.port == p.port,
        q.username@ == p.username@,
        opt_field(q.password) == opt_field(p.password) && (q.password is Some <==> p.password is Some),
        opt_field(q.realm) == opt_field(p.realm) && (q.realm is Some <==> p.realm is Some),
        opt_field(q.trusted_cert) == opt_field(p.trusted_cert) && (q.trusted_cert is Some <==> p.trusted_cert is Some),
        q.saml_login == p.saml_login,
        q.saml_port == p.saml_port,
        q.set_dns == p.set_dns,
        q.set_routes == p.set_routes,
        q.half_internet_routes == p.half_internet_routes,
{
    lemma_port_roundtrip(p.port);
    lemma_port_roundtrip(p.saml_port);
    lemma_tri_roundtrip(p.set_dns);
    lemma_tri_roundtrip(p.set_routes);
    lemma_tri_roundtrip(p.half_internet_routes);
}

}
