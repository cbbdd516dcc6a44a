use open_forti_manager::config::{AppConfig, VpnProfile};
use open_forti_manager::engine::routes::{resolv_conf_content, route_add_args, route_del_args, TunnelConfig};
use open_forti_manager::frontend::{
    apply_quit_choice, auto_connect_choice, auto_connect_selection, close_action, connect_button_label, note_connection,
    opt, parse_port, pick_trusted_cert, port_text, quit_plan, saml_url_from_log, take_quit_request, take_tray_request,
    take_window_request, toggle_connection, tri_get, tri_set, CloseAction, QuitChoice, QuitPlan, ToggleAction,
    TrayCommand, WindowRequest, ProfileForm,
};
use open_forti_manager::tray::{state_color, AppTray, SharedState, ICON_SIZE};
use open_forti_manager::vpn::ConnectionState;

#[test]
fn tray_toggle_and_raise() {
    let mut s = SharedState::new();
    assert!(s.show_window);
    s.activate();
    assert!(!s.show_window);
    assert!(!s.raise_requested);
    s.activate();
    assert!(s.show_window);
    assert!(s.raise_requested);
    s.raise_requested = false;
    s.show_window_requested();
    assert!(s.show_window && s.raise_requested);
}

#[test]
fn tray_primary_action() {
    let mut s = SharedState::new();
    assert_eq!(s.primary_action_label(), "Quick Connect");
    s.primary_action();
    assert!(s.quick_connect_requested);
    assert!(!s.show_window);
    s.connection_state = ConnectionState::Connecting;
    assert_eq!(s.primary_action_label(), "Disconnect");
    s.primary_action();
    assert!(s.disconnect_requested);
    s.request_quit();
    assert!(s.quit_requested);
}

#[test]
fn tray_tooltip_and_icons() {
    let mut s = SharedState::new();
    assert_eq!(s.tooltip(), "OpenForti Manager \u{2014} Disconnected");
    s.connection_state = ConnectionState::Connected;
    s.connected_profile = Some("work".to_string());
    assert_eq!(s.tooltip(), "OpenForti Manager \u{2014} Connected (work)");
    assert_eq!(state_color(&ConnectionState::Connected), (76, 175, 80));
    assert_eq!(state_color(&ConnectionState::Error("x".into())), (244, 67, 54));
    let t = AppTray::new(ICON_SIZE, vec![1], vec![2], vec![3], vec![4], vec![5]);
    assert_eq!(t.icon_for(&ConnectionState::Disconnecting), &[4]);
    assert_eq!(t.icon_for(&ConnectionState::Error(String::new())), &[5]);
    assert_eq!(AppTray::id(), "open-forti-manager");
    assert_eq!(AppTray::title(), "OpenForti Manager");
}

#[test]
fn form_fields() {
    assert_eq!(opt(""), None);
    assert_eq!(opt("x"), Some("x".to_string()));
    for v in [None, Some(true), Some(false)] {
        assert_eq!(tri_get(tri_set(v)), v);
    }
    assert_eq!(tri_get(7), None);
    assert_eq!(pick_trusted_cert("aa", "bb"), Some("aa".to_string()));
    assert_eq!(pick_trusted_cert("", "bb"), Some("bb".to_string()));
    assert_eq!(pick_trusted_cert("", ""), None);
    assert_eq!(parse_port("443"), Some(443));
    assert_eq!(parse_port("+8443"), Some(8443));
    assert_eq!(parse_port("65536"), None);
    assert_eq!(parse_port(""), None);
    assert_eq!(parse_port(" 1"), None);
    for p in [None, Some(0u16), Some(10443), Some(65535)] {
        assert_eq!(parse_port(&port_text(p)), p);
    }
}

#[test]
fn auto_connect_dropdown() {
    let names = vec!["a".to_string(), "b".to_string()];
    assert_eq!(auto_connect_selection(&names, &Some("b".to_string())), 2);
    assert_eq!(auto_connect_selection(&names, &Some("zz".to_string())), 0);
    assert_eq!(auto_connect_selection(&names, &None), 0);
    assert_eq!(auto_connect_choice(&names, 0), None);
    assert_eq!(auto_connect_choice(&names, 1), Some("a".to_string()));
    assert_eq!(auto_connect_choice(&names, 3), None);
}

#[test]
fn saml_url_in_log_lines() {
    let lines = vec![
        "[engine] TLS established.".to_string(),
        "Authenticate at 'https://gw/saml?x=1' please".to_string(),
    ];
    assert_eq!(saml_url_from_log(&lines), Some("https://gw/saml?x=1".to_string()));
    let lines = vec!["Authenticate at 'https://a'".to_string(), "Authenticate at nothing".to_string()];
    assert_eq!(saml_url_from_log(&lines), None);
    assert_eq!(saml_url_from_log(&["Authenticate at 'open".to_string()]), Some("open".to_string()));
}

#[test]
fn close_request_outcomes() {
    let mut s = SharedState::new();
    s.force_quit = true;
    assert_eq!(close_action(&mut s, true, true), CloseAction::Proceed);
    assert!(!s.force_quit);
    assert_eq!(close_action(&mut s, true, true), CloseAction::HideToTray);
    assert!(!s.show_window);
    assert_eq!(close_action(&mut s, false, true), CloseAction::AskKeepConnection);
    assert_eq!(close_action(&mut s, false, false), CloseAction::Proceed);
}

#[test]
fn quit_outcomes() {
    let mut s = SharedState::new();
    assert_eq!(quit_plan(&mut s, true), QuitPlan::AskKeepConnection);
    assert!(!s.force_quit);
    assert!(!apply_quit_choice(&mut s, QuitChoice::Cancel));
    assert!(!s.force_quit);
    assert!(apply_quit_choice(&mut s, QuitChoice::KeepConnected));
    assert!(s.force_quit);
    let mut s = SharedState::new();
    assert_eq!(quit_plan(&mut s, false), QuitPlan::CloseNow);
    assert!(s.force_quit);
    s.quit_requested = true;
    assert!(take_quit_request(&mut s));
    assert!(!take_quit_request(&mut s));
}

#[test]
fn connect_button() {
    let mut p = VpnProfile::new("n", "  ", "u");
    assert!(matches!(toggle_connection(true, None), ToggleAction::Disconnect));
    match toggle_connection(false, None) {
        ToggleAction::Refuse(m) => assert_eq!(m, "No profile selected. Create one on the Profiles tab first."),
        _ => panic!("refusal expected"),
    }
    match toggle_connection(false, Some(&p)) {
        ToggleAction::Refuse(m) => {
            assert_eq!(m, "No gateway configured. Open the Profiles tab and set the VPN host, then Save.")
        }
        _ => panic!("refusal expected"),
    }
    p.host = "gw".to_string();
    assert!(matches!(toggle_connection(false, Some(&p)), ToggleAction::Connect));
    assert_eq!(connect_button_label(true), "Disconnect");
    assert_eq!(connect_button_label(false), "Connect");
}

#[test]
fn tray_requests_in_poll() {
    let mut cfg = AppConfig::default();
    cfg.profiles.push(VpnProfile::new("a", "h", "u"));
    cfg.profiles.push(VpnProfile::new("b", "h", "u"));
    let mut s = SharedState::new();
    s.disconnect_requested = true;
    s.quick_connect_requested = true;
    assert!(matches!(take_tray_request(&mut s, &cfg, true), Some(TrayCommand::Disconnect)));
    assert!(!s.disconnect_requested && s.quick_connect_requested);
    s.last_connected_profile = Some("b".to_string());
    assert!(matches!(take_tray_request(&mut s, &cfg, false), Some(TrayCommand::Connect(1))));
    assert!(!s.quick_connect_requested);
    assert!(take_tray_request(&mut s, &cfg, false).is_none());
}

#[test]
fn connection_transition_in_poll() {
    let mut s = SharedState::new();
    let r = note_connection(&mut s, false, &ConnectionState::Connected, Some("a".to_string()), true);
    assert_eq!(r, (true, true));
    assert_eq!(s.last_connected_profile, Some("a".to_string()));
    assert!(!s.show_window);
    let r = note_connection(&mut s, true, &ConnectionState::Connected, Some("b".to_string()), true);
    assert_eq!(r, (true, false));
    assert_eq!(s.last_connected_profile, Some("a".to_string()));
    let r = note_connection(&mut s, true, &ConnectionState::Connecting, None, true);
    assert_eq!(r, (false, false));
}

#[test]
fn window_requests_in_poll() {
    let mut s = SharedState::new();
    s.raise_requested = true;
    assert_eq!(take_window_request(&mut s, false), WindowRequest::Raise);
    assert!(!s.raise_requested);
    s.show_window = false;
    assert_eq!(take_window_request(&mut s, true), WindowRequest::Hide);
    assert_eq!(take_window_request(&mut s, false), WindowRequest::Nothing);
}

#[test]
fn profiles_list_edits() {
    let mut cfg = AppConfig::default();
    cfg.new_profile();
    cfg.new_profile();
    assert_eq!(cfg.profiles[1].name, "Profile 2");
    assert_eq!(cfg.profiles[1].host, "");
    assert!(cfg.delete_profile(0));
    assert!(!cfg.delete_profile(5));
    assert_eq!(cfg.profiles.len(), 1);
    assert_eq!(cfg.profiles[0].name, "Profile 2");
    cfg.settings.auto_connect_profile = Some("Profile 2".to_string());
    assert_eq!(cfg.auto_connect_index(), Some(0));
    cfg.settings.auto_connect_profile = Some("gone".to_string());
    assert_eq!(cfg.auto_connect_index(), None);
}

#[test]
fn routes_and_resolv_conf() {
    let mut c = TunnelConfig::from_xml("<x/>").ok().unwrap();
    assert_eq!(c.iface, "ppp0");
    assert!(!c.sets_dns());
    c.dns_suffix = Some("corp".to_string());
    c.dns1 = Some("10.0.0.1".to_string());
    assert!(c.sets_dns());
    assert_eq!(resolv_conf_content(&c), "search corp\nnameserver 10.0.0.1\n");
    c.dns2 = Some("10.0.0.2".to_string());
    assert_eq!(resolv_conf_content(&c), "search corp\nnameserver 10.0.0.1\nnameserver 10.0.0.2\n");
    assert_eq!(route_add_args("10.1.0.0", "255.255.0.0", "ppp0"), vec!["route", "add", "10.1.0.0", "via", "255.255.0.0", "dev", "ppp0"]);
    assert_eq!(route_del_args("10.1.0.0", "ppp0"), vec!["route", "del", "10.1.0.0", "dev", "ppp0"]);
}

#[test]
fn profile_form_roundtrip() {
    let mut p = VpnProfile::new("work", "gw.example", "alice");
    p.port = Some(10443);
    p.password = Some("secret".to_string());
    p.realm = Some("staff".to_string());
    p.saml_login = Some(false);
    p.saml_port = Some(8021);
    p.set_dns = Some(true);
    p.set_routes = Some(false);
    p.ca_file = Some("/ca.pem".to_string());
    let form = ProfileForm::load(&p);
    assert_eq!(form.port, "10443");
    assert_eq!(form.set_dns, 1);
    assert_eq!(form.set_routes, 2);
    assert_eq!(form.half_internet, 0);
    assert!(form.credentials_editable());
    let mut q = VpnProfile::new("", "", "");
    q.ca_file = Some("/other.pem".to_string());
    form.save_into(&mut q);
    assert_eq!(q.name, p.name);
    assert_eq!(q.host, p.host);
    assert_eq!(q.port, p.port);
    assert_eq!(q.username, p.username);
    assert_eq!(q.password, p.password);
    assert_eq!(q.realm, p.realm);
    assert_eq!(q.trusted_cert, None);
    assert_eq!(q.saml_login, p.saml_login);
    assert_eq!(q.saml_port, p.saml_port);
    assert_eq!(q.set_dns, p.set_dns);
    assert_eq!(q.set_routes, p.set_routes);
    assert_eq!(q.half_internet_routes, None);
    // Certificate paths are not part of the editor form.
    assert_eq!(q.ca_file, Some("/other.pem".to_string()));
}
