//! Fortinet SSL-VPN client core: tunnel framing, PPP negotiation, gateway
//! login exchanges, tunnel configuration parsing and the connection state
//! kept by the desktop front-end.

pub mod engine;
pub mod text;
pub mod config;
pub mod vpn;
pub mod tray;
pub mod frontend;
