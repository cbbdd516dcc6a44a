# OpenForti Manager

A desktop client for Fortinet SSL-VPN gateways (GTK4 + libadwaita window,
system-tray icon) with its own protocol engine: TLS to the gateway, the
login exchanges, the tunnel framing, PPP negotiation and a TUN device.

## Layout

- `src/` — the library, verified with Verus.
  - `engine/hdlc.rs` — tunnel framing of PPP frames.
  - `engine/pppstate.rs` — the PPP (LCP/IPCP) negotiation state machine and
    its invariants.
  - `engine/tunnel.rs` — the relay's decisions between gateway bytes, the
    PPP machine and the TUN device.
  - `engine/auth.rs` — gateway requests, response decisions, the
    allocation exchange and HTTP response framing.
  - `engine/gateway.rs` — certificate pinning, client certificates and CA
    bundles.
  - `engine/backend.rs` — parsing the tunnel configuration XML, the network
    setup script and the backend's state machine.
  - `engine/http_server.rs`, `engine/routes.rs` — the SAML callback answer,
    route and resolver settings.
  - `config.rs`, `vpn.rs`, `tray.rs`, `frontend.rs` — profiles, connection
    state, tray state and the window's decisions.
  - `text.rs` — verified string helpers shared by the modules.
- `app/` — the program: window, tray service, sockets, TUN device, files.
- `tests/` — tests of the library.
