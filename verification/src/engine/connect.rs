//! The order of a connection attempt once the TLS session to the gateway is
//! up: log in (password form, or SAML in the browser and a session-id
//! exchange), allocate the tunnel slot, fetch the tunnel configuration and
//! switch the connection to tunnel mode.
//!
//! The caller carries out each action on the TLS stream and hands the
//! outcome back as the next input.

use vstd::prelude::*;
use crate::config::VpnProfile;
use crate::engine::VpnError;
use crate::engine::auth::{
    allocate_tunnel, authenticate, config_request, fetch_config, login_outcome, saml_exchange_outcome,
    saml_exchange_request, spec_config_body, spec_config_request, spec_cookie_get, spec_extract_cookie,
    spec_login_request, spec_redirect_location, spec_redirect_request, spec_saml_exchange_request,
    spec_saml_port, spec_saml_url, spec_tunnel_request, start_tunnel, AllocStage, AuthPlan, Step,
};
use crate::text::{contains_seq, spec_utf8_lossy, take_at_most};

verus! {

broadcast use vstd::string::group_string_axioms;

/// Where a connection attempt stands.
#[derive(Debug, Clone, Copy, PartialEq, Eq, Structural)]
pub enum ConnectStage {
    /// The TLS session is up; nothing sent yet.
    Start,
    /// The password login form was posted.
    LoginSent,
    /// Waiting for the browser's SAML callback.
    SamlWaiting,
    /// The SAML session id was sent to be traded for a cookie.
    SamlExchangeSent,
    /// Allocating the tunnel slot, at this step.
    Allocating(AllocStage),
    /// The tunnel configuration was requested.
    ConfigRequested,
    /// Finished: the tunnel was started or the attempt failed.
    Done,
}

/// The outcome of the last action, handed back to the flow.
pub enum ConnectInput {
    /// Nothing yet (the first step).
    Ready,
    /// The full HTTP response to an `Exchange`.
    Response(String),
    /// The session id delivered by the SAML callback.
    SessionId(String),
    /// The bytes of the single read after an `ExchangeOnce`.
    Reply(Vec<u8>),
}

/// What the caller is to do next.
pub enum ConnectAction {
    /// Send the request, read one full HTTP response and hand it back as
    /// `Response`; `what` names the request in I/O errors.
    Exchange { request: String, what: String },
    /// Open the URL in the browser, wait for the SAML callback on the local
    /// port and hand the session id back as `SessionId`.
    AwaitSaml { url: String, port: u16 },
    /// Send the request, make one read of at most 65536 bytes and hand the
    /// bytes back as `Reply`; `what` names the request in I/O errors.
    ExchangeOnce { request: String, what: String },
    /// Send this tunnel-mode request (no response is read) and set the
    /// tunnel up from the configuration XML.
    StartTunnel { request: String, config_xml: String },
    /// The attempt failed.
    Fail(VpnError),
}

/// A connection attempt: its stage and, once logged in, the session cookie.
pub struct ConnectFlow {
    pub stage: ConnectStage,
    pub cookie: String,
}

/// The input a stage waits for.
pub open spec fn input_fits(stage: ConnectStage, input: ConnectInput) -> bool {
    match stage {
        ConnectStage::Start => true,
        ConnectStage::LoginSent => input is Response,
        ConnectStage::SamlWaiting => input is SessionId,
        ConnectStage::SamlExchangeSent => input is Reply,
        ConnectStage::Allocating(_) => input is Response,
        ConnectStage::ConfigRequested => input is Response,
        ConnectStage::Done => false,
    }
}

/// The text of an HTTP response input (empty for other inputs).
pub open spec fn response_text(input: ConnectInput) -> Seq<char> {
    match input {
        ConnectInput::Response(r) => r@,
        _ => Seq::empty(),
    }
}

/// An `Exchange` of exactly this request and error label.
pub open spec fn exchanges(a: ConnectAction, request: Seq<char>, what: Seq<char>) -> bool {
    a matches ConnectAction::Exchange { request: r, what: w } && r@ == request && w@ == what
}

/// A `Fail` with an authentication error of exactly this message.
pub open spec fn fails_auth(a: ConnectAction, m: Seq<char>) -> bool {
    a matches ConnectAction::Fail(VpnError::Auth(e)) && e@ == m
}

/// Logged in with cookie `c`: allocation starts with GET /remote/index.
pub open spec fn allocation_started(f: ConnectFlow, a: ConnectAction, p: VpnProfile, c: Seq<char>) -> bool {
    &&& f.cookie@ == c
    &&& f.stage == ConnectStage::Allocating(AllocStage::IndexSent)
    &&& exchanges(a, spec_cookie_get("/remote/index"@, p, c), "index request"@)
}

/// The slot is allocated: the tunnel configuration is requested next.
pub open spec fn config_fetched(f: ConnectFlow, a: ConnectAction, p: VpnProfile, c: Seq<char>) -> bool {
    &&& f.stage == ConnectStage::ConfigRequested
    &&& exchanges(a, spec_config_request(p, c), "config request"@)
}

impl ConnectFlow {
    /// A fresh attempt on an established TLS session.
    pub fn new() -> (f: Self)
        ensures
            f.stage == ConnectStage::Start,
            f.cookie@.len() == 0,
    {
        proof { reveal_strlit(""); }
        ConnectFlow { stage: ConnectStage::Start, cookie: "".to_string() }
    }

    /// Whether `input` is what the current stage waits for.
    pub fn accepts(&self, input: &ConnectInput) -> (b: bool)
        ensures
            b == input_fits(self.stage, *input),
    {
        let response = matches!(input, ConnectInput::Response(_));
        match self.stage {
            ConnectStage::Start => true,
            ConnectStage::LoginSent => response,
            ConnectStage::SamlWaiting => matches!(input, ConnectInput::SessionId(_)),
            ConnectStage::SamlExchangeSent => matches!(input, ConnectInput::Reply(_)),
            ConnectStage::Allocating(_) => response,
            ConnectStage::ConfigRequested => response,
            ConnectStage::Done => false,
        }
    }

    /// Logged in: keep the cookie and start the allocation.
    fn start_allocation(&mut self, profile: &VpnProfile, cookie: String) -> (a: ConnectAction)
        ensures
            allocation_started(*final(self), a, *profile, cookie@),
    {
        let mut st = AllocStage::Start;
        let step = allocate_tunnel(&mut st, profile, cookie.as_str(), "");
        self.cookie = cookie;
        self.stage = ConnectStage::Allocating(st);
        match step {
            Step::Send(req) => ConnectAction::Exchange { request: req, what: "index request".to_string() },
            Step::Finish(_) => ConnectAction::Exchange { request: "".to_string(), what: "".to_string() },
        }
    }

    /// One move of the attempt, given the outcome of the previous action.
    pub fn step(&mut self, profile: &VpnProfile, input: ConnectInput) -> (a: ConnectAction)
        requires
            input_fits(old(self).stage, input),
        ensures
            match old(self).stage {
                ConnectStage::Start => if profile.saml_login == Some(true) {
                    &&& final(self).stage == ConnectStage::SamlWaiting
                    &&& a matches ConnectAction::AwaitSaml { url, port }
                    &&& url@ == spec_saml_url(*profile)
                    &&& port == spec_saml_port(*profile)
                } else {
                    &&& final(self).stage == ConnectStage::LoginSent
                    &&& exchanges(a, spec_login_request(*profile), "login POST failed"@)
                },
                ConnectStage::LoginSent => match spec_extract_cookie(response_text(input)) {
                    Some(c) => allocation_started(*final(self), a, *profile, c),
                    None => final(self).stage == ConnectStage::Done && fails_auth(a, "No SVPNCOOKIE in response"@),
                },
                ConnectStage::SamlWaiting => {
                    &&& final(self).stage == ConnectStage::SamlExchangeSent
                    &&& input matches ConnectInput::SessionId(id)
                    &&& a matches ConnectAction::ExchangeOnce { request, what }
                    &&& request@ == spec_saml_exchange_request(*profile, id@)
                    &&& what@ == "saml auth_id"@
                },
                ConnectStage::SamlExchangeSent => input matches ConnectInput::Reply(b) && match spec_extract_cookie(
                    spec_utf8_lossy(b@),
                ) {
                    Some(c) => allocation_started(*final(self), a, *profile, c),
                    None => final(self).stage == ConnectStage::Done && fails_auth(
                        a,
                        "No SVPNCOOKIE after SAML exchange"@,
                    ),
                },
                ConnectStage::Allocating(st) => {
                    let r = response_text(input);
                    let c = old(self).cookie@;
                    &&& final(self).cookie@ == c
                    &&& match st {
                        AllocStage::Start => final(self).stage == ConnectStage::Allocating(AllocStage::IndexSent)
                            && exchanges(a, spec_cookie_get("/remote/index"@, *profile, c), "index request"@),
                        AllocStage::IndexSent => final(self).stage == ConnectStage::Allocating(
                            AllocStage::SlotRequested,
                        ) && exchanges(a, spec_cookie_get("/remote/fortisslvpn"@, *profile, c), "alloc request"@),
                        AllocStage::SlotRequested => if contains_seq(r, "200"@) {
                            config_fetched(*final(self), a, *profile, c)
                        } else if contains_seq(r, "302"@) || contains_seq(r, "301"@) {
                            final(self).stage == ConnectStage::Allocating(AllocStage::Redirected) && exchanges(
                                a,
                                spec_redirect_request(spec_redirect_location(r), *profile, c),
                                "redirect request"@,
                            )
                        } else {
                            final(self).stage == ConnectStage::Done && fails_auth(
                                a,
                                "Allocation failed: "@ + take_at_most(r, 200),
                            )
                        },
                        AllocStage::Redirected => if contains_seq(r, "200"@) {
                            config_fetched(*final(self), a, *profile, c)
                        } else {
                            final(self).stage == ConnectStage::Done && fails_auth(
                                a,
                                "Allocation failed after redirect: "@ + take_at_most(r, 200),
                            )
                        },
                    }
                },
                ConnectStage::ConfigRequested => {
                    &&& final(self).stage == ConnectStage::Done
                    &&& a matches ConnectAction::StartTunnel { request, config_xml }
                    &&& request@ == spec_tunnel_request(*profile, old(self).cookie@)
                    &&& config_xml@ == spec_config_body(response_text(input))
                },
                ConnectStage::Done => false,
            },
    {
        match self.stage {
            ConnectStage::Start => match authenticate(profile) {
                AuthPlan::Password(req) => {
                    self.stage = ConnectStage::LoginSent;
                    ConnectAction::Exchange { request: req, what: "login POST failed".to_string() }
                },
                AuthPlan::Saml { url, callback_port } => {
                    self.stage = ConnectStage::SamlWaiting;
                    ConnectAction::AwaitSaml { url, port: callback_port }
                },
            },
            ConnectStage::LoginSent => match input {
                ConnectInput::Response(r) => match login_outcome(r) {
                    Ok(auth) => self.start_allocation(profile, auth.cookie),
                    Err(e) => {
                        self.stage = ConnectStage::Done;
                        ConnectAction::Fail(e)
                    },
                },
                _ => ConnectAction::Fail(VpnError::Auth("".to_string())),
            },
            ConnectStage::SamlWaiting => match input {
                ConnectInput::SessionId(id) => {
                    self.stage = ConnectStage::SamlExchangeSent;
                    ConnectAction::ExchangeOnce {
                        request: saml_exchange_request(profile, id.as_str()),
                        what: "saml auth_id".to_string(),
                    }
                },
                _ => ConnectAction::Fail(VpnError::Auth("".to_string())),
            },
            ConnectStage::SamlExchangeSent => match input {
                ConnectInput::Reply(b) => match saml_exchange_outcome(b.as_slice()) {
                    Ok(cookie) => self.start_allocation(profile, cookie),
                    Err(e) => {
                        self.stage = ConnectStage::Done;
                        ConnectAction::Fail(e)
                    },
                },
                _ => ConnectAction::Fail(VpnError::Auth("".to_string())),
            },
            ConnectStage::Allocating(st0) => match input {
                ConnectInput::Response(r) => {
                    let mut st = st0;
                    let step = allocate_tunnel(&mut st, profile, self.cookie.as_str(), r.as_str());
                    match step {
                        Step::Send(req) => {
                            self.stage = ConnectStage::Allocating(st);
                            let what = match st {
                                AllocStage::SlotRequested => "alloc request".to_string(),
                                AllocStage::Redirected => "redirect request".to_string(),
                                _ => "index request".to_string(),
                            };
                            ConnectAction::Exchange { request: req, what }
                        },
                        Step::Finish(Ok(())) => {
                            self.stage = ConnectStage::ConfigRequested;
                            ConnectAction::Exchange {
                                request: config_request(profile, self.cookie.as_str()),
                                what: "config request".to_string(),
                            }
                        },
                        Step::Finish(Err(e)) => {
                            self.stage = ConnectStage::Done;
                            ConnectAction::Fail(e)
                        },
                    }
                },
                _ => ConnectAction::Fail(VpnError::Auth("".to_string())),
            },
            ConnectStage::ConfigRequested => match input {
                ConnectInput::Response(r) => {
                    self.stage = ConnectStage::Done;
                    ConnectAction::StartTunnel {
                        request: start_tunnel(profile, self.cookie.as_str()),
                        config_xml: fetch_config(r.as_str()),
                    }
                },
                _ => ConnectAction::Fail(VpnError::Auth("".to_string())),
            },
            ConnectStage::Done => ConnectAction::Fail(VpnError::Auth("".to_string())),
        }
    }
}

}
