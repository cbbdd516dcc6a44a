//! Native Fortinet SSL-VPN engine: tunnel framing, PPP negotiation, gateway
//! login exchanges and tunnel configuration.

pub mod hdlc;
pub mod pppstate;
pub mod auth;
pub mod http_server;
pub mod backend;
pub mod tunnel;
pub mod gateway;
pub mod routes;
pub mod connect;

use vstd::prelude::*;
use crate::text::{push_str, string_of};

verus! {

broadcast use vstd::string::group_string_axioms;

#[verifier::external_type_specification]
#[verifier::external_body]
pub struct ExIoError(std::io::Error);

/// Native VPN errors.
#[derive(Debug)]
pub enum VpnError {
    Dns(std::io::Error),
    Tcp(std::io::Error),
    Tls(String),
    Auth(String),
    Io(std::io::Error),
    Route(String),
}

/// The text of an I/O error, as its `Display` renders it.
///
/// Trusted: `std::io::Error`'s `Display`; the text depends on the operating
/// system, so nothing is claimed of it.
#[verifier::external_body]
pub(crate) fn io_error_text(e: &std::io::Error) -> String {
    format!("{}", e)
}

/// Prefix a rendering puts in front of a message of the given variant.
pub open spec fn error_prefix(e: &VpnError) -> Seq<char> {
    match e {
        VpnError::Dns(_) => "DNS error: "@,
        VpnError::Tcp(_) => "TCP error: "@,
        VpnError::Tls(_) => "TLS error: "@,
        VpnError::Auth(_) => "Auth error: "@,
        VpnError::Io(_) => "I/O error: "@,
        VpnError::Route(_) => "Route error: "@,
    }
}

impl VpnError {
    /// The error as a user-facing message: the variant's prefix followed by
    /// the carried message (for I/O-level variants, the OS error text).
    pub fn message(&self) -> (m: String)
        ensures
            m@.len() >= error_prefix(self).len(),
            m@.take(error_prefix(self).len() as int) == error_prefix(self),
            match self {
                VpnError::Tls(s) => m@ == error_prefix(self) + s@,
                VpnError::Auth(s) => m@ == error_prefix(self) + s@,
                VpnError::Route(s) => m@ == error_prefix(self) + s@,
                _ => true,
            },
    {
        let mut v: Vec<char> = Vec::new();
        match self {
            VpnError::Dns(e) => {
                push_str(&mut v, "DNS error: ");
                let t = io_error_text(e);
                push_str(&mut v, t.as_str());
            },
            VpnError::Tcp(e) => {
                push_str(&mut v, "TCP error: ");
                let t = io_error_text(e);
                push_str(&mut v, t.as_str());
            },
            VpnError::Tls(s) => {
                push_str(&mut v, "TLS error: ");
                push_str(&mut v, s.as_str());
            },
            VpnError::Auth(s) => {
                push_str(&mut v, "Auth error: ");
                push_str(&mut v, s.as_str());
            },
            VpnError::Io(e) => {
                push_str(&mut v, "I/O error: ");
                let t = io_error_text(e);
                push_str(&mut v, t.as_str());
            },
            VpnError::Route(s) => {
                push_str(&mut v, "Route error: ");
                push_str(&mut v, s.as_str());
            },
        }
        let ghost p = error_prefix(self);
        assert(v@.take(p.len() as int) =~= p);
        string_of(v.as_slice())
    }
}

}
