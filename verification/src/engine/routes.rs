//! Route and DNS configuration applied when the tunnel comes up.
//!
//! This module decides what is applied: the `ip route` arguments for every
//! split-tunnel route and the content written to `/etc/resolv.conf`. Running
//! the commands and writing the file is the caller's job.

use vstd::prelude::*;
use crate::engine::VpnError;
use crate::engine::io_error_text;
use crate::text::{push_str, starts_with, string_of, strings_view};

verus! {

broadcast use vstd::string::group_string_axioms;

/// Configuration applied when the tunnel is established.
pub struct TunnelConfig {
    /// Assigned VPN IP address (e.g., "10.212.1.100").
    pub ip_address: String,
    /// Primary DNS server.
    pub dns1: Option<String>,
    /// Secondary DNS server.
    pub dns2: Option<String>,
    /// DNS search domain suffix.
    pub dns_suffix: Option<String>,
    /// Split-tunnel routes: (network, netmask) pairs to route via VPN.
    pub routes: Vec<(String, String)>,
    /// PPP interface name (e.g., "ppp0").
    pub iface: String,
}

impl TunnelConfig {
    /// The configuration for a gateway's XML reply. Only the interface is
    /// fixed so far: no address, DNS or route is taken from the XML.
    pub fn from_xml(xml: &str) -> (res: Result<Self, VpnError>)
        ensures
            res matches Ok(c) && c.ip_address@.len() == 0 && c.dns1 is None && c.dns2 is None
                && c.dns_suffix is None && c.routes@.len() == 0 && c.iface@ == "ppp0"@,
    {
        proof { reveal_strlit(""); }
        Ok(TunnelConfig {
            ip_address: "".to_string(),
            dns1: None,
            dns2: None,
            dns_suffix: None,
            routes: Vec::new(),
            iface: "ppp0".to_string(),
        })
    }

    /// DNS is configured when either server is set.
    pub fn sets_dns(&self) -> (b: bool)
        ensures
            b == (self.dns1 is Some || self.dns2 is Some),
    {
        self.dns1.is_some() || self.dns2.is_some()
    }
}

/// A line of resolv.conf: keyword, a space, the value, a newline; nothing
/// when the value is unset.
pub open spec fn resolv_line(keyword: Seq<char>, value: Option<String>) -> Seq<char> {
    match value {
        Some(v) => keyword + " "@ + v@ + "\n"@,
        None => Seq::empty(),
    }
}

/// The resolv.conf written while the tunnel is up: the search domain, then
/// the primary and the secondary name server, each when set.
pub open spec fn spec_resolv_conf(c: TunnelConfig) -> Seq<char> {
    resolv_line("search"@, c.dns_suffix) + resolv_line("nameserver"@, c.dns1) + resolv_line(
        "nameserver"@,
        c.dns2,
    )
}

fn push_resolv_line(v: &mut Vec<char>, keyword: &str, value: &Option<String>)
    ensures
        final(v)@ == old(v)@ + resolv_line(keyword@, *value),
{
    match value {
        Some(x) => {
            push_str(v, keyword);
            push_str(v, " ");
            push_str(v, x.as_str());
            push_str(v, "\n");
        },
        None => {},
    }
    assert(final(v)@ =~= old(v)@ + resolv_line(keyword@, *value));
}

/// Content of /etc/resolv.conf for the tunnel's DNS settings.
pub fn resolv_conf_content(config: &TunnelConfig) -> (content: String)
    ensures
        content@ == spec_resolv_conf(*config),
{
    let mut v: Vec<char> = Vec::new();
    push_resolv_line(&mut v, "search", &config.dns_suffix);
    push_resolv_line(&mut v, "nameserver", &config.dns1);
    push_resolv_line(&mut v, "nameserver", &config.dns2);
    assert(v@ =~= spec_resolv_conf(*config));
    string_of(v.as_slice())
}

/// `ip` arguments adding a split-tunnel route on the interface.
pub fn route_add_args(net: &str, mask: &str, iface: &str) -> (args: Vec<String>)
    ensures
        strings_view(args@) == seq!["route"@, "add"@, net@, "via"@, mask@, "dev"@, iface@],
{
    let mut args: Vec<String> = Vec::new();
    args.push("route".to_string());
    args.push("add".to_string());
    args.push(net.to_string());
    args.push("via".to_string());
    args.push(mask.to_string());
    args.push("dev".to_string());
    args.push(iface.to_string());
    assert(strings_view(args@) =~= seq!["route"@, "add"@, net@, "via"@, mask@, "dev"@, iface@]);
    args
}

/// `ip` arguments removing a split-tunnel route from the interface.
pub fn route_del_args(net: &str, iface: &str) -> (args: Vec<String>)
    ensures
        strings_view(args@) == seq!["route"@, "del"@, net@, "dev"@, iface@],
{
    let mut args: Vec<String> = Vec::new();
    args.push("route".to_string());
    args.push("del".to_string());
    args.push(net.to_string());
    args.push("dev".to_string());
    args.push(iface.to_string());
    assert(strings_view(args@) =~= seq!["route"@, "del"@, net@, "dev"@, iface@]);
    args
}

/// The route error when `ip` could not be run for a route.
pub fn route_error(net: &str, e: &std::io::Error) -> (err: VpnError)
    ensures
        err matches VpnError::Route(m) && starts_with(m@, "route add "@ + net@ + ": "@),
{
    let mut v: Vec<char> = Vec::new();
    push_str(&mut v, "route add ");
    push_str(&mut v, net);
    push_str(&mut v, ": ");
    let ghost p = v@;
    assert(p =~= "route add "@ + net@ + ": "@);
    let t = io_error_text(e);
    push_str(&mut v, t.as_str());
    assert(v@.take(p.len() as int) =~= p);
    VpnError::Route(string_of(v.as_slice()))
}

}
