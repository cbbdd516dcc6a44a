//! Connection profiles and application settings.

use vstd::prelude::*;
use crate::text::{chars_of, decimal, push_chars, push_decimal, push_str, string_of};

verus! {

broadcast use vstd::string::group_string_axioms;

/// A single VPN connection profile consumed by the native SSL-VPN engine.
#[derive(Debug, Clone)]
pub struct VpnProfile {
    /// Display name for this profile
    pub name: String,
    /// VPN gateway hostname or IP
    pub host: String,
    /// VPN gateway port (default: 443)
    pub port: Option<u16>,
    /// VPN account username
    pub username: String,
    /// VPN account password
    pub password: Option<String>,
    /// Path to custom CA certificate bundle (PEM)
    pub ca_file: Option<String>,
    /// Path to user certificate (PEM) for client authentication
    pub user_cert: Option<String>,
    /// Path to user private key (PEM)
    pub user_key: Option<String>,
    /// Trusted certificate digest (SHA256)
    pub trusted_cert: Option<String>,
    /// Use SAML authentication
    pub saml_login: Option<bool>,
    /// SAML HTTP server port (default: 8020)
    pub saml_port: Option<u16>,
    /// Override DNS settings
    pub set_dns: Option<bool>,
    /// Configure routes
    pub set_routes: Option<bool>,
    /// Use half-internet routes instead of default route
    pub half_internet_routes: Option<bool>,
    /// Authentication realm
    pub realm: Option<String>,
}

impl VpnProfile {
    /// Create a new profile with default (unset) options.
    pub fn new(name: &str, host: &str, username: &str) -> (p: Self)
        ensures
            p.name@ == name@,
            p.host@ == host@,
            p.username@ == username@,
            p.port is None,
            p.password is None,
            p.ca_file is None,
            p.user_cert is None,
            p.user_key is None,
            p.trusted_cert is None,
            p.saml_login is None,
            p.saml_port is None,
            p.set_dns is None,
            p.set_routes is None,
            p.half_internet_routes is None,
            p.realm is None,
    {
        Self {
            name: name.to_string(),
            host: host.to_string(),
            port: None,
            username: username.to_string(),
            password: None,
            ca_file: None,
            user_cert: None,
            user_key: None,
            trusted_cert: None,
            saml_login: None,
            saml_port: None,
            set_dns: None,
            set_routes: None,
            half_internet_routes: None,
            realm: None,
        }
    }

    /// The gateway port, 443 when unset.
    pub open spec fn spec_port(&self) -> u16 {
        match self.port {
            Some(p) => p,
            None => 443,
        }
    }

    pub fn gateway_port(&self) -> (p: u16)
        ensures
            p == self.spec_port(),
    {
        match self.port {
            Some(p) => p,
            None => 443,
        }
    }
}

/// A fresh profile as created by `new_profile` when the list grows to `n`.
pub open spec fn is_starter_profile(p: VpnProfile, n: nat) -> bool {
    &&& p.name@ == "Profile "@ + decimal(n)
    &&& p.host@.len() == 0
    &&& p.username@.len() == 0
    &&& p.port is None
    &&& p.password is None
    &&& p.ca_file is None
    &&& p.user_cert is None
    &&& p.user_key is None
    &&& p.trusted_cert is None
    &&& p.saml_login is None
    &&& p.saml_port is None
    &&& p.set_dns is None
    &&& p.set_routes is None
    &&& p.half_internet_routes is None
    &&& p.realm is None
}

/// Global application settings.
#[derive(Debug, Clone)]
pub struct AppSettings {
    /// Minimize to system tray instead of closing
    pub minimize_to_tray: bool,
    /// Minimize the window after a successful connection
    pub minimize_after_connect: bool,
    /// Start with the main window hidden (only tray visible)
    pub start_minimized: bool,
    /// Name of the profile to auto-connect on startup
    pub auto_connect_profile: Option<String>,
}

impl Default for AppSettings {
    fn default() -> (s: Self)
        ensures
            s.minimize_to_tray,
            !s.minimize_after_connect,
            !s.start_minimized,
            s.auto_connect_profile is None,
    {
        Self {
            minimize_to_tray: true,
            minimize_after_connect: false,
            start_minimized: false,
            auto_connect_profile: None,
        }
    }
}

/// Top-level configuration persisted to disk.
#[derive(Debug, Clone)]
pub struct AppConfig {
    /// Saved VPN profiles
    pub profiles: Vec<VpnProfile>,
    /// Application settings
    pub settings: AppSettings,
}

impl Default for AppConfig {
    fn default() -> (c: Self)
        ensures
            c.profiles@.len() == 0,
            c.settings.minimize_to_tray,
            !c.settings.minimize_after_connect,
            !c.settings.start_minimized,
            c.settings.auto_connect_profile is None,
    {
        Self { profiles: Vec::new(), settings: AppSettings::default() }
    }
}

/// `PathBuf::join` of a relative component onto a base directory: the
/// component is appended after a `/` unless the base is empty or already
/// ends with one.
pub open spec fn path_join(base: Seq<char>, rel: Seq<char>) -> Seq<char> {
    if base.len() == 0 {
        rel
    } else if base.last() == '/' {
        base + rel
    } else {
        base + seq!['/'] + rel
    }
}

fn join_path(base: &[char], rel: &str) -> (out: Vec<char>)
    ensures
        out@ == path_join(base@, rel@),
{
    let mut out: Vec<char> = Vec::new();
    push_chars(&mut out, base);
    if base.len() > 0 && base[base.len() - 1] != '/' {
        out.push('/');
    }
    push_str(&mut out, rel);
    proof {
        if base@.len() > 0 && base@.last() != '/' {
            assert(base@ + seq!['/'] + rel@ =~= base@.push('/') + rel@);
        }
    }
    out
}

/// First index of a profile with the given name.
pub open spec fn profile_index_from(profiles: Seq<VpnProfile>, name: Seq<char>, i: int) -> Option<int>
    decreases profiles.len() - i,
{
    if i < 0 || i >= profiles.len() {
        None
    } else if profiles[i].name@ == name {
        Some(i)
    } else {
        profile_index_from(profiles, name, i + 1)
    }
}

pub open spec fn profile_index(profiles: Seq<VpnProfile>, name: Seq<char>) -> Option<int> {
    profile_index_from(profiles, name, 0)
}

proof fn lemma_profile_index_from(profiles: Seq<VpnProfile>, name: Seq<char>, i: int)
    ensures
        profile_index_from(profiles, name, i) matches Some(k) ==> i <= k < profiles.len()
            && profiles[k].name@ == name,
    decreases profiles.len() - i,
{
    if !(i < 0 || i >= profiles.len()) && profiles[i].name@ != name {
        lemma_profile_index_from(profiles, name, i + 1);
    }
}

impl AppConfig {
    /// Configuration directory under the user's config base directory
    /// (`.` when the platform reports none).
    pub open spec fn spec_config_dir(base: Option<Seq<char>>) -> Seq<char> {
        path_join(
            match base {
                Some(b) => b,
                None => seq!['.'],
            },
            "open-forti-manager"@,
        )
    }

    pub fn config_dir(base: Option<&str>) -> (dir: String)
        ensures
            dir@ == Self::spec_config_dir(match base {
                Some(b) => Some(b@),
                None => None,
            }),
    {
        let b: Vec<char> = match base {
            Some(b) => chars_of(b),
            None => {
                let mut v: Vec<char> = Vec::new();
                v.push('.');
                assert(v@ =~= seq!['.']);
                v
            },
        };
        let d = join_path(b.as_slice(), "open-forti-manager");
        string_of(d.as_slice())
    }

    /// Path to the config file: `<config dir>/config.json`.
    pub fn config_path(base: Option<&str>) -> (path: String)
        ensures
            path@ == path_join(
                Self::spec_config_dir(match base {
                    Some(b) => Some(b@),
                    None => None,
                }),
                "config.json"@,
            ),
    {
        let dir = Self::config_dir(base);
        let d = chars_of(dir.as_str());
        let p = join_path(d.as_slice(), "config.json");
        string_of(p.as_slice())
    }

    /// Position of the first profile with this name.
    pub fn profile_position(&self, name: &str) -> (res: Option<usize>)
        ensures
            match profile_index(self.profiles@, name@) {
                Some(k) => res matches Some(i) && i == k,
                None => res is None,
            },
    {
        let target = name.to_string();
        let mut i: usize = 0;
        while i < self.profiles.len()
            invariant
                i <= self.profiles@.len(),
                target@ == name@,
                profile_index(self.profiles@, name@) == profile_index_from(self.profiles@, name@, i as int),
            decreases self.profiles@.len() - i,
        {
            if self.profiles[i].name == target {
                return Some(i);
            }
            i = i + 1;
        }
        None
    }

    /// Find a profile by name: the first one with that name.
    pub fn find_profile(&self, name: &str) -> (res: Option<&VpnProfile>)
        ensures
            match profile_index(self.profiles@, name@) {
                Some(k) => res == Some(&self.profiles@[k]),
                None => res is None,
            },
    {
        proof { lemma_profile_index_from(self.profiles@, name@, 0); }
        match self.profile_position(name) {
            Some(i) => Some(&self.profiles[i]),
            None => None,
        }
    }

    /// Find a profile by name (mutable): the first one with that name.
    pub fn find_profile_mut(&mut self, name: &str) -> (res: Option<&mut VpnProfile>)
        ensures
            match profile_index(old(self).profiles@, name@) {
                Some(k) => res matches Some(p) && *p == old(self).profiles@[k]
                    && final(self).profiles@ == old(self).profiles@.update(k, *final(p))
                    && final(self).settings == old(self).settings,
                None => res is None && *final(self) == *old(self),
            },
    {
        proof { lemma_profile_index_from(self.profiles@, name@, 0); }
        match self.profile_position(name) {
            Some(i) => Some(&mut self.profiles[i]),
            None => None,
        }
    }

    /// Append a starter profile named `Profile <n>`, where n is the new
    /// number of profiles; it has an empty host and username and no other
    /// setting.
    pub fn new_profile(&mut self)
        requires
            old(self).profiles@.len() < u64::MAX,
        ensures
            final(self).profiles@.len() == old(self).profiles@.len() + 1,
            final(self).profiles@.take(old(self).profiles@.len() as int) == old(self).profiles@,
            is_starter_profile(final(self).profiles@.last(), final(self).profiles@.len()),
            final(self).settings == old(self).settings,
    {
        let n = self.profiles.len() as u64 + 1;
        let mut name: Vec<char> = Vec::new();
        push_str(&mut name, "Profile ");
        push_decimal(&mut name, n);
        let name = string_of(name.as_slice());
        let p = VpnProfile::new(name.as_str(), "", "");
        proof { reveal_strlit(""); }
        let ghost before = self.profiles@;
        self.profiles.push(p);
        assert(self.profiles@.take(before.len() as int) =~= before);
    }

    /// Remove the profile at `idx`, when there is one.
    pub fn delete_profile(&mut self, idx: usize) -> (removed: bool)
        ensures
            removed == (idx < old(self).profiles@.len()),
            removed ==> final(self).profiles@ == old(self).profiles@.remove(idx as int),
            !removed ==> final(self).profiles@ == old(self).profiles@,
            final(self).settings == old(self).settings,
    {
        if idx < self.profiles.len() {
            self.profiles.remove(idx);
            true
        } else {
            false
        }
    }

    /// Position of the auto-connect profile, when one is configured and a
    /// profile of that name exists.
    pub fn auto_connect_index(&self) -> (res: Option<usize>)
        ensures
            match self.settings.auto_connect_profile {
                Some(name) => match profile_index(self.profiles@, name@) {
                    Some(k) => res matches Some(i) && i == k,
                    None => res is None,
                },
                None => res is None,
            },
    {
        match &self.settings.auto_connect_profile {
            Some(name) => self.profile_position(name.as_str()),
            None => None,
        }
    }
}

}
