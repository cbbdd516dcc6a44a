//! TLS settings for the gateway connection, decided from the profile.
//!
//! * A configured trusted-cert pins the gateway's leaf certificate by its
//!   SHA-256 digest (chain validation is then bypassed).
//! * Client-certificate authentication needs both a certificate and a key.
//! * A custom CA bundle adds to the system roots.
//!
//! Opening sockets, reading files and building the TLS configuration is the
//! caller's job; this module parses, checks and decides.

use vstd::prelude::*;
use sha2::Digest;
use rustls::pki_types::PrivateKeyDer;
use crate::config::VpnProfile;
use crate::engine::auth::{host_port, opt_text};
use crate::engine::VpnError;
use crate::engine::io_error_text;
use crate::text::{
    bytes_view, chars_of, push_chars, push_str, split_set, split_set_of, starts_with, string_of,
    strings_view, to_hex_lower, hex_lower, spec_to_lowercase, to_lowercase, trim, trim_chars,
    lines_view,
};

verus! {

broadcast use vstd::string::group_string_axioms;

// ---------------------------------------------------------------------------
// Trusted-cert digests
// ---------------------------------------------------------------------------

/// The characters that separate digests in a trusted-cert setting.
pub open spec fn digest_separators() -> Seq<char> {
    seq![',', ' ', '\n', '\t']
}

/// `s` with every `:` removed.
pub open spec fn without_colons(s: Seq<char>) -> Seq<char>
    decreases s.len(),
{
    if s.len() == 0 {
        s
    } else if s.last() == ':' {
        without_colons(s.drop_last())
    } else {
        without_colons(s.drop_last()).push(s.last())
    }
}

/// One configured digest as compared: colons removed, trimmed, lowercased.
pub open spec fn normalize_digest(piece: Seq<char>) -> Seq<char> {
    spec_to_lowercase(trim(without_colons(piece)))
}

/// The normalized pieces, empty ones dropped, in order.
pub open spec fn digests_of(pieces: Seq<Seq<char>>) -> Seq<Seq<char>>
    decreases pieces.len(),
{
    if pieces.len() == 0 {
        Seq::empty()
    } else {
        let prev = digests_of(pieces.drop_last());
        let d = normalize_digest(pieces.last());
        if d.len() == 0 {
            prev
        } else {
            prev.push(d)
        }
    }
}

/// No configured digest is empty, and there are never more digests than
/// pieces of the setting.
pub proof fn lemma_digests_nonempty(pieces: Seq<Seq<char>>)
    ensures
        digests_of(pieces).len() <= pieces.len(),
        forall|i: int| 0 <= i < digests_of(pieces).len() ==> #[trigger] digests_of(pieces)[i].len() > 0,
    decreases pieces.len(),
{
    if pieces.len() > 0 {
        lemma_digests_nonempty(pieces.drop_last());
    }
}

/// The digests a profile pins the gateway certificate to.
pub open spec fn spec_trusted_digests(p: VpnProfile) -> Seq<Seq<char>> {
    digests_of(split_set(opt_text(p.trusted_cert), digest_separators()))
}

fn remove_colons(s: &[char]) -> (out: Vec<char>)
    ensures
        out@ == without_colons(s@),
{
    let mut out: Vec<char> = Vec::new();
    let mut i: usize = 0;
    while i < s.len()
        invariant
            i <= s@.len(),
            out@ == without_colons(s@.take(i as int)),
        decreases s@.len() - i,
    {
        assert(s@.take(i + 1).drop_last() =~= s@.take(i as int));
        if s[i] != ':' {
            out.push(s[i]);
        }
        i = i + 1;
    }
    assert(s@.take(s@.len() as int) =~= s@);
    out
}

/// The profile's trusted-cert setting as a list of lowercase hex digests:
/// split at commas, spaces, newlines and tabs; colons removed; trimmed;
/// lowercased; empty entries dropped.
pub fn trusted_digests(profile: &VpnProfile) -> (pins: Vec<String>)
    ensures
        strings_view(pins@) == spec_trusted_digests(*profile),
{
    let raw: Vec<char> = match &profile.trusted_cert {
        Some(s) => chars_of(s.as_str()),
        None => Vec::new(),
    };
    proof { reveal_strlit(""); }
    assert(raw@ =~= opt_text(profile.trusted_cert));
    let seps: [char; 4] = [',', ' ', '\n', '\t'];
    assert(seps@ =~= digest_separators());
    let pieces = split_set_of(raw.as_slice(), &seps);
    let ghost pv = lines_view(pieces@);
    let mut pins: Vec<String> = Vec::new();
    let mut i: usize = 0;
    while i < pieces.len()
        invariant
            i <= pieces@.len(),
            pv == lines_view(pieces@),
            strings_view(pins@) == digests_of(pv.take(i as int)),
        decreases pieces@.len() - i,
    {
        assert(pv.take(i + 1).drop_last() =~= pv.take(i as int));
        assert(pv[i as int] == pieces@[i as int]@);
        let stripped = remove_colons(pieces[i].as_slice());
        let trimmed = trim_chars(stripped.as_slice());
        let lowered = to_lowercase(trimmed.as_slice());
        if lowered.len() > 0 {
            let ghost before = strings_view(pins@);
            let d = string_of(lowered.as_slice());
            pins.push(d);
            assert(strings_view(pins@) =~= before.push(d@));
        }
        i = i + 1;
    }
    assert(pv.take(pv.len() as int) =~= pv);
    pins
}

// ---------------------------------------------------------------------------
// Certificate pinning
// ---------------------------------------------------------------------------

/// What `Sha256::digest` returns for a byte string.
pub uninterp spec fn spec_sha256(data: Seq<u8>) -> Seq<u8>;

/// Trusted: `sha2::Sha256::digest`. The result is claimed to be the named
/// function of the input bytes, 32 bytes long (the output size of SHA-256).
#[verifier::external_body]
fn sha256(data: &[u8]) -> (d: Vec<u8>)
    ensures
        d@ == spec_sha256(data@),
        d@.len() == 32,
{
    sha2::Sha256::digest(data).to_vec()
}

/// Lowercase hex SHA-256 digest of a DER certificate.
pub fn cert_digest(cert_der: &[u8]) -> (hex: String)
    ensures
        hex@ == hex_lower(spec_sha256(cert_der@)),
{
    let d = sha256(cert_der);
    string_of(to_hex_lower(d.as_slice()).as_slice())
}

/// The refusal text for a certificate whose digest is not pinned.
pub open spec fn unpinned_message(got: Seq<char>) -> Seq<char> {
    "gateway certificate digest "@ + got + " does not match any trusted-cert"@
}

/// Accept a certificate digest when one of the pins equals it.
pub fn check_pinned_digest(pins: &[String], got: &str) -> (res: Result<(), String>)
    ensures
        res is Ok <==> strings_view(pins@).contains(got@),
        res matches Err(m) ==> m@ == unpinned_message(got@),
{
    let mut i: usize = 0;
    while i < pins.len()
        invariant
            i <= pins@.len(),
            forall|k: int| 0 <= k < i ==> strings_view(pins@)[k] != got@,
        decreases pins@.len() - i,
    {
        if string_eq(pins[i].as_str(), got) {
            assert(strings_view(pins@)[i as int] == got@);
            return Ok(());
        }
        i = i + 1;
    }
    let mut v: Vec<char> = Vec::new();
    push_str(&mut v, "gateway certificate digest ");
    push_str(&mut v, got);
    push_str(&mut v, " does not match any trusted-cert");
    assert(v@ =~= unpinned_message(got@));
    Err(string_of(v.as_slice()))
}

fn string_eq(a: &str, b: &str) -> (r: bool)
    ensures
        r == (a@ == b@),
{
    let x = chars_of(a);
    let y = chars_of(b);
    if x.len() != y.len() {
        return false;
    }
    let mut i: usize = 0;
    while i < x.len()
        invariant
            x@ == a@,
            y@ == b@,
            x@.len() == y@.len(),
            i <= x@.len(),
            forall|k: int| 0 <= k < i ==> x@[k] == y@[k],
        decreases x@.len() - i,
    {
        if x[i] != y[i] {
            return false;
        }
        i = i + 1;
    }
    assert(x@ =~= y@);
    true
}

/// Verify the gateway's leaf certificate against the pinned digests.
pub fn verify_pinned_cert(pins: &[String], cert_der: &[u8]) -> (res: Result<(), String>)
    ensures
        res is Ok <==> strings_view(pins@).contains(hex_lower(spec_sha256(cert_der@))),
        res matches Err(m) ==> m@ == unpinned_message(hex_lower(spec_sha256(cert_der@))),
{
    let got = cert_digest(cert_der);
    check_pinned_digest(pins, got.as_str())
}

// ---------------------------------------------------------------------------
// Client certificate and CA bundle
// ---------------------------------------------------------------------------

/// A setting that is present and not empty.
pub open spec fn setting(o: Option<String>) -> Option<Seq<char>> {
    match o {
        Some(s) => if s@.len() > 0 { Some(s@) } else { None },
        None => None,
    }
}

fn setting_of(o: &Option<String>) -> (r: Option<String>)
    ensures
        match setting(*o) {
            Some(s) => r matches Some(t) && t@ == s,
            None => r is None,
        },
{
    match o {
        Some(s) => {
            let c = chars_of(s.as_str());
            if c.len() > 0 { Some(s.as_str().to_string()) } else { None }
        },
        None => None,
    }
}

/// Paths of the client certificate and key, when both are configured; an
/// error when only one of them is (empty settings count as unset).
pub fn client_auth_paths(profile: &VpnProfile) -> (res: Result<Option<(String, String)>, VpnError>)
    ensures
        match (setting(profile.user_cert), setting(profile.user_key)) {
            (Some(c), Some(k)) => res matches Ok(Some((cp, kp))) && cp@ == c && kp@ == k,
            (Some(_), None) => res matches Err(VpnError::Tls(m))
                && m@ == "user certificate is set but user key is missing"@,
            (None, Some(_)) => res matches Err(VpnError::Tls(m))
                && m@ == "user key is set but user certificate is missing"@,
            (None, None) => res matches Ok(None),
        },
{
    let cert = setting_of(&profile.user_cert);
    let key = setting_of(&profile.user_key);
    match (cert, key) {
        (Some(c), Some(k)) => Ok(Some((c, k))),
        (Some(_), None) => Err(VpnError::Tls("user certificate is set but user key is missing".to_string())),
        (None, Some(_)) => Err(VpnError::Tls("user key is set but user certificate is missing".to_string())),
        (None, None) => Ok(None),
    }
}

/// The custom CA bundle to load, when one is configured (an empty path
/// counts as unset).
pub fn ca_file_path(profile: &VpnProfile) -> (res: Option<String>)
    ensures
        match setting(profile.ca_file) {
            Some(p) => res matches Some(s) && s@ == p,
            None => res is None,
        },
{
    setting_of(&profile.ca_file)
}

/// What `rustls_pemfile::certs`, collected, gives for a PEM text: the DER
/// bytes of every certificate section in order, or `None` on a read error.
pub uninterp spec fn spec_pem_certs(pem: Seq<u8>) -> Option<Seq<Seq<u8>>>;

/// Trusted: `rustls_pemfile::certs`, collected until the first error. The
/// result is claimed to be the named function of the PEM bytes; the error
/// itself is not described.
#[verifier::external_body]
fn pem_certs(pem: &[u8]) -> (res: Result<Vec<Vec<u8>>, std::io::Error>)
    ensures
        match res {
            Ok(v) => spec_pem_certs(pem@) == Some(bytes_view(v@)),
            Err(_) => spec_pem_certs(pem@) is None,
        },
{
    let mut rd = pem;
    rustls_pemfile::certs(&mut rd).map(|r| r.map(|c| c.to_vec())).collect()
}

/// `prefix`, then the text of an I/O error.
fn error_with(prefix: Vec<char>, e: &std::io::Error) -> (m: String)
    ensures
        starts_with(m@, prefix@),
{
    let mut v = prefix;
    let ghost p = v@;
    let t = io_error_text(e);
    push_str(&mut v, t.as_str());
    assert(v@.take(p.len() as int) =~= p);
    string_of(v.as_slice())
}

/// `what`, a space, the path and `: `.
pub open spec fn path_prefix(what: Seq<char>, path: Seq<char>) -> Seq<char> {
    what + " "@ + path + ": "@
}

fn path_prefix_of(what: &str, path: &str) -> (v: Vec<char>)
    ensures
        v@ == path_prefix(what@, path@),
{
    let mut v: Vec<char> = Vec::new();
    push_str(&mut v, what);
    push_str(&mut v, " ");
    push_str(&mut v, path);
    push_str(&mut v, ": ");
    assert(v@ =~= path_prefix(what@, path@));
    v
}

/// What the parsed client certificates give: a parse error names the file,
/// and a file without a certificate is refused.
pub fn user_certs_outcome(path: &str, parsed: Result<Vec<Vec<u8>>, std::io::Error>) -> (res: Result<
    Vec<Vec<u8>>,
    VpnError,
>)
    ensures
        match parsed {
            Err(_) => res matches Err(VpnError::Tls(m)) && starts_with(m@, path_prefix("bad user cert"@, path@)),
            Ok(v) => if v@.len() == 0 {
                res matches Err(VpnError::Tls(m)) && m@ == "no certificate found in "@ + path@
            } else {
                res matches Ok(w) && bytes_view(w@) == bytes_view(v@)
            },
        },
{
    match parsed {
        Err(e) => Err(VpnError::Tls(error_with(path_prefix_of("bad user cert", path), &e))),
        Ok(v) => {
            if v.len() == 0 {
                let mut m: Vec<char> = Vec::new();
                push_str(&mut m, "no certificate found in ");
                push_str(&mut m, path);
                assert(m@ =~= "no certificate found in "@ + path@);
                Err(VpnError::Tls(string_of(m.as_slice())))
            } else {
                Ok(v)
            }
        },
    }
}

/// Parse the client certificate file read from `path`.
pub fn load_user_certs(path: &str, pem: &[u8]) -> (res: Result<Vec<Vec<u8>>, VpnError>)
    ensures
        match spec_pem_certs(pem@) {
            None => res matches Err(VpnError::Tls(m)) && starts_with(m@, path_prefix("bad user cert"@, path@)),
            Some(certs) => if certs.len() == 0 {
                res matches Err(VpnError::Tls(m)) && m@ == "no certificate found in "@ + path@
            } else {
                res matches Ok(w) && bytes_view(w@) == certs
            },
        },
{
    user_certs_outcome(path, pem_certs(pem))
}

/// What the parsed CA bundle gives: a parse error names the file.
pub fn ca_certs_outcome(path: &str, parsed: Result<Vec<Vec<u8>>, std::io::Error>) -> (res: Result<
    Vec<Vec<u8>>,
    VpnError,
>)
    ensures
        match parsed {
            Err(_) => res matches Err(VpnError::Tls(m)) && starts_with(m@, path_prefix("bad CA file"@, path@)),
            Ok(v) => res matches Ok(w) && bytes_view(w@) == bytes_view(v@),
        },
{
    match parsed {
        Err(e) => Err(VpnError::Tls(error_with(path_prefix_of("bad CA file", path), &e))),
        Ok(v) => Ok(v),
    }
}

/// Parse the CA bundle read from `path`.
pub fn load_ca_certs(path: &str, pem: &[u8]) -> (res: Result<Vec<Vec<u8>>, VpnError>)
    ensures
        match spec_pem_certs(pem@) {
            None => res matches Err(VpnError::Tls(m)) && starts_with(m@, path_prefix("bad CA file"@, path@)),
            Some(certs) => res matches Ok(w) && bytes_view(w@) == certs,
        },
{
    ca_certs_outcome(path, pem_certs(pem))
}

/// Encoding of a client private key, as the PEM section labels it.
#[derive(Debug, Clone, Copy, PartialEq, Eq, Structural)]
pub enum KeyKind {
    /// `RSA PRIVATE KEY` (PKCS#1).
    Pkcs1,
    /// `EC PRIVATE KEY` (SEC1).
    Sec1,
    /// `PRIVATE KEY` (PKCS#8).
    Pkcs8,
}

/// A client private key: its encoding and its DER bytes.
pub struct UserKey {
    pub kind: KeyKind,
    pub der: Vec<u8>,
}

/// What `rustls_pemfile::private_key` finds in a PEM text: `None` on a read
/// error, `Some(None)` when there is no private key section, and otherwise
/// the first private key section's encoding and DER bytes.
pub uninterp spec fn spec_pem_key(pem: Seq<u8>) -> Option<Option<(KeyKind, Seq<u8>)>>;

/// Trusted: `rustls_pemfile::private_key`, the first private key section of
/// the PEM bytes, with the key's variant and DER bytes handed out as plain
/// values. The outcome is claimed to be the named function of the bytes;
/// the error itself is not described. (`private_key` only ever yields the
/// three variants listed; the catch-all arm that the enum's
/// `#[non_exhaustive]` demands is never taken.)
#[verifier::external_body]
fn pem_private_key(pem: &[u8]) -> (res: Result<Option<UserKey>, std::io::Error>)
    ensures
        match res {
            Err(_) => spec_pem_key(pem@) is None,
            Ok(None) => spec_pem_key(pem@) == Some(None::<(KeyKind, Seq<u8>)>),
            Ok(Some(u)) => spec_pem_key(pem@) == Some(Some((u.kind, u.der@))),
        },
{
    let mut rd = pem;
    Ok(match rustls_pemfile::private_key(&mut rd)? {
        None => None,
        Some(PrivateKeyDer::Pkcs1(k)) => Some(UserKey { kind: KeyKind::Pkcs1, der: k.secret_pkcs1_der().to_vec() }),
        Some(PrivateKeyDer::Sec1(k)) => Some(UserKey { kind: KeyKind::Sec1, der: k.secret_sec1_der().to_vec() }),
        Some(PrivateKeyDer::Pkcs8(k)) => Some(UserKey { kind: KeyKind::Pkcs8, der: k.secret_pkcs8_der().to_vec() }),
        Some(_) => None,
    })
}

/// What the parsed client key gives: a parse error names the file, and a
/// file without a private key is refused.
pub fn user_key_outcome(path: &str, parsed: Result<Option<UserKey>, std::io::Error>) -> (res: Result<
    UserKey,
    VpnError,
>)
    ensures
        match parsed {
            Err(_) => res matches Err(VpnError::Tls(m)) && starts_with(m@, path_prefix("bad user key"@, path@)),
            Ok(None) => res matches Err(VpnError::Tls(m)) && m@ == "no private key found in "@ + path@,
            Ok(Some(k)) => res matches Ok(u) && u.kind == k.kind && u.der@ == k.der@,
        },
{
    match parsed {
        Err(e) => Err(VpnError::Tls(error_with(path_prefix_of("bad user key", path), &e))),
        Ok(None) => {
            let mut m: Vec<char> = Vec::new();
            push_str(&mut m, "no private key found in ");
            push_str(&mut m, path);
            assert(m@ =~= "no private key found in "@ + path@);
            Err(VpnError::Tls(string_of(m.as_slice())))
        },
        Ok(Some(k)) => Ok(k),
    }
}

/// Parse the client key file read from `path`: its first private key.
pub fn load_user_key(path: &str, pem: &[u8]) -> (res: Result<UserKey, VpnError>)
    ensures
        match spec_pem_key(pem@) {
            None => res matches Err(VpnError::Tls(m)) && starts_with(m@, path_prefix("bad user key"@, path@)),
            Some(None) => res matches Err(VpnError::Tls(m)) && m@ == "no private key found in "@ + path@,
            Some(Some((k, d))) => res matches Ok(u) && u.kind == k && u.der@ == d,
        },
{
    user_key_outcome(path, pem_private_key(pem))
}

/// How the gateway's certificate is to be trusted.
pub enum TrustPlan {
    /// Pin the leaf certificate to these digests; chain validation is
    /// bypassed.
    Pinned(Vec<String>),
    /// Validate against the system and built-in roots, plus this CA bundle
    /// when one is configured.
    Roots(Option<String>),
}

/// Pinning when the profile configures any trusted-cert digest, root
/// validation (with the custom CA bundle, if any) otherwise.
pub fn trust_plan(profile: &VpnProfile) -> (plan: TrustPlan)
    ensures
        spec_trusted_digests(*profile).len() > 0 ==> (plan matches TrustPlan::Pinned(pins)
            && strings_view(pins@) == spec_trusted_digests(*profile)),
        spec_trusted_digests(*profile).len() == 0 ==> (plan matches TrustPlan::Roots(ca) && match setting(
            profile.ca_file,
        ) {
            Some(p) => ca matches Some(c) && c@ == p,
            None => ca is None,
        }),
{
    let pins = trusted_digests(profile);
    if pins.len() > 0 {
        TrustPlan::Pinned(pins)
    } else {
        TrustPlan::Roots(ca_file_path(profile))
    }
}

// ---------------------------------------------------------------------------
// Address
// ---------------------------------------------------------------------------

/// `host:port` of the gateway (port 443 when unset), as resolved.
pub fn gateway_address(profile: &VpnProfile) -> (addr: String)
    ensures
        addr@ == host_port(*profile),
{
    let mut v: Vec<char> = Vec::new();
    push_str(&mut v, profile.host.as_str());
    push_str(&mut v, ":");
    crate::text::push_decimal(&mut v, profile.gateway_port() as u64);
    assert(v@ =~= host_port(*profile));
    string_of(v.as_slice())
}

}
