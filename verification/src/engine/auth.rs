//! HTTP exchanges with the Fortinet SSL-VPN gateway.
//!
//! The login flow:
//! 1. POST /remote/logincheck with credentials
//! 2. Extract SVPNCOOKIE from the Set-Cookie header
//! 3. (SAML) open the SAML start URL and trade the session id for a cookie
//! 4. GET /remote/index and /remote/fortisslvpn to allocate a tunnel slot
//! 5. GET /remote/fortisslvpn_xml for the tunnel configuration
//! 6. GET /remote/sslvpn-tunnel to switch the connection to tunnel mode
//!
//! This module builds every request, decides on every response, and frames
//! HTTP responses read from the stream; moving the bytes is the caller's job.

use vstd::prelude::*;
use vstd::utf8::encode_utf8;
use crate::config::VpnProfile;
use crate::engine::VpnError;
use crate::text::{
    before_first, before_first_chars, bytes_end_with, chars_of, chars_start_with, contains_seq,
    decimal, ends_with, find, find_bytes, find_chars, first_index, first_index_from,
    hex_upper_char, hex_upper_digit, lemma_find_from_found, lemma_first_index_from, lines_view,
    parse_usize, push_chars, push_decimal, push_str, slice_bytes, slice_chars, spec_lines,
    spec_parse_usize, spec_to_lowercase, spec_utf8_lossy, split_lines, starts_with, string_of,
    take_at_most, take_at_most_chars, to_lowercase, trim, trim_chars, utf8_lossy,
};

verus! {

broadcast use vstd::string::group_string_axioms;

/// Largest HTTP response accepted from the gateway.
pub const MAX_HTTP_RESPONSE: usize = 8388608;

/// Result of a successful authentication.
pub struct AuthResult {
    /// The SVPNCOOKIE session token from the gateway.
    pub cookie: String,
    /// Full HTTP response (may contain tunnel config XML).
    pub body: String,
}

// ---------------------------------------------------------------------------
// Percent-encoding
// ---------------------------------------------------------------------------

/// RFC 3986 unreserved bytes: ASCII letters, digits, `-`, `_`, `.`, `~`.
pub open spec fn is_unreserved(b: u8) -> bool {
    ||| (65 <= b && b <= 90)
    ||| (97 <= b && b <= 122)
    ||| (48 <= b && b <= 57)
    ||| b == 45
    ||| b == 95
    ||| b == 46
    ||| b == 126
}

/// Encoding of one byte: unreserved bytes as themselves, space as `+`,
/// anything else as `%XX` with uppercase hex.
pub open spec fn percent_encode_byte(b: u8) -> Seq<char> {
    if is_unreserved(b) {
        seq![b as char]
    } else if b == 32 {
        seq!['+']
    } else {
        seq!['%', hex_upper_char(b as int / 16), hex_upper_char(b as int % 16)]
    }
}

/// Form encoding of a byte string, byte by byte.
pub open spec fn spec_percent_encode(bytes: Seq<u8>) -> Seq<char>
    decreases bytes.len(),
{
    if bytes.len() == 0 {
        Seq::empty()
    } else {
        spec_percent_encode(bytes.drop_last()) + percent_encode_byte(bytes.last())
    }
}

/// A character that may stand in an encoded form value: an unreserved ASCII
/// character, `+` or `%`.
pub open spec fn form_safe(c: char) -> bool {
    ||| ('A' <= c && c <= 'Z')
    ||| ('a' <= c && c <= 'z')
    ||| ('0' <= c && c <= '9')
    ||| c == '-' || c == '_' || c == '.' || c == '~' || c == '+' || c == '%'
}

/// Encoded form values hold only form-safe characters, so an encoded value
/// never carries the `&` or `=` that separate form fields.
pub proof fn lemma_percent_encode_safe(bytes: Seq<u8>)
    ensures
        forall|i: int| 0 <= i < spec_percent_encode(bytes).len() ==> form_safe(#[trigger] spec_percent_encode(bytes)[i]),
    decreases bytes.len(),
{
    if bytes.len() > 0 {
        lemma_percent_encode_safe(bytes.drop_last());
        let prev = spec_percent_encode(bytes.drop_last());
        let b = bytes.last();
        let tail = percent_encode_byte(b);
        assert forall|j: int| 0 <= j < tail.len() implies form_safe(#[trigger] tail[j]) by {
            if !is_unreserved(b) && b != 32 {
                lemma_hex_upper_safe(b as int / 16);
                lemma_hex_upper_safe(b as int % 16);
            }
        }
        assert forall|i: int| 0 <= i < spec_percent_encode(bytes).len() implies form_safe(
            #[trigger] spec_percent_encode(bytes)[i],
        ) by {
            if i < prev.len() {
                assert(spec_percent_encode(bytes)[i] == prev[i]);
            } else {
                assert(spec_percent_encode(bytes)[i] == tail[i - prev.len()]);
            }
        }
    }
}

proof fn lemma_hex_upper_safe(d: int)
    requires
        0 <= d < 16,
    ensures
        form_safe(hex_upper_char(d)),
{
}

/// Value of a hex digit character (either case); 0 for anything else.
pub open spec fn hex_value(c: char) -> int {
    if '0' <= c && c <= '9' {
        c as int - '0' as int
    } else if 'A' <= c && c <= 'F' {
        c as int - 'A' as int + 10
    } else if 'a' <= c && c <= 'f' {
        c as int - 'a' as int + 10
    } else {
        0
    }
}

/// Form decoding as a web server applies it to a urlencoded value: `+` is a
/// space, `%XY` is the byte with hex value XY, any other character stands
/// for its own code.
pub open spec fn form_decode(s: Seq<char>) -> Seq<u8>
    decreases s.len(),
{
    if s.len() == 0 {
        Seq::empty()
    } else if s[0] == '+' {
        seq![32u8] + form_decode(s.skip(1))
    } else if s[0] == '%' && s.len() >= 3 {
        seq![(hex_value(s[1]) * 16 + hex_value(s[2])) as u8] + form_decode(s.skip(3))
    } else {
        seq![(s[0] as int) as u8] + form_decode(s.skip(1))
    }
}

proof fn lemma_hex_upper_value(d: int)
    requires
        0 <= d < 16,
    ensures
        hex_value(hex_upper_char(d)) == d,
{
}

/// Decoding one encoded byte, followed by anything, gives that byte first.
proof fn lemma_decode_byte(b: u8, rest: Seq<char>)
    ensures
        form_decode(percent_encode_byte(b) + rest) == seq![b] + form_decode(rest),
{
    let e = percent_encode_byte(b) + rest;
    if is_unreserved(b) {
        assert(e.skip(1) =~= rest);
        assert((b as char) as int == b as int);
    } else if b == 32 {
        assert(e.skip(1) =~= rest);
    } else {
        assert(e.skip(3) =~= rest);
        lemma_hex_upper_value(b as int / 16);
        lemma_hex_upper_value(b as int % 16);
        assert(e[1] == hex_upper_char(b as int / 16));
        assert(e[2] == hex_upper_char(b as int % 16));
    }
}

proof fn lemma_decode_encoded_prefix(bytes: Seq<u8>, rest: Seq<char>)
    ensures
        form_decode(spec_percent_encode(bytes) + rest) == bytes + form_decode(rest),
    decreases bytes.len(),
{
    if bytes.len() == 0 {
        assert(spec_percent_encode(bytes) + rest =~= rest);
        assert(bytes + form_decode(rest) =~= form_decode(rest));
    } else {
        let b = bytes.last();
        let rest2 = percent_encode_byte(b) + rest;
        lemma_decode_encoded_prefix(bytes.drop_last(), rest2);
        assert(spec_percent_encode(bytes) + rest =~= spec_percent_encode(bytes.drop_last()) + rest2);
        lemma_decode_byte(b, rest);
        assert(bytes.drop_last() + (seq![b] + form_decode(rest)) =~= bytes + form_decode(rest));
    }
}

/// Form encoding is undone by form decoding: the gateway reads back exactly
/// the bytes that were encoded (a `+` in a password stays a `+`, a space
/// stays a space).
pub proof fn lemma_form_decode_percent_encode(bytes: Seq<u8>)
    ensures
        form_decode(spec_percent_encode(bytes)) == bytes,
{
    lemma_decode_encoded_prefix(bytes, Seq::empty());
    assert(spec_percent_encode(bytes) + Seq::<char>::empty() =~= spec_percent_encode(bytes));
    assert(bytes + form_decode(Seq::<char>::empty()) =~= bytes);
}

/// URL-encode a string's UTF-8 bytes (RFC 3986 percent-encoding, space as `+`).
pub fn percent_encode(s: &str) -> (r: String)
    ensures
        r@ == spec_percent_encode(encode_utf8(s@)),
{
    let bytes = s.as_bytes();
    let mut out: Vec<char> = Vec::new();
    let mut i: usize = 0;
    while i < bytes.len()
        invariant
            i <= bytes@.len(),
            bytes@ == encode_utf8(s@),
            out@ == spec_percent_encode(bytes@.take(i as int)),
        decreases bytes@.len() - i,
    {
        let b = bytes[i];
        let ghost before = out@;
        if (65 <= b && b <= 90) || (97 <= b && b <= 122) || (48 <= b && b <= 57) || b == 45 || b == 95
            || b == 46 || b == 126 {
            out.push(b as char);
        } else if b == 32 {
            out.push('+');
        } else {
            out.push('%');
            out.push(hex_upper_digit(b / 16));
            out.push(hex_upper_digit(b % 16));
        }
        assert(out@ =~= before + percent_encode_byte(b));
        i = i + 1;
        assert(bytes@.take(i as int).drop_last() =~= bytes@.take(i - 1));
    }
    assert(bytes@.take(bytes@.len() as int) =~= bytes@);
    string_of(out.as_slice())
}

// ---------------------------------------------------------------------------
// Requests
// ---------------------------------------------------------------------------

/// `host:port` as the Host header carries it (port 443 when unset).
pub open spec fn host_port(p: VpnProfile) -> Seq<char> {
    p.host@ + ":"@ + decimal(p.spec_port() as nat)
}

/// Text of an optional string, empty when unset.
pub open spec fn opt_text(o: Option<String>) -> Seq<char> {
    match o {
        Some(s) => s@,
        None => ""@,
    }
}

fn push_host_port(v: &mut Vec<char>, p: &VpnProfile)
    ensures
        final(v)@ == old(v)@ + host_port(*p),
{
    push_str(v, p.host.as_str());
    push_str(v, ":");
    push_decimal(v, p.gateway_port() as u64);
    assert(final(v)@ =~= old(v)@ + host_port(*p));
}

fn opt_str(o: &Option<String>) -> (s: &str)
    ensures
        s@ == opt_text(*o),
{
    match o {
        Some(s) => s.as_str(),
        None => "",
    }
}

/// The urlencoded login form.
pub open spec fn login_form(p: VpnProfile) -> Seq<char> {
    "username="@ + spec_percent_encode(encode_utf8(p.username@)) + "&credential="@
        + spec_percent_encode(encode_utf8(opt_text(p.password))) + "&realm="@
        + spec_percent_encode(encode_utf8(opt_text(p.realm))) + "&ajax=1"@
}

/// Password login: POST the form to /remote/logincheck.
pub open spec fn spec_login_request(p: VpnProfile) -> Seq<char> {
    "POST /remote/logincheck HTTP/1.1\r\nHost: "@ + host_port(p)
        + "\r\nUser-Agent: FortiSSL-VPN/7.0\r\nContent-Type: application/x-www-form-urlencoded\r\nContent-Length: "@
        + decimal(login_form(p).len()) + "\r\nConnection: keep-alive\r\n\r\n"@ + login_form(p)
}

pub fn login_request(profile: &VpnProfile) -> (req: String)
    ensures
        req@ == spec_login_request(*profile),
{
    let username = percent_encode(profile.username.as_str());
    let password = percent_encode(opt_str(&profile.password));
    let realm = percent_encode(opt_str(&profile.realm));
    let mut form: Vec<char> = Vec::new();
    push_str(&mut form, "username=");
    push_str(&mut form, username.as_str());
    push_str(&mut form, "&credential=");
    push_str(&mut form, password.as_str());
    push_str(&mut form, "&realm=");
    push_str(&mut form, realm.as_str());
    push_str(&mut form, "&ajax=1");
    assert(form@ =~= login_form(*profile));
    let mut v: Vec<char> = Vec::new();
    push_str(&mut v, "POST /remote/logincheck HTTP/1.1\r\nHost: ");
    push_host_port(&mut v, profile);
    push_str(
        &mut v,
        "\r\nUser-Agent: FortiSSL-VPN/7.0\r\nContent-Type: application/x-www-form-urlencoded\r\nContent-Length: ",
    );
    push_decimal(&mut v, form.len() as u64);
    push_str(&mut v, "\r\nConnection: keep-alive\r\n\r\n");
    push_chars(&mut v, form.as_slice());
    assert(v@ =~= spec_login_request(*profile));
    string_of(v.as_slice())
}

/// Request for the tunnel configuration XML.
pub open spec fn spec_config_request(p: VpnProfile, cookie: Seq<char>) -> Seq<char> {
    "GET /remote/fortisslvpn_xml HTTP/1.1\r\nHost: "@ + host_port(p) + "\r\nCookie: SVPNCOOKIE="@ + cookie
        + "\r\nUser-Agent: FortiSSL-VPN/7.0\r\nConnection: keep-alive\r\n\r\n"@
}

pub fn config_request(profile: &VpnProfile, cookie: &str) -> (req: String)
    ensures
        req@ == spec_config_request(*profile, cookie@),
{
    let mut v: Vec<char> = Vec::new();
    push_str(&mut v, "GET /remote/fortisslvpn_xml HTTP/1.1\r\nHost: ");
    push_host_port(&mut v, profile);
    push_str(&mut v, "\r\nCookie: SVPNCOOKIE=");
    push_str(&mut v, cookie);
    push_str(&mut v, "\r\nUser-Agent: FortiSSL-VPN/7.0\r\nConnection: keep-alive\r\n\r\n");
    assert(v@ =~= spec_config_request(*profile, cookie@));
    string_of(v.as_slice())
}

/// GET `path` with the session cookie, keeping the connection alive (the
/// form of the /remote/index and /remote/fortisslvpn requests).
pub open spec fn spec_cookie_get(path: Seq<char>, p: VpnProfile, cookie: Seq<char>) -> Seq<char> {
    "GET "@ + path + " HTTP/1.1\r\nHost: "@ + host_port(p) + "\r\nCookie: SVPNCOOKIE="@ + cookie
        + "\r\nConnection: keep-alive\r\n\r\n"@
}

fn cookie_get(path: &str, profile: &VpnProfile, cookie: &str) -> (req: String)
    ensures
        req@ == spec_cookie_get(path@, *profile, cookie@),
{
    let mut v: Vec<char> = Vec::new();
    push_str(&mut v, "GET ");
    push_str(&mut v, path);
    push_str(&mut v, " HTTP/1.1\r\nHost: ");
    push_host_port(&mut v, profile);
    push_str(&mut v, "\r\nCookie: SVPNCOOKIE=");
    push_str(&mut v, cookie);
    push_str(&mut v, "\r\nConnection: keep-alive\r\n\r\n");
    assert(v@ =~= spec_cookie_get(path@, *profile, cookie@));
    string_of(v.as_slice())
}

/// First allocation step: GET /remote/index.
pub fn index_request(profile: &VpnProfile, cookie: &str) -> (req: String)
    ensures
        req@ == spec_cookie_get("/remote/index"@, *profile, cookie@),
{
    cookie_get("/remote/index", profile, cookie)
}

/// Second allocation step: GET /remote/fortisslvpn allocates the tunnel slot.
pub fn allocation_request(profile: &VpnProfile, cookie: &str) -> (req: String)
    ensures
        req@ == spec_cookie_get("/remote/fortisslvpn"@, *profile, cookie@),
{
    cookie_get("/remote/fortisslvpn", profile, cookie)
}

/// Request following an allocation redirect.
pub open spec fn spec_redirect_request(location: Seq<char>, p: VpnProfile, cookie: Seq<char>) -> Seq<char> {
    "GET "@ + location + " HTTP/1.1\r\nHost: "@ + host_port(p)
        + "\r\nUser-Agent: FortiSSL-VPN/7.0\r\nCookie: SVPNCOOKIE="@ + cookie
        + "\r\nConnection: keep-alive\r\n\r\n"@
}

pub fn redirect_request(location: &str, profile: &VpnProfile, cookie: &str) -> (req: String)
    ensures
        req@ == spec_redirect_request(location@, *profile, cookie@),
{
    let mut v: Vec<char> = Vec::new();
    push_str(&mut v, "GET ");
    push_str(&mut v, location);
    push_str(&mut v, " HTTP/1.1\r\nHost: ");
    push_host_port(&mut v, profile);
    push_str(&mut v, "\r\nUser-Agent: FortiSSL-VPN/7.0\r\nCookie: SVPNCOOKIE=");
    push_str(&mut v, cookie);
    push_str(&mut v, "\r\nConnection: keep-alive\r\n\r\n");
    assert(v@ =~= spec_redirect_request(location@, *profile, cookie@));
    string_of(v.as_slice())
}

/// The tunnel-mode upgrade request. After it the gateway switches the
/// connection to raw tunnel mode; no response is read.
pub open spec fn spec_tunnel_request(p: VpnProfile, cookie: Seq<char>) -> Seq<char> {
    "GET /remote/sslvpn-tunnel HTTP/1.1\r\nHost: "@ + host_port(p) + "\r\nCookie: SVPNCOOKIE="@ + cookie
        + "\r\nConnection: Keep-Alive\r\n\r\n"@
}

pub fn start_tunnel(profile: &VpnProfile, cookie: &str) -> (req: String)
    ensures
        req@ == spec_tunnel_request(*profile, cookie@),
{
    let mut v: Vec<char> = Vec::new();
    push_str(&mut v, "GET /remote/sslvpn-tunnel HTTP/1.1\r\nHost: ");
    push_host_port(&mut v, profile);
    push_str(&mut v, "\r\nCookie: SVPNCOOKIE=");
    push_str(&mut v, cookie);
    push_str(&mut v, "\r\nConnection: Keep-Alive\r\n\r\n");
    assert(v@ =~= spec_tunnel_request(*profile, cookie@));
    string_of(v.as_slice())
}

/// The logout request (sent best-effort, its failure ignored).
pub open spec fn spec_logout_request(p: VpnProfile, cookie: Seq<char>) -> Seq<char> {
    "GET /remote/logout HTTP/1.1\r\nHost: "@ + host_port(p) + "\r\nCookie: SVPNCOOKIE="@ + cookie
        + "\r\nConnection: close\r\n\r\n"@
}

pub fn logout(profile: &VpnProfile, cookie: &str) -> (req: String)
    ensures
        req@ == spec_logout_request(*profile, cookie@),
{
    let mut v: Vec<char> = Vec::new();
    push_str(&mut v, "GET /remote/logout HTTP/1.1\r\nHost: ");
    push_host_port(&mut v, profile);
    push_str(&mut v, "\r\nCookie: SVPNCOOKIE=");
    push_str(&mut v, cookie);
    push_str(&mut v, "\r\nConnection: close\r\n\r\n");
    assert(v@ =~= spec_logout_request(*profile, cookie@));
    string_of(v.as_slice())
}

/// The SAML start URL opened in the browser; the realm is added when set and
/// non-empty.
pub open spec fn spec_saml_url(p: VpnProfile) -> Seq<char> {
    let base = "https://"@ + host_port(p) + "/remote/saml/start?redirect=1"@;
    if opt_text(p.realm).len() == 0 {
        base
    } else {
        base + "&realm="@ + opt_text(p.realm)
    }
}

pub fn saml_url(profile: &VpnProfile) -> (url: String)
    ensures
        url@ == spec_saml_url(*profile),
{
    let mut v: Vec<char> = Vec::new();
    push_str(&mut v, "https://");
    push_host_port(&mut v, profile);
    push_str(&mut v, "/remote/saml/start?redirect=1");
    let realm = chars_of(opt_str(&profile.realm));
    if realm.len() > 0 {
        push_str(&mut v, "&realm=");
        push_chars(&mut v, realm.as_slice());
    }
    assert(v@ =~= spec_saml_url(*profile));
    string_of(v.as_slice())
}

/// Request trading the SAML session id for a session cookie.
pub open spec fn spec_saml_exchange_request(p: VpnProfile, session_id: Seq<char>) -> Seq<char> {
    "GET /remote/saml/auth_id?id="@ + session_id + " HTTP/1.1\r\nHost: "@ + host_port(p)
        + "\r\nUser-Agent: FortiSSL-VPN/7.0\r\nConnection: keep-alive\r\n\r\n"@
}

pub fn saml_exchange_request(profile: &VpnProfile, session_id: &str) -> (req: String)
    ensures
        req@ == spec_saml_exchange_request(*profile, session_id@),
{
    let mut v: Vec<char> = Vec::new();
    push_str(&mut v, "GET /remote/saml/auth_id?id=");
    push_str(&mut v, session_id);
    push_str(&mut v, " HTTP/1.1\r\nHost: ");
    push_host_port(&mut v, profile);
    push_str(&mut v, "\r\nUser-Agent: FortiSSL-VPN/7.0\r\nConnection: keep-alive\r\n\r\n");
    assert(v@ =~= spec_saml_exchange_request(*profile, session_id@));
    string_of(v.as_slice())
}

/// Outcome of the SAML exchange: the cookie in the reply bytes (decoded with
/// invalid UTF-8 replaced), or an authentication error when there is none.
pub fn saml_exchange_outcome(reply: &[u8]) -> (res: Result<String, VpnError>)
    ensures
        match spec_extract_cookie(spec_utf8_lossy(reply@)) {
            Some(c) => res matches Ok(s) && s@ == c,
            None => res matches Err(VpnError::Auth(m)) && m@ == "No SVPNCOOKIE after SAML exchange"@,
        },
{
    let text = string_of(utf8_lossy(reply).as_slice());
    match extract_cookie(text.as_str()) {
        Some(cookie) => Ok(cookie),
        None => Err(VpnError::Auth("No SVPNCOOKIE after SAML exchange".to_string())),
    }
}

// ---------------------------------------------------------------------------
// Responses
// ---------------------------------------------------------------------------

/// A line that carries the session cookie (in any letter case).
pub open spec fn mentions_cookie(line: Seq<char>) -> bool {
    contains_seq(spec_to_lowercase(line), "svpncookie="@)
}

pub open spec fn cookie_line_pred() -> spec_fn(Seq<char>) -> bool {
    |l: Seq<char>| mentions_cookie(l)
}

/// The cookie value on such a line: after `SVPNCOOKIE=` (or, failing that,
/// `svpncookie=`), up to the first `;`, trimmed. `None` when the line has
/// neither spelling.
pub open spec fn cookie_of_line(line: Seq<char>) -> Option<Seq<char>> {
    let start = match find(line, "SVPNCOOKIE="@) {
        Some(k) => Some(k),
        None => find(line, "svpncookie="@),
    };
    match start {
        Some(k) => Some(trim(before_first(line.skip(k + "SVPNCOOKIE="@.len()), ';'))),
        None => None,
    }
}

/// The SVPNCOOKIE value of a response: decided by the first line that
/// mentions the cookie.
pub open spec fn spec_extract_cookie(response: Seq<char>) -> Option<Seq<char>> {
    let lines = spec_lines(response);
    match first_index(lines, cookie_line_pred()) {
        Some(k) => cookie_of_line(lines[k]),
        None => None,
    }
}

/// Extract the SVPNCOOKIE value from an HTTP response.
pub fn extract_cookie(response: &str) -> (res: Option<String>)
    ensures
        match spec_extract_cookie(response@) {
            Some(c) => res matches Some(s) && s@ == c,
            None => res is None,
        },
{
    proof {
        reveal_strlit("SVPNCOOKIE=");
        reveal_strlit("svpncookie=");
    }
    let r = chars_of(response);
    let lines = split_lines(r.as_slice());
    let lower_pat = chars_of("svpncookie=");
    let upper_pat = chars_of("SVPNCOOKIE=");
    let ghost lv = lines_view(lines@);
    let ghost pred = cookie_line_pred();
    let mut i: usize = 0;
    while i < lines.len()
        invariant
            i <= lines@.len(),
            lv == lines_view(lines@),
            lv == spec_lines(r@),
            r@ == response@,
            lower_pat@ == "svpncookie="@,
            upper_pat@ == "SVPNCOOKIE="@,
            lower_pat@.len() == 11,
            upper_pat@.len() == 11,
            pred == cookie_line_pred(),
            first_index(lv, pred) == first_index_from(lv, pred, i as int),
        decreases lines@.len() - i,
    {
        let line = &lines[i];
        let ll = line.len();
        assert(line@ == lv[i as int]);
        let low = to_lowercase(line.as_slice());
        proof { lemma_find_from_found(low@, lower_pat@, 0); }
        if find_chars(low.as_slice(), lower_pat.as_slice(), 0).is_some() {
            proof {
                lemma_find_from_found(line@, upper_pat@, 0);
                lemma_find_from_found(line@, lower_pat@, 0);
            }
            let start = match find_chars(line.as_slice(), upper_pat.as_slice(), 0) {
                Some(k) => k,
                None => match find_chars(line.as_slice(), lower_pat.as_slice(), 0) {
                    Some(k) => k,
                    None => {
                        return None;
                    },
                },
            };
            let rest = slice_chars(line.as_slice(), start + upper_pat.len(), line.len());
            assert(rest@ =~= line@.skip(start + 11));
            let piece = before_first_chars(rest.as_slice(), ';');
            let value = trim_chars(piece.as_slice());
            return Some(string_of(value.as_slice()));
        }
        i = i + 1;
    }
    None
}

/// A line opening the Content-Length header (headers already lowercased).
pub open spec fn is_content_length_line(line: Seq<char>) -> bool {
    starts_with(line, "content-length:"@)
}

pub open spec fn content_length_line_pred() -> spec_fn(Seq<char>) -> bool {
    |l: Seq<char>| is_content_length_line(l)
}

/// Content-Length of lowercased header text: decided by the first line that
/// starts with `content-length:`; its trimmed value must parse as a `usize`.
pub open spec fn spec_content_length(headers_lower: Seq<char>) -> Option<nat> {
    let lines = spec_lines(headers_lower);
    match first_index(lines, content_length_line_pred()) {
        Some(k) => spec_parse_usize(trim(lines[k].skip("content-length:"@.len() as int))),
        None => None,
    }
}

/// Parse the Content-Length value from lowercased header text.
pub fn content_length(headers_lower: &[char]) -> (res: Option<usize>)
    ensures
        match spec_content_length(headers_lower@) {
            Some(n) => res matches Some(v) && v == n,
            None => res is None,
        },
{
    let lines = split_lines(headers_lower);
    let pat = chars_of("content-length:");
    let ghost lv = lines_view(lines@);
    let ghost pred = content_length_line_pred();
    let mut i: usize = 0;
    while i < lines.len()
        invariant
            i <= lines@.len(),
            lv == lines_view(lines@),
            lv == spec_lines(headers_lower@),
            pat@ == "content-length:"@,
            pred == content_length_line_pred(),
            first_index(lv, pred) == first_index_from(lv, pred, i as int),
        decreases lines@.len() - i,
    {
        let line = &lines[i];
        assert(line@ == lv[i as int]);
        if chars_start_with(line.as_slice(), pat.as_slice()) {
            let rest = slice_chars(line.as_slice(), pat.len(), line.len());
            assert(rest@ =~= line@.skip(pat@.len() as int));
            let t = trim_chars(rest.as_slice());
            return parse_usize(t.as_slice());
        }
        i = i + 1;
    }
    None
}

/// Login outcome: the cookie of the response, or an authentication error
/// when it carries none.
pub fn login_outcome(response: String) -> (res: Result<AuthResult, VpnError>)
    ensures
        match spec_extract_cookie(response@) {
            Some(c) => res matches Ok(a) && a.cookie@ == c && a.body@ == response@,
            None => res matches Err(VpnError::Auth(m)) && m@ == "No SVPNCOOKIE in response"@,
        },
{
    match extract_cookie(response.as_str()) {
        Some(cookie) => Ok(AuthResult { cookie, body: response }),
        None => Err(VpnError::Auth("No SVPNCOOKIE in response".to_string())),
    }
}

/// The body of a response: the piece after the first blank line, up to the
/// next one (empty when there is no blank line).
pub open spec fn spec_config_body(resp: Seq<char>) -> Seq<char> {
    match find(resp, "\r\n\r\n"@) {
        None => Seq::empty(),
        Some(k) => {
            let rest = resp.skip(k + "\r\n\r\n"@.len());
            match find(rest, "\r\n\r\n"@) {
                Some(j) => rest.take(j),
                None => rest,
            }
        },
    }
}

/// The configuration XML fetched with `config_request`: the body of the
/// response to it (a chunked body keeps its chunk-size lines).
pub fn fetch_config(resp: &str) -> (body: String)
    ensures
        body@ == spec_config_body(resp@),
{
    let r = chars_of(resp);
    let rl = r.len();
    let sep = chars_of("\r\n\r\n");
    proof { lemma_find_from_found(r@, sep@, 0); }
    match find_chars(r.as_slice(), sep.as_slice(), 0) {
        None => {
            let empty: Vec<char> = Vec::new();
            string_of(empty.as_slice())
        },
        Some(k) => {
            let rest = slice_chars(r.as_slice(), k + sep.len(), r.len());
            assert(rest@ =~= r@.skip(k + sep@.len()));
            proof { lemma_find_from_found(rest@, sep@, 0); }
            match find_chars(rest.as_slice(), sep.as_slice(), 0) {
                Some(j) => {
                    let piece = slice_chars(rest.as_slice(), 0, j);
                    assert(piece@ =~= rest@.take(j as int));
                    string_of(piece.as_slice())
                },
                None => string_of(rest.as_slice()),
            }
        },
    }
}

/// What the allocation response asks for next.
pub enum AllocationDecision {
    /// The tunnel slot is allocated.
    Allocated,
    /// Follow a redirect to this location.
    Redirect(String),
    /// Allocation failed with this error.
    Failed(VpnError),
}

/// A response line announcing the redirect target.
pub open spec fn is_location_line(line: Seq<char>) -> bool {
    starts_with(spec_to_lowercase(line), "location:"@)
}

pub open spec fn location_line_pred() -> spec_fn(Seq<char>) -> bool {
    |l: Seq<char>| is_location_line(l)
}

/// Redirect target of a response: on the first `location:` line, the piece
/// between its first and second `:`, trimmed; `/remote/login` when there is
/// no such line.
pub open spec fn spec_redirect_location(resp: Seq<char>) -> Seq<char> {
    let lines = spec_lines(resp);
    match first_index(lines, location_line_pred()) {
        Some(k) => match find(lines[k], ":"@) {
            Some(c) => trim(before_first(lines[k].skip(c + 1), ':')),
            None => "/remote/login"@,
        },
        None => "/remote/login"@,
    }
}

fn redirect_location(resp: &[char]) -> (loc: Vec<char>)
    ensures
        loc@ == spec_redirect_location(resp@),
{
    proof { reveal_strlit(":"); }
    let lines = split_lines(resp);
    let pat = chars_of("location:");
    let colon = chars_of(":");
    let ghost lv = lines_view(lines@);
    let ghost pred = location_line_pred();
    let mut i: usize = 0;
    while i < lines.len()
        invariant
            i <= lines@.len(),
            lv == lines_view(lines@),
            lv == spec_lines(resp@),
            pat@ == "location:"@,
            colon@ == ":"@,
            colon@.len() == 1,
            pred == location_line_pred(),
            first_index(lv, pred) == first_index_from(lv, pred, i as int),
        decreases lines@.len() - i,
    {
        let line = &lines[i];
        let ll = line.len();
        assert(line@ == lv[i as int]);
        let low = to_lowercase(line.as_slice());
        if chars_start_with(low.as_slice(), pat.as_slice()) {
            proof { lemma_find_from_found(line@, colon@, 0); }
            match find_chars(line.as_slice(), colon.as_slice(), 0) {
                Some(c) => {
                    let rest = slice_chars(line.as_slice(), c + 1, line.len());
                    assert(rest@ =~= line@.skip(c + 1));
                    let piece = before_first_chars(rest.as_slice(), ':');
                    return trim_chars(piece.as_slice());
                },
                None => {
                    return chars_of("/remote/login");
                },
            }
        }
        i = i + 1;
    }
    chars_of("/remote/login")
}

/// Decision on the /remote/fortisslvpn response: any `200` means allocated;
/// otherwise a `302` or `301` means follow the redirect; otherwise fail,
/// quoting at most 200 characters of the response.
pub fn allocation_decision(resp: &str) -> (d: AllocationDecision)
    ensures
        contains_seq(resp@, "200"@) ==> d is Allocated,
        !contains_seq(resp@, "200"@) && (contains_seq(resp@, "302"@) || contains_seq(resp@, "301"@))
            ==> (d matches AllocationDecision::Redirect(loc) && loc@ == spec_redirect_location(resp@)),
        !contains_seq(resp@, "200"@) && !contains_seq(resp@, "302"@) && !contains_seq(resp@, "301"@)
            ==> (d matches AllocationDecision::Failed(VpnError::Auth(m))
                && m@ == "Allocation failed: "@ + take_at_most(resp@, 200)),
{
    let r = chars_of(resp);
    let ok = chars_of("200");
    let found = chars_of("302");
    let moved = chars_of("301");
    if find_chars(r.as_slice(), ok.as_slice(), 0).is_some() {
        AllocationDecision::Allocated
    } else if find_chars(r.as_slice(), found.as_slice(), 0).is_some() || find_chars(
        r.as_slice(),
        moved.as_slice(),
        0,
    ).is_some() {
        let loc = redirect_location(r.as_slice());
        AllocationDecision::Redirect(string_of(loc.as_slice()))
    } else {
        let mut m: Vec<char> = Vec::new();
        push_str(&mut m, "Allocation failed: ");
        let head = take_at_most_chars(r.as_slice(), 200);
        push_chars(&mut m, head.as_slice());
        AllocationDecision::Failed(VpnError::Auth(string_of(m.as_slice())))
    }
}

/// Outcome of the response to the redirect request.
pub fn redirect_outcome(resp: &str) -> (res: Result<(), VpnError>)
    ensures
        contains_seq(resp@, "200"@) ==> res is Ok,
        !contains_seq(resp@, "200"@) ==> (res matches Err(VpnError::Auth(m))
            && m@ == "Allocation failed after redirect: "@ + take_at_most(resp@, 200)),
{
    let r = chars_of(resp);
    let ok = chars_of("200");
    if find_chars(r.as_slice(), ok.as_slice(), 0).is_some() {
        Ok(())
    } else {
        let mut m: Vec<char> = Vec::new();
        push_str(&mut m, "Allocation failed after redirect: ");
        let head = take_at_most_chars(r.as_slice(), 200);
        push_chars(&mut m, head.as_slice());
        Err(VpnError::Auth(string_of(m.as_slice())))
    }
}


// ---------------------------------------------------------------------------
// Exchanges
// ---------------------------------------------------------------------------

/// How a profile logs in.
pub enum AuthPlan {
    /// POST this login request; its response gives the cookie
    /// (`login_outcome`).
    Password(String),
    /// Open this URL in the browser and wait for the callback on this port;
    /// the session id it delivers is then traded for a cookie
    /// (`saml_exchange_request`, `saml_exchange_outcome`).
    Saml { url: String, callback_port: u16 },
}

/// The local port of the SAML callback server (8020 when unset).
pub open spec fn spec_saml_port(p: VpnProfile) -> u16 {
    match p.saml_port {
        Some(x) => x,
        None => 8020,
    }
}

/// The login flow of a profile: SAML when `saml_login` is set to true,
/// otherwise the password form.
pub fn authenticate(profile: &VpnProfile) -> (plan: AuthPlan)
    ensures
        profile.saml_login == Some(true) ==> (plan matches AuthPlan::Saml { url, callback_port }
            && url@ == spec_saml_url(*profile) && callback_port == spec_saml_port(*profile)),
        profile.saml_login != Some(true) ==> (plan matches AuthPlan::Password(req)
            && req@ == spec_login_request(*profile)),
{
    let saml = match profile.saml_login {
        Some(b) => b,
        None => false,
    };
    if saml {
        let callback_port = match profile.saml_port {
            Some(x) => x,
            None => 8020,
        };
        AuthPlan::Saml { url: saml_url(profile), callback_port }
    } else {
        AuthPlan::Password(login_request(profile))
    }
}

/// Where the tunnel-slot allocation exchange stands.
#[derive(Debug, Clone, Copy, PartialEq, Eq, Structural)]
pub enum AllocStage {
    /// Nothing sent yet.
    Start,
    /// GET /remote/index sent; its response is only consumed.
    IndexSent,
    /// GET /remote/fortisslvpn sent.
    SlotRequested,
    /// The redirect of the allocation response followed.
    Redirected,
}

/// The next move of an exchange: send a request and read its response, or
/// finish with this outcome.
pub enum Step {
    Send(String),
    Finish(Result<(), VpnError>),
}

/// One move of the allocation exchange; `response` is the full response to
/// the request sent last (ignored at the start).
pub fn allocate_tunnel(stage: &mut AllocStage, profile: &VpnProfile, cookie: &str, response: &str) -> (step: Step)
    ensures
        match *old(stage) {
            AllocStage::Start => *final(stage) == AllocStage::IndexSent
                && (step matches Step::Send(r) && r@ == spec_cookie_get("/remote/index"@, *profile, cookie@)),
            AllocStage::IndexSent => *final(stage) == AllocStage::SlotRequested
                && (step matches Step::Send(r) && r@ == spec_cookie_get("/remote/fortisslvpn"@, *profile, cookie@)),
            AllocStage::SlotRequested => if contains_seq(response@, "200"@) {
                step matches Step::Finish(Ok(_))
            } else if contains_seq(response@, "302"@) || contains_seq(response@, "301"@) {
                *final(stage) == AllocStage::Redirected && (step matches Step::Send(r)
                    && r@ == spec_redirect_request(spec_redirect_location(response@), *profile, cookie@))
            } else {
                step matches Step::Finish(Err(VpnError::Auth(m)))
                    && m@ == "Allocation failed: "@ + take_at_most(response@, 200)
            },
            AllocStage::Redirected => if contains_seq(response@, "200"@) {
                step matches Step::Finish(Ok(_))
            } else {
                step matches Step::Finish(Err(VpnError::Auth(m)))
                    && m@ == "Allocation failed after redirect: "@ + take_at_most(response@, 200)
            },
        },
{
    match *stage {
        AllocStage::Start => {
            *stage = AllocStage::IndexSent;
            Step::Send(index_request(profile, cookie))
        },
        AllocStage::IndexSent => {
            *stage = AllocStage::SlotRequested;
            Step::Send(allocation_request(profile, cookie))
        },
        AllocStage::SlotRequested => match allocation_decision(response) {
            AllocationDecision::Allocated => Step::Finish(Ok(())),
            AllocationDecision::Redirect(loc) => {
                *stage = AllocStage::Redirected;
                Step::Send(redirect_request(loc.as_str(), profile, cookie))
            },
            AllocationDecision::Failed(e) => Step::Finish(Err(e)),
        },
        AllocStage::Redirected => Step::Finish(redirect_outcome(response)),
    }
}

// ---------------------------------------------------------------------------
// Framing one HTTP response read from a keep-alive stream
// ---------------------------------------------------------------------------

/// How the body of a response is delimited once its headers are known.
#[derive(Debug, Clone, Copy, PartialEq, Eq, Structural)]
pub enum BodyRule {
    /// Exactly this many body bytes (Content-Length).
    Length(usize),
    /// Chunked transfer coding: up to the terminating zero-length chunk.
    Chunked,
    /// No body indicated: the response ends with its headers.
    Unframed,
}

/// `\r\n\r\n`, the end of the headers.
pub open spec fn header_terminator() -> Seq<u8> {
    seq![13u8, 10u8, 13u8, 10u8]
}

/// `0\r\n\r\n`, the terminating chunk.
pub open spec fn chunk_end() -> Seq<u8> {
    seq![48u8, 13u8, 10u8, 13u8, 10u8]
}

/// `\r\n0\r\n\r\n`.
pub open spec fn crlf_chunk_end() -> Seq<u8> {
    seq![13u8, 10u8, 48u8, 13u8, 10u8, 13u8, 10u8]
}

/// The header block (up to `end`) decoded and lowercased.
pub open spec fn spec_headers_lower(buf: Seq<u8>, end: int) -> Seq<char> {
    spec_to_lowercase(spec_utf8_lossy(buf.take(end)))
}

/// Body delimitation announced by lowercased headers: Content-Length first,
/// then chunked transfer coding, else none.
pub open spec fn spec_body_rule(headers_lower: Seq<char>) -> BodyRule {
    match spec_content_length(headers_lower) {
        Some(n) => BodyRule::Length(n as usize),
        None => if contains_seq(headers_lower, "transfer-encoding: chunked"@) {
            BodyRule::Chunked
        } else {
            BodyRule::Unframed
        },
    }
}

/// The buffered bytes hold the whole body.
pub open spec fn body_complete(buf: Seq<u8>, header_end: int, rule: BodyRule) -> bool {
    match rule {
        BodyRule::Length(n) => buf.len() - header_end >= n,
        BodyRule::Chunked => ends_with(buf, chunk_end()) || ends_with(buf, crlf_chunk_end()),
        BodyRule::Unframed => true,
    }
}

/// Where the framing of a response stands after an event.
pub enum ReadStatus {
    /// Read more bytes from the stream.
    NeedMore,
    /// The response is complete.
    Complete,
    /// Reading failed.
    Failed(VpnError),
}

/// Which part of the response is being read (for the caller's I/O error text).
#[derive(Debug, Clone, Copy, PartialEq, Eq, Structural)]
pub enum ReadStage {
    Headers,
    Body,
    ChunkedBody,
}

/// Frames one HTTP response: reads until the headers are complete, then
/// consumes the body per Content-Length or up to the chunked terminator, so
/// every exchange on a keep-alive stream stays framed.
pub struct HttpResponseReader {
    /// Bytes received so far.
    pub buf: Vec<u8>,
    /// Header length and body rule, once the headers are complete.
    pub framing: Option<(usize, BodyRule)>,
}

pub open spec fn is_size_error(st: ReadStatus) -> bool {
    st matches ReadStatus::Failed(VpnError::Auth(m)) && m@ == "HTTP response exceeded size limit"@
}

/// Framing and status once the headers end at `end`.
pub open spec fn settled(buf: Seq<u8>, end: int, framing: Option<(usize, BodyRule)>, st: ReadStatus) -> bool {
    let rule = spec_body_rule(spec_headers_lower(buf, end));
    &&& framing == Some((end as usize, rule))
    &&& if body_complete(buf, end, rule) { st is Complete } else { st is NeedMore }
}

fn header_terminator_bytes() -> (v: Vec<u8>)
    ensures
        v@ == header_terminator(),
{
    let v: Vec<u8> = vec![13u8, 10u8, 13u8, 10u8];
    assert(v@ =~= header_terminator());
    v
}

impl HttpResponseReader {
    /// The recorded header length lies within the buffered bytes.
    pub open spec fn wf(&self) -> bool {
        self.framing matches Some((end, _)) ==> end <= self.buf@.len()
    }

    pub fn new() -> (r: Self)
        ensures
            r.wf(),
            r.buf@ == Seq::<u8>::empty(),
            r.framing is None,
    {
        HttpResponseReader { buf: Vec::new(), framing: None }
    }

    /// The part being read.
    pub fn stage(&self) -> (st: ReadStage)
        ensures
            match self.framing {
                None => st == ReadStage::Headers,
                Some((_, BodyRule::Chunked)) => st == ReadStage::ChunkedBody,
                Some(_) => st == ReadStage::Body,
            },
    {
        match self.framing {
            None => ReadStage::Headers,
            Some((_, BodyRule::Chunked)) => ReadStage::ChunkedBody,
            Some(_) => ReadStage::Body,
        }
    }

    fn rule_for(&self, end: usize) -> (rule: BodyRule)
        requires
            end <= self.buf@.len(),
        ensures
            rule == spec_body_rule(spec_headers_lower(self.buf@, end as int)),
    {
        let head = slice_bytes(self.buf.as_slice(), 0, end);
        assert(head@ =~= self.buf@.take(end as int));
        let text = utf8_lossy(head.as_slice());
        let lower = to_lowercase(text.as_slice());
        match content_length(lower.as_slice()) {
            Some(n) => BodyRule::Length(n),
            None => {
                let pat = chars_of("transfer-encoding: chunked");
                if find_chars(lower.as_slice(), pat.as_slice(), 0).is_some() {
                    BodyRule::Chunked
                } else {
                    BodyRule::Unframed
                }
            },
        }
    }

    fn is_complete(&self, end: usize, rule: BodyRule) -> (b: bool)
        requires
            end <= self.buf@.len(),
        ensures
            b == body_complete(self.buf@, end as int, rule),
    {
        match rule {
            BodyRule::Length(n) => self.buf.len() - end >= n,
            BodyRule::Chunked => {
                let a: Vec<u8> = vec![48u8, 13u8, 10u8, 13u8, 10u8];
                let b: Vec<u8> = vec![13u8, 10u8, 48u8, 13u8, 10u8, 13u8, 10u8];
                assert(a@ =~= chunk_end());
                assert(b@ =~= crlf_chunk_end());
                bytes_end_with(self.buf.as_slice(), a.as_slice()) || bytes_end_with(
                    self.buf.as_slice(),
                    b.as_slice(),
                )
            },
            BodyRule::Unframed => true,
        }
    }

    /// Take bytes read from the stream (a read that returned data).
    pub fn on_data(&mut self, data: &[u8]) -> (st: ReadStatus)
        requires
            old(self).wf(),
        ensures
            final(self).wf(),
            final(self).buf@ == old(self).buf@ + data@,
            final(self).buf@.len() > MAX_HTTP_RESPONSE ==> is_size_error(st) && final(self).framing == old(self).framing,
            final(self).buf@.len() <= MAX_HTTP_RESPONSE ==> match old(self).framing {
                Some((end, rule)) => final(self).framing == old(self).framing
                    && (if body_complete(final(self).buf@, end as int, rule) { st is Complete } else { st is NeedMore }),
                None => match find(final(self).buf@, header_terminator()) {
                    Some(pos) => settled(final(self).buf@, pos + 4, final(self).framing, st),
                    None => final(self).framing is None && st is NeedMore,
                },
            },
    {
        self.buf.extend_from_slice(data);
        if self.buf.len() > MAX_HTTP_RESPONSE {
            return ReadStatus::Failed(VpnError::Auth("HTTP response exceeded size limit".to_string()));
        }
        match self.framing {
            Some((end, rule)) => {
                if self.is_complete(end, rule) { ReadStatus::Complete } else { ReadStatus::NeedMore }
            },
            None => {
                let term = header_terminator_bytes();
                proof { lemma_find_from_found(self.buf@, header_terminator(), 0); }
                match find_bytes(self.buf.as_slice(), term.as_slice(), 0) {
                    Some(pos) => {
                        let end = pos + 4;
                        let rule = self.rule_for(end);
                        self.framing = Some((end, rule));
                        if self.is_complete(end, rule) { ReadStatus::Complete } else { ReadStatus::NeedMore }
                    },
                    None => ReadStatus::NeedMore,
                }
            },
        }
    }

    /// The stream reported end of input (a read that returned 0 bytes).
    pub fn on_eof(&mut self) -> (st: ReadStatus)
        requires
            old(self).wf(),
        ensures
            final(self).wf(),
            final(self).buf@ == old(self).buf@,
            match old(self).framing {
                Some(_) => final(self).framing == old(self).framing && st is Complete,
                None => if old(self).buf@.len() == 0 {
                    st matches ReadStatus::Failed(VpnError::Auth(m)) && m@ == "empty response from gateway"@
                } else {
                    // Connection closed mid-headers: take what is there as the headers.
                    settled(old(self).buf@, old(self).buf@.len() as int, final(self).framing, st)
                },
            },
    {
        match self.framing {
            Some(_) => ReadStatus::Complete,
            None => {
                if self.buf.len() == 0 {
                    return ReadStatus::Failed(VpnError::Auth("empty response from gateway".to_string()));
                }
                let end = self.buf.len();
                let rule = self.rule_for(end);
                self.framing = Some((end, rule));
                if self.is_complete(end, rule) { ReadStatus::Complete } else { ReadStatus::NeedMore }
            },
        }
    }

    /// The response text read so far (invalid UTF-8 replaced).
    pub fn response(&self) -> (r: String)
        ensures
            r@ == spec_utf8_lossy(self.buf@),
    {
        let text = utf8_lossy(self.buf.as_slice());
        string_of(text.as_slice())
    }
}

}
