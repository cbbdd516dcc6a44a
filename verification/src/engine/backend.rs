//! The decisions of the native VPN backend: reading the gateway's tunnel
//! configuration XML, building the network setup script, and tracking the
//! connection state from the engine's log.

use vstd::prelude::*;
use crate::vpn::{ConnectionState, StateView};
use crate::text::{
    before_first, before_first_chars, chars_of, contains_seq, decimal, find_chars, find_from,
    lemma_find_from_found, lemma_find_skip, parse_ipv4, push_chars, spec_parse_ipv4, push_decimal, push_str, slice_chars,
    string_of, strings_view, trim, trim_chars,
};

verus! {

broadcast use vstd::string::group_string_axioms;

// ---------------------------------------------------------------------------
// Attribute values
// ---------------------------------------------------------------------------

/// The text between the first occurrence of `attr` and the next `q` after it.
pub open spec fn quoted_after(text: Seq<char>, attr: Seq<char>, q: char) -> Option<Seq<char>> {
    match find_from(text, attr, 0) {
        None => None,
        Some(s) => {
            let rest = text.skip(s + attr.len());
            match find_from(rest, seq![q], 0) {
                Some(e) => Some(rest.take(e)),
                None => None,
            }
        },
    }
}

fn quoted_after_of(text: &[char], attr: &[char], q: char) -> (res: Option<Vec<char>>)
    ensures
        match quoted_after(text@, attr@, q) {
            Some(v) => res matches Some(w) && w@ == v,
            None => res is None,
        },
{
    let tl = text.len();
    proof { lemma_find_from_found(text@, attr@, 0); }
    match find_chars(text, attr, 0) {
        None => None,
        Some(s) => {
            let rest = slice_chars(text, s + attr.len(), text.len());
            assert(rest@ =~= text@.skip(s + attr@.len()));
            let mut qv: Vec<char> = Vec::new();
            qv.push(q);
            assert(qv@ =~= seq![q]);
            proof { lemma_find_from_found(rest@, seq![q], 0); }
            match find_chars(rest.as_slice(), qv.as_slice(), 0) {
                Some(e) => {
                    let v = slice_chars(rest.as_slice(), 0, e);
                    assert(v@ =~= rest@.take(e as int));
                    Some(v)
                },
                None => None,
            }
        },
    }
}

/// The assigned address of the tunnel configuration (`ipv4='..'`, then
/// `ipv4=".."`), `0.0.0.0` when there is none.
pub open spec fn spec_parse_vpn_ip(xml: Seq<char>) -> Seq<char> {
    match quoted_after(xml, "ipv4='"@, '\'') {
        Some(v) => v,
        None => match quoted_after(xml, "ipv4=\""@, '"') {
            Some(v) => v,
            None => "0.0.0.0"@,
        },
    }
}

/// Extract the assigned IP from the gateway XML (`<assigned-addr ipv4='x.x.x.x' />`).
pub fn parse_vpn_ip(xml: &str) -> (ip: String)
    ensures
        ip@ == spec_parse_vpn_ip(xml@),
{
    let x = chars_of(xml);
    let a1 = chars_of("ipv4='");
    if let Some(v) = quoted_after_of(x.as_slice(), a1.as_slice(), '\'') {
        return string_of(v.as_slice());
    }
    let a2 = chars_of("ipv4=\"");
    if let Some(v) = quoted_after_of(x.as_slice(), a2.as_slice(), '"') {
        return string_of(v.as_slice());
    }
    "0.0.0.0".to_string()
}

/// Value of attribute `name` in a tag: `name='..'` first, then `name=".."`.
pub open spec fn spec_extract_attr(tag: Seq<char>, name: Seq<char>) -> Option<Seq<char>> {
    match quoted_after(tag, name + "="@ + seq!['\''], '\'') {
        Some(v) => Some(v),
        None => quoted_after(tag, name + "="@ + seq!['"'], '"'),
    }
}

pub fn extract_attr(tag: &[char], name: &str) -> (res: Option<Vec<char>>)
    ensures
        match spec_extract_attr(tag@, name@) {
            Some(v) => res matches Some(w) && w@ == v,
            None => res is None,
        },
{
    let mut p1 = chars_of(name);
    push_str(&mut p1, "=");
    let mut p2: Vec<char> = Vec::new();
    push_chars(&mut p2, p1.as_slice());
    p1.push('\'');
    p2.push('"');
    assert(p1@ =~= name@ + "="@ + seq!['\'']);
    assert(p2@ =~= name@ + "="@ + seq!['"']);
    if let Some(v) = quoted_after_of(tag, p1.as_slice(), '\'') {
        return Some(v);
    }
    quoted_after_of(tag, p2.as_slice(), '"')
}


// ---------------------------------------------------------------------------
// Split-tunnel routes
// ---------------------------------------------------------------------------

/// Number of one bits of a byte.
pub open spec fn bit_count(b: u8) -> nat
    decreases b,
{
    if b == 0 {
        0
    } else {
        (b % 2) as nat + bit_count(b / 2)
    }
}

proof fn lemma_bit_count_le(x: u8)
    ensures
        bit_count(x) <= x,
    decreases x,
{
    if x != 0 {
        lemma_bit_count_le(x / 2);
    }
}

fn count_ones(b: u8) -> (n: u32)
    ensures
        n == bit_count(b),
        n <= 255,
{
    let mut x = b;
    let mut n: u32 = 0;
    proof { lemma_bit_count_le(b); }
    while x != 0
        invariant
            n + bit_count(x) == bit_count(b),
            bit_count(b) <= 255,
        decreases x,
    {
        n = n + (x % 2) as u32;
        x = x / 2;
    }
    n
}

/// CIDR prefix length of a dotted-quad netmask: its number of one bits.
pub open spec fn mask_prefix(mask: Seq<char>) -> Option<nat> {
    match spec_parse_ipv4(mask) {
        Some(o) => Some(bit_count(o[0]) + bit_count(o[1]) + bit_count(o[2]) + bit_count(o[3])),
        None => None,
    }
}

/// The route of one `<addr ip='..' mask='..' />` tag: the network and the
/// prefix length in decimal; `None` when an attribute is missing or the mask
/// does not parse.
pub open spec fn route_of_tag(tag: Seq<char>) -> Option<(Seq<char>, Seq<char>)> {
    match spec_extract_attr(tag, "ip"@) {
        None => None,
        Some(ip) => match spec_extract_attr(tag, "mask"@) {
            None => None,
            Some(m) => match mask_prefix(m) {
                Some(p) => Some((ip, decimal(p))),
                None => None,
            },
        },
    }
}

/// The octet of a contiguous netmask that holds `k` of its leading one bits
/// (none for `k <= 0`, all eight for `k >= 8`).
pub open spec fn mask_octet(k: int) -> u8 {
    if k <= 0 {
        0
    } else if k == 1 {
        128
    } else if k == 2 {
        192
    } else if k == 3 {
        224
    } else if k == 4 {
        240
    } else if k == 5 {
        248
    } else if k == 6 {
        252
    } else if k == 7 {
        254
    } else {
        255
    }
}

/// The four octets of the netmask of a `/n` network: `n` one bits followed
/// by zeros (`/32` is 255.255.255.255, `/24` is 255.255.255.0).
pub open spec fn contiguous_mask(n: int) -> Seq<u8> {
    seq![mask_octet(n), mask_octet(n - 8), mask_octet(n - 16), mask_octet(n - 24)]
}

proof fn lemma_mask_octet_bits(k: int)
    ensures
        bit_count(mask_octet(k)) == (if k <= 0 {
            0
        } else if k >= 8 {
            8
        } else {
            k
        }),
{
    reveal_with_fuel(bit_count, 9);
}

/// A route whose mask is the netmask of a `/n` network is reported with
/// prefix length `n`: every one bit of all four octets counts, so a host
/// mask gives 32 and 255.255.255.128 gives 25.
pub proof fn lemma_route_prefix_of_netmask(tag: Seq<char>, ip: Seq<char>, m: Seq<char>, n: int)
    requires
        0 <= n <= 32,
        spec_extract_attr(tag, "ip"@) == Some(ip),
        spec_extract_attr(tag, "mask"@) == Some(m),
        spec_parse_ipv4(m) == Some(contiguous_mask(n)),
    ensures
        mask_prefix(m) == Some(n as nat),
        route_of_tag(tag) == Some((ip, decimal(n as nat))),
{
    let o = contiguous_mask(n);
    lemma_mask_octet_bits(n);
    lemma_mask_octet_bits(n - 8);
    lemma_mask_octet_bits(n - 16);
    lemma_mask_octet_bits(n - 24);
    assert(o[0] == mask_octet(n) && o[1] == mask_octet(n - 8) && o[2] == mask_octet(n - 16)
        && o[3] == mask_octet(n - 24));
}

/// End of a tag that starts at `abs`: the next `/>`, or the end of the text.
pub open spec fn tag_end(xml: Seq<char>, abs: int) -> int {
    match find_from(xml, "/>"@, abs) {
        Some(e) => e,
        None => xml.len() as int,
    }
}

proof fn lemma_tag_end(xml: Seq<char>, abs: int)
    requires
        0 <= abs <= xml.len(),
    ensures
        abs <= tag_end(xml, abs) <= xml.len(),
{
    lemma_find_from_found(xml, "/>"@, abs);
}

/// The routes of `<addr .. />` tags found scanning from `pos`: after each tag
/// the scan resumes two characters past its end. `None` when the scan would
/// resume past the end of the text (a tag with no `/>` after it), where
/// slicing the text fails.
pub open spec fn routes_from(xml: Seq<char>, pos: int) -> Option<Seq<(Seq<char>, Seq<char>)>>
    decreases xml.len() + 2 - pos,
{
    if pos < 0 || pos > xml.len() {
        None
    } else {
        match find_from(xml, "<addr "@, pos) {
            None => Some(Seq::empty()),
            Some(abs) => {
                let end = tag_end(xml, abs);
                if pos <= abs <= end <= xml.len() {
                    match routes_from(xml, end + 2) {
                        None => None,
                        Some(r) => Some(
                            match route_of_tag(xml.subrange(abs, end)) {
                                Some(e) => seq![e] + r,
                                None => r,
                            },
                        ),
                    }
                } else {
                    None
                }
            },
        }
    }
}

/// Routes of the whole configuration.
pub open spec fn spec_parse_split_routes(xml: Seq<char>) -> Option<Seq<(Seq<char>, Seq<char>)>> {
    routes_from(xml, 0)
}

pub open spec fn routes_view(v: Seq<(String, String)>) -> Seq<(Seq<char>, Seq<char>)> {
    v.map_values(|r: (String, String)| (r.0@, r.1@))
}

fn route_of_tag_of(tag: &[char]) -> (res: Option<(String, String)>)
    ensures
        match route_of_tag(tag@) {
            Some(e) => res matches Some(r) && r.0@ == e.0 && r.1@ == e.1,
            None => res is None,
        },
{
    let ip = match extract_attr(tag, "ip") {
        Some(ip) => ip,
        None => {
            return None;
        },
    };
    let mask = match extract_attr(tag, "mask") {
        Some(m) => m,
        None => {
            return None;
        },
    };
    match parse_ipv4(mask.as_slice()) {
        Some(o) => {
            let prefix = count_ones(o[0]) + count_ones(o[1]) + count_ones(o[2]) + count_ones(o[3]);
            let mut p: Vec<char> = Vec::new();
            push_decimal(&mut p, prefix as u64);
            Some((string_of(ip.as_slice()), string_of(p.as_slice())))
        },
        None => None,
    }
}

/// Extract split-tunnel routes (`<addr ip='x.x.x.x' mask='y.y.y.y' />`) as
/// (network, prefix length) pairs; `None` for a configuration whose last
/// `<addr` tag is not closed, which the scan cannot get past.
pub fn try_parse_split_routes(xml: &str) -> (res: Option<Vec<(String, String)>>)
    ensures
        match spec_parse_split_routes(xml@) {
            Some(r) => res matches Some(routes) && routes_view(routes@) == r,
            None => res is None,
        },
{
    let x = chars_of(xml);
    let n = x.len();
    let pat = chars_of("<addr ");
    let close = chars_of("/>");
    let mut routes: Vec<(String, String)> = Vec::new();
    let mut pos: usize = 0;
    loop
        invariant
            pos <= n,
            n == x@.len(),
            x@ == xml@,
            pat@ == "<addr "@,
            close@ == "/>"@,
            routes_from(x@, 0) == match routes_from(x@, pos as int) {
                Some(r) => Some(routes_view(routes@) + r),
                None => None::<Seq<(Seq<char>, Seq<char>)>>,
            },
        decreases n + 2 - pos,
    {
        proof { lemma_find_from_found(x@, pat@, pos as int); }
        match find_chars(x.as_slice(), pat.as_slice(), pos) {
            None => {
                assert(routes_view(routes@) + Seq::<(Seq<char>, Seq<char>)>::empty() =~= routes_view(routes@));
                return Some(routes);
            },
            Some(abs) => {
                proof { lemma_tag_end(x@, abs as int); lemma_find_from_found(x@, close@, abs as int); }
                let end = match find_chars(x.as_slice(), close.as_slice(), abs) {
                    Some(e) => e,
                    None => n,
                };
                if n - end < 2 {
                    assert(routes_from(x@, end + 2) is None);
                    return None;
                }
                let tag = slice_chars(x.as_slice(), abs, end);
                let ghost before = routes_view(routes@);
                let ghost r2o = routes_from(x@, end + 2);
                let ghost r2 = r2o.unwrap();
                match route_of_tag_of(tag.as_slice()) {
                    Some(r) => {
                        routes.push(r);
                        assert(routes_view(routes@) =~= before.push((r.0@, r.1@)));
                        proof {
                            if r2o is Some {
                                assert(before + (seq![(r.0@, r.1@)] + r2) =~= routes_view(routes@) + r2);
                            }
                        }
                    },
                    None => {},
                }
                pos = end + 2;
            },
        }
    }
}


// ---------------------------------------------------------------------------
// DNS servers and split-DNS domains
// ---------------------------------------------------------------------------

fn chars_eq(a: &[char], b: &[char]) -> (r: bool)
    ensures
        r == (a@ == b@),
{
    if a.len() != b.len() {
        return false;
    }
    let mut i: usize = 0;
    while i < a.len()
        invariant
            i <= a@.len(),
            a@.len() == b@.len(),
            forall|k: int| 0 <= k < i ==> a@[k] == b@[k],
        decreases a@.len() - i,
    {
        if a[i] != b[i] {
            return false;
        }
        i = i + 1;
    }
    assert(a@ =~= b@);
    true
}

fn contains_chars(list: &Vec<Vec<char>>, item: &[char]) -> (r: bool)
    ensures
        r == crate::text::lines_view(list@).contains(item@),
{
    let ghost lv = crate::text::lines_view(list@);
    let mut i: usize = 0;
    while i < list.len()
        invariant
            i <= list@.len(),
            lv == crate::text::lines_view(list@),
            forall|k: int| 0 <= k < i ==> lv[k] != item@,
        decreases list@.len() - i,
    {
        if chars_eq(list[i].as_slice(), item) {
            assert(lv[i as int] == item@);
            return true;
        }
        i = i + 1;
    }
    false
}

fn strings_of(list: &Vec<Vec<char>>) -> (out: Vec<String>)
    ensures
        strings_view(out@) == crate::text::lines_view(list@),
{
    let mut out: Vec<String> = Vec::new();
    let mut i: usize = 0;
    while i < list.len()
        invariant
            i <= list@.len(),
            strings_view(out@) == crate::text::lines_view(list@).take(i as int),
        decreases list@.len() - i,
    {
        let s = string_of(list[i].as_slice());
        let ghost before = strings_view(out@);
        out.push(s);
        assert(strings_view(out@) =~= before.push(s@));
        i = i + 1;
        assert(crate::text::lines_view(list@).take(i as int) =~= crate::text::lines_view(list@).take(i - 1).push(list@[i - 1]@));
    }
    assert(crate::text::lines_view(list@).take(list@.len() as int) =~= crate::text::lines_view(list@));
    out
}

/// End of the `<dns ..>` tag starting at `abs`: its first `>` (the end of the
/// text when there is none).
pub open spec fn dns_tag_end(xml: Seq<char>, abs: int) -> int {
    match find_from(xml, seq!['>'], abs) {
        Some(k) => k,
        None => xml.len() as int,
    }
}

/// One `<dns ..>` tag at `abs`: inside the tag, the value after its first
/// `attr`, up to the next `q`, is added when non-empty and not already
/// listed.
pub open spec fn dns_entry(xml: Seq<char>, attr: Seq<char>, q: char, abs: int, acc: Seq<Seq<char>>) -> Seq<Seq<char>> {
    let tag = xml.subrange(abs, dns_tag_end(xml, abs));
    match find_from(tag, attr, 0) {
        None => acc,
        Some(st) => {
            let start = st + attr.len();
            match find_from(tag, seq![q], start) {
                None => acc,
                Some(e) => {
                    let addr = tag.subrange(start, e);
                    if addr.len() > 0 && !acc.contains(addr) { acc.push(addr) } else { acc }
                },
            }
        },
    }
}

/// Scan every `<dns ` occurrence from `from` on, one character past each.
pub open spec fn dns_scan(xml: Seq<char>, attr: Seq<char>, q: char, from: int, acc: Seq<Seq<char>>) -> Seq<Seq<char>>
    decreases xml.len() + 1 - from,
{
    if from < 0 || from > xml.len() {
        acc
    } else {
        match find_from(xml, "<dns "@, from) {
            None => acc,
            Some(abs) => if from <= abs <= xml.len() {
                dns_scan(xml, attr, q, abs + 1, dns_entry(xml, attr, q, abs, acc))
            } else {
                acc
            },
        }
    }
}

/// DNS servers of the configuration (`<dns ip='x.x.x.x' />`): the `ip`
/// attributes of `<dns` tags, all `ip='..'` values first, then the `ip=".."`
/// ones, without repeats.
pub open spec fn spec_parse_vpn_dns(xml: Seq<char>) -> Seq<Seq<char>> {
    dns_scan(xml, "ip=\""@, '"', 0, dns_scan(xml, "ip='"@, '\'', 0, Seq::empty()))
}

fn dns_scan_of(x: &[char], attr: &str, q: char, acc: &mut Vec<Vec<char>>)
    ensures
        crate::text::lines_view(final(acc)@) == dns_scan(x@, attr@, q, 0, crate::text::lines_view(old(acc)@)),
{
    let a = chars_of(attr);
    let pat = chars_of("<dns ");
    let mut qv: Vec<char> = Vec::new();
    qv.push(q);
    assert(qv@ =~= seq![q]);
    let mut gt: Vec<char> = Vec::new();
    gt.push('>');
    assert(gt@ =~= seq!['>']);
    let n = x.len();
    let ghost goal = dns_scan(x@, attr@, q, 0, crate::text::lines_view(acc@));
    proof { reveal_strlit("<dns "); }
    let mut from: usize = 0;
    loop
        invariant
            goal == dns_scan(x@, attr@, q, 0, crate::text::lines_view(old(acc)@)),
            pat@.len() == 5,
            from <= n,
            n == x@.len(),
            a@ == attr@,
            pat@ == "<dns "@,
            qv@ == seq![q],
            gt@ == seq!['>'],
            goal == dns_scan(x@, attr@, q, from as int, crate::text::lines_view(acc@)),
        decreases n + 1 - from,
    {
        proof { lemma_find_from_found(x@, pat@, from as int); }
        match find_chars(x, pat.as_slice(), from) {
            None => {
                return;
            },
            Some(abs) => {
                let ghost before = crate::text::lines_view(acc@);
                proof { lemma_find_from_found(x@, gt@, abs as int); }
                let end = match find_chars(x, gt.as_slice(), abs) {
                    Some(k) => k,
                    None => n,
                };
                let tag = slice_chars(x, abs, end);
                assert(tag@ =~= x@.subrange(abs as int, dns_tag_end(x@, abs as int)));
                proof { lemma_find_from_found(tag@, a@, 0); }
                match find_chars(tag.as_slice(), a.as_slice(), 0) {
                    None => {},
                    Some(st) => {
                        let start = st + a.len();
                        proof { lemma_find_from_found(tag@, qv@, start as int); }
                        match find_chars(tag.as_slice(), qv.as_slice(), start) {
                            None => {},
                            Some(e) => {
                                let addr = slice_chars(tag.as_slice(), start, e);
                                if addr.len() > 0 && !contains_chars(acc, addr.as_slice()) {
                                    acc.push(addr);
                                    assert(crate::text::lines_view(acc@) =~= before.push(tag@.subrange(start as int, e as int)));
                                }
                            },
                        }
                    },
                }
                assert(crate::text::lines_view(acc@) == dns_entry(x@, attr@, q, abs as int, before));
                from = abs + 1;
            },
        }
    }
}

/// Extract DNS servers from the configuration XML (`<dns ip='x.x.x.x' />`).
pub fn parse_vpn_dns(xml: &str) -> (dns: Vec<String>)
    ensures
        strings_view(dns@) == spec_parse_vpn_dns(xml@),
{
    let x = chars_of(xml);
    let mut acc: Vec<Vec<char>> = Vec::new();
    assert(crate::text::lines_view(acc@) =~= Seq::<Seq<char>>::empty());
    dns_scan_of(x.as_slice(), "ip='", '\'', &mut acc);
    dns_scan_of(x.as_slice(), "ip=\"", '"', &mut acc);
    strings_of(&acc)
}

/// Separators of a split-DNS domain list.
pub open spec fn domain_separators() -> Seq<char> {
    seq![',', ';', ' ']
}

/// Add each trimmed, non-empty piece that is not listed yet, in order.
pub open spec fn add_domains(acc: Seq<Seq<char>>, pieces: Seq<Seq<char>>) -> Seq<Seq<char>>
    decreases pieces.len(),
{
    if pieces.len() == 0 {
        acc
    } else {
        let d = trim(pieces[0]);
        add_domains(if d.len() > 0 && !acc.contains(d) { acc.push(d) } else { acc }, pieces.skip(1))
    }
}

/// Split-DNS domains of `<split-dns domains='a.com,b.com' .. />` tags scanned
/// from `pos`, resuming two characters past each tag's end; `None` when the
/// scan would resume past the end of the text (a tag with no `/>`), where
/// slicing the text fails.
pub open spec fn domains_from(xml: Seq<char>, pos: int, acc: Seq<Seq<char>>) -> Option<Seq<Seq<char>>>
    decreases xml.len() + 2 - pos,
{
    if pos < 0 || pos > xml.len() {
        None
    } else {
        match find_from(xml, "<split-dns "@, pos) {
            None => Some(acc),
            Some(abs) => {
                let end = tag_end(xml, abs);
                if pos <= abs <= end <= xml.len() {
                    let acc2 = match spec_extract_attr(xml.subrange(abs, end), "domains"@) {
                        Some(list) => add_domains(acc, crate::text::split_set(list, domain_separators())),
                        None => acc,
                    };
                    domains_from(xml, end + 2, acc2)
                } else {
                    None
                }
            },
        }
    }
}

pub open spec fn spec_parse_split_dns_domains(xml: Seq<char>) -> Option<Seq<Seq<char>>> {
    domains_from(xml, 0, Seq::empty())
}

fn add_domains_of(acc: &mut Vec<Vec<char>>, pieces: &Vec<Vec<char>>)
    ensures
        crate::text::lines_view(final(acc)@) == add_domains(crate::text::lines_view(old(acc)@), crate::text::lines_view(pieces@)),
{
    let ghost pv = crate::text::lines_view(pieces@);
    let ghost goal = add_domains(crate::text::lines_view(acc@), pv);
    assert(pv.skip(0) =~= pv);
    let mut i: usize = 0;
    while i < pieces.len()
        invariant
            i <= pieces@.len(),
            pv == crate::text::lines_view(pieces@),
            goal == add_domains(crate::text::lines_view(acc@), pv.skip(i as int)),
        decreases pieces@.len() - i,
    {
        let d = trim_chars(pieces[i].as_slice());
        let ghost before = crate::text::lines_view(acc@);
        assert(pv.skip(i as int)[0] == pieces@[i as int]@);
        assert(pv.skip(i as int).skip(1) =~= pv.skip(i + 1));
        if d.len() > 0 && !contains_chars(acc, d.as_slice()) {
            acc.push(d);
            assert(crate::text::lines_view(acc@) =~= before.push(trim(pieces@[i as int]@)));
        }
        i = i + 1;
    }
    assert(pv.skip(pieces@.len() as int) =~= Seq::<Seq<char>>::empty());
}

/// Extract split-DNS domains (`<split-dns domains='a.com,b.com' .../>`): the
/// domains whose lookups must go to the VPN DNS servers; `None` for a
/// configuration whose last `<split-dns` tag is not closed, which the scan
/// cannot get past.
pub fn try_parse_split_dns_domains(xml: &str) -> (res: Option<Vec<String>>)
    ensures
        match spec_parse_split_dns_domains(xml@) {
            Some(d) => res matches Some(domains) && strings_view(domains@) == d,
            None => res is None,
        },
{
    let x = chars_of(xml);
    let n = x.len();
    let pat = chars_of("<split-dns ");
    let close = chars_of("/>");
    let seps: Vec<char> = vec![',', ';', ' '];
    assert(seps@ =~= domain_separators());
    let mut acc: Vec<Vec<char>> = Vec::new();
    let ghost goal = spec_parse_split_dns_domains(xml@);
    assert(crate::text::lines_view(acc@) =~= Seq::<Seq<char>>::empty());
    let mut pos: usize = 0;
    loop
        invariant
            pos <= n,
            n == x@.len(),
            x@ == xml@,
            pat@ == "<split-dns "@,
            close@ == "/>"@,
            seps@ == domain_separators(),
            goal == spec_parse_split_dns_domains(xml@),
            goal == domains_from(x@, pos as int, crate::text::lines_view(acc@)),
        decreases n + 2 - pos,
    {
        proof { lemma_find_from_found(x@, pat@, pos as int); }
        match find_chars(x.as_slice(), pat.as_slice(), pos) {
            None => {
                let out = strings_of(&acc);
                return Some(out);
            },
            Some(abs) => {
                proof { lemma_tag_end(x@, abs as int); lemma_find_from_found(x@, close@, abs as int); }
                let end = match find_chars(x.as_slice(), close.as_slice(), abs) {
                    Some(e) => e,
                    None => n,
                };
                let tag = slice_chars(x.as_slice(), abs, end);
                match extract_attr(tag.as_slice(), "domains") {
                    Some(list) => {
                        let pieces = crate::text::split_set_of(list.as_slice(), seps.as_slice());
                        add_domains_of(&mut acc, &pieces);
                    },
                    None => {},
                }
                assert(goal == domains_from(x@, end + 2, crate::text::lines_view(acc@)));
                if n - end < 2 {
                    return None;
                }
                pos = end + 2;
            },
        }
    }
}


/// Split-tunnel routes of a configuration the scan can get through.
pub fn parse_split_routes(xml: &str) -> (routes: Vec<(String, String)>)
    requires
        spec_parse_split_routes(xml@) is Some,
    ensures
        spec_parse_split_routes(xml@) == Some(routes_view(routes@)),
{
    match try_parse_split_routes(xml) {
        Some(r) => r,
        None => Vec::new(),
    }
}

/// Split-DNS domains of a configuration the scan can get through.
pub fn parse_split_dns_domains(xml: &str) -> (domains: Vec<String>)
    requires
        spec_parse_split_dns_domains(xml@) is Some,
    ensures
        spec_parse_split_dns_domains(xml@) == Some(strings_view(domains@)),
{
    match try_parse_split_dns_domains(xml) {
        Some(d) => d,
        None => Vec::new(),
    }
}


// ---------------------------------------------------------------------------
// Network setup script and tunnel address
// ---------------------------------------------------------------------------

/// `items` joined with `sep` between consecutive items.
pub open spec fn join(items: Seq<Seq<char>>, sep: Seq<char>) -> Seq<char>
    decreases items.len(),
{
    if items.len() == 0 {
        Seq::empty()
    } else if items.len() == 1 {
        items[0]
    } else {
        join(items.drop_last(), sep) + sep + items.last()
    }
}

/// One `ip route add` line per split route, all output silenced.
pub open spec fn route_lines(routes: Seq<(Seq<char>, Seq<char>)>, ifname: Seq<char>) -> Seq<char>
    decreases routes.len(),
{
    if routes.len() == 0 {
        Seq::empty()
    } else {
        route_lines(routes.drop_last(), ifname) + "ip route add "@ + routes.last().0 + "/"@ + routes.last().1
            + " dev "@ + ifname + " 2>/dev/null\n"@
    }
}

/// Routing-only domains for resolved: `~domain` for each split-DNS domain,
/// or the wildcard `~.` when the gateway advertised none.
pub open spec fn domain_args(domains: Seq<Seq<char>>) -> Seq<Seq<char>> {
    if domains.len() == 0 {
        seq!["~."@]
    } else {
        domains.map_values(|d: Seq<char>| "~"@ + d)
    }
}

/// The privileged script that applies routes and DNS in one go: route lines,
/// then (with DNS servers) `resolvectl dns` and `resolvectl domain` lines.
/// `None` when there are neither routes nor DNS servers.
pub open spec fn spec_network_script(
    routes: Seq<(Seq<char>, Seq<char>)>,
    dns: Seq<Seq<char>>,
    domains: Seq<Seq<char>>,
    ifname: Seq<char>,
) -> Option<Seq<char>> {
    if routes.len() == 0 && dns.len() == 0 {
        None
    } else {
        Some(
            route_lines(routes, ifname) + if dns.len() > 0 {
                "resolvectl dns "@ + ifname + " "@ + join(dns, " "@) + "\n"@ + "resolvectl domain "@ + ifname
                    + " "@ + join(domain_args(domains), " "@) + "\n"@
            } else {
                Seq::empty()
            },
        )
    }
}

proof fn lemma_route_lines_append(r1: Seq<(Seq<char>, Seq<char>)>, r2: Seq<(Seq<char>, Seq<char>)>, ifname: Seq<char>)
    ensures
        route_lines(r1 + r2, ifname) == route_lines(r1, ifname) + route_lines(r2, ifname),
    decreases r2.len(),
{
    if r2.len() == 0 {
        assert(r1 + r2 =~= r1);
    } else {
        lemma_route_lines_append(r1, r2.drop_last(), ifname);
        assert((r1 + r2).drop_last() =~= r1 + r2.drop_last());
        assert((r1 + r2).last() == r2.last());
    }
}

/// The route lines of the network script: a single route gives exactly one
/// `ip route add NET/PREFIX dev IF` line; the script for two route lists in
/// a row is the script of the first followed by that of the second, so
/// every route gets its own line, in order; and DNS lines only follow the
/// route lines.
pub proof fn lemma_network_script_lines(
    r1: Seq<(Seq<char>, Seq<char>)>,
    r2: Seq<(Seq<char>, Seq<char>)>,
    dns: Seq<Seq<char>>,
    domains: Seq<Seq<char>>,
    ifname: Seq<char>,
    net: Seq<char>,
    prefix: Seq<char>,
)
    ensures
        spec_network_script(seq![(net, prefix)], Seq::empty(), domains, ifname) == Some(
            "ip route add "@ + net + "/"@ + prefix + " dev "@ + ifname + " 2>/dev/null\n"@,
        ),
        r1.len() > 0 && r2.len() > 0 ==> spec_network_script(r1 + r2, Seq::empty(), domains, ifname) == Some(
            spec_network_script(r1, Seq::empty(), domains, ifname).unwrap() + spec_network_script(
                r2,
                Seq::empty(),
                domains,
                ifname,
            ).unwrap(),
        ),
        r1.len() > 0 && dns.len() > 0 ==> spec_network_script(r1, dns, domains, ifname) == Some(
            spec_network_script(r1, Seq::empty(), domains, ifname).unwrap() + spec_network_script(
                Seq::empty(),
                dns,
                domains,
                ifname,
            ).unwrap(),
        ),
{
    let one = seq![(net, prefix)];
    assert(one.drop_last() =~= Seq::<(Seq<char>, Seq<char>)>::empty());
    assert(route_lines(one.drop_last(), ifname) =~= Seq::<char>::empty());
    assert(one.last().0 == net && one.last().1 == prefix);
    assert(route_lines(one, ifname) =~= "ip route add "@ + net + "/"@ + prefix + " dev "@ + ifname
        + " 2>/dev/null\n"@);
    lemma_route_lines_append(r1, r2, ifname);
    let e = Seq::<(Seq<char>, Seq<char>)>::empty();
    assert(route_lines(e, ifname) =~= Seq::<char>::empty());
    assert(route_lines(r1, ifname) + Seq::<char>::empty() =~= route_lines(r1, ifname));
    assert(route_lines(r1 + r2, ifname) + Seq::<char>::empty() =~= route_lines(r1 + r2, ifname));
    assert(route_lines(r2, ifname) + Seq::<char>::empty() =~= route_lines(r2, ifname));
    if r1.len() > 0 && dns.len() > 0 {
        let tail = "resolvectl dns "@ + ifname + " "@ + join(dns, " "@) + "\n"@ + "resolvectl domain "@ + ifname
            + " "@ + join(domain_args(domains), " "@) + "\n"@;
        assert(Seq::<char>::empty() + tail =~= tail);
    }
}

fn push_joined(v: &mut Vec<char>, items: &Vec<Vec<char>>, sep: &str)
    ensures
        final(v)@ == old(v)@ + join(crate::text::lines_view(items@), sep@),
{
    let ghost lv = crate::text::lines_view(items@);
    let ghost start = v@;
    let mut i: usize = 0;
    while i < items.len()
        invariant
            i <= items@.len(),
            lv == crate::text::lines_view(items@),
            v@ == start + join(lv.take(i as int), sep@),
        decreases items@.len() - i,
    {
        if i > 0 {
            push_str(v, sep);
        }
        push_chars(v, items[i].as_slice());
        assert(lv.take(i + 1).drop_last() =~= lv.take(i as int));
        assert(lv.take(i + 1).last() == items@[i as int]@);
        i = i + 1;
        assert(v@ =~= start + join(lv.take(i as int), sep@));
    }
    assert(lv.take(items@.len() as int) =~= lv);
}

fn strings_to_chars(list: &Vec<String>) -> (out: Vec<Vec<char>>)
    ensures
        crate::text::lines_view(out@) == strings_view(list@),
{
    let mut out: Vec<Vec<char>> = Vec::new();
    let mut i: usize = 0;
    while i < list.len()
        invariant
            i <= list@.len(),
            crate::text::lines_view(out@) == strings_view(list@).take(i as int),
        decreases list@.len() - i,
    {
        let c = chars_of(list[i].as_str());
        let ghost before = crate::text::lines_view(out@);
        out.push(c);
        assert(crate::text::lines_view(out@) =~= before.push(c@));
        i = i + 1;
        assert(strings_view(list@).take(i as int) =~= strings_view(list@).take(i - 1).push(list@[i - 1]@));
    }
    assert(strings_view(list@).take(list@.len() as int) =~= strings_view(list@));
    out
}

/// Build the routes + DNS script for the tunnel interface `ifname`.
pub fn network_setup_script(
    routes: &Vec<(String, String)>,
    dns: &Vec<String>,
    domains: &Vec<String>,
    ifname: &str,
) -> (script: Option<String>)
    ensures
        match spec_network_script(routes_view(routes@), strings_view(dns@), strings_view(domains@), ifname@) {
            Some(t) => script matches Some(s) && s@ == t,
            None => script is None,
        },
{
    if routes.len() == 0 && dns.len() == 0 {
        return None;
    }
    let ghost rv = routes_view(routes@);
    let mut v: Vec<char> = Vec::new();
    let mut i: usize = 0;
    while i < routes.len()
        invariant
            i <= routes@.len(),
            rv == routes_view(routes@),
            v@ == route_lines(rv.take(i as int), ifname@),
        decreases routes@.len() - i,
    {
        push_str(&mut v, "ip route add ");
        push_str(&mut v, routes[i].0.as_str());
        push_str(&mut v, "/");
        push_str(&mut v, routes[i].1.as_str());
        push_str(&mut v, " dev ");
        push_str(&mut v, ifname);
        push_str(&mut v, " 2>/dev/null\n");
        assert(rv.take(i + 1).drop_last() =~= rv.take(i as int));
        i = i + 1;
        assert(v@ =~= route_lines(rv.take(i as int), ifname@));
    }
    assert(rv.take(routes@.len() as int) =~= rv);
    let ghost rl = v@;
    if dns.len() > 0 {
        push_str(&mut v, "resolvectl dns ");
        push_str(&mut v, ifname);
        push_str(&mut v, " ");
        let d = strings_to_chars(dns);
        push_joined(&mut v, &d, " ");
        push_str(&mut v, "\n");
        push_str(&mut v, "resolvectl domain ");
        push_str(&mut v, ifname);
        push_str(&mut v, " ");
        let mut args: Vec<Vec<char>> = Vec::new();
        if domains.len() == 0 {
            args.push(chars_of("~."));
            assert(crate::text::lines_view(args@) =~= domain_args(strings_view(domains@)));
        } else {
            let mut j: usize = 0;
            while j < domains.len()
                invariant
                    j <= domains@.len(),
                    domains@.len() > 0,
                    crate::text::lines_view(args@) == domain_args(strings_view(domains@)).take(j as int),
                decreases domains@.len() - j,
            {
                let mut a = chars_of("~");
                push_str(&mut a, domains[j].as_str());
                let ghost before = crate::text::lines_view(args@);
                args.push(a);
                assert(crate::text::lines_view(args@) =~= before.push(a@));
                j = j + 1;
                assert(domain_args(strings_view(domains@)).take(j as int) =~= domain_args(strings_view(domains@)).take(j - 1).push(a@));
            }
            assert(domain_args(strings_view(domains@)).take(domains@.len() as int) =~= domain_args(strings_view(domains@)));
        }
        push_joined(&mut v, &args, " ");
        push_str(&mut v, "\n");
        assert(v@ =~= spec_network_script(rv, strings_view(dns@), strings_view(domains@), ifname@).unwrap());
    } else {
        assert(v@ =~= spec_network_script(rv, strings_view(dns@), strings_view(domains@), ifname@).unwrap());
    }
    Some(string_of(v.as_slice()))
}

/// The local address of the tunnel: the part of the assigned address before
/// any `/`, as a dotted quad; `0.0.0.0` when it does not parse.
pub open spec fn spec_tunnel_local_ip(vpn_ip: Seq<char>) -> Seq<u8> {
    match spec_parse_ipv4(before_first(vpn_ip, '/')) {
        Some(o) => o,
        None => seq![0u8, 0u8, 0u8, 0u8],
    }
}

pub fn tunnel_local_ip(vpn_ip: &str) -> (ip: [u8; 4])
    ensures
        ip@ == spec_tunnel_local_ip(vpn_ip@),
{
    let v = chars_of(vpn_ip);
    let head = before_first_chars(v.as_slice(), '/');
    match parse_ipv4(head.as_slice()) {
        Some(o) => o,
        None => {
            let z = [0u8, 0u8, 0u8, 0u8];
            assert(z@ =~= seq![0u8, 0u8, 0u8, 0u8]);
            z
        },
    }
}


// ---------------------------------------------------------------------------
// Connection state kept by the backend
// ---------------------------------------------------------------------------

/// Connection state and engine log of the native backend. The engine thread
/// and its log channel are the caller's; this part holds the state and decides
/// every transition from what the log shows.
pub struct BackendCore {
    pub state: ConnectionState,
    pub log: Vec<String>,
}

/// Most log lines kept, and how many remain after trimming.
pub const LOG_LIMIT: usize = 1000;
pub const LOG_KEEP: usize = 500;

/// The engine reported the tunnel up.
pub open spec fn shows_up(line: Seq<char>) -> bool {
    contains_seq(line, "Tunnel UP!"@)
}

/// The engine reported an error.
pub open spec fn shows_error(line: Seq<char>) -> bool {
    contains_seq(line, "ERROR:"@)
}

/// State after reading the log lines in order: while connecting, a
/// `Tunnel UP!` line means connected, and (afterwards, on the same line) an
/// `ERROR:` line means failed with that line as the message.
pub open spec fn scan_log(lines: Seq<Seq<char>>, st: StateView) -> StateView
    decreases lines.len(),
{
    if lines.len() == 0 {
        st
    } else {
        let line = lines[0];
        let st1 = if shows_up(line) && st is Connecting { StateView::Connected } else { st };
        let st2 = if shows_error(line) && st1 is Connecting { StateView::Error(line) } else { st1 };
        scan_log(lines.skip(1), st2)
    }
}

/// Some line of the log reports the tunnel up or an error.
pub open spec fn any_outcome(lines: Seq<Seq<char>>) -> bool {
    exists|i: int| 0 <= i < lines.len() && (shows_up(#[trigger] lines[i]) || shows_error(lines[i]))
}

/// State and log once the engine thread is seen finished: a connected tunnel
/// is closed (and the closing logged); a connection attempt that produced
/// neither `Tunnel UP!` nor `ERROR:` failed without output.
pub open spec fn after_engine_finished(st: StateView, log: Seq<Seq<char>>) -> (StateView, Seq<Seq<char>>) {
    match st {
        StateView::Connected => (StateView::Disconnected, log.push("Tunnel closed."@)),
        StateView::Connecting => if !any_outcome(log) {
            (StateView::Error("Connection failed (no output)"@), log)
        } else {
            (st, log)
        },
        _ => (st, log),
    }
}

/// Full effect of a status check.
pub open spec fn spec_check_status(st: StateView, log: Seq<Seq<char>>, engine_finished: bool) -> (StateView, Seq<Seq<char>>) {
    let (st1, log1) = if engine_finished { after_engine_finished(st, log) } else { (st, log) };
    (scan_log(log1, st1), log1)
}

/// The log after taking newly received lines: appended, then cut to the last
/// LOG_KEEP lines when it grew past LOG_LIMIT.
pub open spec fn spec_record_lines(log: Seq<Seq<char>>, new_lines: Seq<Seq<char>>) -> Seq<Seq<char>> {
    let all = log + new_lines;
    if all.len() > LOG_LIMIT { all.skip(all.len() - LOG_KEEP) } else { all }
}

impl BackendCore {
    pub open spec fn log_view(&self) -> Seq<Seq<char>> {
        strings_view(self.log@)
    }

    pub fn new() -> (b: Self)
        ensures
            b.state@ == StateView::Disconnected,
            b.log_view() == Seq::<Seq<char>>::empty(),
    {
        let b = BackendCore { state: ConnectionState::Disconnected, log: Vec::new() };
        assert(b.log_view() =~= Seq::<Seq<char>>::empty());
        b
    }

    /// Append one line to the log.
    pub fn push_log(&mut self, msg: &str)
        ensures
            final(self).state@ == old(self).state@,
            final(self).log_view() == old(self).log_view().push(msg@),
    {
        let ghost before = self.log_view();
        self.log.push(msg.to_string());
        assert(self.log_view() =~= before.push(msg@));
    }

    /// A connection attempt starts: connecting, with a fresh log that
    /// announces the gateway.
    pub fn begin_connect(&mut self, host: &str)
        ensures
            final(self).state@ == StateView::Connecting,
            final(self).log_view() == seq!["Connecting to "@ + host@ + "\u{2026}"@],
    {
        self.state = ConnectionState::Connecting;
        self.log.clear();
        let mut m = chars_of("Connecting to ");
        push_str(&mut m, host);
        push_str(&mut m, "\u{2026}");
        let msg = string_of(m.as_slice());
        assert(self.log_view() =~= Seq::<Seq<char>>::empty());
        self.push_log(msg.as_str());
        assert(self.log_view() =~= seq!["Connecting to "@ + host@ + "\u{2026}"@]);
    }

    /// A disconnect starts.
    pub fn begin_disconnect(&mut self)
        ensures
            final(self).state@ == StateView::Disconnecting,
            final(self).log_view() == old(self).log_view().push("Disconnecting\u{2026}"@),
    {
        self.state = ConnectionState::Disconnecting;
        self.push_log("Disconnecting\u{2026}");
    }

    /// The disconnect finished.
    pub fn finish_disconnect(&mut self)
        ensures
            final(self).state@ == StateView::Disconnected,
            final(self).log_view() == old(self).log_view().push("Disconnected."@),
    {
        self.state = ConnectionState::Disconnected;
        self.push_log("Disconnected.");
    }

    fn any_outcome_of(&self) -> (b: bool)
        ensures
            b == any_outcome(self.log_view()),
    {
        let up = chars_of("Tunnel UP!");
        let err = chars_of("ERROR:");
        let ghost lv = self.log_view();
        let mut i: usize = 0;
        while i < self.log.len()
            invariant
                i <= self.log@.len(),
                lv == self.log_view(),
                up@ == "Tunnel UP!"@,
                err@ == "ERROR:"@,
                forall|k: int| 0 <= k < i ==> !(shows_up(#[trigger] lv[k]) || shows_error(lv[k])),
            decreases self.log@.len() - i,
        {
            let line = chars_of(self.log[i].as_str());
            assert(line@ == lv[i as int]);
            proof {
                crate::text::lemma_find_from_found(line@, up@, 0);
                crate::text::lemma_find_from_found(line@, err@, 0);
            }
            if find_chars(line.as_slice(), up.as_slice(), 0).is_some() || find_chars(
                line.as_slice(),
                err.as_slice(),
                0,
            ).is_some() {
                return true;
            }
            i = i + 1;
        }
        false
    }

    /// Check the engine: `engine_finished` tells whether its thread has ended
    /// since the last check. See `spec_check_status`.
    pub fn check_status(&mut self, engine_finished: bool)
        ensures
            (final(self).state@, final(self).log_view()) == spec_check_status(old(self).state@, old(self).log_view(), engine_finished),
    {
        if engine_finished {
            match self.state {
                ConnectionState::Connected => {
                    self.state = ConnectionState::Disconnected;
                    self.push_log("Tunnel closed.");
                },
                ConnectionState::Connecting => {
                    if !self.any_outcome_of() {
                        self.state = ConnectionState::Error("Connection failed (no output)".to_string());
                    }
                },
                _ => {},
            }
        }
        let ghost lv = self.log_view();
        let ghost st1 = self.state@;
        let up = chars_of("Tunnel UP!");
        let err = chars_of("ERROR:");
        let mut i: usize = 0;
        assert(lv.skip(0) =~= lv);
        while i < self.log.len()
            invariant
                i <= self.log@.len(),
                lv == self.log_view(),
                up@ == "Tunnel UP!"@,
                err@ == "ERROR:"@,
                scan_log(lv, st1) == scan_log(lv.skip(i as int), self.state@),
            decreases self.log@.len() - i,
        {
            let line = chars_of(self.log[i].as_str());
            assert(line@ == lv[i as int]);
            assert(lv.skip(i as int)[0] == lv[i as int]);
            assert(lv.skip(i as int).skip(1) =~= lv.skip(i + 1));
            proof {
                crate::text::lemma_find_from_found(line@, up@, 0);
                crate::text::lemma_find_from_found(line@, err@, 0);
            }
            if find_chars(line.as_slice(), up.as_slice(), 0).is_some() && self.state.is_active()
                && !matches!(self.state, ConnectionState::Connected) {
                self.state = ConnectionState::Connected;
            }
            if find_chars(line.as_slice(), err.as_slice(), 0).is_some() && matches!(
                self.state,
                ConnectionState::Connecting
            ) {
                self.state = ConnectionState::Error(self.log[i].clone());
            }
            i = i + 1;
        }
        assert(lv.skip(self.log@.len() as int) =~= Seq::<Seq<char>>::empty());
    }

    /// Take lines received from the engine: they are logged and handed back.
    pub fn record_lines(&mut self, lines: Vec<String>) -> (new_lines: Vec<String>)
        ensures
            final(self).state@ == old(self).state@,
            final(self).log_view() == spec_record_lines(old(self).log_view(), strings_view(lines@)),
            final(self).log_view().len() <= LOG_LIMIT,
            strings_view(new_lines@) == strings_view(lines@),
    {
        let ghost start = self.log_view();
        let ghost lv = strings_view(lines@);
        let mut i: usize = 0;
        while i < lines.len()
            invariant
                i <= lines@.len(),
                lv == strings_view(lines@),
                self.state@ == old(self).state@,
                self.log_view() == start + lv.take(i as int),
            decreases lines@.len() - i,
        {
            let ghost before = self.log_view();
            self.log.push(lines[i].clone());
            assert(self.log_view() =~= before.push(lines@[i as int]@));
            i = i + 1;
            assert(lv.take(i as int) =~= lv.take(i - 1).push(lines@[i - 1]@));
            assert(self.log_view() =~= start + lv.take(i as int));
        }
        assert(lv.take(lines@.len() as int) =~= lv);
        if self.log.len() > LOG_LIMIT {
            let n = self.log.len();
            let mut kept: Vec<String> = Vec::new();
            let mut j: usize = n - LOG_KEEP;
            let ghost all = self.log_view();
            while j < n
                invariant
                    n - LOG_KEEP <= j <= n,
                    n > LOG_LIMIT,
                    n == self.log@.len(),
                    all == self.log_view(),
                    strings_view(kept@) == all.subrange(n - LOG_KEEP, j as int),
                decreases n - j,
            {
                let ghost before = strings_view(kept@);
                kept.push(self.log[j].clone());
                assert(strings_view(kept@) =~= before.push(all[j as int]));
                j = j + 1;
                assert(strings_view(kept@) =~= all.subrange(n - LOG_KEEP, j as int));
            }
            self.log = kept;
            assert(self.log_view() =~= all.skip(all.len() - LOG_KEEP));
        }
        lines
    }
}

/// Checking the status twice in a row with no new log lines and no further
/// engine event changes nothing the second time.
pub proof fn lemma_check_status_idempotent(st: StateView, log: Seq<Seq<char>>, engine_finished: bool)
    ensures
        ({
            let (st1, log1) = spec_check_status(st, log, engine_finished);
            spec_check_status(st1, log1, false) == (st1, log1)
        }),
{
    let (sa, la) = if engine_finished { after_engine_finished(st, log) } else { (st, log) };
    lemma_scan_log_idempotent(la, sa);
}

/// Without the engine finishing, a status check decides only a connection
/// attempt: any other state, and the log, stay as they are.
pub proof fn lemma_check_status_keeps_settled(st: StateView, log: Seq<Seq<char>>)
    requires
        !(st is Connecting),
    ensures
        spec_check_status(st, log, false) == (st, log),
{
    lemma_scan_log_settled(log, st);
}

proof fn lemma_scan_log_settled(lines: Seq<Seq<char>>, st: StateView)
    requires
        !(st is Connecting),
    ensures
        scan_log(lines, st) == st,
    decreases lines.len(),
{
    if lines.len() > 0 {
        lemma_scan_log_settled(lines.skip(1), st);
    }
}

proof fn lemma_scan_log_idempotent(lines: Seq<Seq<char>>, st: StateView)
    ensures
        scan_log(lines, scan_log(lines, st)) == scan_log(lines, st),
    decreases lines.len(),
{
    if st is Connecting {
        lemma_scan_log_connecting(lines);
    } else {
        lemma_scan_log_settled(lines, st);
    }
}

proof fn lemma_scan_log_connecting(lines: Seq<Seq<char>>)
    ensures
        scan_log(lines, scan_log(lines, StateView::Connecting)) == scan_log(lines, StateView::Connecting),
    decreases lines.len(),
{
    let r = scan_log(lines, StateView::Connecting);
    if !(r is Connecting) {
        lemma_scan_log_settled(lines, r);
    } else {
        lemma_scan_log_stays_connecting(lines);
    }
}

/// If scanning from Connecting ends in Connecting, no line changed it.
proof fn lemma_scan_log_stays_connecting(lines: Seq<Seq<char>>)
    requires
        scan_log(lines, StateView::Connecting) is Connecting,
    ensures
        scan_log(lines, StateView::Connecting) == StateView::Connecting,
    decreases lines.len(),
{
    if lines.len() > 0 {
        let line = lines[0];
        if shows_up(line) {
            lemma_scan_log_settled(lines.skip(1), StateView::Connected);
        } else if shows_error(line) {
            lemma_scan_log_settled(lines.skip(1), StateView::Error(line));
        } else {
            lemma_scan_log_stays_connecting(lines.skip(1));
        }
    }
}

}
