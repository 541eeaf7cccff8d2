//! Reaching the library from the local network: how long a nearby session lasts,
//! which request hosts count as local, and how the Mac names itself over Bonjour.
use vstd::prelude::*;
use vstd::utf8::encode_utf8;
use crate::text;
use crate::text::{
    all_digits, ascii_lower, before_char, dec_value, decimal, ends_with, is_ascii_alnum,
    is_ascii_digit, pieces, trim, trim_char, trim_end_char, trim_end_str, trim_start_char,
};
use crate::tunnel::matches_configured;

verus! {

pub const SERVICE_TYPE: &'static str = "_shelf._tcp.local.";

pub const DEFAULT_PORT: u16 = 7834;

pub const DURATION_UNTIL_OFF: &'static str = "until_off";

pub const DURATION_15M: &'static str = "15m";

pub const DURATION_60M: &'static str = "60m";

// ---------------------------------------------------------------------------
// How long a nearby session lasts
// ---------------------------------------------------------------------------

/// The stored duration setting, read leniently: the spellings of a quarter hour
/// and of an hour, anything else (or nothing) meaning "until turned off".
pub open spec fn duration_key(raw: Option<Seq<char>>) -> Seq<char> {
    match raw {
        None => DURATION_UNTIL_OFF@,
        Some(s) => {
            let t = trim(s);
            if t == "15"@ || t == "15m"@ || t == "15min"@ || t == "minutes15"@ {
                DURATION_15M@
            } else if t == "60"@ || t == "60m"@ || t == "1h"@ || t == "hour"@ || t == "60min"@ {
                DURATION_60M@
            } else {
                DURATION_UNTIL_OFF@
            }
        },
    }
}

pub open spec fn opt_str_view(raw: Option<&str>) -> Option<Seq<char>> {
    match raw {
        Some(s) => Some(s@),
        None => None,
    }
}

pub fn normalize_duration(raw: Option<&str>) -> (r: &'static str)
    ensures
        r@ == duration_key(opt_str_view(raw)),
{
    match raw {
        None => DURATION_UNTIL_OFF,
        Some(s) => {
            let v = text::chars_of(s);
            let t = text::trim_exec(v.as_slice());
            let ts = t.as_slice();
            if text::lit_eq(ts, "15") || text::lit_eq(ts, "15m") || text::lit_eq(ts, "15min")
                || text::lit_eq(ts, "minutes15") {
                DURATION_15M
            } else if text::lit_eq(ts, "60") || text::lit_eq(ts, "60m") || text::lit_eq(ts, "1h")
                || text::lit_eq(ts, "hour") || text::lit_eq(ts, "60min") {
                DURATION_60M
            } else {
                DURATION_UNTIL_OFF
            }
        },
    }
}

/// Normalizing a duration twice changes nothing: each of the three settings reads
/// back as itself. So a one-hour session stored as `60m` lasts 3600 seconds and a
/// quarter-hour one stored as `15m` lasts 900, whatever spelling was first given.
pub proof fn lemma_duration_keys_stable(raw: Option<Seq<char>>)
    ensures
        duration_key(Some("15m"@)) == "15m"@,
        duration_key(Some("60m"@)) == "60m"@,
        duration_key(Some("until_off"@)) == "until_off"@,
        duration_key(Some(duration_key(raw))) == duration_key(raw),
        duration_seconds(duration_key(Some("60m"@))) == Some(3600int),
        duration_seconds(duration_key(Some("15m"@))) == Some(900int),
        duration_seconds(duration_key(Some("until_off"@))) is None,
{
    reveal_strlit("15m");
    reveal_strlit("60m");
    reveal_strlit("until_off");
    reveal_strlit("15");
    reveal_strlit("15min");
    reveal_strlit("minutes15");
    reveal_strlit("60");
    reveal_strlit("1h");
    reveal_strlit("hour");
    reveal_strlit("60min");
    text::lemma_trim_plain("15m"@);
    text::lemma_trim_plain("60m"@);
    text::lemma_trim_plain("until_off"@);
    assert("15m"@ != "15"@ && "15m"@ != "15min"@ && "15m"@ != "minutes15"@);
    assert("60m"@ != "15"@ && "60m"@ != "15m"@ && "60m"@ != "15min"@ && "60m"@ != "minutes15"@);
    assert("until_off"@ != "15"@ && "until_off"@ != "15m"@ && "until_off"@ != "15min"@
        && "until_off"@ != "minutes15"@);
    assert("until_off"@ != "60"@ && "until_off"@ != "60m"@ && "until_off"@ != "1h"@
        && "until_off"@ != "hour"@ && "until_off"@ != "60min"@);
    assert("15m"@ != "60m"@ && "60m"@ != "until_off"@ && "15m"@ != "until_off"@);
}

/// Every spelling of a quarter hour (`15`, `15m`, `15min`, `minutes15`) and of an
/// hour (`60`, `60m`, `1h`, `hour`, `60min`), with any surrounding space, is read
/// as that duration; anything else, and no setting at all, means until turned off.
pub proof fn lemma_duration_spellings(s: Seq<char>)
    ensures
        (trim(s) == "15"@ || trim(s) == "15m"@ || trim(s) == "15min"@ || trim(s) == "minutes15"@) ==> duration_key(Some(s)) == "15m"@,
        (trim(s) == "60"@ || trim(s) == "60m"@ || trim(s) == "1h"@ || trim(s) == "hour"@ || trim(s) == "60min"@) ==> duration_key(Some(s)) == "60m"@,
        !(trim(s) == "15"@ || trim(s) == "15m"@ || trim(s) == "15min"@ || trim(s) == "minutes15"@) && !(trim(s) == "60"@ || trim(s) == "60m"@ || trim(s) == "1h"@ || trim(s) == "hour"@ || trim(s) == "60min"@) ==> duration_key(Some(s)) == "until_off"@,
        duration_key(None) == "until_off"@,
{
    reveal_strlit("15m");
    reveal_strlit("60m");
    reveal_strlit("until_off");
    reveal_strlit("15");
    reveal_strlit("15m");
    reveal_strlit("15min");
    reveal_strlit("minutes15");
    reveal_strlit("60");
    reveal_strlit("60m");
    reveal_strlit("1h");
    reveal_strlit("hour");
    reveal_strlit("60min");
    assert("60"@[0] != "15"@[0]);
    assert("60"@ != "15"@);
    assert("60"@[0] != "15m"@[0]);
    assert("60"@ != "15m"@);
    assert("60"@[0] != "15min"@[0]);
    assert("60"@ != "15min"@);
    assert("60"@[0] != "minutes15"@[0]);
    assert("60"@ != "minutes15"@);
    assert("60m"@[0] != "15"@[0]);
    assert("60m"@ != "15"@);
    assert("60m"@[0] != "15m"@[0]);
    assert("60m"@ != "15m"@);
    assert("60m"@[0] != "15min"@[0]);
    assert("60m"@ != "15min"@);
    assert("60m"@[0] != "minutes15"@[0]);
    assert("60m"@ != "minutes15"@);
    assert("1h"@[1] != "15"@[1]);
    assert("1h"@ != "15"@);
    assert("1h"@[1] != "15m"@[1]);
    assert("1h"@ != "15m"@);
    assert("1h"@[1] != "15min"@[1]);
    assert("1h"@ != "15min"@);
    assert("1h"@[0] != "minutes15"@[0]);
    assert("1h"@ != "minutes15"@);
    assert("hour"@[0] != "15"@[0]);
    assert("hour"@ != "15"@);
    assert("hour"@[0] != "15m"@[0]);
    assert("hour"@ != "15m"@);
    assert("hour"@[0] != "15min"@[0]);
    assert("hour"@ != "15min"@);
    assert("hour"@[0] != "minutes15"@[0]);
    assert("hour"@ != "minutes15"@);
    assert("60min"@[0] != "15"@[0]);
    assert("60min"@ != "15"@);
    assert("60min"@[0] != "15m"@[0]);
    assert("60min"@ != "15m"@);
    assert("60min"@[0] != "15min"@[0]);
    assert("60min"@ != "15min"@);
    assert("60min"@[0] != "minutes15"@[0]);
    assert("60min"@ != "minutes15"@);
}

/// An instant as whole seconds since the Unix epoch and the nanoseconds past them.
pub open spec fn instant_le(a: (i64, u32), b: (i64, u32)) -> bool {
    a.0 < b.0 || (a.0 == b.0 && a.1 <= b.1)
}

/// Seconds that a nearby session of the given (normalized) duration lasts, if it ends.
pub open spec fn duration_seconds(key: Seq<char>) -> Option<int> {
    if key == DURATION_15M@ {
        Some(900)
    } else if key == DURATION_60M@ {
        Some(3600)
    } else {
        None
    }
}

/// When a nearby session started at `now` with the given duration ends: `None` for
/// "until turned off".
pub fn expires_at_for(duration: &str, now: (i64, u32)) -> (r: Option<(i64, u32)>)
    requires
        now.0 <= i64::MAX - 3600,
    ensures
        match duration_seconds(duration_key(Some(duration@))) {
            Some(secs) => r == Some(((now.0 + secs) as i64, now.1)),
            None => r is None,
        },
{
    let key = normalize_duration(Some(duration));
    let kv = text::chars_of(key);
    if text::lit_eq(kv.as_slice(), DURATION_15M) {
        Some((now.0 + 900, now.1))
    } else if text::lit_eq(kv.as_slice(), DURATION_60M) {
        Some((now.0 + 3600, now.1))
    } else {
        None
    }
}

/// The instant an RFC 3339 timestamp denotes, as chrono reads it.
pub uninterp spec fn rfc3339_instant(s: Seq<char>) -> Option<(i64, u32)>;

/// `chrono::DateTime::parse_from_rfc3339`, read as seconds and nanoseconds since the
/// Unix epoch in UTC. The result depends on the text alone; what chrono accepts is
/// not restated here.
#[verifier::external_body]
pub(crate) fn parse_rfc3339(s: &str) -> (r: Option<(i64, u32)>)
    ensures
        r == rfc3339_instant(s@),
{
    match chrono::DateTime::parse_from_rfc3339(s) {
        Ok(t) => Some((t.timestamp(), t.timestamp_subsec_nanos())),
        Err(_) => None,
    }
}

/// First second of the year 1 in Unix time.
pub const RFC3339_MIN_SECS: i64 = -62135596800;

/// Last second of the year 9999 in Unix time.
pub const RFC3339_MAX_SECS: i64 = 253402300799;

/// `chrono::DateTime::from_timestamp` then `to_rfc3339`: the instant in UTC as
/// RFC 3339 text (`+00:00`, with as many fraction digits as the nanoseconds need).
/// For years 1 to 9999 that text has a four-digit year, and
/// `DateTime::parse_from_rfc3339` reads it back as the same instant.
#[verifier::external_body]
pub(crate) fn rfc3339_text(secs: i64, nanos: u32) -> (r: String)
    requires
        RFC3339_MIN_SECS <= secs <= RFC3339_MAX_SECS,
        nanos < 1_000_000_000,
    ensures
        rfc3339_instant(r@) == Some((secs, nanos)),
{
    match chrono::DateTime::from_timestamp(secs, nanos) {
        Some(t) => t.to_rfc3339(),
        None => String::new(),
    }
}

/// A session switched on with `flag` whose optional deadline is `expires_at` is
/// active at `now`: no deadline (or a blank one) means active; an unreadable
/// deadline means inactive.
pub open spec fn session_active(flag: bool, expires_at: Option<Seq<char>>, now: (i64, u32)) -> bool {
    if !flag {
        false
    } else {
        match expires_at {
            None => true,
            Some(raw) => {
                let t = trim(raw);
                if t.len() == 0 {
                    true
                } else {
                    match rfc3339_instant(t) {
                        Some(deadline) => instant_le(now, deadline),
                        None => false,
                    }
                }
            },
        }
    }
}

pub fn is_session_active(flag: bool, expires_at: Option<&str>, now: (i64, u32)) -> (r: bool)
    ensures
        r == session_active(flag, opt_str_view(expires_at), now),
{
    if !flag {
        return false;
    }
    match expires_at {
        None => true,
        Some(raw) => {
            let v = text::chars_of(raw);
            let t = text::trim_exec(v.as_slice());
            if t.len() == 0 {
                return true;
            }
            let ts = text::string_of(t.as_slice());
            match parse_rfc3339(ts.as_str()) {
                Some(deadline) => now.0 < deadline.0 || (now.0 == deadline.0 && now.1 <= deadline.1),
                None => false,
            }
        },
    }
}

/// The stored "LAN enabled" flag is on but its session has run out, so the stored
/// settings should be switched off.
pub fn lan_session_lapsed(flag: bool, expires_at: Option<&str>, now: (i64, u32)) -> (r: bool)
    ensures
        r == (flag && !session_active(flag, opt_str_view(expires_at), now)),
{
    flag && !is_session_active(flag, expires_at, now)
}

// ---------------------------------------------------------------------------
// IPv4 addresses
// ---------------------------------------------------------------------------

/// An IPv4 address by its four octets, most significant first.
#[derive(Debug, Clone, Copy, PartialEq, Eq, Structural, PartialOrd, Ord, Hash)]
pub struct Ipv4 {
    pub a: u8,
    pub b: u8,
    pub c: u8,
    pub d: u8,
}

/// The address as one 32-bit number, the order in which addresses sort.
pub open spec fn ipv4_key(ip: Ipv4) -> int {
    ip.a * 16777216 + ip.b * 65536 + ip.c * 256 + ip.d
}

/// Dotted-decimal text of the address.
pub open spec fn ipv4_text(ip: Ipv4) -> Seq<char> {
    decimal(ip.a as nat) + "."@ + decimal(ip.b as nat) + "."@ + decimal(ip.c as nat) + "."@
        + decimal(ip.d as nat)
}

/// Private-use ranges: 10/8, 172.16/12 and 192.168/16.
pub open spec fn private_ipv4(ip: Ipv4) -> bool {
    ||| ip.a == 10
    ||| (ip.a == 172 && 16 <= ip.b <= 31)
    ||| (ip.a == 192 && ip.b == 168)
}

impl Ipv4 {
    pub fn new(a: u8, b: u8, c: u8, d: u8) -> (r: Ipv4)
        ensures
            r == (Ipv4 { a, b, c, d }),
    {
        Ipv4 { a, b, c, d }
    }

    pub fn octets(&self) -> (r: [u8; 4])
        ensures
            r@ == seq![self.a, self.b, self.c, self.d],
    {
        [self.a, self.b, self.c, self.d]
    }

    /// Dotted-decimal text, as `Display` writes it.
    pub fn to_text(&self) -> (r: String)
        ensures
            r@ == ipv4_text(*self),
    {
        let mut out = text::u64_to_decimal(self.a as u64);
        out.push('.');
        let b = text::u64_to_decimal(self.b as u64);
        text::push_all(&mut out, b.as_slice());
        out.push('.');
        let c = text::u64_to_decimal(self.c as u64);
        text::push_all(&mut out, c.as_slice());
        out.push('.');
        let d = text::u64_to_decimal(self.d as u64);
        text::push_all(&mut out, d.as_slice());
        proof {
            reveal_strlit(".");
            assert(out@ =~= ipv4_text(*self));
        }
        text::string_of(out.as_slice())
    }
}

/// One dotted part of an address: one to three decimal digits, no leading zero
/// unless the part is a single `0`, at most 255.
pub open spec fn octet_ok(p: Seq<char>) -> bool {
    &&& 1 <= p.len() <= 3
    &&& all_digits(p)
    &&& (p.len() > 1 ==> p[0] != '0')
    &&& dec_value(p) <= 255
}

/// Dotted-decimal IPv4 text: exactly four parts, each an octet.
pub open spec fn ipv4_of(s: Seq<char>) -> Option<Ipv4> {
    let ps = pieces(s, '.');
    if ps.len() == 4 && octet_ok(ps[0]) && octet_ok(ps[1]) && octet_ok(ps[2]) && octet_ok(ps[3]) {
        Some(
            Ipv4 {
                a: dec_value(ps[0]) as u8,
                b: dec_value(ps[1]) as u8,
                c: dec_value(ps[2]) as u8,
                d: dec_value(ps[3]) as u8,
            },
        )
    } else {
        None
    }
}

fn octet_exec(p: &[char]) -> (r: Option<u8>)
    ensures
        match r {
            Some(v) => octet_ok(p@) && v == dec_value(p@),
            None => !octet_ok(p@),
        },
{
    if p.len() == 0 || p.len() > 3 {
        return None;
    }
    if p.len() > 1 && p[0] == '0' {
        return None;
    }
    match text::digits_value(p, 255) {
        Some(v) => Some(v as u8),
        None => None,
    }
}

/// Reads dotted-decimal IPv4 text.
pub fn parse_ipv4(s: &str) -> (r: Option<Ipv4>)
    ensures
        r == ipv4_of(s@),
{
    let v = text::chars_of(s);
    let ps = text::pieces_exec(v.as_slice(), '.');
    if ps.len() != 4 {
        return None;
    }
    let a = octet_exec(ps[0].as_slice());
    let b = octet_exec(ps[1].as_slice());
    let c = octet_exec(ps[2].as_slice());
    let d = octet_exec(ps[3].as_slice());
    proof {
        assert(ps@[0]@ == pieces(s@, '.')[0]);
        assert(ps@[1]@ == pieces(s@, '.')[1]);
        assert(ps@[2]@ == pieces(s@, '.')[2]);
        assert(ps@[3]@ == pieces(s@, '.')[3]);
    }
    match (a, b, c, d) {
        (Some(a), Some(b), Some(c), Some(d)) => Some(Ipv4 { a, b, c, d }),
        _ => None,
    }
}

pub fn is_private_ipv4(ip: Ipv4) -> (r: bool)
    ensures
        r == private_ipv4(ip),
{
    ip.a == 10 || (ip.a == 172 && 16 <= ip.b && ip.b <= 31) || (ip.a == 192 && ip.b == 168)
}

pub open spec fn private_ipv4_of(s: Seq<char>) -> Option<Ipv4> {
    match ipv4_of(s) {
        Some(ip) => if private_ipv4(ip) {
            Some(ip)
        } else {
            None
        },
        None => None,
    }
}

/// The host as a private-range IPv4 address, if it is one.
pub fn parse_private_ipv4(host: &str) -> (r: Option<Ipv4>)
    ensures
        r == private_ipv4_of(host@),
{
    match parse_ipv4(host) {
        Some(ip) => if is_private_ipv4(ip) {
            Some(ip)
        } else {
            None
        },
        None => None,
    }
}

// ---------------------------------------------------------------------------
// Request hosts
// ---------------------------------------------------------------------------

/// A `Host` value reduced for comparison: a bracketed IPv6 address is taken from
/// inside its brackets (its port follows the `]`); any other host has its port
/// dropped (everything from the first `:`), surrounding space and brackets
/// removed. Then trailing dots are removed and the host is lowercased.
pub open spec fn host_norm(h: Seq<char>) -> Seq<char> {
    let t = trim(h);
    let core = if t.len() > 0 && t[0] == '[' {
        before_char(t.drop_first(), ']')
    } else {
        trim_end_char(trim_start_char(trim(before_char(h, ':')), '['), ']')
    };
    ascii_lower(trim_end_char(core, '.'))
}

pub fn normalize_host(host: &str) -> (r: String)
    ensures
        r@ == host_norm(host@),
{
    let v = text::chars_of(host);
    let t = text::trim_exec(v.as_slice());
    let core = if t.len() > 0 && t[0] == '[' {
        let inner = text::copy_range(t.as_slice(), 1, t.len());
        assert(inner@ =~= t@.drop_first());
        text::before_char_exec(inner.as_slice(), ']')
    } else {
        let a = text::before_char_exec(v.as_slice(), ':');
        let b = text::trim_exec(a.as_slice());
        let c = text::trim_start_char_exec(b.as_slice(), '[');
        text::trim_end_char_exec(c.as_slice(), ']')
    };
    let e = text::trim_end_char_exec(core.as_slice(), '.');
    let f = text::lower_all(e.as_slice());
    text::string_of(f.as_slice())
}

/// The loopback origin is always allowed, bracketed IPv6 with or without a port
/// included.
pub proof fn lemma_ipv6_loopback_allowed()
    ensures
        host_norm("[::1]"@) == "::1"@,
        host_norm("[::1]:7834"@) == "::1"@,
        allowed_host("[::1]"@, None, None),
        allowed_host("[::1]:7834"@, None, None),
{
    reveal_strlit("[::1]");
    reveal_strlit("[::1]:7834");
    reveal_strlit("::1");
    let a = "[::1]"@;
    let b = "[::1]:7834"@;
    let l = "::1"@;
    text::lemma_lead_ws_unique(a, 0);
    text::lemma_trail_ws_unique(a, 0);
    assert(trim(a) =~= a);
    text::lemma_lead_ws_unique(b, 0);
    text::lemma_trail_ws_unique(b, 0);
    text::lemma_trail_ws_unique(b.skip(0), 0);
    assert(text::trim_start(b) =~= b);
    assert(trim(b) =~= b);
    text::lemma_find_char(a.drop_first(), ']');
    text::lemma_find_char(b.drop_first(), ']');
    assert(a.drop_first()[3] == ']');
    assert(b.drop_first()[3] == ']');
    assert(before_char(a.drop_first(), ']') =~= l);
    assert(before_char(b.drop_first(), ']') =~= l);
    assert(trim_end_char(l, '.') =~= l);
    assert(ascii_lower(l) =~= l);
}

pub open spec fn loopback_host(h: Seq<char>) -> bool {
    h == "localhost"@ || h == "127.0.0.1"@ || h == "::1"@ || h == "[::1]"@
}

pub fn is_loopback_host(host: &str) -> (r: bool)
    ensures
        r == loopback_host(host@),
{
    let v = text::chars_of(host);
    let s = v.as_slice();
    text::lit_eq(s, "localhost") || text::lit_eq(s, "127.0.0.1") || text::lit_eq(s, "::1")
        || text::lit_eq(s, "[::1]")
}

// ---------------------------------------------------------------------------
// The Mac on the local network
// ---------------------------------------------------------------------------

/// How the Mac is reached on the local network.
#[derive(Debug, Clone)]
pub struct LanIdentity {
    pub bonjour_host: String,
    pub instance_name: String,
    pub ipv4: Vec<Ipv4>,
    pub port: u16,
    pub url: String,
}

/// A host names this Mac: after normalizing, loopback, its Bonjour name (with or
/// without `.local`), or one of its addresses.
pub open spec fn lan_match(host: Seq<char>, bonjour: Seq<char>, ips: Seq<Ipv4>) -> bool {
    let h = host_norm(host);
    let b = ascii_lower(bonjour);
    &&& h.len() > 0
    &&& {
        ||| loopback_host(h)
        ||| (b.len() > 0 && (h == b || h == b + ".local"@))
        ||| exists|i: int| 0 <= i < ips.len() && h == ipv4_text(#[trigger] ips[i])
    }
}

impl LanIdentity {
    pub fn primary_ip(&self) -> (r: Option<Ipv4>)
        ensures
            r == (if self.ipv4@.len() > 0 {
                Some(self.ipv4@[0])
            } else {
                None
            }),
    {
        if self.ipv4.len() > 0 {
            Some(self.ipv4[0])
        } else {
            None
        }
    }

    pub fn matches_host(&self, host: &str) -> (r: bool)
        ensures
            r == lan_match(host@, self.bonjour_host@, self.ipv4@),
    {
        lan_host_matches(host, self)
    }
}

pub fn lan_host_matches(host: &str, identity: &LanIdentity) -> (r: bool)
    ensures
        r == lan_match(host@, identity.bonjour_host@, identity.ipv4@),
{
    let h = normalize_host(host);
    let hv = text::chars_of(h.as_str());
    if hv.len() == 0 {
        return false;
    }
    if is_loopback_host(h.as_str()) {
        return true;
    }
    let bv = text::chars_of(identity.bonjour_host.as_str());
    let b = text::lower_all(bv.as_slice());
    if b.len() > 0 {
        if text::seq_eq(hv.as_slice(), b.as_slice()) {
            return true;
        }
        let mut bl = b.clone();
        text::push_str(&mut bl, ".local");
        if text::seq_eq(hv.as_slice(), bl.as_slice()) {
            return true;
        }
    }
    let ips = &identity.ipv4;
    let mut i: usize = 0;
    while i < ips.len()
        invariant
            i <= ips@.len(),
            hv@ == host_norm(host@),
            hv@.len() > 0,
            ips@ == identity.ipv4@,
            forall|k: int| 0 <= k < i ==> hv@ != ipv4_text(#[trigger] ips@[k]),
        decreases ips@.len() - i,
    {
        let t = ips[i].to_text();
        let tv = text::chars_of(t.as_str());
        if text::seq_eq(hv.as_slice(), tv.as_slice()) {
            assert(hv@ == ipv4_text(ips@[i as int]));
            return true;
        }
        i = i + 1;
    }
    false
}

/// A host reached over the local network: a `.local` name, a private-range
/// address, or a name of this Mac when its identity is known.
pub open spec fn lan_host(host: Seq<char>, identity: Option<(Seq<char>, Seq<Ipv4>)>) -> bool {
    let h = host_norm(host);
    &&& h.len() > 0
    &&& {
        ||| ends_with(h, ".local"@)
        ||| private_ipv4_of(h) is Some
        ||| (identity matches Some(id) && lan_match(h, id.0, id.1))
    }
}

pub open spec fn identity_view(identity: Option<&LanIdentity>) -> Option<(Seq<char>, Seq<Ipv4>)> {
    match identity {
        Some(id) => Some((id.bonjour_host@, id.ipv4@)),
        None => None,
    }
}

pub fn is_lan_host(host: &str, identity: Option<&LanIdentity>) -> (r: bool)
    ensures
        r == lan_host(host@, identity_view(identity)),
{
    let h = normalize_host(host);
    let hv = text::chars_of(h.as_str());
    if hv.len() == 0 {
        return false;
    }
    if text::str_ends_with(hv.as_slice(), ".local") {
        return true;
    }
    if parse_private_ipv4(h.as_str()).is_some() {
        return true;
    }
    match identity {
        Some(id) => id.matches_host(h.as_str()),
        None => false,
    }
}

/// Which request hosts the server answers: loopback always; the configured public
/// host (or its `www.` form); and, while the local network is enabled, the names
/// and addresses of this Mac. Nothing else.
pub open spec fn allowed_host(
    host: Seq<char>,
    configured: Option<Seq<char>>,
    lan: Option<(Seq<char>, Seq<Ipv4>)>,
) -> bool {
    let h = host_norm(host);
    &&& h.len() > 0
    &&& {
        ||| loopback_host(h)
        ||| (configured matches Some(c) && matches_configured(h, c))
        ||| (lan matches Some(id) && lan_match(h, id.0, id.1))
    }
}

pub fn host_allowed(host: &str, configured: Option<&str>, lan: Option<&LanIdentity>) -> (r: bool)
    ensures
        r == allowed_host(host@, opt_str_view(configured), identity_view(lan)),
{
    let h = normalize_host(host);
    let hv = text::chars_of(h.as_str());
    if hv.len() == 0 {
        return false;
    }
    if is_loopback_host(h.as_str()) {
        return true;
    }
    if let Some(expected) = configured {
        if crate::tunnel::host_matches_configured(h.as_str(), expected) {
            return true;
        }
    }
    match lan {
        Some(identity) => identity.matches_host(h.as_str()),
        None => false,
    }
}

/// With no public host configured and the local network off, only loopback hosts
/// are answered.
pub proof fn lemma_lan_off_only_loopback(host: Seq<char>)
    ensures
        allowed_host(host, None, None) <==> (host_norm(host).len() > 0 && loopback_host(
            host_norm(host),
        )),
{
}

/// With the local network off, a host is answered only when it is loopback or the
/// configured public host (with or without `www.`).
pub proof fn lemma_cloud_only_configured_host(host: Seq<char>, configured: Seq<char>)
    ensures
        allowed_host(host, Some(configured), None) <==> (host_norm(host).len() > 0 && (loopback_host(
            host_norm(host),
        ) || matches_configured(host_norm(host), configured))),
{
}

/// Turning the local network on never turns a host away that was answered before.
pub proof fn lemma_lan_on_only_widens(
    host: Seq<char>,
    configured: Option<Seq<char>>,
    id: (Seq<char>, Seq<Ipv4>),
)
    ensures
        allowed_host(host, configured, None) ==> allowed_host(host, configured, Some(id)),
{
}

// ---------------------------------------------------------------------------
// Bonjour names
// ---------------------------------------------------------------------------

/// A name usable as a Bonjour host label: after trimming, 1 to 63 bytes of ASCII
/// letters, digits and hyphens, not starting or ending with a hyphen.
pub open spec fn usable_bonjour_label(name: Seq<char>) -> bool {
    let t = trim(name);
    &&& t.len() > 0
    &&& encode_utf8(t).len() <= 63
    &&& forall|i: int| 0 <= i < t.len() ==> (is_ascii_alnum(#[trigger] t[i]) || t[i] == '-')
    &&& t[0] != '-'
    &&& t.last() != '-'
}

fn all_label_chars(t: &[char]) -> (r: bool)
    ensures
        r == forall|i: int| 0 <= i < t@.len() ==> (is_ascii_alnum(#[trigger] t@[i]) || t@[i] == '-'),
{
    let mut i: usize = 0;
    while i < t.len()
        invariant
            i <= t@.len(),
            forall|k: int| 0 <= k < i ==> (is_ascii_alnum(#[trigger] t@[k]) || t@[k] == '-'),
        decreases t@.len() - i,
    {
        if !(text::char_is_ascii_alnum(t[i]) || t[i] == '-') {
            return false;
        }
        i = i + 1;
    }
    true
}

pub fn is_usable_bonjour_label(name: &str) -> (r: bool)
    ensures
        r == usable_bonjour_label(name@),
{
    let v = text::chars_of(name);
    let t = text::trim_exec(v.as_slice());
    if t.len() == 0 {
        return false;
    }
    if text::utf8_len_exceeds(t.as_slice(), 63) {
        return false;
    }
    all_label_chars(t.as_slice()) && t[0] != '-' && t[t.len() - 1] != '-'
}

/// The Bonjour instance name: `Shelf (host)`, or just `Shelf` for a blank or
/// `localhost` host or when the name would pass 63 bytes.
pub open spec fn instance_name(host: Seq<char>) -> Seq<char> {
    let t = trim(host);
    if t.len() == 0 || ascii_lower(t) == "localhost"@ {
        "Shelf"@
    } else {
        let n = "Shelf ("@ + t + ")"@;
        if encode_utf8(n).len() > 63 {
            "Shelf"@
        } else {
            n
        }
    }
}

pub fn instance_name_for(bonjour_host: &str) -> (r: String)
    ensures
        r@ == instance_name(bonjour_host@),
{
    let v = text::chars_of(bonjour_host);
    let t = text::trim_exec(v.as_slice());
    let lower = text::lower_all(t.as_slice());
    if t.len() == 0 || text::lit_eq(lower.as_slice(), "localhost") {
        return text::string_of(text::chars_of("Shelf").as_slice());
    }
    let mut n = text::chars_of("Shelf (");
    text::push_all(&mut n, t.as_slice());
    text::push_str(&mut n, ")");
    if text::utf8_len_exceeds(n.as_slice(), 63) {
        text::string_of(text::chars_of("Shelf").as_slice())
    } else {
        text::string_of(n.as_slice())
    }
}

pub open spec fn label_char(c: char) -> char {
    if is_ascii_alnum(c) || c == '-' {
        c
    } else {
        '-'
    }
}

/// A raw host name made into a label: trimmed, `.local` suffixes dropped, every
/// other character than ASCII letters, digits and `-` turned into `-`, and hyphens
/// trimmed from both ends.
pub open spec fn bonjour_label(raw: Seq<char>) -> Seq<char> {
    trim_char(trim_end_str(trim(raw), ".local"@).map_values(|c: char| label_char(c)), '-')
}

pub fn sanitize_bonjour_label(raw: &str) -> (r: String)
    ensures
        r@ == bonjour_label(raw@),
{
    let v = text::chars_of(raw);
    let t = text::trim_exec(v.as_slice());
    let suffix = text::chars_of(".local");
    let u = text::trim_end_str_exec(t.as_slice(), suffix.as_slice());
    let mut m: Vec<char> = Vec::new();
    let mut i: usize = 0;
    while i < u.len()
        invariant
            i <= u@.len(),
            m@ == u@.take(i as int).map_values(|c: char| label_char(c)),
        decreases u@.len() - i,
    {
        let c = u[i];
        let d = if text::char_is_ascii_alnum(c) || c == '-' {
            c
        } else {
            '-'
        };
        m.push(d);
        i = i + 1;
        assert(m@ =~= u@.take(i as int).map_values(|c: char| label_char(c)));
    }
    assert(u@.take(u@.len() as int) =~= u@);
    let r = text::trim_char_exec(m.as_slice(), '-');
    text::string_of(r.as_slice())
}

/// The first usable label among the Mac's local host name, its short host name,
/// and the first dotted part of its full host name, each sanitized; empty when none
/// is usable.
pub open spec fn chosen_bonjour_host(
    local_host_name: Option<Seq<char>>,
    short_host: Option<Seq<char>>,
    host_name: Option<Seq<char>>,
) -> Seq<char> {
    if local_host_name matches Some(n) && usable_bonjour_label(bonjour_label(n)) {
        bonjour_label(local_host_name->0)
    } else if short_host matches Some(n) && usable_bonjour_label(bonjour_label(n)) {
        bonjour_label(short_host->0)
    } else if host_name matches Some(n) && usable_bonjour_label(bonjour_label(before_char(n, '.'))) {
        bonjour_label(before_char(host_name->0, '.'))
    } else {
        Seq::empty()
    }
}

pub fn choose_bonjour_host(
    local_host_name: Option<&str>,
    short_host: Option<&str>,
    host_name: Option<&str>,
) -> (r: String)
    ensures
        r@ == chosen_bonjour_host(
            opt_str_view(local_host_name),
            opt_str_view(short_host),
            opt_str_view(host_name),
        ),
{
    if let Some(n) = local_host_name {
        let c = sanitize_bonjour_label(n);
        if is_usable_bonjour_label(c.as_str()) {
            return c;
        }
    }
    if let Some(n) = short_host {
        let c = sanitize_bonjour_label(n);
        if is_usable_bonjour_label(c.as_str()) {
            return c;
        }
    }
    if let Some(n) = host_name {
        let v = text::chars_of(n);
        let first = text::before_char_exec(v.as_slice(), '.');
        let fs = text::string_of(first.as_slice());
        let c = sanitize_bonjour_label(fs.as_str());
        if is_usable_bonjour_label(c.as_str()) {
            return c;
        }
    }
    String::new()
}

/// The URL shown for nearby devices: the `.local` name when usable, else the first
/// address, else loopback.
pub open spec fn local_url(bonjour_host: Seq<char>, ip: Option<Ipv4>, port: u16) -> Seq<char> {
    if usable_bonjour_label(bonjour_host) {
        "http://"@ + bonjour_host + ".local:"@ + decimal(port as nat)
    } else {
        match ip {
            Some(a) => "http://"@ + ipv4_text(a) + ":"@ + decimal(port as nat),
            None => "http://127.0.0.1:"@ + decimal(port as nat),
        }
    }
}

pub fn preferred_local_url(bonjour_host: &str, ip: Option<Ipv4>, port: u16) -> (r: String)
    ensures
        r@ == local_url(bonjour_host@, ip, port),
{
    let p = text::u64_to_decimal(port as u64);
    if is_usable_bonjour_label(bonjour_host) {
        let mut out = text::chars_of("http://");
        text::push_str(&mut out, bonjour_host);
        text::push_str(&mut out, ".local:");
        text::push_all(&mut out, p.as_slice());
        return text::string_of(out.as_slice());
    }
    if let Some(a) = ip {
        let mut out = text::chars_of("http://");
        let t = a.to_text();
        text::push_str(&mut out, t.as_str());
        text::push_str(&mut out, ":");
        text::push_all(&mut out, p.as_slice());
        return text::string_of(out.as_slice());
    }
    let mut out = text::chars_of("http://127.0.0.1:");
    text::push_all(&mut out, p.as_slice());
    text::string_of(out.as_slice())
}

// ---------------------------------------------------------------------------
// The addresses to advertise
// ---------------------------------------------------------------------------

pub open spec fn sorted_strict(s: Seq<Ipv4>) -> bool {
    forall|i: int, j: int| 0 <= i < j < s.len() ==> ipv4_key(s[i]) < ipv4_key(s[j])
}

pub open spec fn has_private(s: Seq<Ipv4>) -> bool {
    exists|i: int| 0 <= i < s.len() && private_ipv4(#[trigger] s[i])
}

proof fn lemma_key_injective(x: Ipv4, y: Ipv4)
    requires
        ipv4_key(x) == ipv4_key(y),
    ensures
        x == y,
{
    assert(x.a == y.a && x.b == y.b && x.c == y.c && x.d == y.d) by (nonlinear_arith)
        requires
            x.a * 16777216 + x.b * 65536 + x.c * 256 + x.d == y.a * 16777216 + y.b * 65536 + y.c
                * 256 + y.d,
            0 <= x.a < 256,
            0 <= x.b < 256,
            0 <= x.c < 256,
            0 <= x.d < 256,
            0 <= y.a < 256,
            0 <= y.b < 256,
            0 <= y.c < 256,
            0 <= y.d < 256,
    ;
}

fn key_of(ip: Ipv4) -> (r: u32)
    ensures
        r == ipv4_key(ip),
{
    ip.a as u32 * 16777216 + ip.b as u32 * 65536 + ip.c as u32 * 256 + ip.d as u32
}

/// The private addresses among the interfaces' addresses, in ascending order and
/// each once; when there are none, the address the system would route from, if it
/// is private.
pub fn lan_addresses(interface_ips: &[Ipv4], hint: Option<Ipv4>) -> (r: Vec<Ipv4>)
    ensures
        has_private(interface_ips@) ==> {
            &&& sorted_strict(r@)
            &&& forall|x: Ipv4| r@.contains(x) <==> (interface_ips@.contains(x) && private_ipv4(x))
        },
        !has_private(interface_ips@) ==> r@ == (match hint {
            Some(h) => if private_ipv4(h) {
                seq![h]
            } else {
                Seq::empty()
            },
            None => Seq::empty(),
        }),
{
    let mut out: Vec<Ipv4> = Vec::new();
    let mut i: usize = 0;
    while i < interface_ips.len()
        invariant
            i <= interface_ips@.len(),
            sorted_strict(out@),
            forall|x: Ipv4|
                #[trigger] out@.contains(x) <==> (interface_ips@.take(i as int).contains(x)
                    && private_ipv4(x)),
        decreases interface_ips@.len() - i,
    {
        let ip = interface_ips[i];
        let ghost before = out@;
        if is_private_ipv4(ip) {
            let k = key_of(ip);
            let mut p: usize = 0;
            while p < out.len() && key_of(out[p]) < k
                invariant
                    p <= out@.len(),
                    k == ipv4_key(ip),
                    forall|q: int| 0 <= q < p ==> ipv4_key(#[trigger] out@[q]) < k,
                decreases out@.len() - p,
            {
                p = p + 1;
            }
            if p < out.len() && key_of(out[p]) == k {
                proof {
                    lemma_key_injective(out@[p as int], ip);
                }
            } else {
                out.insert(p, ip);
                proof {
                    assert forall|a: int, b: int| 0 <= a < b < out@.len() implies ipv4_key(
                        out@[a],
                    ) < ipv4_key(out@[b]) by {
                        if b < p {
                            assert(out@[a] == before[a] && out@[b] == before[b]);
                        } else if b == p {
                            assert(out@[a] == before[a]);
                        } else if a < p {
                            assert(out@[a] == before[a] && out@[b] == before[b - 1]);
                        } else if a == p {
                            assert(out@[b] == before[b - 1]);
                            assert(ipv4_key(before[p as int]) > k);
                            if b - 1 > p {
                                assert(ipv4_key(before[p as int]) < ipv4_key(before[b - 1]));
                            }
                        } else {
                            assert(out@[a] == before[a - 1] && out@[b] == before[b - 1]);
                        }
                    }
                    assert forall|x: Ipv4| out@.contains(x) <==> (before.contains(x) || x == ip) by {
                        if out@.contains(x) {
                            let j = choose|j: int| 0 <= j < out@.len() && out@[j] == x;
                            if j < p {
                                assert(before[j] == x);
                            } else if j > p {
                                assert(before[j - 1] == x);
                            }
                        }
                        if before.contains(x) {
                            let j = choose|j: int| 0 <= j < before.len() && before[j] == x;
                            if j < p {
                                assert(out@[j] == x);
                            } else {
                                assert(out@[j + 1] == x);
                            }
                        }
                        if x == ip {
                            assert(out@[p as int] == ip);
                        }
                    }
                }
            }
        }
        proof {
            if !private_ipv4(ip) {
                assert(out@ == before);
            } else if out@ == before {
                assert(before.contains(ip));
            }
            assert forall|x: Ipv4| #[trigger] out@.contains(x) <==> (before.contains(x) || (x == ip
                && private_ipv4(ip))) by {
                if !private_ipv4(ip) || out@ == before {
                    if x == ip && private_ipv4(ip) {
                        assert(before.contains(ip));
                    }
                }
            }
            let t0 = interface_ips@.take(i as int);
            let t1 = interface_ips@.take(i + 1);
            assert(t1 =~= t0.push(ip));
            assert forall|x: Ipv4| #[trigger] t1.contains(x) <==> (t0.contains(x) || x == ip) by {
                if t1.contains(x) {
                    let j = choose|j: int| 0 <= j < t1.len() && #[trigger] t1[j] == x;
                    if j < i {
                        assert(t0[j] == x);
                    }
                }
                if t0.contains(x) {
                    let j = choose|j: int| 0 <= j < t0.len() && #[trigger] t0[j] == x;
                    assert(t1[j] == x);
                }
                if x == ip {
                    assert(t1[i as int] == ip);
                }
            }
            assert forall|x: Ipv4| #[trigger] out@.contains(x) <==> (t1.contains(x) && private_ipv4(x)) by {
                assert(before.contains(x) <==> (t0.contains(x) && private_ipv4(x)));
            }
        }
        i = i + 1;
    }
    proof {
        assert(interface_ips@.take(i as int) =~= interface_ips@);
        assert forall|x: Ipv4| out@.contains(x) <==> (interface_ips@.contains(x) && private_ipv4(x)) by {
            assert(out@.contains(x) <==> (interface_ips@.take(i as int).contains(x) && private_ipv4(x)));
        }
    }
    if out.len() == 0 {
        proof {
            if has_private(interface_ips@) {
                let j = choose|j: int| 0 <= j < interface_ips@.len() && private_ipv4(#[trigger] interface_ips@[j]);
                assert(interface_ips@.contains(interface_ips@[j]));
                assert(out@.contains(interface_ips@[j]));
            }
        }
        if let Some(h) = hint {
            if is_private_ipv4(h) {
                out.push(h);
                assert(out@ =~= seq![h]);
            }
        }
    } else {
        proof {
            assert(out@.contains(out@[0]));
            assert(interface_ips@.contains(out@[0]));
            let j = choose|j: int| 0 <= j < interface_ips@.len() && interface_ips@[j] == out@[0];
            assert(private_ipv4(interface_ips@[j]));
        }
    }
    out
}

/// The identity of this Mac from what the system reports: its Bonjour host name,
/// its LAN addresses and the port served.
pub fn identity_for(bonjour_host: String, ipv4: Vec<Ipv4>, port: u16) -> (r: LanIdentity)
    ensures
        r.bonjour_host@ == bonjour_host@,
        r.ipv4@ == ipv4@,
        r.port == port,
        r.instance_name@ == instance_name(bonjour_host@),
        r.url@ == local_url(
            bonjour_host@,
            if ipv4@.len() > 0 {
                Some(ipv4@[0])
            } else {
                None
            },
            port,
        ),
{
    let first = if ipv4.len() > 0 {
        Some(ipv4[0])
    } else {
        None
    };
    let url = preferred_local_url(bonjour_host.as_str(), first, port);
    let instance_name = instance_name_for(bonjour_host.as_str());
    LanIdentity { bonjour_host, instance_name, ipv4, port, url }
}

} // verus!
