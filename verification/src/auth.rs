//! Accounts and sessions: password and user-name rules, session tokens and
//! cookies, and the limit on sign-in attempts.
use vstd::prelude::*;
use vstd::utf8::encode_utf8;
use crate::lan::{opt_str_view, rfc3339_instant};
use crate::models::SessionInfo;
use crate::text;
use crate::text::{ascii_lower, is_ascii_digit, is_ascii_lower, trim};
use argon2::password_hash::rand_core::OsRng;
use argon2::password_hash::{PasswordHash, PasswordHasher, PasswordVerifier, SaltString};
use argon2::Argon2;
use rand::RngCore;
use sha2::{Digest, Sha256};

verus! {

pub const SESSION_COOKIE: &'static str = "shelf_session";

pub const IDLE_DAYS: i64 = 14;

pub const ABSOLUTE_DAYS: i64 = 90;

pub const ROTATE_AFTER_DAYS: i64 = 7;

pub const LOCKOUT_AFTER: i64 = 8;

pub const LOCKOUT_MINUTES: i64 = 15;

pub const MIN_PASSWORD_LEN: usize = 8;

// ---------------------------------------------------------------------------
// Hex digests and tokens
// ---------------------------------------------------------------------------

pub open spec fn hex_digit(n: int) -> char {
    if n < 10 {
        (n + 0x30) as char
    } else {
        (n - 10 + 0x61) as char
    }
}

/// Lowercase hex, two digits per byte, high nibble first.
pub open spec fn hex_lower(b: Seq<u8>) -> Seq<char> {
    Seq::new(
        2 * b.len(),
        |j: int|
            if j % 2 == 0 {
                hex_digit(b[j / 2] as int / 16)
            } else {
                hex_digit(b[j / 2] as int % 16)
            },
    )
}

fn hex_digit_exec(n: u8) -> (c: char)
    requires
        n < 16,
    ensures
        c == hex_digit(n as int),
{
    if n < 10 {
        (n + 0x30) as char
    } else {
        (n - 10 + 0x61) as char
    }
}

pub fn hex_string(b: &[u8]) -> (r: String)
    ensures
        r@ == hex_lower(b@),
{
    let mut out: Vec<char> = Vec::new();
    let mut i: usize = 0;
    while i < b.len()
        invariant
            i <= b@.len(),
            out@.len() == 2 * i,
            forall|j: int| 0 <= j < 2 * i ==> out@[j] == hex_lower(b@)[j],
        decreases b@.len() - i,
    {
        let hi = hex_digit_exec(b[i] / 16);
        let lo = hex_digit_exec(b[i] % 16);
        out.push(hi);
        out.push(lo);
        proof {
            assert((2 * i) / 2 == i && (2 * i) % 2 == 0) by (nonlinear_arith);
            assert((2 * i + 1) / 2 == i && (2 * i + 1) % 2 == 1) by (nonlinear_arith);
        }
        i = i + 1;
    }
    assert(out@ =~= hex_lower(b@));
    text::string_of(out.as_slice())
}

/// The SHA-256 digest of the bytes.
pub uninterp spec fn sha256_of(data: Seq<u8>) -> Seq<u8>;

/// `sha2::Sha256::digest`: the 32-byte digest, named rather than restated.
#[verifier::external_body]
fn sha256_digest(data: &[u8]) -> (r: Vec<u8>)
    ensures
        r@ == sha256_of(data@),
        r@.len() == 32,
{
    Sha256::digest(data).to_vec()
}

pub fn sha256_hex(data: &[u8]) -> (r: String)
    ensures
        r@ == hex_lower(sha256_of(data@)),
{
    let d = sha256_digest(data);
    hex_string(d.as_slice())
}

/// `rand::thread_rng().fill_bytes` on 32 bytes. Nothing is promised of the bytes
/// but their number.
#[verifier::external_body]
fn random_bytes_32() -> (r: Vec<u8>)
    ensures
        r@.len() == 32,
{
    let mut bytes = [0u8; 32];
    rand::thread_rng().fill_bytes(&mut bytes);
    bytes.to_vec()
}

/// A fresh session token: 32 random bytes in lowercase hex.
pub fn random_token() -> (r: String)
    ensures
        exists|b: Seq<u8>| b.len() == 32 && r@ == hex_lower(b),
{
    let b = random_bytes_32();
    hex_string(b.as_slice())
}

// ---------------------------------------------------------------------------
// Passwords and user names
// ---------------------------------------------------------------------------

/// Whether `password` verifies against the Argon2 PHC string `hash`.
pub uninterp spec fn argon2_verifies(password: Seq<char>, hash: Seq<char>) -> bool;

/// `argon2::Argon2::hash_password` with a fresh random salt, as a PHC string.
/// What it returns depends on the salt; of a success it is promised only that the
/// same password verifies against it, which is what the hashing is for. With the
/// default parameters and a generated 16-byte salt the one input it refuses is a
/// password of more than `0xFFFF_FFFF` bytes (`MAX_PWD_LEN`). A failure is given
/// as the `password_hash::Error` message, none of which is the library's
/// short-password message.
#[verifier::external_body]
fn argon2_hash(password: &str) -> (r: Result<String, String>)
    ensures
        r matches Ok(h) ==> argon2_verifies(password@, h@),
        encode_utf8(password@).len() <= 0xFFFF_FFFF ==> r is Ok,
        r matches Err(m) ==> m@ != short_password_message(),
{
    let salt = SaltString::generate(&mut OsRng);
    match Argon2::default().hash_password(password.as_bytes(), &salt) {
        Ok(h) => Ok(h.to_string()),
        Err(e) => Err(e.to_string()),
    }
}

/// `argon2::PasswordHash::new` and `Argon2::verify_password`: `false` when the
/// stored hash does not parse or the password does not match it.
#[verifier::external_body]
pub fn verify_password(password: &str, hash: &str) -> (r: bool)
    ensures
        r == argon2_verifies(password@, hash@),
{
    let Ok(parsed) = PasswordHash::new(hash) else {
        return false;
    };
    Argon2::default().verify_password(password.as_bytes(), &parsed).is_ok()
}

pub open spec fn password_too_short(password: Seq<char>) -> bool {
    password.len() < MIN_PASSWORD_LEN
}

pub open spec fn short_password_message() -> Seq<char> {
    "Password must be at least 8 characters"@
}

pub fn validate_password(password: &str) -> (r: Result<(), String>)
    ensures
        r is Err <==> password_too_short(password@),
        r matches Err(m) ==> m@ == short_password_message(),
{
    let v = text::chars_of(password);
    if v.len() < MIN_PASSWORD_LEN {
        return Err(text::string_of(text::chars_of("Password must be at least 8 characters").as_slice()));
    }
    Ok(())
}

/// Hashes a password for storage, after checking its length.
pub fn hash_password(password: &str) -> (r: Result<String, String>)
    ensures
        password_too_short(password@) ==> (r matches Err(m) && m@ == short_password_message()),
        !password_too_short(password@) ==> !(r matches Err(m) && m@ == short_password_message()),
        !password_too_short(password@) && encode_utf8(password@).len() <= 0xFFFF_FFFF ==> r is Ok,
        r matches Ok(h) ==> !password_too_short(password@) && argon2_verifies(password@, h@),
{
    match validate_password(password) {
        Err(e) => Err(e),
        Ok(()) => argon2_hash(password),
    }
}

pub open spec fn username_char(c: char) -> bool {
    is_ascii_lower(c) || is_ascii_digit(c) || c == '_'
}

/// User names are compared trimmed and lowercased; they must be 2 to 32 bytes of
/// lowercase letters, digits and underscores.
pub open spec fn username_key(raw: Seq<char>) -> Seq<char> {
    ascii_lower(trim(raw))
}

pub open spec fn username_error(raw: Seq<char>) -> Option<Seq<char>> {
    let t = username_key(raw);
    if encode_utf8(t).len() < 2 || encode_utf8(t).len() > 32 {
        Some("Username must be 2–32 characters"@)
    } else if !(forall|i: int| 0 <= i < t.len() ==> username_char(#[trigger] t[i])) {
        Some("Username may only contain lowercase letters, digits, and underscores"@)
    } else {
        None
    }
}

fn char_is_username(c: char) -> (r: bool)
    ensures
        r == username_char(c),
{
    let u = c as u32;
    (0x61 <= u && u <= 0x7a) || text::char_is_ascii_digit(c) || c == '_'
}

/// Text of ASCII characters takes one byte per character.
pub proof fn lemma_ascii_utf8_len(s: Seq<char>)
    requires
        forall|i: int| 0 <= i < s.len() ==> (#[trigger] s[i] as u32) < 0x80,
    ensures
        encode_utf8(s).len() == s.len(),
    decreases s.len(),
{
    if s.len() > 0 {
        let init = s.drop_last();
        assert forall|i: int| 0 <= i < init.len() implies (#[trigger] init[i] as u32) < 0x80 by {
            assert(init[i] == s[i]);
        }
        lemma_ascii_utf8_len(init);
        text::lemma_encode_utf8_concat(init, seq![s.last()]);
        text::lemma_encode_char_len(s.last());
        assert(init + seq![s.last()] =~= s);
    }
}

/// Every accepted user name is 2 to 32 lowercase letters, digits and underscores.
pub proof fn lemma_accepted_username_shape(raw: Seq<char>)
    requires
        username_error(raw) is None,
    ensures
        2 <= username_key(raw).len() <= 32,
        forall|i: int|
            0 <= i < username_key(raw).len() ==> username_char(#[trigger] username_key(raw)[i]),
{
    let t = username_key(raw);
    assert forall|i: int| 0 <= i < t.len() implies (#[trigger] t[i] as u32) < 0x80 by {
        assert(username_char(t[i]));
    }
    lemma_ascii_utf8_len(t);
}

pub fn validate_username(username: &str) -> (r: Result<String, String>)
    ensures
        match username_error(username@) {
            Some(m) => (r matches Err(e) && e@ == m),
            None => (r matches Ok(u) && u@ == username_key(username@)),
        },
{
    let v = text::chars_of(username);
    let t = text::trim_exec(v.as_slice());
    let lower = text::lower_all(t.as_slice());
    if !text::utf8_len_exceeds(lower.as_slice(), 1) || text::utf8_len_exceeds(lower.as_slice(), 32) {
        return Err(text::string_of(text::chars_of("Username must be 2–32 characters").as_slice()));
    }
    let mut i: usize = 0;
    while i < lower.len()
        invariant
            i <= lower@.len(),
            lower@ == username_key(username@),
            2 <= encode_utf8(lower@).len() <= 32,
            forall|k: int| 0 <= k < i ==> username_char(#[trigger] lower@[k]),
        decreases lower@.len() - i,
    {
        if !char_is_username(lower[i]) {
            proof {
                assert(!username_char(lower@[i as int]));
            }
            return Err(
                text::string_of(
                    text::chars_of(
                        "Username may only contain lowercase letters, digits, and underscores",
                    ).as_slice(),
                ),
            );
        }
        i = i + 1;
    }
    Ok(text::string_of(lower.as_slice()))
}

/// The label a new session is listed under: the device name trimmed and cut to 64
/// characters, or `Unknown device`.
pub open spec fn device_label_of(name: Option<Seq<char>>) -> Seq<char> {
    let t = match name {
        Some(n) => trim(n),
        None => Seq::empty(),
    };
    if t.len() == 0 {
        "Unknown device"@
    } else if t.len() > 64 {
        t.take(64)
    } else {
        t
    }
}

pub fn device_label(name: Option<&str>) -> (r: String)
    ensures
        r@ == device_label_of(opt_str_view(name)),
{
    let t = match name {
        Some(n) => {
            let v = text::chars_of(n);
            text::trim_exec(v.as_slice())
        },
        None => Vec::new(),
    };
    if t.len() == 0 {
        text::string_of(text::chars_of("Unknown device").as_slice())
    } else if t.len() > 64 {
        let c = text::copy_range(t.as_slice(), 0, 64);
        text::string_of(c.as_slice())
    } else {
        text::string_of(t.as_slice())
    }
}

// ---------------------------------------------------------------------------
// Cookies
// ---------------------------------------------------------------------------

/// The attributes after `Max-Age`: the domain when one is given and not blank,
/// then `Secure` when asked for.
pub open spec fn cookie_tail(secure: bool, domain: Option<Seq<char>>) -> Seq<char> {
    let d = match domain {
        Some(x) => if trim(x).len() > 0 {
            "; Domain="@ + trim(x)
        } else {
            Seq::empty()
        },
        None => Seq::empty(),
    };
    d + if secure {
        "; Secure"@
    } else {
        Seq::empty()
    }
}

fn push_cookie_tail(out: &mut Vec<char>, secure: bool, domain: Option<&str>)
    ensures
        final(out)@ == old(out)@ + cookie_tail(secure, opt_str_view(domain)),
{
    let ghost start = out@;
    let mut d: Vec<char> = Vec::new();
    if let Some(x) = domain {
        let v = text::chars_of(x);
        let t = text::trim_exec(v.as_slice());
        if t.len() > 0 {
            text::push_str(&mut d, "; Domain=");
            text::push_all(&mut d, t.as_slice());
        }
    }
    text::push_all(out, d.as_slice());
    if secure {
        text::push_str(out, "; Secure");
    }
    proof {
        if !secure {
            assert(out@ =~= start + cookie_tail(secure, opt_str_view(domain)));
        }
    }
}

/// The `Set-Cookie` value that stores a session token for 90 days.
pub open spec fn session_cookie_text(token: Seq<char>, secure: bool, domain: Option<Seq<char>>) -> Seq<
    char,
> {
    "shelf_session="@ + token + "; Path=/; Max-Age=7776000; SameSite=Lax; HttpOnly"@ + cookie_tail(
        secure,
        domain,
    )
}

pub fn session_cookie(token: &str, secure: bool, domain: Option<&str>) -> (r: String)
    ensures
        r@ == session_cookie_text(token@, secure, opt_str_view(domain)),
{
    let mut out = text::chars_of("shelf_session=");
    text::push_str(&mut out, token);
    text::push_str(&mut out, "; Path=/; Max-Age=7776000; SameSite=Lax; HttpOnly");
    push_cookie_tail(&mut out, secure, domain);
    text::string_of(out.as_slice())
}

/// The `Set-Cookie` value that removes the session cookie.
pub open spec fn clear_cookie_text(secure: bool, domain: Option<Seq<char>>) -> Seq<char> {
    "shelf_session=; Path=/; Max-Age=0; SameSite=Lax; HttpOnly"@ + cookie_tail(secure, domain)
}

pub fn clear_session_cookie(secure: bool, domain: Option<&str>) -> (r: String)
    ensures
        r@ == clear_cookie_text(secure, opt_str_view(domain)),
{
    let mut out = text::chars_of("shelf_session=; Path=/; Max-Age=0; SameSite=Lax; HttpOnly");
    push_cookie_tail(&mut out, secure, domain);
    text::string_of(out.as_slice())
}

// ---------------------------------------------------------------------------
// Limiting sign-in attempts
// ---------------------------------------------------------------------------

/// Seconds a counting window lasts.
pub const WINDOW_SECS: i64 = 300;

/// Sign-in attempts allowed from all clients together in one window.
pub const GLOBAL_BURST: u32 = 60;

/// Sign-in attempts allowed from one client in one window.
pub const CLIENT_BURST: u32 = 8;

/// A count of attempts and the second its window opened.
pub type Window = (u32, i64);

/// The window at `now`: a fresh one once more than five minutes have passed.
pub open spec fn current_window(w: Window, now: i64) -> Window {
    if now - w.1 > WINDOW_SECS {
        (0u32, now)
    } else {
        w
    }
}

/// One more attempt; a count that has reached the largest `u32` stays there.
pub open spec fn bump(w: Window) -> Window {
    if w.0 == u32::MAX {
        w
    } else {
        ((w.0 + 1) as u32, w.1)
    }
}

/// One sign-in attempt from client `key` at second `now`: the global window counts
/// it first, and past 60 the attempt is refused without touching the client's
/// window; otherwise the client's window counts it and the attempt is allowed
/// while that count is at most 8. Returns the new global window, the new client
/// windows and the answer.
pub open spec fn limiter_step(g: Window, m: Map<Seq<char>, Window>, key: Seq<char>, now: i64) -> (
    Window,
    Map<Seq<char>, Window>,
    bool,
) {
    let g2 = bump(current_window(g, now));
    if g2.0 > GLOBAL_BURST {
        (g2, m, false)
    } else {
        let e = if m.contains_key(key) {
            m[key]
        } else {
            (0u32, now)
        };
        let e2 = bump(current_window(e, now));
        (g2, m.insert(key, e2), e2.0 <= CLIENT_BURST)
    }
}

/// `n` attempts in a row from the same client at the same second.
pub open spec fn limiter_run(g: Window, m: Map<Seq<char>, Window>, key: Seq<char>, now: i64, n: nat) -> (
    Window,
    Map<Seq<char>, Window>,
    bool,
)
    decreases n,
{
    if n == 0 {
        (g, m, true)
    } else {
        let prev = limiter_run(g, m, key, now, (n - 1) as nat);
        limiter_step(prev.0, prev.1, key, now)
    }
}

proof fn lemma_limiter_run_shape(g: Window, m: Map<Seq<char>, Window>, key: Seq<char>, now: i64, n: nat)
    requires
        !m.contains_key(key),
        1 <= n <= 9,
        current_window(g, now).0 + 9 <= GLOBAL_BURST,
    ensures
        ({
            let r = limiter_run(g, m, key, now, n);
            let base = current_window(g, now);
            &&& r.0 == ((base.0 + n) as u32, base.1)
            &&& r.1 == m.insert(key, (n as u32, now))
            &&& r.2 == (n <= 8)
        }),
    decreases n,
{
    let base = current_window(g, now);
    if n == 1 {
        assert(limiter_run(g, m, key, now, 0) == (g, m, true));
        assert(m.insert(key, (0u32, now)).insert(key, (1u32, now)) =~= m.insert(key, (1u32, now)));
    } else {
        lemma_limiter_run_shape(g, m, key, now, (n - 1) as nat);
        let prev = limiter_run(g, m, key, now, (n - 1) as nat);
        assert(prev.1.contains_key(key) && prev.1[key] == ((n - 1) as u32, now));
        assert(current_window(prev.0, now) == prev.0);
        assert(prev.1.insert(key, (n as u32, now)) =~= m.insert(key, (n as u32, now)));
    }
}

/// A client that has not tried before gets eight attempts in a burst and the ninth
/// is refused, as long as the global window has room for them.
pub proof fn lemma_limiter_trips_after_burst(
    g: Window,
    m: Map<Seq<char>, Window>,
    key: Seq<char>,
    now: i64,
)
    requires
        !m.contains_key(key),
        current_window(g, now).0 + 9 <= GLOBAL_BURST,
    ensures
        forall|n: nat| 1 <= n <= 8 ==> (#[trigger] limiter_run(g, m, key, now, n)).2,
        !limiter_run(g, m, key, now, 9).2,
{
    assert forall|n: nat| 1 <= n <= 8 implies (#[trigger] limiter_run(g, m, key, now, n)).2 by {
        lemma_limiter_run_shape(g, m, key, now, n);
    }
    lemma_limiter_run_shape(g, m, key, now, 9);
}

/// One client's burst does not lock out another client that has not tried yet,
/// while the global window has room.
pub proof fn lemma_limiter_other_client_unaffected(
    g: Window,
    m: Map<Seq<char>, Window>,
    key: Seq<char>,
    other: Seq<char>,
    now: i64,
    n: nat,
)
    requires
        !m.contains_key(key),
        !m.contains_key(other),
        key != other,
        1 <= n <= 9,
        current_window(g, now).0 + 10 <= GLOBAL_BURST,
    ensures
        ({
            let r = limiter_run(g, m, key, now, n);
            limiter_step(r.0, r.1, other, now).2
        }),
{
    lemma_limiter_run_shape(g, m, key, now, n);
}

/// One client's attempt window.
#[derive(Debug, Clone)]
struct Attempts {
    key: String,
    count: u32,
    start: i64,
}

/// Counts sign-in attempts per client and overall, in five-minute windows.
pub struct LoginLimiter {
    attempts: Vec<Attempts>,
    global_count: u32,
    global_start: i64,
    clients: Ghost<Map<Seq<char>, Window>>,
}

/// `std::time::SystemTime::now()` measured from the Unix epoch with
/// `duration_since`: `Ok` with the seconds and nanoseconds since the epoch, or,
/// for a clock that reads before it, `Err` with the seconds and nanoseconds
/// before it. Nothing is promised of the reading but that the nanoseconds are
/// below one second, which `Duration::subsec_nanos` documents.
#[verifier::external_body]
fn system_clock() -> (r: Result<(u64, u32), (u64, u32)>)
    ensures
        match r {
            Ok((_, n)) => n < 1_000_000_000,
            Err((_, n)) => n < 1_000_000_000,
        },
{
    match std::time::SystemTime::now().duration_since(std::time::UNIX_EPOCH) {
        Ok(d) => Ok((d.as_secs(), d.subsec_nanos())),
        Err(e) => Err((e.duration().as_secs(), e.duration().subsec_nanos())),
    }
}

/// Whole seconds of a clock reading relative to the Unix epoch, rounded down as a
/// Unix timestamp is: a reading `s` seconds and `n` nanoseconds before the epoch
/// is second `-s`, or `-s - 1` when `n` is not zero. Readings beyond the range of
/// `i64` are held at its ends.
pub open spec fn epoch_second(reading: Result<(u64, u32), (u64, u32)>) -> int {
    match reading {
        Ok((s, _)) => if s > i64::MAX {
            i64::MAX as int
        } else {
            s as int
        },
        Err((s, n)) => {
            let t: int = if n == 0 {
                -(s as int)
            } else {
                -(s as int) - 1
            };
            if t < i64::MIN {
                i64::MIN as int
            } else {
                t
            }
        },
    }
}

pub fn epoch_seconds(reading: Result<(u64, u32), (u64, u32)>) -> (r: i64)
    ensures
        r == epoch_second(reading),
{
    match reading {
        Ok((s, _)) => if s > i64::MAX as u64 {
            i64::MAX
        } else {
            s as i64
        },
        Err((s, n)) => {
            let t: i128 = if n == 0 {
                -(s as i128)
            } else {
                -(s as i128) - 1
            };
            if t < i64::MIN as i128 {
                i64::MIN
            } else {
                t as i64
            }
        },
    }
}

/// The current Unix second, also when the clock reads before the epoch.
fn unix_now() -> i64 {
    let reading = system_clock();
    epoch_seconds(reading)
}

impl LoginLimiter {
    pub closed spec fn global(&self) -> Window {
        (self.global_count, self.global_start)
    }

    pub closed spec fn clients(&self) -> Map<Seq<char>, Window> {
        self.clients@
    }

    pub closed spec fn wf(&self) -> bool {
        let a = self.attempts@;
        let m = self.clients@;
        &&& forall|i: int, j: int| 0 <= i < j < a.len() ==> a[i].key@ != a[j].key@
        &&& forall|i: int|
            0 <= i < a.len() ==> m.contains_key(#[trigger] a[i].key@) && m[a[i].key@] == (
                a[i].count,
                a[i].start,
            )
        &&& forall|k: Seq<char>| m.contains_key(k) ==> exists|i: int| 0 <= i < a.len() && (#[trigger] a[i].key@) == k
    }

    /// A limiter whose global window opens at second `now`.
    pub fn new_at(now: i64) -> (r: LoginLimiter)
        ensures
            r.wf(),
            r.global() == (0u32, now),
            r.clients() == Map::<Seq<char>, Window>::empty(),
    {
        LoginLimiter {
            attempts: Vec::new(),
            global_count: 0,
            global_start: now,
            clients: Ghost(Map::empty()),
        }
    }

    /// A limiter whose global window opens now.
    pub fn new() -> (r: LoginLimiter)
        ensures
            r.wf(),
            r.global().0 == 0,
            r.clients() == Map::<Seq<char>, Window>::empty(),
    {
        LoginLimiter::new_at(unix_now())
    }

    /// One sign-in attempt from client `key` at second `now`; see `limiter_step`.
    pub fn allow_at(&mut self, key: &str, now: i64) -> (r: bool)
        requires
            old(self).wf(),
        ensures
            final(self).wf(),
            (final(self).global(), final(self).clients(), r) == limiter_step(
                old(self).global(),
                old(self).clients(),
                key@,
                now,
            ),
    {
        if (now as i128) - (self.global_start as i128) > WINDOW_SECS as i128 {
            self.global_count = 0;
            self.global_start = now;
        }
        if self.global_count < u32::MAX {
            self.global_count = self.global_count + 1;
        }
        if self.global_count > GLOBAL_BURST {
            assert(self.attempts@ == old(self).attempts@ && self.clients@ == old(self).clients@);
            return false;
        }
        let ghost m0 = self.clients@;
        let ghost a0 = self.attempts@;
        let mut i: usize = 0;
        while i < self.attempts.len()
            invariant
                i <= self.attempts@.len(),
                self.attempts@ == a0,
                forall|k: int| 0 <= k < i ==> (#[trigger] a0[k].key@) != key@,
            ensures
                i <= self.attempts@.len(),
                self.attempts@ == a0,
                forall|k: int| 0 <= k < i ==> (#[trigger] a0[k].key@) != key@,
                i < self.attempts@.len() ==> a0[i as int].key@ == key@,
            decreases self.attempts@.len() - i,
        {
            if text::str_eq(self.attempts[i].key.as_str(), key) {
                break;
            }
            i = i + 1;
        }
        if i < self.attempts.len() {
            let mut count = self.attempts[i].count;
            let mut start = self.attempts[i].start;
            if (now as i128) - (start as i128) > WINDOW_SECS as i128 {
                count = 0;
                start = now;
            }
            if count < u32::MAX {
                count = count + 1;
            }
            let entry = Attempts { key: key.to_owned(), count, start };
            proof {
                assert(a0[i as int].key@ == key@);
                assert(m0.contains_key(key@));
            }
            self.attempts.set(i, entry);
            proof {
                self.clients@ = m0.insert(key@, (count, start));
                let a = self.attempts@;
                assert forall|p: int| 0 <= p < a.len() implies self.clients@.contains_key(
                    #[trigger] a[p].key@,
                ) && self.clients@[a[p].key@] == (a[p].count, a[p].start) by {
                    if p != i {
                        assert(a[p] == a0[p]);
                    }
                }
                assert forall|k: Seq<char>| self.clients@.contains_key(k) implies exists|p: int|
                    0 <= p < a.len() && (#[trigger] a[p].key@) == k by {
                    if k == key@ {
                        assert(a[i as int].key@ == k);
                    } else {
                        let p = choose|p: int| 0 <= p < a0.len() && (#[trigger] a0[p].key@) == k;
                        assert(a[p] == a0[p]);
                    }
                }
                assert forall|p: int, q: int| 0 <= p < q < a.len() implies a[p].key@ != a[q].key@ by {
                    if p != i {
                        assert(a[p] == a0[p]);
                    }
                    if q != i {
                        assert(a[q] == a0[q]);
                    }
                }
            }
            count <= CLIENT_BURST
        } else {
            proof {
                if m0.contains_key(key@) {
                    let p = choose|p: int| 0 <= p < a0.len() && (#[trigger] a0[p].key@) == key@;
                    assert(a0[p].key@ == key@);
                }
            }
            let count: u32 = 1;
            let entry = Attempts { key: key.to_owned(), count, start: now };
            self.attempts.push(entry);
            proof {
                self.clients@ = m0.insert(key@, (count, now));
                let a = self.attempts@;
                assert forall|p: int| 0 <= p < a.len() implies self.clients@.contains_key(
                    #[trigger] a[p].key@,
                ) && self.clients@[a[p].key@] == (a[p].count, a[p].start) by {
                    if p < a0.len() {
                        assert(a[p] == a0[p]);
                    }
                }
                assert forall|k: Seq<char>| self.clients@.contains_key(k) implies exists|p: int|
                    0 <= p < a.len() && (#[trigger] a[p].key@) == k by {
                    if k == key@ {
                        assert(a[a0.len() as int].key@ == k);
                    } else {
                        let p = choose|p: int| 0 <= p < a0.len() && (#[trigger] a0[p].key@) == k;
                        assert(a[p] == a0[p]);
                    }
                }
                assert forall|p: int, q: int| 0 <= p < q < a.len() implies a[p].key@ != a[q].key@ by {
                    assert(a[p] == a0[p]);
                    if q < a0.len() {
                        assert(a[q] == a0[q]);
                    }
                }
            }
            true
        }
    }

    /// One sign-in attempt from client `key` now.
    pub fn allow(&mut self, key: &str) -> (r: bool)
        requires
            old(self).wf(),
        ensures
            final(self).wf(),
            exists|now: i64|
                (final(self).global(), final(self).clients(), r) == #[trigger] limiter_step(
                    old(self).global(),
                    old(self).clients(),
                    key@,
                    now,
                ),
    {
        let now = unix_now();
        self.allow_at(key, now)
    }
}

// ---------------------------------------------------------------------------
// Sessions
// ---------------------------------------------------------------------------

/// The deadlines a session is given when it is issued or used: it idles out
/// `IDLE_DAYS` after `now` and expires `ABSOLUTE_DAYS` after `now`, both as
/// RFC 3339 text that reads back as those instants.
pub fn session_deadlines(now: (i64, u32)) -> (r: (String, String))
    requires
        crate::lan::RFC3339_MIN_SECS <= now.0,
        now.0 + ABSOLUTE_DAYS * 86400 <= crate::lan::RFC3339_MAX_SECS,
        now.1 < 1_000_000_000,
    ensures
        rfc3339_instant(r.0@) == Some(((now.0 + IDLE_DAYS * 86400) as i64, now.1)),
        rfc3339_instant(r.1@) == Some(((now.0 + ABSOLUTE_DAYS * 86400) as i64, now.1)),
{
    let idle = crate::lan::rfc3339_text(now.0 + IDLE_DAYS * 86400, now.1);
    let absolute = crate::lan::rfc3339_text(now.0 + ABSOLUTE_DAYS * 86400, now.1);
    (idle, absolute)
}

/// A session just issued: what the client is told about it, and its token.
#[derive(Debug)]
pub struct IssuedSession {
    pub info: SessionInfo,
    pub token: String,
}

/// The name a sign-in looks the account up by: the validated user name, or the
/// raw name trimmed when it is not a valid one.
pub open spec fn login_lookup_name(raw: Seq<char>) -> Seq<char> {
    if username_error(raw) is None {
        username_key(raw)
    } else {
        trim(raw)
    }
}

pub fn login_username(raw: &str) -> (r: String)
    ensures
        r@ == login_lookup_name(raw@),
{
    match validate_username(raw) {
        Ok(u) => u,
        Err(_) => {
            let v = text::chars_of(raw);
            let t = text::trim_exec(v.as_slice());
            text::string_of(t.as_slice())
        },
    }
}

/// Nanoseconds since the epoch of an instant given as seconds and nanoseconds.
pub open spec fn instant_nanos(t: (i64, u32)) -> int {
    t.0 * 1_000_000_000 + t.1
}

/// An account is locked while its lock deadline, when it reads as a timestamp, is
/// still in the future.
pub open spec fn account_locked_at(locked_until: Option<Seq<char>>, now: (i64, u32)) -> bool {
    match locked_until {
        Some(until) => match rfc3339_instant(until) {
            Some(t) => instant_nanos(t) > instant_nanos(now),
            None => false,
        },
        None => false,
    }
}

pub fn account_locked(locked_until: Option<&str>, now: (i64, u32)) -> (r: bool)
    ensures
        r == account_locked_at(opt_str_view(locked_until), now),
{
    match locked_until {
        Some(until) => match crate::lan::parse_rfc3339(until) {
            Some(t) => {
                let tn = (t.0 as i128) * 1_000_000_000 + (t.1 as i128);
                let nn = (now.0 as i128) * 1_000_000_000 + (now.1 as i128);
                tn > nn
            },
            None => false,
        },
        None => false,
    }
}

/// A session's token is replaced when its last rotation is more than seven days
/// ago, or cannot be read.
pub open spec fn needs_rotation(rotated_at: Seq<char>, now: (i64, u32)) -> bool {
    match rfc3339_instant(rotated_at) {
        Some(t) => instant_nanos(now) - instant_nanos(t) > ROTATE_AFTER_DAYS * 86400 * 1_000_000_000,
        None => true,
    }
}

pub fn session_needs_rotation(rotated_at: &str, now: (i64, u32)) -> (r: bool)
    ensures
        r == needs_rotation(rotated_at@, now),
{
    match crate::lan::parse_rfc3339(rotated_at) {
        Some(t) => {
            let tn = (t.0 as i128) * 1_000_000_000 + (t.1 as i128);
            let nn = (now.0 as i128) * 1_000_000_000 + (now.1 as i128);
            nn - tn > (ROTATE_AFTER_DAYS as i128) * 86400 * 1_000_000_000
        },
        None => true,
    }
}

// ---------------------------------------------------------------------------
// Signing in
// ---------------------------------------------------------------------------

/// Why a sign-in is refused.
#[derive(Debug, Clone, Copy, PartialEq, Eq, Structural)]
pub enum LoginRefusal {
    /// The client or the server as a whole asked too often.
    TooManyAttempts,
    /// No owner password has been set on the Mac yet.
    NotConfigured,
    /// No such account, or the password does not match.
    InvalidCredentials,
    Disabled,
    Locked,
}

pub open spec fn refusal_text(r: LoginRefusal) -> Seq<char> {
    match r {
        LoginRefusal::TooManyAttempts => "Too many sign-in attempts. Try again later."@,
        LoginRefusal::NotConfigured => "Remote sign-in is not configured yet. Set an owner password on the Mac."@,
        LoginRefusal::InvalidCredentials => "Invalid username or password"@,
        LoginRefusal::Disabled => "This account is disabled"@,
        LoginRefusal::Locked => "This account is locked. Try again later."@,
    }
}

impl LoginRefusal {
    /// The message the client is shown.
    pub fn message(&self) -> (r: &'static str)
        ensures
            r@ == refusal_text(*self),
    {
        match self {
            LoginRefusal::TooManyAttempts => "Too many sign-in attempts. Try again later.",
            LoginRefusal::NotConfigured => "Remote sign-in is not configured yet. Set an owner password on the Mac.",
            LoginRefusal::InvalidCredentials => "Invalid username or password",
            LoginRefusal::Disabled => "This account is disabled",
            LoginRefusal::Locked => "This account is locked. Try again later.",
        }
    }
}

/// The account found for a sign-in admits it when it is enabled, not locked, and
/// has a password hash that the given password matches. Only the last refusal
/// counts as a failed attempt.
pub open spec fn account_refusal(
    disabled: bool,
    locked_until: Option<Seq<char>>,
    password_hash: Seq<char>,
    password: Seq<char>,
    now: (i64, u32),
) -> Option<LoginRefusal> {
    if disabled {
        Some(LoginRefusal::Disabled)
    } else if account_locked_at(locked_until, now) {
        Some(LoginRefusal::Locked)
    } else if password_hash.len() == 0 || !argon2_verifies(password, password_hash) {
        Some(LoginRefusal::InvalidCredentials)
    } else {
        None
    }
}

pub fn check_account(account: &crate::db::UserRecord, password: &str, now: (i64, u32)) -> (r:
    Option<LoginRefusal>)
    ensures
        r == account_refusal(
            account.disabled,
            crate::chapter::opt_text(account.locked_until),
            account.password_hash@,
            password@,
            now,
        ),
{
    if account.disabled {
        return Some(LoginRefusal::Disabled);
    }
    let locked = match &account.locked_until {
        Some(until) => account_locked(Some(until.as_str()), now),
        None => account_locked(None, now),
    };
    if locked {
        return Some(LoginRefusal::Locked);
    }
    let hash = account.password_hash.as_str();
    if text::chars_of(hash).len() == 0 || !verify_password(password, hash) {
        return Some(LoginRefusal::InvalidCredentials);
    }
    None
}

// ---------------------------------------------------------------------------
// Household accounts
// ---------------------------------------------------------------------------

/// The names a new account is created with: the user name as `validate_username`
/// accepts it, and the display name trimmed, which must not be empty. The user
/// name is checked first.
pub open spec fn new_account_names(username: Seq<char>, display_name: Seq<char>) -> Result<
    (Seq<char>, Seq<char>),
    Seq<char>,
> {
    match username_error(username) {
        Some(m) => Err(m),
        None => if trim(display_name).len() == 0 {
            Err("Display name is required"@)
        } else {
            Ok((username_key(username), trim(display_name)))
        },
    }
}

pub fn account_names(username: &str, display_name: &str) -> (r: Result<(String, String), String>)
    ensures
        match new_account_names(username@, display_name@) {
            Ok((u, d)) => r matches Ok((ru, rd)) && ru@ == u && rd@ == d,
            Err(m) => r matches Err(e) && e@ == m,
        },
{
    let user = match validate_username(username) {
        Ok(u) => u,
        Err(e) => return Err(e),
    };
    let v = text::chars_of(display_name);
    let t = text::trim_exec(v.as_slice());
    if t.len() == 0 {
        return Err(text::string_of(text::chars_of("Display name is required").as_slice()));
    }
    Ok((user, text::string_of(t.as_slice())))
}

// ---------------------------------------------------------------------------
// Lockout after failed sign-ins
// ---------------------------------------------------------------------------

/// After a failed sign-in that brings an account's count of failures to
/// `attempts`, the account is locked for `lock_minutes` from `now` once the count
/// reaches `lock_after`.
pub open spec fn lockout_deadline_of(attempts: i64, lock_after: i64, lock_minutes: i64, now: (
    i64,
    u32,
)) -> Option<(i64, u32)> {
    if attempts >= lock_after {
        Some(((now.0 + lock_minutes * 60) as i64, now.1))
    } else {
        None
    }
}

pub fn lockout_deadline(attempts: i64, lock_after: i64, lock_minutes: i64, now: (i64, u32)) -> (r:
    Option<(i64, u32)>)
    requires
        attempts >= lock_after ==> i64::MIN <= now.0 + lock_minutes * 60 <= i64::MAX,
    ensures
        r == lockout_deadline_of(attempts, lock_after, lock_minutes, now),
{
    if attempts >= lock_after {
        let secs: i128 = (now.0 as i128) + (lock_minutes as i128) * 60;
        Some((secs as i64, now.1))
    } else {
        None
    }
}

/// The `locked_until` text stored after a failed sign-in that brings the
/// account's count of failures to `attempts`: none below `LOCKOUT_AFTER`, else
/// `LOCKOUT_MINUTES` after `now`, as RFC 3339 text that reads back as that instant.
pub fn lockout_text(attempts: i64, now: (i64, u32)) -> (r: Option<String>)
    requires
        crate::lan::RFC3339_MIN_SECS <= now.0,
        now.0 + LOCKOUT_MINUTES * 60 <= crate::lan::RFC3339_MAX_SECS,
        now.1 < 1_000_000_000,
    ensures
        match lockout_deadline_of(attempts, LOCKOUT_AFTER, LOCKOUT_MINUTES, now) {
            Some(d) => r matches Some(t) && rfc3339_instant(t@) == Some(d),
            None => r is None,
        },
{
    match lockout_deadline(attempts, LOCKOUT_AFTER, LOCKOUT_MINUTES, now) {
        Some((secs, nanos)) => Some(crate::lan::rfc3339_text(secs, nanos)),
        None => None,
    }
}

/// Eight failed sign-ins lock the account for fifteen minutes: a deadline that
/// reads as the one set after the eighth failure keeps the account locked until
/// fifteen minutes have passed, and no longer.
pub proof fn lemma_eight_failures_lock(now: (i64, u32), deadline_text: Seq<char>, t: (i64, u32))
    requires
        now.0 <= i64::MAX - 60_000_000,
        rfc3339_instant(deadline_text) == lockout_deadline_of(
            LOCKOUT_AFTER,
            LOCKOUT_AFTER,
            LOCKOUT_MINUTES,
            now,
        ),
    ensures
        instant_nanos(now) <= instant_nanos(t) < instant_nanos(now) + LOCKOUT_MINUTES * 60
            * 1_000_000_000 ==> account_locked_at(Some(deadline_text), t),
        instant_nanos(t) >= instant_nanos(now) + LOCKOUT_MINUTES * 60 * 1_000_000_000
            ==> !account_locked_at(Some(deadline_text), t),
{
}

/// Across sign-ins: once an account's count of failures since its last successful
/// sign-in reaches eight (`failures`, as the store counts them) and `lockout_text`
/// has stored the deadline for the failure made at `now`, a sign-in within fifteen
/// minutes is refused as locked even with the right password, and one after
/// fifteen minutes with the right password is admitted (for an enabled account
/// with a password).
pub proof fn lemma_locked_account_refuses_sign_in(
    failures: i64,
    now: (i64, u32),
    locked_until: Seq<char>,
    password_hash: Seq<char>,
    password: Seq<char>,
    t: (i64, u32),
)
    requires
        failures >= LOCKOUT_AFTER,
        now.0 <= i64::MAX - 60_000_000,
        rfc3339_instant(locked_until) == lockout_deadline_of(
            failures,
            LOCKOUT_AFTER,
            LOCKOUT_MINUTES,
            now,
        ),
    ensures
        instant_nanos(now) <= instant_nanos(t) < instant_nanos(now) + LOCKOUT_MINUTES * 60
            * 1_000_000_000 ==> account_refusal(false, Some(locked_until), password_hash, password, t)
            == Some(LoginRefusal::Locked),
        instant_nanos(t) >= instant_nanos(now) + LOCKOUT_MINUTES * 60 * 1_000_000_000 && password_hash.len()
            > 0 && argon2_verifies(password, password_hash) ==> account_refusal(
            false,
            Some(locked_until),
            password_hash,
            password,
            t,
        ) is None,
{
}

} // verus!
