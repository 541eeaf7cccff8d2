//! The public hostname of the Cloudflare tunnel, and reading the tunnel's log.
use vstd::prelude::*;
use crate::text;
use crate::paths::path_join;
use crate::text::{
    ascii_lower, before_char, contains, decimal, has_char, is_ascii_alpha, pieces, trim,
    trim_end_char, trim_start_str,
};

verus! {

/// `https://Shelf.example.com/path` → `shelf.example.com`: scheme, path and port
/// dropped, trailing dots removed, lowercased.
pub open spec fn hostname_core(raw: Seq<char>) -> Seq<char> {
    let a = trim_start_str(trim_start_str(trim(raw), "https://"@), "http://"@);
    ascii_lower(trim_end_char(before_char(before_char(a, '/'), ':'), '.'))
}

/// A usable public hostname: non-empty, without spaces, with at least one dot.
pub open spec fn hostname_ok(h: Seq<char>) -> bool {
    h.len() > 0 && !has_char(h, ' ') && has_char(h, '.')
}

pub fn normalize_hostname(raw: &str) -> (r: Result<String, String>)
    ensures
        r matches Ok(h) ==> hostname_ok(hostname_core(raw@)) && h@ == hostname_core(raw@),
        r is Err ==> !hostname_ok(hostname_core(raw@)),
        r matches Err(m) ==> m@ == "Enter a hostname like shelf.example.com"@,
{
    let v = text::chars_of(raw);
    let t = text::trim_exec(v.as_slice());
    let https = text::chars_of("https://");
    let http = text::chars_of("http://");
    let a = text::trim_start_str_exec(t.as_slice(), https.as_slice());
    let b = text::trim_start_str_exec(a.as_slice(), http.as_slice());
    let c = text::before_char_exec(b.as_slice(), '/');
    let d = text::before_char_exec(c.as_slice(), ':');
    let e = text::trim_end_char_exec(d.as_slice(), '.');
    let host = text::lower_all(e.as_slice());
    if host.len() == 0 || text::has_char_exec(host.as_slice(), ' ') || !text::has_char_exec(
        host.as_slice(),
        '.',
    ) {
        return Err(text::string_of(text::chars_of("Enter a hostname like shelf.example.com").as_slice()));
    }
    Ok(text::string_of(host.as_slice()))
}

pub open spec fn public_url_of(host: Seq<char>) -> Option<Seq<char>> {
    let h = trim(host);
    if h.len() == 0 {
        None
    } else {
        Some("https://"@ + h)
    }
}

pub fn public_url_for_hostname(host: &str) -> (r: Option<String>)
    ensures
        match r {
            Some(u) => public_url_of(host@) == Some(u@),
            None => public_url_of(host@) is None,
        },
{
    let v = text::chars_of(host);
    let h = text::trim_exec(v.as_slice());
    if h.len() == 0 {
        return None;
    }
    let mut out = text::chars_of("https://");
    text::push_all(&mut out, h.as_slice());
    Some(text::string_of(out.as_slice()))
}

pub open spec fn host_key(s: Seq<char>) -> Seq<char> {
    ascii_lower(trim_end_char(trim(s), '.'))
}

/// A request host is the configured public host or its `www.` form, compared
/// without case, surrounding space and trailing dots.
pub open spec fn matches_configured(request_host: Seq<char>, configured: Seq<char>) -> bool {
    let h = host_key(request_host);
    let c = host_key(configured);
    h.len() > 0 && c.len() > 0 && (h == c || h == "www."@ + c)
}

pub fn host_matches_configured(request_host: &str, configured: &str) -> (r: bool)
    ensures
        r == matches_configured(request_host@, configured@),
{
    let hv = text::chars_of(request_host);
    let ht = text::trim_exec(hv.as_slice());
    let hd = text::trim_end_char_exec(ht.as_slice(), '.');
    let host = text::lower_all(hd.as_slice());
    let cv = text::chars_of(configured);
    let ct = text::trim_exec(cv.as_slice());
    let cd = text::trim_end_char_exec(ct.as_slice(), '.');
    let conf = text::lower_all(cd.as_slice());
    if host.len() == 0 || conf.len() == 0 {
        return false;
    }
    if text::seq_eq(host.as_slice(), conf.as_slice()) {
        return true;
    }
    let mut www = text::chars_of("www.");
    text::push_all(&mut www, conf.as_slice());
    text::seq_eq(host.as_slice(), www.as_slice())
}

/// A log line that reports a registered tunnel connection.
pub open spec fn tunnel_ready_line(line: Seq<char>) -> bool {
    let l = ascii_lower(line);
    contains(l, "registered tunnel connection"@) || contains(l, "connindex"@)
}

/// A log line that reports a failure worth showing.
pub open spec fn tunnel_error_line(line: Seq<char>) -> bool {
    let l = ascii_lower(line);
    ||| contains(l, "error"@)
    ||| contains(l, "denied"@)
    ||| contains(l, "failed"@)
    ||| contains(l, "unauthorized"@)
    ||| contains(l, "could not"@)
    ||| contains(l, "refused"@)
}

pub fn looks_like_tunnel_ready(line: &str) -> (r: bool)
    ensures
        r == tunnel_ready_line(line@),
{
    let v = text::chars_of(line);
    let lower = text::lower_all(v.as_slice());
    text::str_contains(lower.as_slice(), "registered tunnel connection") || text::str_contains(
        lower.as_slice(),
        "connindex",
    )
}

pub fn looks_like_tunnel_error(line: &str) -> (r: bool)
    ensures
        r == tunnel_error_line(line@),
{
    let v = text::chars_of(line);
    let l = text::lower_all(v.as_slice());
    let s = l.as_slice();
    text::str_contains(s, "error") || text::str_contains(s, "denied") || text::str_contains(
        s,
        "failed",
    ) || text::str_contains(s, "unauthorized") || text::str_contains(s, "could not")
        || text::str_contains(s, "refused")
}

/// The line, trimmed; cut to 117 characters and an ellipsis when longer than 120.
pub open spec fn tunnel_error_summary(line: Seq<char>) -> Seq<char> {
    let t = trim(line);
    if t.len() > 120 {
        t.take(117) + seq!['…']
    } else {
        t
    }
}

pub fn summarize_tunnel_error(line: &str) -> (r: String)
    ensures
        r@ == tunnel_error_summary(line@),
{
    let v = text::chars_of(line);
    let t = text::trim_exec(v.as_slice());
    if t.len() > 120 {
        let mut cut = text::copy_range(t.as_slice(), 0, 117);
        cut.push('…');
        text::string_of(cut.as_slice())
    } else {
        text::string_of(t.as_slice())
    }
}

/// `line` with each `ESC [` sequence removed up to and including its first ASCII
/// letter (to the end of the line when none follows).
pub open spec fn strip_ansi_of(s: Seq<char>) -> Seq<char>
    decreases s.len(),
{
    if s.len() == 0 {
        Seq::empty()
    } else if s.len() >= 2 && s[0] == '\u{1b}' && s[1] == '[' {
        let body = s.skip(2);
        let k = first_alpha(body);
        if 0 <= k < body.len() {
            strip_ansi_of(body.skip(k + 1))
        } else {
            Seq::empty()
        }
    } else {
        seq![s[0]] + strip_ansi_of(s.skip(1))
    }
}

/// Index of the first ASCII letter of `s`, or `s.len()`.
pub open spec fn first_alpha(s: Seq<char>) -> int
    decreases s.len(),
{
    if s.len() == 0 {
        0
    } else if is_ascii_alpha(s[0]) {
        0
    } else {
        1 + first_alpha(s.skip(1))
    }
}

pub proof fn lemma_first_alpha(s: Seq<char>)
    ensures
        0 <= first_alpha(s) <= s.len(),
        forall|j: int| 0 <= j < first_alpha(s) ==> !is_ascii_alpha(s[j]),
        first_alpha(s) < s.len() ==> is_ascii_alpha(s[first_alpha(s)]),
    decreases s.len(),
{
    if s.len() > 0 && !is_ascii_alpha(s[0]) {
        lemma_first_alpha(s.skip(1));
        assert forall|j: int| 0 <= j < first_alpha(s) implies !is_ascii_alpha(s[j]) by {
            if j > 0 {
                assert(s[j] == s.skip(1)[j - 1]);
            }
        }
    }
}

pub fn strip_ansi(line: &str) -> (r: String)
    ensures
        r@ == strip_ansi_of(line@),
{
    let v = text::chars_of(line);
    let n = v.len();
    let mut out: Vec<char> = Vec::new();
    let mut i: usize = 0;
    assert(v@.skip(0) =~= v@);
    while i < n
        invariant
            n == v@.len(),
            i <= n,
            out@ + strip_ansi_of(v@.skip(i as int)) == strip_ansi_of(line@),
            v@ == line@,
        decreases n - i,
    {
        let ghost rest = v@.skip(i as int);
        if v[i] == '\u{1b}' && i + 1 < n && v[i + 1] == '[' {
            proof {
                assert(rest[0] == v@[i as int] && rest[1] == v@[i + 1]);
                lemma_first_alpha(rest.skip(2));
            }
            let mut j: usize = i + 2;
            while j < n && !text::char_is_ascii_alpha(v[j])
                invariant
                    n == v@.len(),
                    i + 2 <= j <= n,
                    rest == v@.skip(i as int),
                    forall|k: int| i + 2 <= k < j ==> !is_ascii_alpha(v@[k]),
                decreases n - j,
            {
                j = j + 1;
            }
            proof {
                let body = rest.skip(2);
                lemma_first_alpha(body);
                assert(body =~= v@.skip(i + 2));
                assert forall|k: int| 0 <= k < j - i - 2 implies !is_ascii_alpha(body[k]) by {
                    assert(body[k] == v@[i + 2 + k]);
                }
                if j < n {
                    assert(body[j - i - 2] == v@[j as int]);
                }
                assert(first_alpha(body) == j - i - 2);
            }
            if j < n {
                proof {
                    assert(rest.skip(2).skip(j - i - 1) =~= v@.skip(j + 1));
                }
                i = j + 1;
            } else {
                proof {
                    assert(v@.skip(n as int) =~= Seq::<char>::empty());
                }
                i = n;
            }
        } else {
            proof {
                assert(rest[0] == v@[i as int]);
                if rest.len() >= 2 {
                    assert(rest[1] == v@[i + 1]);
                }
                assert(rest.skip(1) =~= v@.skip(i + 1));
            }
            let ghost old_out = out@;
            out.push(v[i]);
            proof {
                assert(out@ + strip_ansi_of(v@.skip(i + 1)) =~= old_out + strip_ansi_of(rest));
            }
            i = i + 1;
        }
    }
    proof {
        assert(v@.skip(n as int) =~= Seq::<char>::empty());
        assert(out@ =~= strip_ansi_of(line@));
    }
    text::string_of(out.as_slice())
}

/// Seconds to wait before restart number `n` of the tunnel: doubling from 2 up to
/// a ceiling of 15.
pub open spec fn restart_delay(n: u32) -> int {
    let e = if n < 4 { n as int } else { 4 };
    let p = if e == 0 { 1int } else if e == 1 { 2 } else if e == 2 { 4 } else if e == 3 { 8 } else { 16 };
    if p < 15 { p } else { 15 }
}

pub fn restart_delay_secs(n: u32) -> (r: u64)
    ensures
        r == restart_delay(n),
{
    let e = if n < 4 { n } else { 4 };
    let p: u64 = if e == 0 { 1 } else if e == 1 { 2 } else if e == 2 { 4 } else if e == 3 { 8 } else { 16 };
    if p < 15 { p } else { 15 }
}

/// The public hostname: the stored one when it normalizes, else the one from the
/// environment when it does; nothing otherwise.
pub open spec fn resolved_hostname(stored: Option<Seq<char>>, env_value: Option<Seq<char>>) -> Option<
    Seq<char>,
> {
    if stored matches Some(s) && hostname_ok(hostname_core(s)) {
        Some(hostname_core(stored->0))
    } else if env_value matches Some(e) && hostname_ok(hostname_core(e)) {
        Some(hostname_core(env_value->0))
    } else {
        None
    }
}

pub fn resolve_hostname(stored: Option<&str>, env_value: Option<&str>) -> (r: Option<String>)
    ensures
        match r {
            Some(h) => resolved_hostname(crate::lan::opt_str_view(stored), crate::lan::opt_str_view(env_value)) == Some(h@),
            None => resolved_hostname(crate::lan::opt_str_view(stored), crate::lan::opt_str_view(env_value)) is None,
        },
{
    if let Some(s) = stored {
        if let Ok(h) = normalize_hostname(s) {
            return Some(h);
        }
    }
    if let Some(e) = env_value {
        if let Ok(h) = normalize_hostname(e) {
            return Some(h);
        }
    }
    None
}

/// A tunnel token as stored or given: trimmed, and only when something is left.
pub open spec fn token_of(raw: Seq<char>) -> Option<Seq<char>> {
    if trim(raw).len() > 0 {
        Some(trim(raw))
    } else {
        None
    }
}

pub fn usable_token(raw: &str) -> (r: Option<String>)
    ensures
        match r {
            Some(t) => token_of(raw@) == Some(t@),
            None => token_of(raw@) is None,
        },
{
    let v = text::chars_of(raw);
    let t = text::trim_exec(v.as_slice());
    if t.len() > 0 {
        Some(text::string_of(t.as_slice()))
    } else {
        None
    }
}

/// The token to keep in the keychain, or why none can be saved.
pub fn token_to_save(token: &str) -> (r: Result<String, String>)
    ensures
        match token_of(token@) {
            Some(t) => (r matches Ok(k) && k@ == t),
            None => (r matches Err(m) && m@ == "Cloud tunnel token is empty"@),
        },
{
    match usable_token(token) {
        Some(t) => Ok(t),
        None => Err(text::string_of(text::chars_of("Cloud tunnel token is empty").as_slice())),
    }
}

/// The token a named tunnel is started with, or why it cannot start.
pub fn token_to_start(token: &str) -> (r: Result<String, String>)
    ensures
        match token_of(token@) {
            Some(t) => (r matches Ok(k) && k@ == t),
            None => (r matches Err(m) && m@ == "Cloud tunnel token is not configured"@),
        },
{
    match usable_token(token) {
        Some(t) => Ok(t),
        None => Err(text::string_of(text::chars_of("Cloud tunnel token is not configured").as_slice())),
    }
}

/// Why remote access cannot be switched on, checked in order: an owner password, a
/// public hostname and the `cloudflared` program are needed.
pub open spec fn remote_start_problem(owner_password_set: bool, hostname: Seq<char>, cloudflared: bool) -> Option<
    Seq<char>,
> {
    if !owner_password_set {
        Some("Set an owner password before enabling remote access"@)
    } else if hostname.len() == 0 {
        Some("Set a public hostname before enabling remote access"@)
    } else if !cloudflared {
        Some("Install cloudflared: brew install cloudflare/cloudflare/cloudflared"@)
    } else {
        None
    }
}

pub fn remote_start_check(owner_password_set: bool, hostname: &str, cloudflared: bool) -> (r: Result<(), String>)
    ensures
        match remote_start_problem(owner_password_set, hostname@, cloudflared) {
            Some(m) => (r matches Err(e) && e@ == m),
            None => r is Ok,
        },
{
    if !owner_password_set {
        return Err(
            text::string_of(text::chars_of("Set an owner password before enabling remote access").as_slice()),
        );
    }
    if text::chars_of(hostname).len() == 0 {
        return Err(
            text::string_of(text::chars_of("Set a public hostname before enabling remote access").as_slice()),
        );
    }
    if !cloudflared {
        return Err(
            text::string_of(
                text::chars_of("Install cloudflared: brew install cloudflare/cloudflare/cloudflared").as_slice(),
            ),
        );
    }
    Ok(())
}

/// What one line of the tunnel's log changes.
#[derive(Debug, Clone)]
pub enum LogUpdate {
    /// The tunnel reports a registered connection: it is running.
    Ready,
    /// The line reports a failure; this is the summary to keep.
    Failure(String),
    /// Nothing to note.
    Nothing,
}

pub open spec fn log_update_of(line: Seq<char>) -> Option<Option<Seq<char>>> {
    let l = strip_ansi_of(line);
    if tunnel_ready_line(l) {
        Some(None)
    } else if tunnel_error_line(l) {
        Some(Some(tunnel_error_summary(l)))
    } else {
        None
    }
}

/// Reads a log line with its colour codes removed: a ready line first, else an
/// error line's summary.
pub fn classify_log_line(line: &str) -> (r: LogUpdate)
    ensures
        match r {
            LogUpdate::Ready => log_update_of(line@) == Some(None::<Seq<char>>),
            LogUpdate::Failure(m) => log_update_of(line@) == Some(Some(m@)),
            LogUpdate::Nothing => log_update_of(line@) is None,
        },
{
    let l = strip_ansi(line);
    if looks_like_tunnel_ready(l.as_str()) {
        LogUpdate::Ready
    } else if looks_like_tunnel_error(l.as_str()) {
        LogUpdate::Failure(summarize_tunnel_error(l.as_str()))
    } else {
        LogUpdate::Nothing
    }
}

/// The status shown while a dead tunnel waits to restart.
pub open spec fn restart_status_of(detail: Seq<char>, delay: u64) -> Seq<char> {
    if detail.len() == 0 {
        "restarting in "@ + decimal(delay as nat) + "s"@
    } else {
        detail + " · retry in "@ + decimal(delay as nat) + "s"@
    }
}

pub fn restart_status(detail: &str, delay: u64) -> (r: String)
    ensures
        r@ == restart_status_of(detail@, delay),
{
    let d = text::u64_to_decimal(delay);
    let v = text::chars_of(detail);
    let mut out = if v.len() == 0 {
        text::chars_of("restarting in ")
    } else {
        let mut o = v;
        text::push_str(&mut o, " · retry in ");
        o
    };
    text::push_all(&mut out, d.as_slice());
    text::push_str(&mut out, "s");
    text::string_of(out.as_slice())
}

/// Where `cloudflared` is looked for, in order: `cloudflared` in each directory of
/// `PATH` (split at `:`), then the Homebrew locations for Apple silicon and Intel.
pub open spec fn in_dir() -> spec_fn(Seq<char>) -> Seq<char> {
    |d: Seq<char>| path_join(d, "cloudflared"@)
}

pub open spec fn cloudflared_candidate_list(path_var: Option<Seq<char>>) -> Seq<Seq<char>> {
    let dirs = match path_var {
        Some(p) => pieces(p, ':').map_values(in_dir()),
        None => Seq::empty(),
    };
    dirs + seq!["/opt/homebrew/bin/cloudflared"@, "/usr/local/bin/cloudflared"@]
}

pub fn cloudflared_candidates(path_var: Option<&str>) -> (r: Vec<String>)
    ensures
        crate::media::path_views(r@) == cloudflared_candidate_list(crate::lan::opt_str_view(path_var)),
{
    let mut out: Vec<String> = Vec::new();
    let ghost dirs: Seq<Seq<char>> = Seq::empty();
    if let Some(p) = path_var {
        let v = text::chars_of(p);
        let ps = text::pieces_exec(v.as_slice(), ':');
        let name = text::chars_of("cloudflared");
        let mut i: usize = 0;
        while i < ps.len()
            invariant
                i <= ps@.len(),
                ps@.len() == pieces(p@, ':').len(),
                forall|k: int| 0 <= k < ps@.len() ==> (#[trigger] ps@[k])@ == pieces(p@, ':')[k],
                name@ == "cloudflared"@,
                crate::media::path_views(out@) == pieces(p@, ':').take(i as int).map_values(in_dir()),
            decreases ps@.len() - i,
        {
            let j = crate::paths::path_join_exec(ps[i].as_slice(), name.as_slice());
            let ghost old_out = out@;
            let js = text::string_of(j.as_slice());
            out.push(js);
            proof {
                assert(pieces(p@, ':').take(i + 1) =~= pieces(p@, ':').take(i as int).push(
                    pieces(p@, ':')[i as int],
                ));
                assert(crate::media::path_views(out@) =~= crate::media::path_views(old_out).push(
                    j@,
                ));
                assert(j@ == in_dir()(pieces(p@, ':')[i as int]));
                assert(crate::media::path_views(out@) =~= pieces(p@, ':').take(i + 1).map_values(
                    in_dir(),
                ));
            }
            i = i + 1;
        }
        proof {
            assert(pieces(p@, ':').take(ps@.len() as int) =~= pieces(p@, ':'));
        }
    }
    let ghost before = crate::media::path_views(out@);
    out.push(text::string_of(text::chars_of("/opt/homebrew/bin/cloudflared").as_slice()));
    out.push(text::string_of(text::chars_of("/usr/local/bin/cloudflared").as_slice()));
    assert(crate::media::path_views(out@) =~= before + seq![
        "/opt/homebrew/bin/cloudflared"@,
        "/usr/local/bin/cloudflared"@,
    ]);
    out
}

/// The `cloudflared` arguments that run the named tunnel a token stands for,
/// without checking for updates.
pub fn tunnel_run_args(token: &str) -> (r: [&str; 5])
    ensures
        r@[0]@ == "tunnel"@,
        r@[1]@ == "--no-autoupdate"@,
        r@[2]@ == "run"@,
        r@[3]@ == "--token"@,
        r@[4]@ == token@,
{
    ["tunnel", "--no-autoupdate", "run", "--token", token]
}

} // verus!
