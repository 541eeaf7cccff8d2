//! What the web server reads from requests and decides on plain values: session
//! tokens, the request host and scheme, security headers, redirects, upload names
//! and offsets, and which static files may be served.
use vstd::prelude::*;
use vstd::utf8::encode_utf8;
use crate::lan::opt_str_view;
use crate::paths::{extension, file_name, file_stem};
use crate::text;
use crate::text::{
    ascii_lower, before_char, contains, decimal, ends_with, has_char, parse_uint, pieces,
    signed_decimal, starts_with, trim, trim_start_char,
};
use crate::tunnel::matches_configured;

verus! {

// ---------------------------------------------------------------------------
// Tokens
// ---------------------------------------------------------------------------

/// The first `;`-separated cookie that, trimmed, is `shelf_session=` followed by a
/// value that is not blank; the value, trimmed.
pub open spec fn session_from_parts(ps: Seq<Seq<char>>) -> Option<Seq<char>>
    decreases ps.len(),
{
    if ps.len() == 0 {
        None
    } else {
        let p = trim(ps[0]);
        let pre = "shelf_session="@;
        if starts_with(p, pre) && trim(p.skip(pre.len() as int)).len() > 0 {
            Some(trim(p.skip(pre.len() as int)))
        } else {
            session_from_parts(ps.drop_first())
        }
    }
}

pub open spec fn cookie_session(cookie: Option<Seq<char>>) -> Option<Seq<char>> {
    match cookie {
        Some(c) => session_from_parts(pieces(c, ';')),
        None => None,
    }
}

/// The session token in a `Cookie` header value.
pub fn cookie_token(cookie: Option<&str>) -> (r: Option<String>)
    ensures
        match r {
            Some(t) => cookie_session(opt_str_view(cookie)) == Some(t@),
            None => cookie_session(opt_str_view(cookie)) is None,
        },
{
    let c = match cookie {
        Some(c) => c,
        None => return None,
    };
    let v = text::chars_of(c);
    let ps = text::pieces_exec(v.as_slice(), ';');
    let ghost all = pieces(c@, ';');
    let mut i: usize = 0;
    proof {
        assert(all.skip(0) =~= all);
    }
    while i < ps.len()
        invariant
            i <= ps@.len(),
            ps@.len() == all.len(),
            forall|k: int| 0 <= k < ps@.len() ==> (#[trigger] ps@[k])@ == all[k],
            session_from_parts(all) == session_from_parts(all.skip(i as int)),
            cookie_session(opt_str_view(cookie)) == session_from_parts(all),
        decreases ps@.len() - i,
    {
        let part = text::trim_exec(ps[i].as_slice());
        proof {
            assert(all.skip(i as int)[0] == all[i as int]);
            assert(all.skip(i as int).drop_first() =~= all.skip(i + 1));
        }
        if let Some(rest) = text::strip_prefix_exec(part.as_slice(), "shelf_session=") {
            let value = text::trim_exec(rest.as_slice());
            if value.len() > 0 {
                proof {
                    assert(part@ == trim(all.skip(i as int)[0]));
                    assert(session_from_parts(all.skip(i as int)) == Some(value@));
                }
                return Some(text::string_of(value.as_slice()));
            }
        }
        i = i + 1;
    }
    proof {
        assert(all.skip(i as int) =~= Seq::<Seq<char>>::empty());
    }
    None
}

pub open spec fn bearer_of(authorization: Option<Seq<char>>) -> Option<Seq<char>> {
    match authorization {
        Some(a) => if starts_with(a, "Bearer "@) {
            Some(a.skip("Bearer "@.len() as int))
        } else {
            None
        },
        None => None,
    }
}

/// The token of an `Authorization: Bearer …` header value.
pub fn bearer_token(authorization: Option<&str>) -> (r: Option<String>)
    ensures
        match r {
            Some(t) => bearer_of(opt_str_view(authorization)) == Some(t@),
            None => bearer_of(opt_str_view(authorization)) is None,
        },
{
    match authorization {
        Some(a) => {
            let v = text::chars_of(a);
            match text::strip_prefix_exec(v.as_slice(), "Bearer ") {
                Some(rest) => Some(text::string_of(rest.as_slice())),
                None => None,
            }
        },
        None => None,
    }
}

// ---------------------------------------------------------------------------
// Host and scheme
// ---------------------------------------------------------------------------

/// The `Host` header without its port, trimmed and lowercased (empty when absent).
pub open spec fn host_of(host: Option<Seq<char>>) -> Seq<char> {
    let h = match host {
        Some(h) => h,
        None => Seq::empty(),
    };
    ascii_lower(trim(before_char(h, ':')))
}

pub fn request_host(host: Option<&str>) -> (r: String)
    ensures
        r@ == host_of(opt_str_view(host)),
{
    let v = match host {
        Some(h) => text::chars_of(h),
        None => Vec::new(),
    };
    let a = text::before_char_exec(v.as_slice(), ':');
    let b = text::trim_exec(a.as_slice());
    let c = text::lower_all(b.as_slice());
    text::string_of(c.as_slice())
}

/// The request reached the tunnel over HTTPS: the first `X-Forwarded-Proto` value is
/// `https` (any case), or Cloudflare's `CF-Visitor` names the `https` scheme.
pub open spec fn https_request(forwarded_proto: Option<Seq<char>>, cf_visitor: Option<Seq<char>>) -> bool {
    ||| (forwarded_proto matches Some(p) && ascii_lower(trim(before_char(p, ','))) == "https"@)
    ||| (cf_visitor matches Some(v) && contains(ascii_lower(v), "\"scheme\":\"https\""@))
}

pub fn request_is_https(forwarded_proto: Option<&str>, cf_visitor: Option<&str>) -> (r: bool)
    ensures
        r == https_request(opt_str_view(forwarded_proto), opt_str_view(cf_visitor)),
{
    if let Some(p) = forwarded_proto {
        let v = text::chars_of(p);
        let first = text::before_char_exec(v.as_slice(), ',');
        let t = text::trim_exec(first.as_slice());
        let l = text::lower_all(t.as_slice());
        if text::lit_eq(l.as_slice(), "https") {
            return true;
        }
    }
    match cf_visitor {
        Some(c) => {
            let v = text::chars_of(c);
            let l = text::lower_all(v.as_slice());
            text::str_contains(l.as_slice(), "\"scheme\":\"https\"")
        },
        None => false,
    }
}

/// The cookie domain to set: the configured public host, when the request came in
/// through it.
pub open spec fn cookie_domain_of(host: Option<Seq<char>>, configured: Seq<char>) -> Option<Seq<char>> {
    if configured.len() == 0 {
        None
    } else if matches_configured(host_of(host), configured) {
        Some(configured)
    } else {
        None
    }
}

pub fn public_cookie_domain(host: Option<&str>, configured: &str) -> (r: Option<String>)
    ensures
        match r {
            Some(d) => cookie_domain_of(opt_str_view(host), configured@) == Some(d@),
            None => cookie_domain_of(opt_str_view(host), configured@) is None,
        },
{
    let h = request_host(host);
    let cv = text::chars_of(configured);
    if cv.len() == 0 {
        return None;
    }
    if crate::tunnel::host_matches_configured(h.as_str(), configured) {
        Some(text::string_of(cv.as_slice()))
    } else {
        None
    }
}

/// The client a sign-in is counted against: Cloudflare's `CF-Connecting-IP` when
/// given and not blank, else the peer address, else `unknown`.
pub open spec fn client_key(cf_connecting_ip: Option<Seq<char>>, peer_ip: Option<Seq<char>>) -> Seq<char> {
    if cf_connecting_ip matches Some(c) && trim(c).len() > 0 {
        trim(cf_connecting_ip->0)
    } else {
        match peer_ip {
            Some(p) => p,
            None => "unknown"@,
        }
    }
}

pub fn client_ip(cf_connecting_ip: Option<&str>, peer_ip: Option<&str>) -> (r: String)
    ensures
        r@ == client_key(opt_str_view(cf_connecting_ip), opt_str_view(peer_ip)),
{
    if let Some(c) = cf_connecting_ip {
        let v = text::chars_of(c);
        let t = text::trim_exec(v.as_slice());
        if t.len() > 0 {
            return text::string_of(t.as_slice());
        }
    }
    match peer_ip {
        Some(p) => text::string_of(text::chars_of(p).as_slice()),
        None => text::string_of(text::chars_of("unknown").as_slice()),
    }
}

// ---------------------------------------------------------------------------
// Response headers and redirects
// ---------------------------------------------------------------------------

pub const CSP: &'static str = "default-src 'self'; img-src 'self' blob: data:; media-src 'self' blob:; style-src 'self' 'unsafe-inline'; script-src 'self'; connect-src 'self'; font-src 'self'; frame-ancestors 'none'; base-uri 'self'; form-action 'self'";

pub const CSP_HTTPS: &'static str = "default-src 'self'; img-src 'self' blob: data:; media-src 'self' blob:; style-src 'self' 'unsafe-inline'; script-src 'self'; connect-src 'self'; font-src 'self'; frame-ancestors 'none'; base-uri 'self'; form-action 'self'; upgrade-insecure-requests";

pub open spec fn header_views(h: Seq<(&'static str, &'static str)>) -> Seq<(Seq<char>, Seq<char>)> {
    h.map_values(|p: (&'static str, &'static str)| (p.0@, p.1@))
}

/// The headers every response carries; over HTTPS the policy also upgrades
/// insecure requests and Strict-Transport-Security is added.
pub open spec fn security_header_list(https: bool) -> Seq<(Seq<char>, Seq<char>)> {
    let base = seq![
        ("x-content-type-options"@, "nosniff"@),
        ("x-frame-options"@, "DENY"@),
        ("referrer-policy"@, "no-referrer"@),
        ("content-security-policy"@, if https { CSP_HTTPS@ } else { CSP@ }),
    ];
    if https {
        base.push(("strict-transport-security"@, "max-age=31536000; includeSubDomains"@))
    } else {
        base
    }
}

pub fn security_headers(https: bool) -> (r: Vec<(&'static str, &'static str)>)
    ensures
        header_views(r@) == security_header_list(https),
{
    let mut r: Vec<(&'static str, &'static str)> = Vec::new();
    r.push(("x-content-type-options", "nosniff"));
    r.push(("x-frame-options", "DENY"));
    r.push(("referrer-policy", "no-referrer"));
    r.push(("content-security-policy", if https { CSP_HTTPS } else { CSP }));
    if https {
        r.push(("strict-transport-security", "max-age=31536000; includeSubDomains"));
    }
    assert(header_views(r@) =~= security_header_list(https));
    r
}

/// Where a plain-HTTP `GET` or `HEAD` that came in through the public host is sent:
/// the same path on `https://` and the configured host. Other requests pass.
pub open spec fn redirect_of(
    configured: Option<Seq<char>>,
    host: Option<Seq<char>>,
    is_https: bool,
    get_or_head: bool,
    path_and_query: Option<Seq<char>>,
) -> Option<Seq<char>> {
    match configured {
        Some(c) => if matches_configured(host_of(host), c) && !is_https && get_or_head {
            Some(
                "https://"@ + c + match path_and_query {
                    Some(p) => p,
                    None => "/"@,
                },
            )
        } else {
            None
        },
        None => None,
    }
}

pub fn https_redirect_location(
    configured: Option<&str>,
    host: Option<&str>,
    is_https: bool,
    get_or_head: bool,
    path_and_query: Option<&str>,
) -> (r: Option<String>)
    ensures
        match r {
            Some(l) => redirect_of(
                opt_str_view(configured),
                opt_str_view(host),
                is_https,
                get_or_head,
                opt_str_view(path_and_query),
            ) == Some(l@),
            None => redirect_of(
                opt_str_view(configured),
                opt_str_view(host),
                is_https,
                get_or_head,
                opt_str_view(path_and_query),
            ) is None,
        },
{
    let c = match configured {
        Some(c) => c,
        None => return None,
    };
    let h = request_host(host);
    if !crate::tunnel::host_matches_configured(h.as_str(), c) || is_https || !get_or_head {
        return None;
    }
    let mut out = text::chars_of("https://");
    text::push_str(&mut out, c);
    match path_and_query {
        Some(p) => text::push_str(&mut out, p),
        None => text::push_str(&mut out, "/"),
    }
    Some(text::string_of(out.as_slice()))
}

// ---------------------------------------------------------------------------
// Reader images
// ---------------------------------------------------------------------------

/// Width of a page or segment image asked for over HTTP: 1200 by default, at most
/// 2560.
pub open spec fn api_width_of(width: Option<u32>) -> u32 {
    let w = match width {
        Some(w) => w,
        None => 1200u32,
    };
    if w > 2560 {
        2560u32
    } else {
        w
    }
}

pub fn api_image_width(width: Option<u32>) -> (r: u32)
    ensures
        r == api_width_of(width),
{
    let w = match width {
        Some(w) => w,
        None => 1200,
    };
    if w > 2560 {
        2560
    } else {
        w
    }
}

/// Why a chapter's pages cannot be rendered: its file is gone (404), or it is not
/// a PDF (400).
pub open spec fn render_refusal_of(missing: bool, file_path: Seq<char>) -> Option<(u16, Seq<char>)> {
    if missing {
        Some((404u16, "Chapter file is missing"@))
    } else if !crate::media::is_pdf(file_path) {
        Some((400u16, "Page rendering is only available for PDF files"@))
    } else {
        None
    }
}

pub fn render_refusal(missing: bool, file_path: &str) -> (r: Option<(u16, &'static str)>)
    ensures
        match r {
            None => render_refusal_of(missing, file_path@) is None,
            Some((status, message)) => render_refusal_of(missing, file_path@) == Some(
                (status, message@),
            ),
        },
{
    if missing {
        Some((404, "Chapter file is missing"))
    } else if !crate::media::is_pdf_path(file_path) {
        Some((400, "Page rendering is only available for PDF files"))
    } else {
        None
    }
}

/// Entity tag of a rendered page: `"CHAPTER-PAGE-WIDTH-LENGTH"`.
pub open spec fn page_etag_of(chapter_id: i64, page_index: i32, width: u32, len: usize) -> Seq<char> {
    "\""@ + signed_decimal(chapter_id as int) + "-"@ + signed_decimal(page_index as int) + "-"@
        + decimal(width as nat) + "-"@ + decimal(len as nat) + "\""@
}

/// Entity tag of a rendered segment: `"CHAPTER-PAGE-tTILE-WIDTH-LENGTH"`.
pub open spec fn tile_etag_of(
    chapter_id: i64,
    page_index: i32,
    tile_index: u32,
    width: u32,
    len: usize,
) -> Seq<char> {
    "\""@ + signed_decimal(chapter_id as int) + "-"@ + signed_decimal(page_index as int) + "-t"@
        + decimal(tile_index as nat) + "-"@ + decimal(width as nat) + "-"@ + decimal(len as nat)
        + "\""@
}

pub fn page_etag(chapter_id: i64, page_index: i32, width: u32, len: usize) -> (r: String)
    ensures
        r@ == page_etag_of(chapter_id, page_index, width, len),
{
    let mut out = text::chars_of("\"");
    let c = text::i64_to_decimal(chapter_id);
    text::push_all(&mut out, c.as_slice());
    out.push('-');
    let p = text::i64_to_decimal(page_index as i64);
    text::push_all(&mut out, p.as_slice());
    out.push('-');
    let w = text::u64_to_decimal(width as u64);
    text::push_all(&mut out, w.as_slice());
    out.push('-');
    let l = text::u64_to_decimal(len as u64);
    text::push_all(&mut out, l.as_slice());
    out.push('"');
    assert(out@ =~= page_etag_of(chapter_id, page_index, width, len)) by {
        reveal_strlit("\"");
        reveal_strlit("-");
    }
    text::string_of(out.as_slice())
}

pub fn tile_etag(chapter_id: i64, page_index: i32, tile_index: u32, width: u32, len: usize) -> (r:
    String)
    ensures
        r@ == tile_etag_of(chapter_id, page_index, tile_index, width, len),
{
    let mut out = text::chars_of("\"");
    let c = text::i64_to_decimal(chapter_id);
    text::push_all(&mut out, c.as_slice());
    out.push('-');
    let p = text::i64_to_decimal(page_index as i64);
    text::push_all(&mut out, p.as_slice());
    text::push_str(&mut out, "-t");
    let t = text::u64_to_decimal(tile_index as u64);
    text::push_all(&mut out, t.as_slice());
    out.push('-');
    let w = text::u64_to_decimal(width as u64);
    text::push_all(&mut out, w.as_slice());
    out.push('-');
    let l = text::u64_to_decimal(len as u64);
    text::push_all(&mut out, l.as_slice());
    out.push('"');
    assert(out@ =~= tile_etag_of(chapter_id, page_index, tile_index, width, len)) by {
        reveal_strlit("\"");
        reveal_strlit("-");
    }
    text::string_of(out.as_slice())
}

/// The client already holds this rendering: its `If-None-Match` is exactly the tag.
pub fn not_modified(if_none_match: Option<&str>, etag: &str) -> (r: bool)
    ensures
        r == (opt_str_view(if_none_match) == Some(etag@)),
{
    match if_none_match {
        Some(v) => text::str_eq(v, etag),
        None => false,
    }
}

// ---------------------------------------------------------------------------
// Uploads
// ---------------------------------------------------------------------------

/// Largest file that can be uploaded: 8 GiB.
pub const MAX_UPLOAD_BYTES: u64 = 8589934592;

/// Largest chunk of an upload: 8 MiB.
pub const MAX_CHUNK_BYTES: u64 = 8388608;

/// A declared upload size is accepted when it is not zero and at most 8 GiB.
pub fn upload_size_allowed(size: u64) -> (r: bool)
    ensures
        r == (0 < size <= MAX_UPLOAD_BYTES),
{
    size != 0 && size <= MAX_UPLOAD_BYTES
}

/// A chunk body is accepted when it is at most 8 MiB.
pub fn chunk_within_limit(len: u64) -> (r: bool)
    ensures
        r == (len <= MAX_CHUNK_BYTES),
{
    len <= MAX_CHUNK_BYTES
}

/// What to do with a chunk of an upload that has `received` of `size` bytes.
#[derive(Debug, Clone, Copy, PartialEq, Eq, Structural)]
pub enum ChunkPlan {
    /// The chunk starts elsewhere than where the upload stands: report the
    /// current offset and write nothing.
    Resync,
    /// Append the chunk.
    Append,
    /// The chunk would run past the declared size.
    Exceeds,
}

/// A chunk whose `Content-Range` names no start is taken to continue the upload.
pub open spec fn chunk_plan_of(received: u64, size: u64, offset: Option<u64>, len: u64) -> ChunkPlan {
    let start = match offset {
        Some(o) => o,
        None => received,
    };
    if start != received {
        ChunkPlan::Resync
    } else if received + len > size {
        ChunkPlan::Exceeds
    } else {
        ChunkPlan::Append
    }
}

pub fn plan_chunk(received: u64, size: u64, offset: Option<u64>, len: u64) -> (r: ChunkPlan)
    ensures
        r == chunk_plan_of(received, size, offset, len),
        r == ChunkPlan::Append ==> received + len <= size,
{
    let start = match offset {
        Some(o) => o,
        None => received,
    };
    if start != received {
        ChunkPlan::Resync
    } else if (received as u128) + (len as u128) > size as u128 {
        ChunkPlan::Exceeds
    } else {
        ChunkPlan::Append
    }
}

/// An upload may be completed once all its declared bytes have arrived.
pub fn upload_complete(received: u64, size: u64) -> (r: bool)
    ensures
        r == (received == size),
{
    received == size
}

/// How far an upload has come: its declared size and the bytes written so far.
/// An upload never records more bytes than it declared, nor declares more than
/// the upload limit.
pub struct UploadProgress {
    size: u64,
    received: u64,
}

impl UploadProgress {
    pub closed spec fn spec_size(&self) -> u64 {
        self.size
    }

    pub closed spec fn spec_received(&self) -> u64 {
        self.received
    }

    pub closed spec fn wf(&self) -> bool {
        0 < self.size <= MAX_UPLOAD_BYTES && self.received <= self.size
    }

    /// An upload in progress has a size the limit accepts and has recorded no more
    /// bytes than that size.
    pub proof fn lemma_within_declared(&self)
        requires
            self.wf(),
        ensures
            0 < self.spec_size() <= MAX_UPLOAD_BYTES,
            self.spec_received() <= self.spec_size(),
    {
    }

    /// A new upload of `size` bytes, or `None` when that size is not accepted.
    pub fn start(size: u64) -> (r: Option<UploadProgress>)
        ensures
            r is Some <==> 0 < size <= MAX_UPLOAD_BYTES,
            r matches Some(p) ==> p.wf() && p.spec_size() == size && p.spec_received() == 0,
    {
        if upload_size_allowed(size) {
            Some(UploadProgress { size, received: 0 })
        } else {
            None
        }
    }

    pub fn size(&self) -> (r: u64)
        ensures
            r == self.spec_size(),
    {
        self.size
    }

    pub fn received(&self) -> (r: u64)
        ensures
            r == self.spec_received(),
    {
        self.received
    }

    /// What to do with a chunk of `len` bytes said to start at `offset`.
    pub fn plan(&self, offset: Option<u64>, len: u64) -> (r: ChunkPlan)
        ensures
            r == chunk_plan_of(self.spec_received(), self.spec_size(), offset, len),
            r == ChunkPlan::Append ==> self.spec_received() + len <= self.spec_size(),
    {
        plan_chunk(self.received, self.size, offset, len)
    }

    /// Records `len` bytes appended to the upload's file.
    pub fn record_appended(&mut self, len: u64)
        requires
            old(self).wf(),
            old(self).spec_received() + len <= old(self).spec_size(),
        ensures
            final(self).wf(),
            final(self).spec_size() == old(self).spec_size(),
            final(self).spec_received() == old(self).spec_received() + len,
    {
        self.received = self.received + len;
    }

    /// Every declared byte has arrived.
    pub fn is_complete(&self) -> (r: bool)
        ensures
            r == (self.spec_received() == self.spec_size()),
    {
        upload_complete(self.received, self.size)
    }
}

/// The start offset named by a `Content-Range: bytes START-END/TOTAL` value.
pub open spec fn upload_offset_of(header: Option<Seq<char>>) -> Option<int> {
    match header {
        None => None,
        Some(h) => {
            let t = trim(h);
            let pre = "bytes "@;
            if !starts_with(t, pre) {
                None
            } else {
                let spec_ = t.skip(pre.len() as int);
                if !has_char(spec_, '/') {
                    None
                } else {
                    let range = before_char(spec_, '/');
                    if !has_char(range, '-') {
                        None
                    } else {
                        parse_uint(before_char(range, '-'), u64::MAX as int)
                    }
                }
            }
        },
    }
}

pub fn parse_upload_offset(header: Option<&str>) -> (r: Option<u64>)
    ensures
        match r {
            Some(v) => upload_offset_of(opt_str_view(header)) == Some(v as int),
            None => upload_offset_of(opt_str_view(header)) is None,
        },
{
    let h = match header {
        Some(h) => h,
        None => return None,
    };
    let v = text::chars_of(h);
    let t = text::trim_exec(v.as_slice());
    let spec_ = match text::strip_prefix_exec(t.as_slice(), "bytes ") {
        Some(s) => s,
        None => return None,
    };
    if !text::has_char_exec(spec_.as_slice(), '/') {
        return None;
    }
    let range = text::before_char_exec(spec_.as_slice(), '/');
    if !text::has_char_exec(range.as_slice(), '-') {
        return None;
    }
    let start = text::before_char_exec(range.as_slice(), '-');
    text::parse_u64(start.as_slice())
}

/// Characters that never stay in an uploaded file's name.
pub open spec fn name_keeps(c: char) -> bool {
    c != '/' && c != '\\' && c != '\0'
}

/// The file name an upload is stored under: the last component of what the client
/// sent, without slashes, backslashes and NUL.
pub open spec fn upload_base_name(name: Seq<char>) -> Seq<char> {
    let base = match file_name(name) {
        Some(b) => b,
        None => Seq::empty(),
    };
    base.filter(name_pred())
}

pub open spec fn name_pred() -> spec_fn(char) -> bool {
    |c: char| name_keeps(c)
}

/// Why an uploaded file's name is refused, if it is.
pub open spec fn upload_name_error(name: Seq<char>) -> Option<Seq<char>> {
    let base = upload_base_name(name);
    if base.len() == 0 || base == "."@ || base == ".."@ || base[0] == '.' {
        Some("Invalid file name"@)
    } else if encode_utf8(base).len() > 180 {
        Some("File name is too long"@)
    } else if !(ends_with(ascii_lower(base), ".pdf"@) || ends_with(ascii_lower(base), ".mp4"@)) {
        Some("Only PDF and MP4 files can be uploaded"@)
    } else {
        None
    }
}

/// `c` lowercases to the ASCII letter `t`: it is `t` or its capital `cap`.
proof fn lemma_lower_to_letter(c: char, t: char, cap: char)
    requires
        text::is_ascii_lower(t),
        cap as u32 + 32 == t as u32,
    ensures
        (text::lower_char(c) == t) <==> (c == t || c == cap),
{
    vstd::utf8::char_u32_cast(t, t as u32);
    vstd::utf8::char_u32_cast(cap, cap as u32);
    vstd::utf8::char_u32_cast(c, c as u32);
    if text::is_ascii_upper(c) {
        assert((((c as u32) + 32) as char) as u32 == (c as u32) + 32);
        if c == cap {
            assert((c as u32) + 32 == t as u32);
        }
    }
}

/// `c` lowercases to `t`, which is no ASCII letter: it is `t` itself.
proof fn lemma_lower_to_other(c: char, t: char)
    requires
        !text::is_ascii_lower(t),
        !text::is_ascii_upper(t),
    ensures
        (text::lower_char(c) == t) <==> c == t,
{
    if text::is_ascii_upper(c) {
        assert((((c as u32) + 32) as char) as u32 == (c as u32) + 32);
    }
}

/// An upload is accepted exactly when the name it is stored under is not empty,
/// does not start with a dot, is at most 180 bytes of UTF-8, and ends in `.pdf` or
/// `.mp4` in any mix of letter case.
pub proof fn lemma_upload_name_accepted(name: Seq<char>)
    ensures
        ({
            let b = upload_base_name(name);
            let n = b.len();
            upload_name_error(name) is None <==> (n > 0 && b[0] != '.' && encode_utf8(b).len()
                <= 180 && n >= 4 && b[n - 4] == '.' && (((b[n - 3] == 'p' || b[n - 3] == 'P') && (
            b[n - 2] == 'd' || b[n - 2] == 'D') && (b[n - 1] == 'f' || b[n - 1] == 'F')) || ((b[n
                - 3] == 'm' || b[n - 3] == 'M') && (b[n - 2] == 'p' || b[n - 2] == 'P') && b[n - 1]
                == '4')))
        }),
{
    let b = upload_base_name(name);
    let n = b.len() as int;
    let l = ascii_lower(b);
    reveal_strlit(".pdf");
    reveal_strlit(".mp4");
    reveal_strlit(".");
    reveal_strlit("..");
    if n >= 4 {
        lemma_lower_to_other(b[n - 4], '.');
        lemma_lower_to_letter(b[n - 3], 'p', 'P');
        lemma_lower_to_letter(b[n - 2], 'd', 'D');
        lemma_lower_to_letter(b[n - 1], 'f', 'F');
        lemma_lower_to_letter(b[n - 3], 'm', 'M');
        lemma_lower_to_letter(b[n - 2], 'p', 'P');
        lemma_lower_to_other(b[n - 1], '4');
        assert(l[n - 4] == text::lower_char(b[n - 4]));
        assert(l[n - 3] == text::lower_char(b[n - 3]));
        assert(l[n - 2] == text::lower_char(b[n - 2]));
        assert(l[n - 1] == text::lower_char(b[n - 1]));
        let tail = l.subrange(n - 4, n);
        assert(ends_with(l, ".pdf"@) <==> tail == ".pdf"@);
        assert(tail == ".pdf"@ <==> (tail[0] == '.' && tail[1] == 'p' && tail[2] == 'd' && tail[3]
            == 'f')) by {
            if tail[0] == '.' && tail[1] == 'p' && tail[2] == 'd' && tail[3] == 'f' {
                assert(tail =~= ".pdf"@);
            }
        }
        assert(tail == ".mp4"@ <==> (tail[0] == '.' && tail[1] == 'm' && tail[2] == 'p' && tail[3]
            == '4')) by {
            if tail[0] == '.' && tail[1] == 'm' && tail[2] == 'p' && tail[3] == '4' {
                assert(tail =~= ".mp4"@);
            }
        }
    }
    if n > 0 && b[0] != '.' {
        assert(b != "."@ && b != ".."@);
    }
    if n > 0 && b[0] == '.' {
        assert(upload_name_error(name) is Some);
    }
    assert(l.len() == n);
    if n < 4 {
        assert(!ends_with(l, ".pdf"@));
        assert(!ends_with(l, ".mp4"@));
    }
    assert(upload_name_error(name) is None <==> (n > 0 && b[0] != '.' && encode_utf8(b).len() <= 180
        && (ends_with(l, ".pdf"@) || ends_with(l, ".mp4"@))));
}

fn keep_name_chars(v: &[char]) -> (r: Vec<char>)
    ensures
        r@ == v@.filter(name_pred()),
{
    let mut out: Vec<char> = Vec::new();
    let mut i: usize = 0;
    while i < v.len()
        invariant
            i <= v@.len(),
            out@ == v@.take(i as int).filter(name_pred()),
        decreases v@.len() - i,
    {
        let c = v[i];
        proof {
            reveal(Seq::filter);
            assert(v@.take(i + 1).drop_last() =~= v@.take(i as int));
            assert(v@.take(i + 1).last() == c);
            assert(v@.take(i + 1).filter(name_pred()) == if name_keeps(c) {
                v@.take(i as int).filter(name_pred()).push(c)
            } else {
                v@.take(i as int).filter(name_pred())
            });
        }
        if c != '/' && c != '\\' && c != '\0' {
            out.push(c);
        }
        i = i + 1;
    }
    assert(v@.take(v@.len() as int) =~= v@);
    out
}

pub fn sanitize_filename(name: &str) -> (r: Result<String, String>)
    ensures
        match upload_name_error(name@) {
            Some(m) => (r matches Err(e) && e@ == m),
            None => (r matches Ok(b) && b@ == upload_base_name(name@)),
        },
{
    let v = text::chars_of(name);
    let base0 = match crate::paths::file_name_exec(v.as_slice()) {
        Some(b) => b,
        None => Vec::new(),
    };
    let base = keep_name_chars(base0.as_slice());
    let bs = base.as_slice();
    if base.len() == 0 || text::lit_eq(bs, ".") || text::lit_eq(bs, "..") || base[0] == '.' {
        return Err(text::string_of(text::chars_of("Invalid file name").as_slice()));
    }
    if text::utf8_len_exceeds(bs, 180) {
        return Err(text::string_of(text::chars_of("File name is too long").as_slice()));
    }
    let lower = text::lower_all(bs);
    if !(text::str_ends_with(lower.as_slice(), ".pdf") || text::str_ends_with(
        lower.as_slice(),
        ".mp4",
    )) {
        return Err(
            text::string_of(text::chars_of("Only PDF and MP4 files can be uploaded").as_slice()),
        );
    }
    Ok(text::string_of(bs))
}

/// Why a new folder's name is refused, if it is; the name is used trimmed.
pub open spec fn folder_name_error(name: Seq<char>) -> Option<Seq<char>> {
    let t = trim(name);
    if t.len() == 0 || encode_utf8(t).len() > 80 {
        Some("Folder name must be 1–80 characters"@)
    } else if has_char(t, '/') || has_char(t, '\\') || has_char(t, '\0') || t == "."@ || t == ".."@ {
        Some("Invalid folder name"@)
    } else {
        None
    }
}

pub fn sanitize_folder_name(name: &str) -> (r: Result<String, String>)
    ensures
        match folder_name_error(name@) {
            Some(m) => (r matches Err(e) && e@ == m),
            None => (r matches Ok(b) && b@ == trim(name@)),
        },
{
    let v = text::chars_of(name);
    let t = text::trim_exec(v.as_slice());
    let ts = t.as_slice();
    if t.len() == 0 || text::utf8_len_exceeds(ts, 80) {
        return Err(text::string_of(text::chars_of("Folder name must be 1–80 characters").as_slice()));
    }
    if text::has_char_exec(ts, '/') || text::has_char_exec(ts, '\\') || text::has_char_exec(ts, '\0')
        || text::lit_eq(ts, ".") || text::lit_eq(ts, "..") {
        return Err(text::string_of(text::chars_of("Invalid folder name").as_slice()));
    }
    Ok(text::string_of(ts))
}

/// The name tried for an upload on attempt `attempt` when earlier names were taken:
/// the name itself first, then `stem-N.ext` for N from 1 to 999 (`file` when the
/// name has no stem, no `.ext` when it has no extension), and last `name.new`.
pub open spec fn upload_candidate_of(file_name: Seq<char>, attempt: u32) -> Seq<char> {
    let stem = match file_stem(file_name) {
        Some(s) => s,
        None => "file"@,
    };
    let ext = match extension(file_name) {
        Some(e) => e,
        None => Seq::empty(),
    };
    if attempt == 0 {
        file_name
    } else if attempt < 1000 {
        if ext.len() == 0 {
            stem + "-"@ + decimal(attempt as nat)
        } else {
            stem + "-"@ + decimal(attempt as nat) + "."@ + ext
        }
    } else {
        file_name + ".new"@
    }
}

/// Every numbered attempt proposes a different name, so the search for a free
/// destination never tries a name twice.
pub proof fn lemma_upload_candidates_distinct(file_name: Seq<char>, i: u32, j: u32)
    requires
        1 <= i < 1000,
        1 <= j < 1000,
        i != j,
    ensures
        upload_candidate_of(file_name, i) != upload_candidate_of(file_name, j),
{
    let stem = match file_stem(file_name) {
        Some(s) => s,
        None => "file"@,
    };
    let ext = match extension(file_name) {
        Some(e) => e,
        None => Seq::empty(),
    };
    let tail: Seq<char> = if ext.len() == 0 {
        Seq::empty()
    } else {
        "."@ + ext
    };
    let head = stem + "-"@;
    let di = decimal(i as nat);
    let dj = decimal(j as nat);
    text::lemma_decimal_injective(i as nat, j as nat);
    text::lemma_decimal_injective(j as nat, i as nat);
    assert(upload_candidate_of(file_name, i) =~= head + di + tail);
    assert(upload_candidate_of(file_name, j) =~= head + dj + tail);
    if head + di + tail == head + dj + tail {
        let x = head + di + tail;
        let y = head + dj + tail;
        assert(di.len() == dj.len());
        assert forall|k: int| 0 <= k < di.len() implies di[k] == dj[k] by {
            assert(x[head.len() + k] == di[k]);
            assert(y[head.len() + k] == dj[k]);
        }
        assert(di =~= dj);
    }
}

pub fn upload_candidate(file_name: &str, attempt: u32) -> (r: String)
    ensures
        r@ == upload_candidate_of(file_name@, attempt),
{
    let v = text::chars_of(file_name);
    if attempt == 0 {
        return text::string_of(v.as_slice());
    }
    if attempt >= 1000 {
        let mut out = v;
        text::push_str(&mut out, ".new");
        return text::string_of(out.as_slice());
    }
    let stem = match crate::paths::file_name_exec(v.as_slice()) {
        Some(n) => crate::paths::stem_of_exec(n.as_slice()),
        None => text::chars_of("file"),
    };
    let ext = match crate::paths::extension_exec(v.as_slice()) {
        Some(e) => e,
        None => Vec::new(),
    };
    let mut out = stem;
    text::push_str(&mut out, "-");
    let d = text::u64_to_decimal(attempt as u64);
    text::push_all(&mut out, d.as_slice());
    if ext.len() > 0 {
        text::push_str(&mut out, ".");
        text::push_all(&mut out, ext.as_slice());
    }
    text::string_of(out.as_slice())
}

// ---------------------------------------------------------------------------
// Static files of the web client
// ---------------------------------------------------------------------------

/// A part of a relative path that may not be served: empty, `.` or `..`.
pub open spec fn bad_part(p: Seq<char>) -> bool {
    p.len() == 0 || p == "."@ || p == ".."@
}

/// The path below the web client's directory that a request path may be served
/// from: leading slashes dropped; nothing for an empty path, the API, or a path
/// with an empty, `.` or `..` part.
pub open spec fn static_rel_of(uri_path: Seq<char>) -> Option<Seq<char>> {
    let rel = trim_start_char(uri_path, '/');
    let ps = pieces(rel, '/');
    if rel.len() == 0 || starts_with(rel, "api/"@) {
        None
    } else if exists|i: int| 0 <= i < ps.len() && bad_part(#[trigger] ps[i]) {
        None
    } else {
        Some(rel)
    }
}

pub fn static_rel_path(uri_path: &str) -> (r: Option<String>)
    ensures
        match r {
            Some(p) => static_rel_of(uri_path@) == Some(p@),
            None => static_rel_of(uri_path@) is None,
        },
{
    let v = text::chars_of(uri_path);
    let rel = text::trim_start_char_exec(v.as_slice(), '/');
    if rel.len() == 0 || text::str_starts_with(rel.as_slice(), "api/") {
        return None;
    }
    let ps = text::pieces_exec(rel.as_slice(), '/');
    let ghost all = pieces(rel@, '/');
    let mut i: usize = 0;
    while i < ps.len()
        invariant
            i <= ps@.len(),
            ps@.len() == all.len(),
            forall|k: int| 0 <= k < ps@.len() ==> (#[trigger] ps@[k])@ == all[k],
            forall|k: int| 0 <= k < i ==> !bad_part(#[trigger] all[k]),
            rel@ == trim_start_char(uri_path@, '/'),
            all == pieces(rel@, '/'),
            rel@.len() > 0,
            !starts_with(rel@, "api/"@),
        decreases ps@.len() - i,
    {
        let p = ps[i].as_slice();
        if p.len() == 0 || text::lit_eq(p, ".") || text::lit_eq(p, "..") {
            proof {
                assert(bad_part(all[i as int]));
            }
            return None;
        }
        i = i + 1;
    }
    Some(text::string_of(rel.as_slice()))
}

/// The content type a static file is served with, by its extension.
pub open spec fn static_mime_of(path: Seq<char>) -> Seq<char> {
    match extension(path) {
        Some(e) => if e == "js"@ {
            "application/javascript"@
        } else if e == "css"@ {
            "text/css"@
        } else if e == "svg"@ {
            "image/svg+xml"@
        } else if e == "webp"@ {
            "image/webp"@
        } else if e == "png"@ {
            "image/png"@
        } else if e == "ico"@ {
            "image/x-icon"@
        } else if e == "woff2"@ {
            "font/woff2"@
        } else if e == "json"@ {
            "application/json"@
        } else if e == "webmanifest"@ {
            "application/manifest+json"@
        } else if e == "html"@ {
            "text/html; charset=utf-8"@
        } else {
            "application/octet-stream"@
        },
        None => "application/octet-stream"@,
    }
}

pub fn mime_guess(path: &str) -> (r: &'static str)
    ensures
        r@ == static_mime_of(path@),
{
    let v = text::chars_of(path);
    match crate::paths::extension_exec(v.as_slice()) {
        Some(e) => {
            let e = e.as_slice();
            if text::lit_eq(e, "js") {
                "application/javascript"
            } else if text::lit_eq(e, "css") {
                "text/css"
            } else if text::lit_eq(e, "svg") {
                "image/svg+xml"
            } else if text::lit_eq(e, "webp") {
                "image/webp"
            } else if text::lit_eq(e, "png") {
                "image/png"
            } else if text::lit_eq(e, "ico") {
                "image/x-icon"
            } else if text::lit_eq(e, "woff2") {
                "font/woff2"
            } else if text::lit_eq(e, "json") {
                "application/json"
            } else if text::lit_eq(e, "webmanifest") {
                "application/manifest+json"
            } else if text::lit_eq(e, "html") {
                "text/html; charset=utf-8"
            } else {
                "application/octet-stream"
            }
        },
        None => "application/octet-stream",
    }
}

// ---------------------------------------------------------------------------
// Sign-in responses and downloads
// ---------------------------------------------------------------------------

/// The token a request authenticates with: a bearer token first, then the session
/// cookie, else none (empty).
pub open spec fn request_token_of(authorization: Option<Seq<char>>, cookie: Option<Seq<char>>) -> Seq<char> {
    match bearer_of(authorization) {
        Some(t) => t,
        None => match cookie_session(cookie) {
            Some(t) => t,
            None => Seq::empty(),
        },
    }
}

pub fn session_token(authorization: Option<&str>, cookie: Option<&str>) -> (r: String)
    ensures
        r@ == request_token_of(opt_str_view(authorization), opt_str_view(cookie)),
{
    match bearer_token(authorization) {
        Some(t) => t,
        None => match cookie_token(cookie) {
            Some(t) => t,
            None => String::new(),
        },
    }
}

/// The status a refused sign-in is answered with: too many attempts, sign-in not
/// set up yet, or wrong credentials.
pub open spec fn login_status_of(error: Seq<char>) -> u16 {
    if contains(error, "Too many"@) {
        429
    } else if contains(error, "not configured"@) {
        403
    } else {
        401
    }
}

pub fn login_error_status(error: &str) -> (r: u16)
    ensures
        r == login_status_of(error@),
{
    let v = text::chars_of(error);
    if text::str_contains(v.as_slice(), "Too many") {
        429
    } else if text::str_contains(v.as_slice(), "not configured") {
        403
    } else {
        401
    }
}

/// `Content-Disposition` for downloading a chapter file under its own name.
pub open spec fn download_disposition_of(path: Seq<char>) -> Seq<char> {
    let name = match file_name(path) {
        Some(n) => n,
        None => "download"@,
    };
    "attachment; filename=\""@ + name + "\""@
}

pub fn download_disposition(path: &str) -> (r: String)
    ensures
        r@ == download_disposition_of(path@),
{
    let v = text::chars_of(path);
    let name = match crate::paths::file_name_exec(v.as_slice()) {
        Some(n) => n,
        None => text::chars_of("download"),
    };
    let mut out = text::chars_of("attachment; filename=\"");
    text::push_all(&mut out, name.as_slice());
    text::push_str(&mut out, "\"");
    text::string_of(out.as_slice())
}

} // verus!
