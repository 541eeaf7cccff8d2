//! Reading the app's stored settings: flags, the cache size, which engines are
//! chosen, and the remote-access status shown.
use vstd::prelude::*;
use crate::lan::opt_str_view;
use crate::text;
use crate::text::parse_uint;

verus! {

/// A stored flag is on only when it is exactly `true`.
pub open spec fn flag_on(stored: Option<Seq<char>>) -> bool {
    stored == Some("true"@)
}

pub fn setting_flag(stored: Option<&str>) -> (r: bool)
    ensures
        r == flag_on(opt_str_view(stored)),
{
    match stored {
        Some(v) => text::lit_eq(text::chars_of(v).as_slice(), "true"),
        None => false,
    }
}

/// The cache size in MiB: the stored value when it reads as a `u32`, else 512.
pub open spec fn cache_mb_of(stored: Option<Seq<char>>) -> int {
    match stored {
        Some(v) => match parse_uint(v, u32::MAX as int) {
            Some(n) => n,
            None => 512,
        },
        None => 512,
    }
}

pub fn cache_size_mb(stored: Option<&str>) -> (r: u32)
    ensures
        r == cache_mb_of(opt_str_view(stored)),
{
    match stored {
        Some(v) => match text::parse_u32(text::chars_of(v).as_slice()) {
            Some(n) => n,
            None => 512,
        },
        None => 512,
    }
}

/// Whole MiB in use, as the settings report it (cut to 32 bits).
pub fn used_mb(bytes: u64) -> (r: u32)
    ensures
        r == (bytes / 1048576) as u32,
{
    #[verifier::truncate]
    let r = (bytes / 1048576) as u32;
    r
}

/// The tunnel status shown: a missing `cloudflared` says so; otherwise the
/// tunnel's own status.
pub open spec fn tunnel_status_of(cloudflared_installed: bool, live: Seq<char>) -> Seq<char> {
    if !cloudflared_installed {
        "cloudflared not installed"@
    } else {
        live
    }
}

pub fn tunnel_status_text(cloudflared_installed: bool, live: &str) -> (r: String)
    ensures
        r@ == tunnel_status_of(cloudflared_installed, live@),
{
    if !cloudflared_installed {
        text::string_of(text::chars_of("cloudflared not installed").as_slice())
    } else {
        text::string_of(text::chars_of(live).as_slice())
    }
}

/// The first of the requested and stored choices, else the default.
pub open spec fn choice_of(requested: Option<Seq<char>>, stored: Option<Seq<char>>, default: Seq<char>) -> Seq<char> {
    match requested {
        Some(r) => r,
        None => match stored {
            Some(s) => s,
            None => default,
        },
    }
}

/// The recognition engine used: the one asked for, else the stored one, else the
/// system engine.
pub fn choose_engine(requested: Option<&str>, stored: Option<&str>) -> (r: String)
    ensures
        r@ == choice_of(opt_str_view(requested), opt_str_view(stored), "apple_vision"@),
{
    let v = match requested {
        Some(r) => text::chars_of(r),
        None => match stored {
            Some(s) => text::chars_of(s),
            None => text::chars_of("apple_vision"),
        },
    };
    text::string_of(v.as_slice())
}

/// The translator used: the one asked for, else the stored one, else the system
/// translator.
pub fn choose_translator(requested: Option<&str>, stored: Option<&str>) -> (r: String)
    ensures
        r@ == choice_of(opt_str_view(requested), opt_str_view(stored), "apple"@),
{
    let v = match requested {
        Some(r) => text::chars_of(r),
        None => match stored {
            Some(s) => text::chars_of(s),
            None => text::chars_of("apple"),
        },
    };
    text::string_of(v.as_slice())
}

// ---------------------------------------------------------------------------
// Pairing code
// ---------------------------------------------------------------------------

/// The SVG text of the QR code for the text, at least 200 pixels square, or none
/// when the text does not fit in a QR code.
pub uninterp spec fn qr_svg(content: Seq<char>) -> Option<Seq<char>>;

/// `qrcode::QrCode::new` on the text's bytes, rendered with
/// `render::svg::Color` and `min_dimensions(200, 200)`. The result depends on the
/// text alone; the encoder is not restated.
#[verifier::external_body]
fn qr_code_svg(content: &str) -> (r: Option<String>)
    ensures
        match r {
            Some(s) => qr_svg(content@) == Some(s@),
            None => qr_svg(content@) is None,
        },
{
    match qrcode::QrCode::new(content.as_bytes()) {
        Ok(code) => Some(code.render::<qrcode::render::svg::Color>().min_dimensions(200, 200).build()),
        Err(_) => None,
    }
}

/// A QR code for the text as an SVG data URL, for a phone to scan.
pub fn qr_data_url(content: &str) -> (r: Option<String>)
    ensures
        match qr_svg(content@) {
            Some(svg) => r matches Some(u) && u@ == "data:image/svg+xml;base64,"@
                + crate::pdf::base64_standard(vstd::utf8::encode_utf8(svg)),
            None => r is None,
        },
{
    let svg = match qr_code_svg(content) {
        Some(s) => s,
        None => return None,
    };
    let b64 = crate::pdf::base64_encode(svg.as_str().as_bytes());
    let mut out = text::chars_of("data:image/svg+xml;base64,");
    text::push_str(&mut out, b64.as_str());
    Some(text::string_of(out.as_slice()))
}

} // verus!
