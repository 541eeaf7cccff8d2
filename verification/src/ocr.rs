//! Text recognition: the engines on offer, and the clean-up applied to each line
//! an engine recognizes.
use vstd::prelude::*;
use crate::text;
use crate::text::{is_ws, lemma_lead_ws, trim, trim_start};
use crate::translate::{has_han, has_kana};

verus! {

// ---------------------------------------------------------------------------
// Cleaning recognized text
// ---------------------------------------------------------------------------

/// Marks that recognition picks up from a speech bubble's tail or edge.
pub open spec fn bubble_mark(c: char) -> bool {
    ||| c == '。'
    ||| c == '.'
    ||| c == '·'
    ||| c == '・'
    ||| c == '･'
    ||| c == '•'
    ||| c == ','
    ||| c == '，'
    ||| c == '…'
    ||| c == '⋯'
    ||| c == '：'
    ||| c == ':'
    ||| c == '「'
    ||| c == '」'
}

fn is_bubble_mark(c: char) -> (r: bool)
    ensures
        r == bubble_mark(c),
{
    c == '。' || c == '.' || c == '·' || c == '・' || c == '･' || c == '•' || c == ',' || c == '，'
        || c == '…' || c == '⋯' || c == '：' || c == ':' || c == '「' || c == '」'
}

/// Some character is neither a mark nor white space.
pub open spec fn has_words(s: Seq<char>) -> bool {
    exists|i: int| 0 <= i < s.len() && !bubble_mark(#[trigger] s[i]) && !is_ws(s[i])
}

/// Leading marks dropped one at a time (with the space after each), as long as
/// words remain after the mark.
pub open spec fn strip_tails(s: Seq<char>) -> Seq<char>
    decreases s.len(),
{
    if s.len() > 0 && bubble_mark(s[0]) && has_words(s.skip(1)) {
        proof {
            lemma_lead_ws(s.skip(1));
        }
        strip_tails(trim_start(s.skip(1)))
    } else {
        s
    }
}

/// Middle dots that recognition scatters through Chinese text.
pub open spec fn not_middle_dot(c: char) -> bool {
    c != '・' && c != '･'
}

pub open spec fn dot_pred() -> spec_fn(char) -> bool {
    |c: char| not_middle_dot(c)
}

/// A single trailing `.` (not `..`) becomes the full stop `。`.
pub open spec fn full_stop(s: Seq<char>) -> Seq<char> {
    if s.len() > 0 && s.last() == '.' && !(s.len() >= 2 && s[s.len() - 2] == '.') {
        s.drop_last().push('。')
    } else {
        s
    }
}

/// A recognized line cleaned: trimmed, bubble marks stripped from its start, and
/// for Chinese (Han without kana) middle dots removed and a final `.` made `。`.
pub open spec fn ocr_cleaned(text: Seq<char>) -> Seq<char> {
    let t = trim(text);
    if t.len() == 0 {
        Seq::empty()
    } else {
        let out = strip_tails(t);
        if has_han(out) && !has_kana(out) {
            trim(full_stop(out.filter(dot_pred())))
        } else {
            trim(out)
        }
    }
}

fn words_after_first(v: &[char]) -> (r: bool)
    requires
        v@.len() > 0,
    ensures
        r == has_words(v@.skip(1)),
{
    let mut i: usize = 1;
    while i < v.len()
        invariant
            1 <= i <= v@.len(),
            forall|k: int| 1 <= k < i ==> bubble_mark(#[trigger] v@[k]) || is_ws(v@[k]),
        decreases v@.len() - i,
    {
        let c = v[i];
        if !is_bubble_mark(c) && !text::char_is_ws(c) {
            assert(v@.skip(1)[i - 1] == c);
            return true;
        }
        i = i + 1;
    }
    assert forall|k: int| 0 <= k < v@.skip(1).len() implies bubble_mark(#[trigger] v@.skip(1)[k])
        || is_ws(v@.skip(1)[k]) by {
        assert(v@.skip(1)[k] == v@[k + 1]);
    }
    false
}

fn drop_middle_dots(v: &[char]) -> (r: Vec<char>)
    ensures
        r@ == v@.filter(dot_pred()),
{
    let mut out: Vec<char> = Vec::new();
    let mut i: usize = 0;
    while i < v.len()
        invariant
            i <= v@.len(),
            out@ == v@.take(i as int).filter(dot_pred()),
        decreases v@.len() - i,
    {
        let c = v[i];
        proof {
            reveal(Seq::filter);
            assert(v@.take(i + 1).drop_last() =~= v@.take(i as int));
            assert(v@.take(i + 1).last() == c);
            assert(v@.take(i + 1).filter(dot_pred()) == if not_middle_dot(c) {
                v@.take(i as int).filter(dot_pred()).push(c)
            } else {
                v@.take(i as int).filter(dot_pred())
            });
        }
        if c != '・' && c != '･' {
            out.push(c);
        }
        i = i + 1;
    }
    assert(v@.take(v@.len() as int) =~= v@);
    out
}

pub fn cleanup_ocr_text(text: &str) -> (r: String)
    ensures
        r@ == ocr_cleaned(text@),
{
    let v = text::chars_of(text);
    let t = text::trim_exec(v.as_slice());
    if t.len() == 0 {
        return String::new();
    }
    let mut out = t;
    loop
        invariant
            strip_tails(out@) == strip_tails(trim(text@)),
        ensures
            strip_tails(out@) == strip_tails(trim(text@)),
            strip_tails(out@) == out@,
        decreases out@.len(),
    {
        if out.len() > 0 && is_bubble_mark(out[0]) && words_after_first(out.as_slice()) {
            let rest = text::copy_range(out.as_slice(), 1, out.len());
            assert(rest@ =~= out@.skip(1));
            proof {
                lemma_lead_ws(out@.skip(1));
            }
            out = text::trim_start_exec(rest.as_slice());
        } else {
            break;
        }
    }
    let s = text::string_of(out.as_slice());
    let fixed = if crate::translate::looks_han(s.as_str()) && !crate::translate::looks_japanese(
        s.as_str(),
    ) {
        let mut d = drop_middle_dots(out.as_slice());
        let n = d.len();
        if n > 0 && d[n - 1] == '.' && !(n >= 2 && d[n - 2] == '.') {
            let ghost before = d@;
            d.pop();
            d.push('。');
            assert(d@ =~= before.drop_last().push('。'));
        }
        d
    } else {
        out
    };
    let r = text::trim_exec(fixed.as_slice());
    text::string_of(r.as_slice())
}

// ---------------------------------------------------------------------------
// Engines
// ---------------------------------------------------------------------------

/// Why recognition could not run.
#[derive(Debug, Clone)]
pub enum OcrError {
    NotAvailable(String),
    Other(String),
}

pub open spec fn ocr_error_text(e: OcrError) -> Seq<char> {
    match e {
        OcrError::NotAvailable(m) => "OCR engine not available: "@ + m@,
        OcrError::Other(m) => m@,
    }
}

impl OcrError {
    /// The message shown for the error.
    pub fn message(&self) -> (r: String)
        ensures
            r@ == ocr_error_text(*self),
    {
        match self {
            OcrError::NotAvailable(m) => {
                let mut out = text::chars_of("OCR engine not available: ");
                text::push_str(&mut out, m.as_str());
                text::string_of(out.as_slice())
            },
            OcrError::Other(m) => text::string_of(text::chars_of(m.as_str()).as_slice()),
        }
    }
}

/// The system's text recognition.
pub struct AppleVisionEngine;

/// A recognizer trained on manga; not installed.
pub struct MangaOcrEngine;

/// PaddleOCR; not installed.
pub struct PaddleOcrEngine;

/// RapidOCR; not installed.
pub struct RapidOcrEngine;

impl AppleVisionEngine {
    pub fn new() -> (r: Self) {
        AppleVisionEngine
    }
}

impl MangaOcrEngine {
    pub fn new() -> (r: Self) {
        MangaOcrEngine
    }
}

impl PaddleOcrEngine {
    pub fn new() -> (r: Self) {
        PaddleOcrEngine
    }
}

impl RapidOcrEngine {
    pub fn new() -> (r: Self) {
        RapidOcrEngine
    }
}

/// The engines on offer, as id, display name and availability; the system engine
/// is available where the platform has one.
pub fn list_engines(system_available: bool) -> (r: Vec<(&'static str, &'static str, bool)>)
    ensures
        r@.len() == 4,
        r@[0].0@ == "apple_vision"@ && r@[0].1@ == "Apple Vision"@ && r@[0].2 == system_available,
        r@[1].0@ == "manga_ocr"@ && r@[1].1@ == "Manga OCR"@ && !r@[1].2,
        r@[2].0@ == "paddle_ocr"@ && r@[2].1@ == "PaddleOCR"@ && !r@[2].2,
        r@[3].0@ == "rapid_ocr"@ && r@[3].1@ == "RapidOCR"@ && !r@[3].2,
{
    let mut r: Vec<(&'static str, &'static str, bool)> = Vec::new();
    r.push(("apple_vision", "Apple Vision", system_available));
    r.push(("manga_ocr", "Manga OCR", false));
    r.push(("paddle_ocr", "PaddleOCR", false));
    r.push(("rapid_ocr", "RapidOCR", false));
    r
}

/// Which engines cannot run yet, and what is said about them; any other id selects
/// the system engine.
pub open spec fn engine_unavailable(id: Seq<char>) -> Option<Seq<char>> {
    if id == "manga_ocr"@ {
        Some("Manga OCR is not installed yet — select it after benchmarking"@)
    } else if id == "paddle_ocr"@ {
        Some("PaddleOCR is not installed yet — select it after benchmarking"@)
    } else if id == "rapid_ocr"@ {
        Some("RapidOCR is not installed yet — select it after benchmarking"@)
    } else {
        None
    }
}

/// `Ok` when the engine `id` selects is the system engine; the refusal otherwise.
pub fn check_engine(id: &str) -> (r: Result<(), OcrError>)
    ensures
        match engine_unavailable(id@) {
            Some(m) => r matches Err(OcrError::NotAvailable(e)) && e@ == m,
            None => r is Ok,
        },
{
    let v = text::chars_of(id);
    let s = v.as_slice();
    if text::lit_eq(s, "manga_ocr") {
        return Err(OcrError::NotAvailable(
            text::string_of(
                text::chars_of(
                    "Manga OCR is not installed yet — select it after benchmarking",
                ).as_slice(),
            ),
        ));
    }
    if text::lit_eq(s, "paddle_ocr") {
        return Err(OcrError::NotAvailable(
            text::string_of(
                text::chars_of(
                    "PaddleOCR is not installed yet — select it after benchmarking",
                ).as_slice(),
            ),
        ));
    }
    if text::lit_eq(s, "rapid_ocr") {
        return Err(OcrError::NotAvailable(
            text::string_of(
                text::chars_of(
                    "RapidOCR is not installed yet — select it after benchmarking",
                ).as_slice(),
            ),
        ));
    }
    Ok(())
}

/// Version of the recognition and translation output; bumped when it changes so
/// that cached results from before are not used.
pub const TEXT_PIPELINE: &'static str = "v3";

/// The key recognized text is cached under for an engine: `ENGINE.v3`.
pub fn text_cache_engine(engine_id: &str) -> (r: String)
    ensures
        r@ == engine_id@ + "."@ + TEXT_PIPELINE@,
{
    let mut out = text::chars_of(engine_id);
    text::push_str(&mut out, ".");
    text::push_str(&mut out, TEXT_PIPELINE);
    text::string_of(out.as_slice())
}

// ---------------------------------------------------------------------------
// Images handed to the recognizer
// ---------------------------------------------------------------------------

/// The image the bytes encode, written as PNG, or the codec's message.
pub uninterp spec fn png_reencoded(bytes: Seq<u8>) -> Result<Seq<u8>, Seq<char>>;

/// `image::load_from_memory`, then `DynamicImage::write_to` with
/// `ImageFormat::Png`; a failure is given as the error's message. The result
/// depends on the bytes alone; the codecs are not restated.
#[verifier::external_body]
fn reencode_png(bytes: &[u8]) -> (r: Result<Vec<u8>, String>)
    ensures
        match r {
            Ok(v) => png_reencoded(bytes@) == Ok::<Seq<u8>, Seq<char>>(v@),
            Err(e) => png_reencoded(bytes@) == Err::<Seq<u8>, Seq<char>>(e@),
        },
{
    let img = match image::load_from_memory(bytes) {
        Ok(img) => img,
        Err(e) => return Err(e.to_string()),
    };
    let mut buf = std::io::Cursor::new(Vec::new());
    match img.write_to(&mut buf, image::ImageFormat::Png) {
        Ok(()) => Ok(buf.into_inner()),
        Err(e) => Err(e.to_string()),
    }
}

/// The recognizer is given PNG: PNG bytes as they are, anything else re-encoded.
pub fn image_to_png(bytes: &[u8]) -> (r: Result<Vec<u8>, OcrError>)
    ensures
        crate::pdf::is_png_signature(bytes@) ==> (r matches Ok(v) && v@ == bytes@),
        !crate::pdf::is_png_signature(bytes@) ==> match png_reencoded(bytes@) {
            Ok(p) => r matches Ok(v) && v@ == p,
            Err(m) => r matches Err(OcrError::Other(e)) && e@ == m,
        },
{
    if bytes.len() >= 8 && bytes[0] == 0x89 && bytes[1] == 0x50 && bytes[2] == 0x4e && bytes[3]
        == 0x47 && bytes[4] == 0x0d && bytes[5] == 0x0a && bytes[6] == 0x1a && bytes[7] == 0x0a {
        return Ok(vstd::slice::slice_to_vec(bytes));
    }
    match reencode_png(bytes) {
        Ok(v) => Ok(v),
        Err(e) => Err(OcrError::Other(e)),
    }
}

/// What the recognizer is given for an image: its PNG form, or the bytes as they
/// came when they cannot be re-encoded.
pub fn recognizer_input(image_bytes: &[u8]) -> (r: Vec<u8>)
    ensures
        crate::pdf::is_png_signature(image_bytes@) ==> r@ == image_bytes@,
        !crate::pdf::is_png_signature(image_bytes@) ==> r@ == match png_reencoded(image_bytes@) {
            Ok(p) => p,
            Err(_) => image_bytes@,
        },
{
    match image_to_png(image_bytes) {
        Ok(v) => v,
        Err(_) => vstd::slice::slice_to_vec(image_bytes),
    }
}

} // verus!
