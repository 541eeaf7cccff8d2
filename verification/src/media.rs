//! Media classification by file name, HTTP byte ranges, and the `shelf-media`
//! URL scheme.
use vstd::prelude::*;
use crate::models::{ContentType, SourceFormat};
use crate::paths;
use vstd::string::StringSliceAdditionalSpecFns;
use crate::pdf;
use crate::text;
use crate::text::{
    after_char, before_char, ends_with, parse_int, parse_uint, pieces, starts_with, trim,
    trim_char, trim_start_char, unicode_lower, utf8_lossy,
};

verus! {

/// Files larger than this are served in windows even without a `Range` header.
pub const MAX_UNRANGED_BYTES: u64 = 33554432;

/// Size of the window served for a large file requested without a range.
pub const DEFAULT_RANGE_WINDOW: u64 = 2097152;

pub open spec fn is_pdf(p: Seq<char>) -> bool {
    ends_with(unicode_lower(p), ".pdf"@)
}

pub open spec fn is_mp4(p: Seq<char>) -> bool {
    ends_with(unicode_lower(p), ".mp4"@)
}

pub fn is_pdf_path(path: &str) -> (r: bool)
    ensures
        r == is_pdf(path@),
{
    let lower = text::to_lowercase(path);
    let v = text::chars_of(lower.as_str());
    text::str_ends_with(v.as_slice(), ".pdf")
}

pub fn is_mp4_path(path: &str) -> (r: bool)
    ensures
        r == is_mp4(path@),
{
    let lower = text::to_lowercase(path);
    let v = text::chars_of(lower.as_str());
    text::str_ends_with(v.as_slice(), ".mp4")
}

pub fn is_supported_media_path(path: &str) -> (r: bool)
    ensures
        r == (is_pdf(path@) || is_mp4(path@)),
{
    is_pdf_path(path) || is_mp4_path(path)
}

pub open spec fn mime_of_path(p: Seq<char>) -> Seq<char> {
    if is_mp4(p) {
        "video/mp4"@
    } else if is_pdf(p) {
        "application/pdf"@
    } else {
        "application/octet-stream"@
    }
}

pub fn mime_for_path(path: &str) -> (r: &'static str)
    ensures
        r@ == mime_of_path(path@),
{
    if is_mp4_path(path) {
        "video/mp4"
    } else if is_pdf_path(path) {
        "application/pdf"
    } else {
        "application/octet-stream"
    }
}

/// Whether `regex::Regex::new(pattern)` compiles and then matches somewhere in
/// `haystack`.
pub uninterp spec fn regex_matches(pattern: Seq<char>, haystack: Seq<char>) -> bool;

/// `regex::Regex::new` then `Regex::is_match`; a pattern that does not compile
/// matches nothing. The result is a function of the two texts alone; the regex
/// engine's semantics are not restated.
#[verifier::external_body]
fn regex_is_match(pattern: &str, haystack: &str) -> (r: bool)
    ensures
        r == regex_matches(pattern@, haystack@),
{
    match regex::Regex::new(pattern) {
        Ok(re) => re.is_match(haystack),
        Err(_) => false,
    }
}

pub open spec fn chapter_word_pattern() -> Seq<char> {
    "(^|[/\\-_ ])(ch|chapter|chap|vol|volume|episode|ep)[\\-_ ]?\\d"@
}

pub open spec fn short_number_pattern() -> Seq<char> {
    "\\b[0-9]{1,3}\\b"@
}

pub open spec fn numbered_prefix_pattern() -> Seq<char> {
    "第\\s*\\d"@
}

pub open spec fn episode_char_pattern() -> Seq<char> {
    "[話话回]"@
}

pub open spec fn digit_pattern() -> Seq<char> {
    "\\d"@
}

/// The label a PDF is judged by: its file name (the whole path when it has none),
/// lowercased, without leading dots.
pub open spec fn manga_label(p: Seq<char>) -> Seq<char> {
    let name = match paths::file_name(p) {
        Some(n) => n,
        None => p,
    };
    trim_start_char(unicode_lower(name), '.')
}

/// A PDF whose name carries a chapter, volume or episode marker, a short number, or
/// a CJK chapter marker with a number.
pub open spec fn looks_like_manga(p: Seq<char>) -> bool {
    let label = manga_label(p);
    ||| regex_matches(chapter_word_pattern(), label)
    ||| regex_matches(short_number_pattern(), label)
    ||| regex_matches(numbered_prefix_pattern(), label)
    ||| (regex_matches(episode_char_pattern(), label) && regex_matches(digit_pattern(), label))
}

fn pdf_looks_like_manga(path: &str) -> (r: bool)
    ensures
        r == looks_like_manga(path@),
{
    let pv = text::chars_of(path);
    let name = match paths::file_name_exec(pv.as_slice()) {
        Some(n) => n,
        None => pv,
    };
    let lower = text::lower_unicode(name.as_slice());
    let label_chars = text::trim_start_char_exec(lower.as_slice(), '.');
    let label_string = text::string_of(label_chars.as_slice());
    let label = label_string.as_str();
    regex_is_match("(^|[/\\-_ ])(ch|chapter|chap|vol|volume|episode|ep)[\\-_ ]?\\d", label)
        || regex_is_match("\\b[0-9]{1,3}\\b", label) || regex_is_match("第\\s*\\d", label) || (
    regex_is_match("[話话回]", label) && regex_is_match("\\d", label))
}

#[derive(Debug, Clone, PartialEq, Eq, Structural)]
pub struct MediaKind {
    pub content_type: ContentType,
    pub source_format: SourceFormat,
    pub supported: bool,
}

/// Classification by file name: `.mp4` is video, `.pdf` is manga when its name looks
/// numbered and a document otherwise, anything else is unsupported.
pub open spec fn media_kind_of(p: Seq<char>) -> MediaKind {
    if is_mp4(p) {
        MediaKind {
            content_type: ContentType::Video,
            source_format: SourceFormat::Mp4,
            supported: true,
        }
    } else if is_pdf(p) {
        MediaKind {
            content_type: if looks_like_manga(p) {
                ContentType::Manga
            } else {
                ContentType::Document
            },
            source_format: SourceFormat::Pdf,
            supported: true,
        }
    } else {
        MediaKind {
            content_type: ContentType::Document,
            source_format: SourceFormat::Pdf,
            supported: false,
        }
    }
}

/// The extension alone decides the viewer: a `.pdf` is never classified as video
/// and an `.mp4` is never sent to the PDF renderer.
pub proof fn lemma_extension_decides_viewer(p: Seq<char>)
    ensures
        is_pdf(p) ==> media_kind_of(p).source_format == SourceFormat::Pdf
            && media_kind_of(p).content_type != ContentType::Video
            && media_kind_of(p).supported,
        is_mp4(p) ==> media_kind_of(p).source_format == SourceFormat::Mp4
            && media_kind_of(p).content_type == ContentType::Video
            && media_kind_of(p).supported,
{
    let l = unicode_lower(p);
    if is_pdf(p) && is_mp4(p) {
        reveal_strlit(".pdf");
        reveal_strlit(".mp4");
        assert(l[l.len() - 1] == ".pdf"@[3]);
        assert(l[l.len() - 1] == ".mp4"@[3]);
    }
}

pub fn detect_media_kind(path: &str) -> (r: MediaKind)
    ensures
        r == media_kind_of(path@),
{
    if is_mp4_path(path) {
        return MediaKind {
            content_type: ContentType::Video,
            source_format: SourceFormat::Mp4,
            supported: true,
        };
    }
    if is_pdf_path(path) {
        return MediaKind {
            content_type: if pdf_looks_like_manga(path) {
                ContentType::Manga
            } else {
                ContentType::Document
            },
            source_format: SourceFormat::Pdf,
            supported: true,
        };
    }
    MediaKind {
        content_type: ContentType::Document,
        source_format: SourceFormat::Pdf,
        supported: false,
    }
}

pub open spec fn is_supported_mp4(p: Seq<char>) -> bool {
    media_kind_of(p).supported && media_kind_of(p).source_format == SourceFormat::Mp4
}

pub open spec fn is_supported_pdf(p: Seq<char>) -> bool {
    media_kind_of(p).supported && media_kind_of(p).source_format == SourceFormat::Pdf
}

/// Number of files classified as supported MP4.
pub open spec fn mp4_count(fs: Seq<Seq<char>>) -> int
    decreases fs.len(),
{
    if fs.len() == 0 {
        0
    } else {
        mp4_count(fs.drop_last()) + if is_supported_mp4(fs.last()) {
            1int
        } else {
            0
        }
    }
}

/// Number of files classified as supported PDF.
pub open spec fn pdf_count(fs: Seq<Seq<char>>) -> int
    decreases fs.len(),
{
    if fs.len() == 0 {
        0
    } else {
        pdf_count(fs.drop_last()) + if is_supported_pdf(fs.last()) {
            1int
        } else {
            0
        }
    }
}

pub open spec fn is_mangaish(t: ContentType) -> bool {
    t == ContentType::Manga || t == ContentType::Manhwa || t == ContentType::Comic
}

/// Some supported PDF among `fs` is classified as manga-like.
pub open spec fn has_manga_pdf(fs: Seq<Seq<char>>) -> bool {
    exists|i: int|
        0 <= i < fs.len() && is_supported_pdf(#[trigger] fs[i]) && is_mangaish(
            media_kind_of(fs[i]).content_type,
        )
}

/// A folder's kind from its files: whichever format has more supported files wins,
/// PDFs reading as manga when any of them looks like manga; a tie or no supported
/// file at all decides nothing.
pub open spec fn series_media_of(fs: Seq<Seq<char>>) -> Option<(ContentType, SourceFormat)> {
    let pdfs = pdf_count(fs);
    let mp4s = mp4_count(fs);
    if pdfs == 0 && mp4s == 0 {
        None
    } else if mp4s > pdfs {
        Some((ContentType::Video, SourceFormat::Mp4))
    } else if pdfs > mp4s {
        Some(
            (
                if has_manga_pdf(fs) {
                    ContentType::Manga
                } else {
                    ContentType::Document
                },
                SourceFormat::Pdf,
            ),
        )
    } else {
        None
    }
}

pub open spec fn path_views(files: Seq<String>) -> Seq<Seq<char>> {
    files.map_values(|s: String| s@)
}

pub fn infer_series_media(files: &[String]) -> (r: Option<(ContentType, SourceFormat)>)
    ensures
        r == series_media_of(path_views(files@)),
{
    let ghost fs = path_views(files@);
    let mut pdf_n: usize = 0;
    let mut mp4_n: usize = 0;
    let mut mangaish = false;
    let mut i: usize = 0;
    while i < files.len()
        invariant
            fs == path_views(files@),
            i <= files@.len(),
            pdf_n == pdf_count(fs.take(i as int)),
            mp4_n == mp4_count(fs.take(i as int)),
            pdf_n + mp4_n <= i,
            mangaish == has_manga_pdf(fs.take(i as int)),
        decreases files@.len() - i,
    {
        let kind = detect_media_kind(files[i].as_str());
        proof {
            assert(fs.take(i + 1).drop_last() =~= fs.take(i as int));
            assert(fs.take(i + 1).last() == files@[i as int]@);
        }
        if kind.supported {
            match kind.source_format {
                SourceFormat::Mp4 => {
                    mp4_n = mp4_n + 1;
                },
                SourceFormat::Pdf => {
                    pdf_n = pdf_n + 1;
                    if kind.content_type == ContentType::Manga || kind.content_type
                        == ContentType::Manhwa || kind.content_type == ContentType::Comic {
                        mangaish = true;
                    }
                },
            }
        }
        proof {
            let t = fs.take(i as int);
            let t1 = fs.take(i + 1);
            if mangaish {
                if has_manga_pdf(t) {
                    let k = choose|k: int|
                        0 <= k < t.len() && is_supported_pdf(#[trigger] t[k]) && is_mangaish(
                            media_kind_of(t[k]).content_type,
                        );
                    assert(t1[k] == t[k]);
                } else {
                    assert(t1[i as int] == files@[i as int]@);
                }
            } else {
                assert forall|k: int|
                    0 <= k < t1.len() && is_supported_pdf(#[trigger] t1[k]) implies !is_mangaish(
                    media_kind_of(t1[k]).content_type,
                ) by {
                    if k < i {
                        assert(t1[k] == t[k]);
                    }
                }
            }
        }
        i = i + 1;
    }
    proof {
        assert(fs.take(files@.len() as int) =~= fs);
    }
    if pdf_n == 0 && mp4_n == 0 {
        return None;
    }
    if mp4_n > pdf_n {
        return Some((ContentType::Video, SourceFormat::Mp4));
    }
    if pdf_n > mp4_n {
        let content_type = if mangaish {
            ContentType::Manga
        } else {
            ContentType::Document
        };
        return Some((content_type, SourceFormat::Pdf));
    }
    None
}

#[derive(Debug, Clone, Copy, PartialEq, Eq, Structural)]
pub struct ByteRange {
    pub start: u64,
    pub end: u64,
}

/// The first range of a `bytes=` header that fits a file of `size` bytes: `a-b` (the
/// end clamped to the last byte), `a-` (to the end), or `-n` (the last `n` bytes).
pub open spec fn byte_range_of(header: Option<Seq<char>>, size: int) -> Option<(int, int)> {
    if size == 0 {
        None
    } else {
        match header {
            None => None,
            Some(h) => {
                let h1 = trim(h);
                if !starts_with(h1, "bytes="@) {
                    None
                } else {
                    let first = trim(before_char(trim(h1.skip("bytes="@.len() as int)), ','));
                    let last = size - 1;
                    if first.len() == 0 {
                        None
                    } else if first[0] == '-' {
                        match parse_uint(first.drop_first(), u64::MAX as int) {
                            None => None,
                            Some(n) => if n == 0 {
                                None
                            } else {
                                Some((if size > n { size - n } else { 0 }, last))
                            },
                        }
                    } else {
                        match after_char(first, '-') {
                            None => None,
                            Some(end_raw) => match parse_uint(before_char(first, '-'), u64::MAX as int) {
                                None => None,
                                Some(start) => if start > last {
                                    None
                                } else if end_raw.len() == 0 {
                                    Some((start, last))
                                } else {
                                    match parse_uint(end_raw, u64::MAX as int) {
                                        None => None,
                                        Some(e) => {
                                            let end = if e < last { e } else { last };
                                            if end < start {
                                                None
                                            } else {
                                                Some((start, end))
                                            }
                                        },
                                    }
                                },
                            },
                        }
                    }
                }
            },
        }
    }
}

/// A parsed range lies inside the file and does not run backwards.
pub proof fn lemma_byte_range_inside(header: Option<Seq<char>>, size: int)
    requires
        size >= 0,
    ensures
        byte_range_of(header, size) matches Some((s, e)) ==> 0 <= s <= e < size,
{
    if let Some(h) = header {
        let h1 = trim(h);
        let first = trim(before_char(trim(h1.skip("bytes="@.len() as int)), ','));
        if first.len() > 0 {
            text::lemma_parse_uint_nonneg(first.drop_first(), u64::MAX as int);
            text::lemma_parse_uint_nonneg(before_char(first, '-'), u64::MAX as int);
            if let Some(end_raw) = after_char(first, '-') {
                text::lemma_parse_uint_nonneg(end_raw, u64::MAX as int);
            }
        }
    }
}

/// A `bytes=a-b` range whose start lies inside the file is served from `a` to `b`,
/// or to the file's last byte when `b` runs past it: a range is never refused for
/// ending beyond the file, only for ending before its start.
pub proof fn lemma_byte_range_end_clamped(da: Seq<char>, db: Seq<char>, size: int)
    requires
        da.len() > 0,
        db.len() > 0,
        text::all_digits(da),
        text::all_digits(db),
        text::dec_value(da) < size,
        text::dec_value(da) <= u64::MAX,
        text::dec_value(db) <= u64::MAX,
    ensures
        ({
            let a = text::dec_value(da);
            let b = text::dec_value(db);
            byte_range_of(Some("bytes="@ + da + "-"@ + db), size) == if b < a {
                None
            } else {
                Some((a, if b < size - 1 {
                    b
                } else {
                    size - 1
                }))
            }
        }),
{
    reveal_strlit("bytes=");
    reveal_strlit("-");
    let p = "bytes="@;
    let x = da + "-"@ + db;
    let h = p + x;
    assert(h =~= "bytes="@ + da + "-"@ + db);
    assert(h[0] == 'b');
    assert(h[h.len() - 1] == db[db.len() - 1]);
    text::lemma_trim_plain(h);
    assert(h.subrange(0, 6) =~= p);
    assert(starts_with(h, p));
    assert(h.skip(6) =~= x);
    assert(x[0] == da[0]);
    assert(x[x.len() - 1] == db[db.len() - 1]);
    text::lemma_trim_plain(x);
    let k = da.len() as int;
    assert forall|j: int| 0 <= j < x.len() implies x[j] != ',' by {
        if j < k {
            assert(x[j] == da[j]);
        } else if j > k {
            assert(x[j] == db[j - k - 1]);
        }
    }
    text::lemma_find_char(x, ',');
    assert(before_char(x, ',') =~= x);
    assert forall|j: int| 0 <= j < k implies x[j] != '-' by {
        assert(x[j] == da[j]);
    }
    assert(x[k] == '-');
    text::lemma_find_char(x, '-');
    assert(text::find_char(x, '-') == k);
    assert(before_char(x, '-') =~= da);
    assert(x.skip(k + 1) =~= db);
    assert(after_char(x, '-') == Some(db));
    assert(x[0] != '-');
    text::lemma_dec_value_nonneg(da);
    text::lemma_dec_value_nonneg(db);
    assert(text::parse_uint(da, u64::MAX as int) == Some(text::dec_value(da)));
    assert(text::parse_uint(db, u64::MAX as int) == Some(text::dec_value(db)));
}

/// An open range `bytes=a-` runs from `a` to the file's last byte, and is refused
/// only when `a` lies beyond the file.
pub proof fn lemma_byte_range_open_end(da: Seq<char>, size: int)
    requires
        da.len() > 0,
        text::all_digits(da),
        text::dec_value(da) <= u64::MAX,
        size > 0,
    ensures
        byte_range_of(Some("bytes="@ + da + "-"@), size) == if text::dec_value(da) < size {
            Some((text::dec_value(da), size - 1))
        } else {
            None
        },
{
    reveal_strlit("bytes=");
    reveal_strlit("-");
    let p = "bytes="@;
    let x = da + "-"@;
    let h = p + x;
    assert(h =~= "bytes="@ + da + "-"@);
    assert(h[0] == 'b' && h[h.len() - 1] == '-');
    text::lemma_trim_plain(h);
    assert(h.subrange(0, 6) =~= p);
    assert(h.skip(6) =~= x);
    assert(x[0] == da[0] && x[x.len() - 1] == '-');
    text::lemma_trim_plain(x);
    let k = da.len() as int;
    assert forall|j: int| 0 <= j < x.len() implies x[j] != ',' by {
        if j < k {
            assert(x[j] == da[j]);
        }
    }
    text::lemma_find_char(x, ',');
    assert(before_char(x, ',') =~= x);
    assert forall|j: int| 0 <= j < k implies x[j] != '-' by {
        assert(x[j] == da[j]);
    }
    text::lemma_find_char(x, '-');
    assert(text::find_char(x, '-') == k);
    assert(before_char(x, '-') =~= da);
    assert(x.skip(k + 1) =~= Seq::<char>::empty());
    text::lemma_dec_value_nonneg(da);
    assert(text::parse_uint(da, u64::MAX as int) == Some(text::dec_value(da)));
}

/// A suffix range `bytes=-n` is the last `n` bytes of the file (all of it when
/// `n` is larger), and is refused only for `n` of zero.
pub proof fn lemma_byte_range_suffix(dn: Seq<char>, size: int)
    requires
        dn.len() > 0,
        text::all_digits(dn),
        text::dec_value(dn) <= u64::MAX,
        size > 0,
    ensures
        ({
            let n = text::dec_value(dn);
            byte_range_of(Some("bytes=-"@ + dn), size) == if n == 0 {
                None
            } else {
                Some((if size > n {
                    size - n
                } else {
                    0
                }, size - 1))
            }
        }),
{
    reveal_strlit("bytes=");
    reveal_strlit("bytes=-");
    let p = "bytes="@;
    let x = seq!['-'] + dn;
    let h = p + x;
    assert(h =~= "bytes=-"@ + dn);
    assert(h[0] == 'b' && h[h.len() - 1] == dn[dn.len() - 1]);
    text::lemma_trim_plain(h);
    assert(h.subrange(0, 6) =~= p);
    assert(h.skip(6) =~= x);
    assert(x[0] == '-' && x[x.len() - 1] == dn[dn.len() - 1]);
    text::lemma_trim_plain(x);
    assert forall|j: int| 0 <= j < x.len() implies x[j] != ',' by {
        if j > 0 {
            assert(x[j] == dn[j - 1]);
        }
    }
    text::lemma_find_char(x, ',');
    assert(before_char(x, ',') =~= x);
    assert(x.drop_first() =~= dn);
    text::lemma_dec_value_nonneg(dn);
    assert(text::parse_uint(dn, u64::MAX as int) == Some(text::dec_value(dn)));
}

pub open spec fn opt_view(o: Option<&str>) -> Option<Seq<char>> {
    match o {
        Some(s) => Some(s@),
        None => None,
    }
}

pub fn parse_byte_range(header: Option<&str>, file_size: u64) -> (r: Option<ByteRange>)
    ensures
        match byte_range_of(opt_view(header), file_size as int) {
            Some((s, e)) => r == Some(ByteRange { start: s as u64, end: e as u64 }),
            None => r is None,
        },
{
    if file_size == 0 {
        return None;
    }
    let h = match header {
        Some(h) => h,
        None => return None,
    };
    let hv = text::chars_of(h);
    let h1 = text::trim_exec(hv.as_slice());
    let prefix = text::chars_of("bytes=");
    if !text::has_prefix(h1.as_slice(), prefix.as_slice()) {
        return None;
    }
    let after = text::copy_range(h1.as_slice(), prefix.len(), h1.len());
    let spec1 = text::trim_exec(after.as_slice());
    let head = text::before_char_exec(spec1.as_slice(), ',');
    let first = text::trim_exec(head.as_slice());
    if first.len() == 0 {
        return None;
    }
    let last = file_size - 1;
    if first[0] == '-' {
        let suffix = text::copy_range(first.as_slice(), 1, first.len());
        assert(suffix@ =~= first@.drop_first());
        let n = match text::parse_u64(suffix.as_slice()) {
            Some(n) => n,
            None => return None,
        };
        if n == 0 {
            return None;
        }
        let start = file_size.saturating_sub(n);
        return Some(ByteRange { start, end: last });
    }
    let k = text::find_char_exec(first.as_slice(), '-');
    if k >= first.len() {
        return None;
    }
    let start_raw = text::copy_range(first.as_slice(), 0, k);
    let end_raw = text::copy_range(first.as_slice(), k + 1, first.len());
    let start = match text::parse_u64(start_raw.as_slice()) {
        Some(s) => s,
        None => return None,
    };
    if start > last {
        return None;
    }
    let end = if end_raw.len() == 0 {
        last
    } else {
        match text::parse_u64(end_raw.as_slice()) {
            Some(e) => if e < last {
                e
            } else {
                last
            },
            None => return None,
        }
    };
    if end < start {
        return None;
    }
    Some(ByteRange { start, end })
}

#[derive(Debug, Clone, PartialEq, Eq, Structural)]
pub enum ProtocolTarget {
    File { chapter_id: i64 },
    Page { chapter_id: i64, page_index: i32, width: u32 },
    Tile { chapter_id: i64, page_index: i32, tile_index: u32, width: u32 },
}

pub open spec fn is_hex(b: u8) -> bool {
    (0x30 <= b <= 0x39) || (0x41 <= b <= 0x46) || (0x61 <= b <= 0x66)
}

pub open spec fn hex_value(b: u8) -> int {
    if 0x30 <= b <= 0x39 {
        b - 0x30
    } else if 0x41 <= b <= 0x46 {
        b - 0x41 + 10
    } else {
        b - 0x61 + 10
    }
}

/// `u8::from_str_radix` of a two-byte escape body in base 16: two hex digits, or
/// `+` and one.
pub open spec fn escape_value(b1: u8, b2: u8) -> Option<u8> {
    if is_hex(b1) && is_hex(b2) {
        Some((hex_value(b1) * 16 + hex_value(b2)) as u8)
    } else if b1 == 0x2b && is_hex(b2) {
        Some(hex_value(b2) as u8)
    } else {
        None
    }
}

/// Replaces each `%` followed by two more bytes that form a valid escape with the
/// byte it names; every other byte stays.
pub open spec fn percent_decode(b: Seq<u8>) -> Seq<u8>
    decreases b.len(),
{
    if b.len() == 0 {
        Seq::empty()
    } else if b[0] == 0x25 && b.len() >= 3 && escape_value(b[1], b[2]) is Some {
        seq![escape_value(b[1], b[2])->0] + percent_decode(b.skip(3))
    } else {
        seq![b[0]] + percent_decode(b.skip(1))
    }
}

fn hex_digit(b: u8) -> (r: Option<u8>)
    ensures
        match r {
            Some(v) => is_hex(b) && v == hex_value(b),
            None => !is_hex(b),
        },
{
    if 0x30 <= b && b <= 0x39 {
        Some(b - 0x30)
    } else if 0x41 <= b && b <= 0x46 {
        Some(b - 0x41 + 10)
    } else if 0x61 <= b && b <= 0x66 {
        Some(b - 0x61 + 10)
    } else {
        None
    }
}

fn escape_value_exec(b1: u8, b2: u8) -> (r: Option<u8>)
    ensures
        r == escape_value(b1, b2),
{
    match (hex_digit(b1), hex_digit(b2)) {
        (Some(h), Some(l)) => Some(h * 16 + l),
        (None, Some(l)) => if b1 == 0x2b {
            Some(l)
        } else {
            None
        },
        _ => None,
    }
}

fn percent_decode_bytes(b: &[u8]) -> (r: Vec<u8>)
    ensures
        r@ == percent_decode(b@),
{
    let mut out: Vec<u8> = Vec::new();
    let mut i: usize = 0;
    let n = b.len();
    assert(b@.skip(0) =~= b@);
    while i < n
        invariant
            n == b@.len(),
            i <= n,
            out@ + percent_decode(b@.skip(i as int)) == percent_decode(b@),
        decreases n - i,
    {
        let ghost rest = b@.skip(i as int);
        if b[i] == 0x25 && n - i > 2 {
            if let Some(v) = escape_value_exec(b[i + 1], b[i + 2]) {
                proof {
                    assert(rest[0] == b@[i as int] && rest[1] == b@[i + 1] && rest[2] == b@[i
                        + 2]);
                    assert(rest.skip(3) =~= b@.skip(i + 3));
                }
                let ghost old_out = out@;
                out.push(v);
                proof {
                    assert(out@ + percent_decode(b@.skip(i + 3)) =~= old_out + percent_decode(
                        rest,
                    ));
                }
                i = i + 3;
                continue;
            }
        }
        proof {
            assert(rest[0] == b@[i as int]);
            if rest.len() >= 3 {
                assert(rest[1] == b@[i + 1] && rest[2] == b@[i + 2]);
            }
            assert(rest.skip(1) =~= b@.skip(i + 1));
        }
        let ghost old_out = out@;
        out.push(b[i]);
        proof {
            assert(out@ + percent_decode(b@.skip(i + 1)) =~= old_out + percent_decode(rest));
        }
        i = i + 1;
    }
    proof {
        assert(b@.skip(n as int) =~= Seq::<u8>::empty());
        assert(out@ =~= percent_decode(b@));
    }
    out
}

/// A URL path with its escapes decoded, read back as UTF-8 (invalid sequences become
/// U+FFFD).
pub open spec fn decoded_path(p: &str) -> Seq<char> {
    utf8_lossy(percent_decode(p.spec_bytes()))
}

fn percent_decode_path(path: &str) -> (r: String)
    ensures
        r@ == decoded_path(path),
{
    let bytes = path.as_bytes();
    let out = percent_decode_bytes(bytes);
    text::from_utf8_lossy(out.as_slice())
}

/// The width a query asks for: the first `width=` or `w=` pair whose value is a `u32`.
pub open spec fn first_width(ps: Seq<Seq<char>>) -> Option<int>
    decreases ps.len(),
{
    if ps.len() == 0 {
        None
    } else {
        match pair_width(ps[0]) {
            Some(w) => Some(w),
            None => first_width(ps.drop_first()),
        }
    }
}

pub open spec fn pair_width(pair: Seq<char>) -> Option<int> {
    match after_char(pair, '=') {
        None => None,
        Some(value) => {
            let key = before_char(pair, '=');
            if key == "width"@ || key == "w"@ {
                parse_uint(value, u32::MAX as int)
            } else {
                None
            }
        },
    }
}

pub open spec fn query_width(q: Seq<char>) -> Option<int> {
    first_width(pieces(q, '&'))
}

fn pair_width_exec(pair: &[char]) -> (r: Option<u32>)
    ensures
        match r {
            Some(w) => pair_width(pair@) == Some(w as int),
            None => pair_width(pair@) is None,
        },
{
    let k = text::find_char_exec(pair, '=');
    if k >= pair.len() {
        return None;
    }
    let key = text::copy_range(pair, 0, k);
    let value = text::copy_range(pair, k + 1, pair.len());
    if text::lit_eq(key.as_slice(), "width") || text::lit_eq(key.as_slice(), "w") {
        text::parse_u32(value.as_slice())
    } else {
        None
    }
}

fn width_from_query(query: &str) -> (r: Option<u32>)
    ensures
        match r {
            Some(w) => query_width(query@) == Some(w as int),
            None => query_width(query@) is None,
        },
{
    let qv = text::chars_of(query);
    let ps = text::pieces_exec(qv.as_slice(), '&');
    let ghost all = pieces(qv@, '&');
    let mut i: usize = 0;
    assert(all.skip(0) =~= all);
    while i < ps.len()
        invariant
            all == pieces(query@, '&'),
            ps@.len() == all.len(),
            forall|j: int| 0 <= j < ps@.len() ==> (#[trigger] ps@[j])@ == all[j],
            i <= ps@.len(),
            first_width(all.skip(i as int)) == first_width(all),
        decreases ps@.len() - i,
    {
        let w = pair_width_exec(ps[i].as_slice());
        proof {
            let rest = all.skip(i as int);
            assert(rest[0] == all[i as int]);
            assert(ps@[i as int]@ == all[i as int]);
            assert(rest.drop_first() =~= all.skip(i + 1));
            assert(first_width(rest) == match pair_width(rest[0]) {
                Some(w) => Some(w),
                None => first_width(rest.drop_first()),
            });
        }
        if let Some(x) = w {
            proof {
                assert(pair_width(all[i as int]) == Some(x as int));
                assert(first_width(all) == Some(x as int));
                assert(all == pieces(query@, '&'));
            }
            return Some(x);
        }
        i = i + 1;
    }
    proof {
        assert(all.skip(i as int) =~= Seq::<Seq<char>>::empty());
    }
    None
}

pub open spec fn opt_u32_view(o: Option<u32>) -> Option<int> {
    match o {
        Some(w) => Some(w as int),
        None => None,
    }
}

/// The chapter id of `chapter/<id>/...` or `<id>/...`, slashes around it ignored.
pub open spec fn chapter_id_of(p: Seq<char>) -> Option<int> {
    let t = trim_char(p, '/');
    let rest = if starts_with(t, "chapter/"@) {
        t.skip("chapter/"@.len() as int)
    } else {
        t
    };
    parse_int(before_char(rest, '/'), i64::MIN as int, i64::MAX as int)
}

fn chapter_id_exec(p: &[char]) -> (r: Option<i64>)
    ensures
        match r {
            Some(v) => chapter_id_of(p@) == Some(v as int),
            None => chapter_id_of(p@) is None,
        },
{
    let t = text::trim_char_exec(p, '/');
    let prefix = text::chars_of("chapter/");
    let rest = if text::has_prefix(t.as_slice(), prefix.as_slice()) {
        text::copy_range(t.as_slice(), prefix.len(), t.len())
    } else {
        t
    };
    let id = text::before_char_exec(rest.as_slice(), '/');
    text::parse_i64(id.as_slice())
}

pub fn parse_chapter_id(path: &str) -> (r: Option<i64>)
    ensures
        match r {
            Some(v) => chapter_id_of(path@) == Some(v as int),
            None => chapter_id_of(path@) is None,
        },
{
    let v = text::chars_of(path);
    chapter_id_exec(v.as_slice())
}

/// Width for a page or segment URL: the URL's own value when it reads as a `u32`,
/// else the query's, else `default`; then clamped to the renderable range.
pub open spec fn target_width(ps: Seq<Seq<char>>, n: int, qw: Option<int>, default: int) -> int {
    let w = if ps.len() > n && parse_uint(ps[n], u32::MAX as int) is Some {
        parse_uint(ps[n], u32::MAX as int)->0
    } else {
        match qw {
            Some(q) => q,
            None => default,
        }
    };
    pdf::clamp_width(w as u32) as int
}

/// `<chapter><sep><page><sep><segment>[<sep><width>]`.
pub open spec fn tile_target_of(rest: Seq<char>, sep: char, qw: Option<int>) -> Option<
    ProtocolTarget,
> {
    let ps = pieces(rest, sep);
    match parse_int(ps[0], i64::MIN as int, i64::MAX as int) {
        None => None,
        Some(cid) => if ps.len() < 2 {
            None
        } else {
            match parse_int(ps[1], i32::MIN as int, i32::MAX as int) {
                None => None,
                Some(pg) => if ps.len() < 3 {
                    None
                } else {
                    match parse_uint(ps[2], u32::MAX as int) {
                        None => None,
                        Some(ti) => Some(
                            ProtocolTarget::Tile {
                                chapter_id: cid as i64,
                                page_index: pg as i32,
                                tile_index: ti as u32,
                                width: target_width(ps, 3, qw, 1200) as u32,
                            },
                        ),
                    }
                },
            }
        },
    }
}

/// `<chapter><sep><page>[<sep><width>]`.
pub open spec fn page_target_of(rest: Seq<char>, sep: char, qw: Option<int>) -> Option<
    ProtocolTarget,
> {
    let ps = pieces(rest, sep);
    match parse_int(ps[0], i64::MIN as int, i64::MAX as int) {
        None => None,
        Some(cid) => if ps.len() < 2 {
            None
        } else {
            match parse_int(ps[1], i32::MIN as int, i32::MAX as int) {
                None => None,
                Some(pg) => Some(
                    ProtocolTarget::Page {
                        chapter_id: cid as i64,
                        page_index: pg as i32,
                        width: target_width(ps, 2, qw, 1400) as u32,
                    },
                ),
            }
        },
    }
}

/// What a `shelf-media` URL asks for. Its path, decoded and without surrounding
/// slashes, is `tile-…`/`tile/…` (a page segment), `page-…`/`page/…` (a whole page),
/// or a chapter id (the chapter's file); widths come from the path, else the query.
pub open spec fn protocol_target_of(path: &str, query: Option<&str>) -> Option<ProtocolTarget> {
    let t = trim_char(decoded_path(path), '/');
    let qw = match query {
        Some(q) => query_width(q@),
        None => None,
    };
    if starts_with(t, "tile-"@) {
        tile_target_of(t.skip("tile-"@.len() as int), '-', qw)
    } else if starts_with(t, "tile/"@) {
        tile_target_of(t.skip("tile/"@.len() as int), '/', qw)
    } else if starts_with(t, "page-"@) {
        page_target_of(t.skip("page-"@.len() as int), '-', qw)
    } else if starts_with(t, "page/"@) {
        page_target_of(t.skip("page/"@.len() as int), '/', qw)
    } else {
        match chapter_id_of(t) {
            Some(id) => Some(ProtocolTarget::File { chapter_id: id as i64 }),
            None => None,
        }
    }
}

fn width_piece(ps: &Vec<Vec<char>>, n: usize, qw: Option<u32>, default: u32) -> (r: u32)
    ensures
        r == target_width(ps@.map_values(|v: Vec<char>| v@), n as int, opt_u32_view(qw), default as int),
{
    let ghost pv = ps@.map_values(|v: Vec<char>| v@);
    let parsed = if n < ps.len() {
        proof {
            assert(pv[n as int] == ps@[n as int]@);
        }
        text::parse_u32(ps[n].as_slice())
    } else {
        None
    };
    let w = match parsed {
        Some(w) => w,
        None => match qw {
            Some(q) => q,
            None => default,
        },
    };
    pdf::clamp_target_width(w)
}

proof fn lemma_pieces_view(ps: Seq<Vec<char>>, s: Seq<char>, c: char)
    requires
        ps.len() == pieces(s, c).len(),
        forall|i: int| 0 <= i < ps.len() ==> (#[trigger] ps[i])@ == pieces(s, c)[i],
    ensures
        ps.map_values(|v: Vec<char>| v@) == pieces(s, c),
{
    assert(ps.map_values(|v: Vec<char>| v@) =~= pieces(s, c));
}

fn tile_target_exec(rest: &[char], sep: char, qw: Option<u32>) -> (r: Option<ProtocolTarget>)
    ensures
        r == tile_target_of(rest@, sep, opt_u32_view(qw)),
{
    let ps = text::pieces_exec(rest, sep);
    proof {
        lemma_pieces_view(ps@, rest@, sep);
        text::lemma_pieces_nonempty(rest@, sep);
    }
    let cid = match text::parse_i64(ps[0].as_slice()) {
        Some(v) => v,
        None => return None,
    };
    if ps.len() < 2 {
        return None;
    }
    let pg = match text::parse_i32(ps[1].as_slice()) {
        Some(v) => v,
        None => return None,
    };
    if ps.len() < 3 {
        return None;
    }
    let ti = match text::parse_u32(ps[2].as_slice()) {
        Some(v) => v,
        None => return None,
    };
    let width = width_piece(&ps, 3, qw, 1200);
    Some(ProtocolTarget::Tile { chapter_id: cid, page_index: pg, tile_index: ti, width })
}

fn page_target_exec(rest: &[char], sep: char, qw: Option<u32>) -> (r: Option<ProtocolTarget>)
    ensures
        r == page_target_of(rest@, sep, opt_u32_view(qw)),
{
    let ps = text::pieces_exec(rest, sep);
    proof {
        lemma_pieces_view(ps@, rest@, sep);
        text::lemma_pieces_nonempty(rest@, sep);
    }
    let cid = match text::parse_i64(ps[0].as_slice()) {
        Some(v) => v,
        None => return None,
    };
    if ps.len() < 2 {
        return None;
    }
    let pg = match text::parse_i32(ps[1].as_slice()) {
        Some(v) => v,
        None => return None,
    };
    let width = width_piece(&ps, 2, qw, 1400);
    Some(ProtocolTarget::Page { chapter_id: cid, page_index: pg, width })
}

pub fn parse_protocol_target(path: &str, query: Option<&str>) -> (r: Option<ProtocolTarget>)
    ensures
        r == protocol_target_of(path, query),
{
    let decoded = percent_decode_path(path);
    let dv = text::chars_of(decoded.as_str());
    let trimmed = text::trim_char_exec(dv.as_slice(), '/');
    let qw = match query {
        Some(q) => width_from_query(q),
        None => None,
    };
    let t = trimmed.as_slice();
    let tile_dash = text::chars_of("tile-");
    let tile_slash = text::chars_of("tile/");
    let page_dash = text::chars_of("page-");
    let page_slash = text::chars_of("page/");
    if text::has_prefix(t, tile_dash.as_slice()) {
        let rest = text::copy_range(t, tile_dash.len(), t.len());
        return tile_target_exec(rest.as_slice(), '-', qw);
    }
    if text::has_prefix(t, tile_slash.as_slice()) {
        let rest = text::copy_range(t, tile_slash.len(), t.len());
        return tile_target_exec(rest.as_slice(), '/', qw);
    }
    if text::has_prefix(t, page_dash.as_slice()) {
        let rest = text::copy_range(t, page_dash.len(), t.len());
        return page_target_exec(rest.as_slice(), '-', qw);
    }
    if text::has_prefix(t, page_slash.as_slice()) {
        let rest = text::copy_range(t, page_slash.len(), t.len());
        return page_target_exec(rest.as_slice(), '/', qw);
    }
    match chapter_id_exec(t) {
        Some(chapter_id) => Some(ProtocolTarget::File { chapter_id }),
        None => None,
    }
}

/// What a file response sends: the status (partial or whole), the inclusive byte
/// span, its length, the file's size and its MIME type.
#[derive(Debug, Clone, Copy)]
pub struct RangePlan {
    pub partial: bool,
    pub start: u64,
    pub end: u64,
    pub length: u64,
    pub file_size: u64,
    pub mime: &'static str,
}

/// The span served for a file of `size` bytes: the requested range; without one, the
/// first window of a file too large to send whole; otherwise the whole file.
pub open spec fn range_span(header: Option<Seq<char>>, size: int) -> (bool, int, int) {
    let last = if size > 0 { size - 1 } else { 0 };
    match byte_range_of(header, size) {
        Some((s, e)) => (true, s, e),
        None => if size > MAX_UNRANGED_BYTES {
            (true, 0, if DEFAULT_RANGE_WINDOW - 1 < last { DEFAULT_RANGE_WINDOW - 1 } else { last })
        } else {
            (false, 0, last)
        },
    }
}

/// The response plan for serving `path`, which holds `file_size` bytes, to a request
/// with the given `Range` header.
pub fn plan_range(path: &str, file_size: u64, range_header: Option<&str>) -> (p: RangePlan)
    ensures
        p.partial == range_span(opt_view(range_header), file_size as int).0,
        p.start == range_span(opt_view(range_header), file_size as int).1,
        p.end == range_span(opt_view(range_header), file_size as int).2,
        p.length == if file_size == 0 {
            0
        } else {
            p.end - p.start + 1
        },
        p.start <= p.end,
        file_size > 0 ==> p.end < file_size,
        p.file_size == file_size,
        p.mime@ == mime_of_path(path@),
{
    let mime = mime_for_path(path);
    let requested = parse_byte_range(range_header, file_size);
    proof {
        lemma_byte_range_inside(opt_view(range_header), file_size as int);
    }
    let last_byte = file_size.saturating_sub(1);
    let (partial, start, end) = match requested {
        Some(range) => (true, range.start, range.end),
        None => if file_size > MAX_UNRANGED_BYTES {
            (true, 0, if DEFAULT_RANGE_WINDOW - 1 < last_byte { DEFAULT_RANGE_WINDOW - 1 } else { last_byte })
        } else {
            (false, 0, last_byte)
        },
    };
    let length = if file_size == 0 {
        0
    } else {
        end - start + 1
    };
    RangePlan { partial, start, end, length, file_size, mime }
}

/// The `Content-Range` value of a partial response: `bytes <start>-<end>/<size>`.
pub open spec fn content_range_of(p: RangePlan) -> Seq<char> {
    "bytes "@ + text::decimal(p.start as nat) + "-"@ + text::decimal(p.end as nat) + "/"@
        + text::decimal(p.file_size as nat)
}

pub fn content_range(plan: &RangePlan) -> (r: String)
    ensures
        r@ == content_range_of(*plan),
{
    let mut v: Vec<char> = Vec::new();
    text::push_str(&mut v, "bytes ");
    let a = text::u64_to_decimal(plan.start);
    text::push_all(&mut v, a.as_slice());
    text::push_str(&mut v, "-");
    let b = text::u64_to_decimal(plan.end);
    text::push_all(&mut v, b.as_slice());
    text::push_str(&mut v, "/");
    let c = text::u64_to_decimal(plan.file_size);
    text::push_all(&mut v, c.as_slice());
    text::string_of(v.as_slice())
}

/// The headers of a file response: type, byte ranges accepted, length, no caching
/// without revalidation, and the served range when the response is partial.
pub open spec fn range_header_list(p: RangePlan) -> Seq<(Seq<char>, Seq<char>)> {
    let base = seq![
        ("content-type"@, p.mime@),
        ("accept-ranges"@, "bytes"@),
        ("content-length"@, text::decimal(p.length as nat)),
        ("cache-control"@, "private, max-age=0, must-revalidate"@),
    ];
    if p.partial {
        base.push(("content-range"@, content_range_of(p)))
    } else {
        base
    }
}

pub open spec fn header_pairs_view(h: Seq<(&'static str, String)>) -> Seq<(Seq<char>, Seq<char>)> {
    h.map_values(|p: (&'static str, String)| (p.0@, p.1@))
}

pub fn range_headers(plan: &RangePlan) -> (r: Vec<(&'static str, String)>)
    ensures
        header_pairs_view(r@) == range_header_list(*plan),
{
    let mut r: Vec<(&'static str, String)> = Vec::new();
    r.push(("content-type", text::string_of(text::chars_of(plan.mime).as_slice())));
    r.push(("accept-ranges", text::string_of(text::chars_of("bytes").as_slice())));
    r.push(("content-length", text::string_of(text::u64_to_decimal(plan.length).as_slice())));
    r.push(
        (
            "cache-control",
            text::string_of(text::chars_of("private, max-age=0, must-revalidate").as_slice()),
        ),
    );
    if plan.partial {
        r.push(("content-range", content_range(plan)));
    }
    assert(header_pairs_view(r@) =~= range_header_list(*plan));
    r
}

/// Headers of a rendered page or segment served over the `shelf-media` protocol:
/// its type told by its signature, its length, a day of private caching, any
/// origin, and its pixel size; a segment also exposes the size headers.
pub open spec fn image_header_list(bytes: Seq<u8>, width: u32, height: u32, segment: bool) -> Seq<
    (Seq<char>, Seq<char>),
> {
    let head = seq![
        ("content-type"@, crate::pdf::image_mime_of(bytes)),
        ("content-length"@, text::decimal(bytes.len())),
        ("cache-control"@, "private, max-age=86400"@),
        ("access-control-allow-origin"@, "*"@),
    ];
    let expose: Seq<(Seq<char>, Seq<char>)> = if segment {
        seq![("access-control-expose-headers"@, "x-image-width, x-image-height"@)]
    } else {
        Seq::empty()
    };
    head + expose + seq![
        ("x-image-width"@, text::decimal(width as nat)),
        ("x-image-height"@, text::decimal(height as nat)),
    ]
}

pub fn image_headers(bytes: &[u8], width: u32, height: u32, segment: bool) -> (r: Vec<
    (&'static str, String),
>)
    ensures
        header_pairs_view(r@) == image_header_list(bytes@, width, height, segment),
{
    let mut r: Vec<(&'static str, String)> = Vec::new();
    r.push(
        ("content-type", text::string_of(text::chars_of(crate::pdf::image_mime(bytes)).as_slice())),
    );
    r.push(("content-length", text::string_of(text::u64_to_decimal(bytes.len() as u64).as_slice())));
    r.push(("cache-control", text::string_of(text::chars_of("private, max-age=86400").as_slice())));
    r.push(("access-control-allow-origin", text::string_of(text::chars_of("*").as_slice())));
    if segment {
        r.push(
            (
                "access-control-expose-headers",
                text::string_of(text::chars_of("x-image-width, x-image-height").as_slice()),
            ),
        );
    }
    r.push(("x-image-width", text::string_of(text::u64_to_decimal(width as u64).as_slice())));
    r.push(("x-image-height", text::string_of(text::u64_to_decimal(height as u64).as_slice())));
    assert(header_pairs_view(r@) =~= image_header_list(bytes@, width, height, segment));
    r
}

/// Headers that answer a preflight request to the `shelf-media` protocol.
pub open spec fn preflight_header_list() -> Seq<(Seq<char>, Seq<char>)> {
    seq![
        ("access-control-allow-origin"@, "*"@),
        ("access-control-allow-headers"@, "range"@),
        (
            "access-control-expose-headers"@,
            "content-range, accept-ranges, content-length, content-type"@,
        ),
    ]
}

pub fn preflight_headers() -> (r: Vec<(&'static str, String)>)
    ensures
        header_pairs_view(r@) == preflight_header_list(),
{
    let mut r: Vec<(&'static str, String)> = Vec::new();
    r.push(("access-control-allow-origin", text::string_of(text::chars_of("*").as_slice())));
    r.push(("access-control-allow-headers", text::string_of(text::chars_of("range").as_slice())));
    r.push(
        (
            "access-control-expose-headers",
            text::string_of(
                text::chars_of("content-range, accept-ranges, content-length, content-type").as_slice(),
            ),
        ),
    );
    assert(header_pairs_view(r@) =~= preflight_header_list());
    r
}

} // verus!
