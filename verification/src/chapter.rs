//! Reading chapter, episode and volume numbers out of file names, and telling a
//! chapter's main release from its alternate versions.
use vstd::prelude::*;
use crate::paths::file_stem;
use crate::text;
use crate::text::{contains, is_ascii_digit, parse_int, unicode_lower};

verus! {

/// An explicit chapter or episode marker: `Ch`, `Chapter`, `Ep`, `Episode`, `第`.
pub const CHAPTER_MARKER_PATTERN: &'static str = r"(?i)(?:ch(?:apter)?\.?\s*|ep(?:isode)?\.?\s*|第\s*)(\d{1,4}(?:\.\d+)?)\s*(?:話|话|回)?";

/// A season and episode: `S1E03`, `S1 E03`.
pub const SEASON_EPISODE_PATTERN: &'static str = r"(?i)\bs\d{1,2}\s*[-_. ]*e(\d{1,4})\b";

/// A leading number: `01 - title`, `1. title`.
pub const LEADING_NUMBER_PATTERN: &'static str = r"(?i)^\s*(\d{1,4}(?:\.\d+)?)\s*(?:[-_.、．。\s]|$)";

/// A volume marker: `Vol`, `Volume`, `v`.
pub const VOLUME_PATTERN: &'static str = r"(?i)(?:vol(?:ume)?\.?\s*|v\.?\s*)(\d{1,4})";

/// Any standalone number of at most four digits (longer ones are ids or times).
pub const BARE_NUMBER_PATTERN: &'static str = r"\b(\d{1,4}(?:\.\d+)?)\b";

/// The text of the first capture group of the first match of `pattern` in `input`.
pub uninterp spec fn regex_capture(pattern: Seq<char>, input: Seq<char>) -> Option<Seq<char>>;

/// `regex::Regex::new(pattern)`, then `captures(input)` and its group 1. A pattern
/// that does not compile captures nothing. The result depends on the two texts
/// alone; the engine's semantics are not restated.
#[verifier::external_body]
fn first_capture(pattern: &str, input: &str) -> (r: Option<String>)
    ensures
        match r {
            Some(s) => regex_capture(pattern@, input@) == Some(s@),
            None => regex_capture(pattern@, input@) is None,
        },
{
    let re = match regex::Regex::new(pattern) {
        Ok(re) => re,
        Err(_) => return None,
    };
    match re.captures(input) {
        Some(caps) => match caps.get(1) {
            Some(m) => Some(m.as_str().to_string()),
            None => None,
        },
        None => None,
    }
}

/// Decimal text `D+` or `D+.D+` in ASCII digits that is not zero: what reads as a
/// positive number.
pub open spec fn positive_number_text(t: Seq<char>) -> bool {
    let dot = text::find_char(t, '.');
    let int_part = t.take(dot);
    let frac = if dot < t.len() {
        t.skip(dot + 1)
    } else {
        Seq::empty()
    };
    &&& int_part.len() > 0
    &&& text::all_digits(int_part)
    &&& (dot < t.len() ==> frac.len() > 0 && text::all_digits(frac))
    &&& exists|i: int| 0 <= i < t.len() && is_ascii_digit(#[trigger] t[i]) && t[i] != '0'
}

fn is_positive_number_text(t: &[char]) -> (r: bool)
    ensures
        r == positive_number_text(t@),
{
    let dot = text::find_char_exec(t, '.');
    proof {
        text::lemma_find_char(t@, '.');
    }
    let int_part = text::copy_range(t, 0, dot);
    let frac = if dot < t.len() {
        text::copy_range(t, dot + 1, t.len())
    } else {
        Vec::new()
    };
    assert(int_part@ =~= t@.take(dot as int));
    if dot < t.len() {
        assert(frac@ =~= t@.skip(dot + 1));
    } else {
        assert(frac@ =~= Seq::<char>::empty());
    }
    if int_part.len() == 0 || !all_digits_exec(int_part.as_slice()) {
        return false;
    }
    if dot < t.len() && (frac.len() == 0 || !all_digits_exec(frac.as_slice())) {
        return false;
    }
    has_nonzero_digit(t)
}

fn has_nonzero_digit(t: &[char]) -> (r: bool)
    ensures
        r == exists|i: int| 0 <= i < t@.len() && is_ascii_digit(#[trigger] t@[i]) && t@[i] != '0',
{
    let mut i: usize = 0;
    while i < t.len()
        invariant
            i <= t@.len(),
            forall|k: int| 0 <= k < i ==> !(is_ascii_digit(#[trigger] t@[k]) && t@[k] != '0'),
        decreases t@.len() - i,
    {
        if text::char_is_ascii_digit(t[i]) && t[i] != '0' {
            return true;
        }
        i = i + 1;
    }
    false
}

fn all_digits_exec(t: &[char]) -> (r: bool)
    ensures
        r == text::all_digits(t@),
{
    let mut i: usize = 0;
    while i < t.len()
        invariant
            i <= t@.len(),
            forall|k: int| 0 <= k < i ==> is_ascii_digit(#[trigger] t@[k]),
        decreases t@.len() - i,
    {
        if !text::char_is_ascii_digit(t[i]) {
            return false;
        }
        i = i + 1;
    }
    true
}

/// The number a pattern captures in the stem, when it is positive.
pub open spec fn number_by(pattern: Seq<char>, stem: Seq<char>) -> Option<Seq<char>> {
    match regex_capture(pattern, stem) {
        Some(t) => if positive_number_text(t) {
            Some(t)
        } else {
            None
        },
        None => None,
    }
}

fn capture_number(pattern: &str, stem: &str) -> (r: Option<String>)
    ensures
        match r {
            Some(t) => number_by(pattern@, stem@) == Some(t@),
            None => number_by(pattern@, stem@) is None,
        },
{
    match first_capture(pattern, stem) {
        Some(t) => {
            let v = text::chars_of(t.as_str());
            if is_positive_number_text(v.as_slice()) {
                Some(t)
            } else {
                None
            }
        },
        None => None,
    }
}

/// The volume a pattern captures in the stem, when it reads as a positive `i32`.
pub open spec fn volume_by(pattern: Seq<char>, stem: Seq<char>) -> Option<int> {
    match regex_capture(pattern, stem) {
        Some(t) => match parse_int(t, i32::MIN as int, i32::MAX as int) {
            Some(v) => if v > 0 {
                Some(v)
            } else {
                None
            },
            None => None,
        },
        None => None,
    }
}

fn capture_int(pattern: &str, stem: &str) -> (r: Option<i32>)
    ensures
        match r {
            Some(v) => volume_by(pattern@, stem@) == Some(v as int),
            None => volume_by(pattern@, stem@) is None,
        },
{
    match first_capture(pattern, stem) {
        Some(t) => {
            let v = text::chars_of(t.as_str());
            match text::parse_i32(v.as_slice()) {
                Some(n) => if n > 0 {
                    Some(n)
                } else {
                    None
                },
                None => None,
            }
        },
        None => None,
    }
}

/// Which release of a chapter a file is, by words in its name; the main release
/// sorts first, then uncensored, revised, and bonus material.
#[derive(Debug, Clone, Copy, PartialEq, Eq, Structural)]
pub enum VariantRank {
    Primary,
    Uncensored,
    Revised,
    Extra,
}

pub open spec fn contains_any(s: Seq<char>, tokens: Seq<Seq<char>>) -> bool {
    exists|i: int| 0 <= i < tokens.len() && contains(s, #[trigger] tokens[i])
}

pub open spec fn uncensored_words() -> Seq<Seq<char>> {
    seq!["无修正"@, "無修正"@, "无码"@, "無碼"@, "去码"@, "去碼"@]
}

pub open spec fn revised_words() -> Seq<Seq<char>> {
    seq!["修正"@, "修復"@, "修复"@, "改"@, "revised"@, "fix"@]
}

pub open spec fn extra_words() -> Seq<Seq<char>> {
    seq![
        "補圖"@,
        "补图"@,
        "extra"@,
        "bonus"@,
        "番外"@,
        "特別"@,
        "特别"@,
        "後記"@,
        "后记"@,
        "外傳"@,
        "外传"@,
    ]
}

pub open spec fn variant_of(stem: Seq<char>) -> VariantRank {
    let lower = unicode_lower(stem);
    if contains_any(lower, uncensored_words()) {
        VariantRank::Uncensored
    } else if contains_any(lower, revised_words()) {
        VariantRank::Revised
    } else if contains_any(lower, extra_words()) {
        VariantRank::Extra
    } else {
        VariantRank::Primary
    }
}

/// How a release is ranked by the markers in its lowercased name: an uncensored
/// marker makes it the uncensored release whatever else the name says (the
/// uncensored markers contain the revised marker 修正); otherwise a revised or fix
/// marker makes it the revised release; otherwise a bonus or side-story marker
/// makes it an extra; a name with none of them is the main release, which sorts
/// first, ahead of the uncensored, revised and extra releases in that order.
pub proof fn lemma_variant_markers(stem: Seq<char>)
    ensures
        (contains(unicode_lower(stem), "无修正"@) || contains(unicode_lower(stem), "無修正"@) || contains(unicode_lower(stem), "无码"@) || contains(unicode_lower(stem), "無碼"@) || contains(unicode_lower(stem), "去码"@) || contains(unicode_lower(stem), "去碼"@)) ==> variant_of(stem) == VariantRank::Uncensored,
        !(contains(unicode_lower(stem), "无修正"@) || contains(unicode_lower(stem), "無修正"@) || contains(unicode_lower(stem), "无码"@) || contains(unicode_lower(stem), "無碼"@) || contains(unicode_lower(stem), "去码"@) || contains(unicode_lower(stem), "去碼"@)) && (contains(unicode_lower(stem), "修正"@) || contains(unicode_lower(stem), "修復"@) || contains(unicode_lower(stem), "修复"@) || contains(unicode_lower(stem), "改"@) || contains(unicode_lower(stem), "revised"@) || contains(unicode_lower(stem), "fix"@)) ==> variant_of(stem) == VariantRank::Revised,
        !(contains(unicode_lower(stem), "无修正"@) || contains(unicode_lower(stem), "無修正"@) || contains(unicode_lower(stem), "无码"@) || contains(unicode_lower(stem), "無碼"@) || contains(unicode_lower(stem), "去码"@) || contains(unicode_lower(stem), "去碼"@)) && !(contains(unicode_lower(stem), "修正"@) || contains(unicode_lower(stem), "修復"@) || contains(unicode_lower(stem), "修复"@) || contains(unicode_lower(stem), "改"@) || contains(unicode_lower(stem), "revised"@) || contains(unicode_lower(stem), "fix"@)) && (contains(unicode_lower(stem), "補圖"@) || contains(unicode_lower(stem), "补图"@) || contains(unicode_lower(stem), "extra"@) || contains(unicode_lower(stem), "bonus"@) || contains(unicode_lower(stem), "番外"@) || contains(unicode_lower(stem), "特別"@) || contains(unicode_lower(stem), "特别"@) || contains(unicode_lower(stem), "後記"@) || contains(unicode_lower(stem), "后记"@) || contains(unicode_lower(stem), "外傳"@) || contains(unicode_lower(stem), "外传"@)) ==> variant_of(stem)
            == VariantRank::Extra,
        !(contains(unicode_lower(stem), "无修正"@) || contains(unicode_lower(stem), "無修正"@) || contains(unicode_lower(stem), "无码"@) || contains(unicode_lower(stem), "無碼"@) || contains(unicode_lower(stem), "去码"@) || contains(unicode_lower(stem), "去碼"@)) && !(contains(unicode_lower(stem), "修正"@) || contains(unicode_lower(stem), "修復"@) || contains(unicode_lower(stem), "修复"@) || contains(unicode_lower(stem), "改"@) || contains(unicode_lower(stem), "revised"@) || contains(unicode_lower(stem), "fix"@)) && !(contains(unicode_lower(stem), "補圖"@) || contains(unicode_lower(stem), "补图"@) || contains(unicode_lower(stem), "extra"@) || contains(unicode_lower(stem), "bonus"@) || contains(unicode_lower(stem), "番外"@) || contains(unicode_lower(stem), "特別"@) || contains(unicode_lower(stem), "特别"@) || contains(unicode_lower(stem), "後記"@) || contains(unicode_lower(stem), "后记"@) || contains(unicode_lower(stem), "外傳"@) || contains(unicode_lower(stem), "外传"@)) ==> variant_of(stem)
            == VariantRank::Primary,
        variant_offset_of(VariantRank::Primary) < variant_offset_of(VariantRank::Uncensored)
            < variant_offset_of(VariantRank::Revised) < variant_offset_of(VariantRank::Extra),
{
    assert(uncensored_words().len() == 6);
    assert(revised_words().len() == 6);
    assert(extra_words().len() == 11);
    assert(uncensored_words()[0] == "无修正"@);
    assert(uncensored_words()[1] == "無修正"@);
    assert(uncensored_words()[2] == "无码"@);
    assert(uncensored_words()[3] == "無碼"@);
    assert(uncensored_words()[4] == "去码"@);
    assert(uncensored_words()[5] == "去碼"@);
    assert(revised_words()[0] == "修正"@);
    assert(revised_words()[1] == "修復"@);
    assert(revised_words()[2] == "修复"@);
    assert(revised_words()[3] == "改"@);
    assert(revised_words()[4] == "revised"@);
    assert(revised_words()[5] == "fix"@);
    assert(extra_words()[0] == "補圖"@);
    assert(extra_words()[1] == "补图"@);
    assert(extra_words()[2] == "extra"@);
    assert(extra_words()[3] == "bonus"@);
    assert(extra_words()[4] == "番外"@);
    assert(extra_words()[5] == "特別"@);
    assert(extra_words()[6] == "特别"@);
    assert(extra_words()[7] == "後記"@);
    assert(extra_words()[8] == "后记"@);
    assert(extra_words()[9] == "外傳"@);
    assert(extra_words()[10] == "外传"@);
}

fn contains_any_exec(s: &[char], tokens: &Vec<&'static str>) -> (r: bool)
    ensures
        r == exists|i: int| 0 <= i < tokens@.len() && contains(s@, (#[trigger] tokens@[i])@),
{
    let mut i: usize = 0;
    while i < tokens.len()
        invariant
            i <= tokens@.len(),
            forall|k: int| 0 <= k < i ==> !contains(s@, (#[trigger] tokens@[k])@),
        decreases tokens@.len() - i,
    {
        if text::str_contains(s, tokens[i]) {
            return true;
        }
        i = i + 1;
    }
    false
}

pub fn variant_rank(stem: &str) -> (r: VariantRank)
    ensures
        r == variant_of(stem@),
{
    let lower_s = text::to_lowercase(stem);
    let lower = text::chars_of(lower_s.as_str());
    let l = lower.as_slice();
    let unc: Vec<&'static str> = vec!["无修正", "無修正", "无码", "無碼", "去码", "去碼"];
    let rev: Vec<&'static str> = vec!["修正", "修復", "修复", "改", "revised", "fix"];
    let ext: Vec<&'static str> = vec![
        "補圖",
        "补图",
        "extra",
        "bonus",
        "番外",
        "特別",
        "特别",
        "後記",
        "后记",
        "外傳",
        "外传",
    ];
    proof {
        assert(unc@.map_values(|t: &'static str| t@) =~= uncensored_words());
        assert(rev@.map_values(|t: &'static str| t@) =~= revised_words());
        assert(ext@.map_values(|t: &'static str| t@) =~= extra_words());
    }
    if contains_any_exec(l, &unc) {
        proof {
            let i = choose|i: int| 0 <= i < unc@.len() && contains(lower@, (#[trigger] unc@[i])@);
            assert(uncensored_words()[i] == unc@[i]@);
        }
        return VariantRank::Uncensored;
    }
    proof {
        assert forall|i: int| 0 <= i < uncensored_words().len() implies !contains(
            lower@,
            #[trigger] uncensored_words()[i],
        ) by {
            assert(uncensored_words()[i] == unc@[i]@);
        }
    }
    if contains_any_exec(l, &rev) {
        proof {
            let i = choose|i: int| 0 <= i < rev@.len() && contains(lower@, (#[trigger] rev@[i])@);
            assert(revised_words()[i] == rev@[i]@);
        }
        return VariantRank::Revised;
    }
    proof {
        assert forall|i: int| 0 <= i < revised_words().len() implies !contains(
            lower@,
            #[trigger] revised_words()[i],
        ) by {
            assert(revised_words()[i] == rev@[i]@);
        }
    }
    if contains_any_exec(l, &ext) {
        proof {
            let i = choose|i: int| 0 <= i < ext@.len() && contains(lower@, (#[trigger] ext@[i])@);
            assert(extra_words()[i] == ext@[i]@);
        }
        return VariantRank::Extra;
    }
    proof {
        assert forall|i: int| 0 <= i < extra_words().len() implies !contains(
            lower@,
            #[trigger] extra_words()[i],
        ) by {
            assert(extra_words()[i] == ext@[i]@);
        }
    }
    VariantRank::Primary
}

/// What a file name says about a chapter: its title (the file stem), the chapter
/// number as written, the volume, and which release it is.
#[derive(Debug, Clone)]
pub struct ChapterParts {
    pub title: String,
    pub chapter_number: Option<String>,
    pub volume_number: Option<i32>,
    pub variant: VariantRank,
}

pub open spec fn stem_or_unknown(path: Seq<char>) -> Seq<char> {
    match file_stem(path) {
        Some(s) => s,
        None => "Unknown"@,
    }
}

/// The chapter number: an explicit marker first, then season and episode, then a
/// leading number; failing those, and only when no volume is named, any short
/// standalone number.
pub open spec fn chapter_number_of(stem: Seq<char>) -> Option<Seq<char>> {
    let explicit = number_by(CHAPTER_MARKER_PATTERN@, stem);
    let season = number_by(SEASON_EPISODE_PATTERN@, stem);
    let leading = number_by(LEADING_NUMBER_PATTERN@, stem);
    if explicit is Some {
        explicit
    } else if season is Some {
        season
    } else if leading is Some {
        leading
    } else if volume_by(VOLUME_PATTERN@, stem) is None {
        number_by(BARE_NUMBER_PATTERN@, stem)
    } else {
        None
    }
}

pub open spec fn opt_text(o: Option<String>) -> Option<Seq<char>> {
    match o {
        Some(s) => Some(s@),
        None => None,
    }
}

pub open spec fn opt_int(o: Option<i32>) -> Option<int> {
    match o {
        Some(v) => Some(v as int),
        None => None,
    }
}

pub fn parse_chapter_parts(file_path: &str) -> (r: ChapterParts)
    ensures
        r.title@ == stem_or_unknown(file_path@),
        opt_text(r.chapter_number) == chapter_number_of(r.title@),
        opt_int(r.volume_number) == volume_by(VOLUME_PATTERN@, r.title@),
        r.variant == variant_of(r.title@),
{
    let v = text::chars_of(file_path);
    let stem_v = match crate::paths::file_name_exec(v.as_slice()) {
        Some(n) => crate::paths::stem_of_exec(n.as_slice()),
        None => text::chars_of("Unknown"),
    };
    let stem = text::string_of(stem_v.as_slice());
    let mut chapter_number = capture_number(CHAPTER_MARKER_PATTERN, stem.as_str());
    if chapter_number.is_none() {
        chapter_number = capture_number(SEASON_EPISODE_PATTERN, stem.as_str());
    }
    if chapter_number.is_none() {
        chapter_number = capture_number(LEADING_NUMBER_PATTERN, stem.as_str());
    }
    let volume_number = capture_int(VOLUME_PATTERN, stem.as_str());
    if chapter_number.is_none() && volume_number.is_none() {
        chapter_number = capture_number(BARE_NUMBER_PATTERN, stem.as_str());
    }
    let variant = variant_rank(stem.as_str());
    ChapterParts { title: stem, chapter_number, volume_number, variant }
}

/// How far behind its main release a version sorts, in hundredths of a chapter.
pub open spec fn variant_offset_of(rank: VariantRank) -> int {
    match rank {
        VariantRank::Primary => 0,
        VariantRank::Uncensored => 2,
        VariantRank::Revised => 8,
        VariantRank::Extra => 12,
    }
}

pub fn variant_offset_hundredths(rank: VariantRank) -> (r: u32)
    ensures
        r == variant_offset_of(rank),
{
    match rank {
        VariantRank::Primary => 0,
        VariantRank::Uncensored => 2,
        VariantRank::Revised => 8,
        VariantRank::Extra => 12,
    }
}

pub open spec fn variant_order(rank: VariantRank) -> int {
    match rank {
        VariantRank::Primary => 0,
        VariantRank::Uncensored => 1,
        VariantRank::Revised => 2,
        VariantRank::Extra => 3,
    }
}

/// The versions of one chapter stay together and in order: the main release first,
/// then uncensored, revised and bonus versions, all within one chapter of it.
pub proof fn lemma_variants_stay_grouped(a: VariantRank, b: VariantRank)
    ensures
        0 <= variant_offset_of(a) < 100,
        variant_order(a) < variant_order(b) ==> variant_offset_of(a) < variant_offset_of(b),
{
}

} // verus!
