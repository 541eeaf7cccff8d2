//! Telling scripts apart, and turning recognized text into Traditional Chinese (as
//! used in Taiwan) or handing it to the system translator.
use vstd::prelude::*;
use crate::text;
use crate::text::trim;
use zhconv::{zhconv, Variant};

verus! {

// ---------------------------------------------------------------------------
// Scripts
// ---------------------------------------------------------------------------

/// Hiragana, or a katakana letter (the katakana punctuation around U+30FB does
/// not count).
pub open spec fn kana_letter(c: char) -> bool {
    (0x3040 <= (c as u32) <= 0x309f) || (0x30a1 <= (c as u32) <= 0x30fa)
}

/// Hangul syllables or Hangul Jamo.
pub open spec fn hangul(c: char) -> bool {
    (0xac00 <= (c as u32) <= 0xd7af) || (0x1100 <= (c as u32) <= 0x11ff)
}

/// CJK Unified Ideographs or Extension A.
pub open spec fn han(c: char) -> bool {
    (0x4e00 <= (c as u32) <= 0x9fff) || (0x3400 <= (c as u32) <= 0x4dbf)
}

pub open spec fn has_kana(s: Seq<char>) -> bool {
    exists|i: int| 0 <= i < s.len() && kana_letter(#[trigger] s[i])
}

pub open spec fn has_hangul(s: Seq<char>) -> bool {
    exists|i: int| 0 <= i < s.len() && hangul(#[trigger] s[i])
}

pub open spec fn has_han(s: Seq<char>) -> bool {
    exists|i: int| 0 <= i < s.len() && han(#[trigger] s[i])
}

pub fn looks_japanese(text: &str) -> (r: bool)
    ensures
        r == has_kana(text@),
{
    let v = text::chars_of(text);
    let mut i: usize = 0;
    while i < v.len()
        invariant
            i <= v@.len(),
            v@ == text@,
            forall|k: int| 0 <= k < i ==> !kana_letter(#[trigger] v@[k]),
        decreases v@.len() - i,
    {
        let u = v[i] as u32;
        if (0x3040 <= u && u <= 0x309f) || (0x30a1 <= u && u <= 0x30fa) {
            assert(kana_letter(v@[i as int]));
            return true;
        }
        i = i + 1;
    }
    false
}

pub fn looks_korean(text: &str) -> (r: bool)
    ensures
        r == has_hangul(text@),
{
    let v = text::chars_of(text);
    let mut i: usize = 0;
    while i < v.len()
        invariant
            i <= v@.len(),
            v@ == text@,
            forall|k: int| 0 <= k < i ==> !hangul(#[trigger] v@[k]),
        decreases v@.len() - i,
    {
        let u = v[i] as u32;
        if (0xac00 <= u && u <= 0xd7af) || (0x1100 <= u && u <= 0x11ff) {
            assert(hangul(v@[i as int]));
            return true;
        }
        i = i + 1;
    }
    false
}

pub fn looks_han(text: &str) -> (r: bool)
    ensures
        r == has_han(text@),
{
    let v = text::chars_of(text);
    let mut i: usize = 0;
    while i < v.len()
        invariant
            i <= v@.len(),
            v@ == text@,
            forall|k: int| 0 <= k < i ==> !han(#[trigger] v@[k]),
        decreases v@.len() - i,
    {
        let u = v[i] as u32;
        if (0x4e00 <= u && u <= 0x9fff) || (0x3400 <= u && u <= 0x4dbf) {
            assert(han(v@[i as int]));
            return true;
        }
        i = i + 1;
    }
    false
}

/// Text whose letters are all ASCII letters, and that has at least one letter.
pub open spec fn latin_text(s: Seq<char>) -> bool {
    &&& exists|i: int| 0 <= i < s.len() && text::unicode_alphabetic(#[trigger] s[i])
    &&& forall|i: int|
        0 <= i < s.len() && text::unicode_alphabetic(#[trigger] s[i]) ==> text::is_ascii_alpha(s[i])
}

pub fn looks_latin(text: &str) -> (r: bool)
    ensures
        r == latin_text(text@),
{
    let v = text::chars_of(text);
    let mut any = false;
    let mut i: usize = 0;
    while i < v.len()
        invariant
            i <= v@.len(),
            v@ == text@,
            any == exists|k: int| 0 <= k < i && text::unicode_alphabetic(#[trigger] v@[k]),
            forall|k: int|
                0 <= k < i && text::unicode_alphabetic(#[trigger] v@[k]) ==> text::is_ascii_alpha(
                    v@[k],
                ),
        decreases v@.len() - i,
    {
        let c = v[i];
        if text::is_alphabetic(c) {
            if !text::char_is_ascii_alpha(c) {
                assert(text::unicode_alphabetic(v@[i as int]));
                return false;
            }
            any = true;
        }
        i = i + 1;
    }
    any
}

// ---------------------------------------------------------------------------
// Conversion
// ---------------------------------------------------------------------------

/// What `zhconv` makes of the text for the Taiwan variant of Chinese.
pub uninterp spec fn zh_tw_of(text: Seq<char>) -> Seq<char>;

/// `zhconv::zhconv(text, Variant::ZhTW)`: conversion to Traditional Chinese as
/// written in Taiwan, by the crate's built-in tables. The result is named, not
/// restated.
#[verifier::external_body]
fn to_taiwan_traditional(text: &str) -> (r: String)
    ensures
        r@ == zh_tw_of(text@),
{
    zhconv(text, Variant::ZhTW)
}

/// Blank text becomes empty; Japanese and Korean are kept; other text with Han
/// characters is converted; anything else is kept.
pub open spec fn han_converted(text: Seq<char>) -> Seq<char> {
    if trim(text).len() == 0 {
        Seq::empty()
    } else if has_kana(text) || has_hangul(text) {
        text
    } else if has_han(text) {
        zh_tw_of(text)
    } else {
        text
    }
}

pub fn convert_han(text: &str) -> (r: String)
    ensures
        r@ == han_converted(text@),
{
    let v = text::chars_of(text);
    let t = text::trim_exec(v.as_slice());
    if t.len() == 0 {
        return String::new();
    }
    if looks_japanese(text) || looks_korean(text) {
        return text::string_of(v.as_slice());
    }
    if looks_han(text) {
        return to_taiwan_traditional(text);
    }
    text::string_of(v.as_slice())
}

/// The system translator is asked only for text that is not plain Chinese: text
/// with kana or Hangul, or Latin text.
pub open spec fn wants_system_translation(text: Seq<char>) -> bool {
    &&& trim(text).len() > 0
    &&& !(has_han(text) && !has_kana(text) && !has_hangul(text))
    &&& (has_kana(text) || has_hangul(text) || latin_text(text))
}

pub fn apple_translation_wanted(text: &str) -> (r: bool)
    ensures
        r == wants_system_translation(text@),
{
    let v = text::chars_of(text);
    let t = text::trim_exec(v.as_slice());
    if t.len() == 0 {
        return false;
    }
    let h = looks_han(text);
    let j = looks_japanese(text);
    let k = looks_korean(text);
    if h && !j && !k {
        return false;
    }
    j || k || looks_latin(text)
}

/// The local translation: plain Chinese is converted; text with kana, Hangul or
/// only Latin letters takes what the system translator gave, when it gave
/// something; otherwise Han text is converted and anything else is kept.
pub open spec fn local_translation(text: Seq<char>, system: Option<Seq<char>>) -> Seq<char> {
    if trim(text).len() == 0 {
        Seq::empty()
    } else if has_han(text) && !has_kana(text) && !has_hangul(text) {
        zh_tw_of(text)
    } else if (has_kana(text) || has_hangul(text) || latin_text(text)) && system is Some {
        system->0
    } else if has_han(text) {
        zh_tw_of(text)
    } else {
        text
    }
}

/// The local translation of `text`, given what the system translator returned for
/// it (`None` when it was not asked or gave nothing usable).
pub fn convert_local_with_apple(text: &str, system: Option<&str>) -> (r: String)
    ensures
        r@ == local_translation(text@, crate::lan::opt_str_view(system)),
{
    let v = text::chars_of(text);
    let t = text::trim_exec(v.as_slice());
    if t.len() == 0 {
        return String::new();
    }
    let h = looks_han(text);
    let j = looks_japanese(text);
    let k = looks_korean(text);
    if h && !j && !k {
        return to_taiwan_traditional(text);
    }
    if j || k || looks_latin(text) {
        if let Some(out) = system {
            return text::string_of(text::chars_of(out).as_slice());
        }
    }
    if h {
        return to_taiwan_traditional(text);
    }
    text::string_of(v.as_slice())
}

/// A system translation is used only when it is not empty and differs from the
/// text it was asked for.
pub open spec fn usable_system_translation(text: Seq<char>, out: Seq<char>) -> bool {
    out.len() > 0 && out != text
}

pub fn accept_system_translation(text: &str, out: &str) -> (r: bool)
    ensures
        r == usable_system_translation(text@, out@),
{
    let o = text::chars_of(out);
    o.len() > 0 && !text::str_eq(out, text)
}

// ---------------------------------------------------------------------------
// Providers
// ---------------------------------------------------------------------------

/// Why a translation could not be made.
#[derive(Debug, Clone)]
pub enum TranslateError {
    NotAvailable(String),
    Other(String),
}

pub open spec fn translate_error_text(e: TranslateError) -> Seq<char> {
    match e {
        TranslateError::NotAvailable(m) => "Translator not available: "@ + m@,
        TranslateError::Other(m) => m@,
    }
}

impl TranslateError {
    /// The message shown for the error.
    pub fn message(&self) -> (r: String)
        ensures
            r@ == translate_error_text(*self),
    {
        match self {
            TranslateError::NotAvailable(m) => {
                let mut out = text::chars_of("Translator not available: ");
                text::push_str(&mut out, m.as_str());
                text::string_of(out.as_slice())
            },
            TranslateError::Other(m) => text::string_of(text::chars_of(m.as_str()).as_slice()),
        }
    }
}

/// Simplified to Traditional Chinese by conversion tables.
pub struct OpenCcProvider;

/// The system translator, with table conversion for Chinese.
pub struct AppleTranslateProvider;

/// A cloud translator; not configured.
pub struct CloudTranslateProvider;

impl OpenCcProvider {
    pub fn new() -> (r: Self) {
        OpenCcProvider
    }

    pub fn id(&self) -> (r: &'static str)
        ensures
            r@ == "opencc"@,
    {
        "opencc"
    }

    pub fn name(&self) -> (r: &'static str)
        ensures
            r@ == "OpenCC (Simplified → Traditional)"@,
    {
        "OpenCC (Simplified → Traditional)"
    }

    /// Table conversion is always available.
    pub fn available(&self) -> (r: bool)
        ensures
            r,
    {
        true
    }

    /// Converts Han text; never fails.
    pub fn translate(&self, text: &str) -> (r: Result<String, TranslateError>)
        ensures
            r matches Ok(t) && t@ == han_converted(text@),
    {
        Ok(convert_han(text))
    }
}

impl AppleTranslateProvider {
    pub fn new() -> (r: Self) {
        AppleTranslateProvider
    }

    pub fn id(&self) -> (r: &'static str)
        ensures
            r@ == "apple"@,
    {
        "apple"
    }

    pub fn name(&self) -> (r: &'static str)
        ensures
            r@ == "Apple Translation"@,
    {
        "Apple Translation"
    }

    /// Available where the platform has a system translator.
    pub fn available(&self, system_available: bool) -> (r: bool)
        ensures
            r == system_available,
    {
        system_available
    }

    /// The local translation, given the system translator's answer; never fails.
    pub fn translate(&self, text: &str, system: Option<&str>) -> (r: Result<String, TranslateError>)
        ensures
            r matches Ok(t) && t@ == local_translation(text@, crate::lan::opt_str_view(system)),
    {
        Ok(convert_local_with_apple(text, system))
    }
}

impl CloudTranslateProvider {
    pub fn new() -> (r: Self) {
        CloudTranslateProvider
    }

    pub fn id(&self) -> (r: &'static str)
        ensures
            r@ == "cloud"@,
    {
        "cloud"
    }

    pub fn name(&self) -> (r: &'static str)
        ensures
            r@ == "Cloud Translation"@,
    {
        "Cloud Translation"
    }

    pub fn available(&self) -> (r: bool)
        ensures
            !r,
    {
        false
    }

    /// Always refuses: no cloud translator is configured.
    pub fn translate(&self, text: &str) -> (r: Result<String, TranslateError>)
        ensures
            r matches Err(TranslateError::NotAvailable(m)) && m@ == "Cloud translation is not configured"@,
    {
        Err(TranslateError::NotAvailable(
            text::string_of(text::chars_of("Cloud translation is not configured").as_slice()),
        ))
    }
}

/// The translators offered, as id, display name and availability; the system
/// translator is available where the platform has one.
pub open spec fn provider_list(system_available: bool) -> Seq<(Seq<char>, Seq<char>, bool)> {
    seq![
        ("apple"@, "Apple Translation"@, system_available),
        ("opencc"@, "OpenCC (Simplified → Traditional)"@, true),
        ("cloud"@, "Cloud Translation"@, false),
    ]
}

pub fn list_providers(system_available: bool) -> (r: Vec<(&'static str, &'static str, bool)>)
    ensures
        r@.map_values(|e: (&'static str, &'static str, bool)| (e.0@, e.1@, e.2)) == provider_list(
            system_available,
        ),
        r@.len() == 3,
        r@[0].0@ == "apple"@ && r@[0].1@ == "Apple Translation"@ && r@[0].2 == system_available,
        r@[1].0@ == "opencc"@ && r@[1].1@ == "OpenCC (Simplified → Traditional)"@ && r@[1].2,
        r@[2].0@ == "cloud"@ && r@[2].1@ == "Cloud Translation"@ && !r@[2].2,
{
    let mut r: Vec<(&'static str, &'static str, bool)> = Vec::new();
    r.push(("apple", "Apple Translation", system_available));
    r.push(("opencc", "OpenCC (Simplified → Traditional)", true));
    r.push(("cloud", "Cloud Translation", false));
    assert(r@.map_values(|e: (&'static str, &'static str, bool)| (e.0@, e.1@, e.2)) =~= provider_list(
        system_available,
    ));
    r
}

/// Which translator an id selects.
#[derive(Debug, Clone, Copy, PartialEq, Eq, Structural)]
pub enum ProviderKind {
    Apple,
    OpenCc,
    Cloud,
}

/// `cloud` and `opencc` select those translators; any other id the system one.
pub open spec fn provider_kind_of(id: Seq<char>) -> ProviderKind {
    if id == "cloud"@ {
        ProviderKind::Cloud
    } else if id == "opencc"@ {
        ProviderKind::OpenCc
    } else {
        ProviderKind::Apple
    }
}

pub fn get_provider(id: &str) -> (r: ProviderKind)
    ensures
        r == provider_kind_of(id@),
{
    let v = text::chars_of(id);
    if text::lit_eq(v.as_slice(), "cloud") {
        ProviderKind::Cloud
    } else if text::lit_eq(v.as_slice(), "opencc") {
        ProviderKind::OpenCc
    } else {
        ProviderKind::Apple
    }
}

pub open spec fn kind_id(k: ProviderKind) -> Seq<char> {
    match k {
        ProviderKind::Apple => "apple"@,
        ProviderKind::OpenCc => "opencc"@,
        ProviderKind::Cloud => "cloud"@,
    }
}

pub open spec fn kind_name(k: ProviderKind) -> Seq<char> {
    match k {
        ProviderKind::Apple => "Apple Translation"@,
        ProviderKind::OpenCc => "OpenCC (Simplified → Traditional)"@,
        ProviderKind::Cloud => "Cloud Translation"@,
    }
}

pub open spec fn kind_available(k: ProviderKind, system_available: bool) -> bool {
    match k {
        ProviderKind::Apple => system_available,
        ProviderKind::OpenCc => true,
        ProviderKind::Cloud => false,
    }
}

impl ProviderKind {
    /// The selected translator's id.
    pub fn id(&self) -> (r: &'static str)
        ensures
            r@ == kind_id(*self),
    {
        match self {
            ProviderKind::Apple => AppleTranslateProvider::new().id(),
            ProviderKind::OpenCc => OpenCcProvider::new().id(),
            ProviderKind::Cloud => CloudTranslateProvider::new().id(),
        }
    }

    /// The selected translator's display name.
    pub fn name(&self) -> (r: &'static str)
        ensures
            r@ == kind_name(*self),
    {
        match self {
            ProviderKind::Apple => AppleTranslateProvider::new().name(),
            ProviderKind::OpenCc => OpenCcProvider::new().name(),
            ProviderKind::Cloud => CloudTranslateProvider::new().name(),
        }
    }

    /// Whether the selected translator can run.
    pub fn available(&self, system_available: bool) -> (r: bool)
        ensures
            r == kind_available(*self, system_available),
    {
        match self {
            ProviderKind::Apple => AppleTranslateProvider::new().available(system_available),
            ProviderKind::OpenCc => OpenCcProvider::new().available(),
            ProviderKind::Cloud => CloudTranslateProvider::new().available(),
        }
    }
}

/// Every translator that `list_providers` offers is the one its id selects, with
/// the listed name and availability; an id it does not list selects the system
/// translator.
pub proof fn lemma_listed_providers_selected(system_available: bool, id: Seq<char>)
    ensures
        forall|i: int|
            0 <= i < provider_list(system_available).len() ==> {
                let e = #[trigger] provider_list(system_available)[i];
                &&& kind_id(provider_kind_of(e.0)) == e.0
                &&& kind_name(provider_kind_of(e.0)) == e.1
                &&& kind_available(provider_kind_of(e.0), system_available) == e.2
            },
        (forall|i: int|
            0 <= i < provider_list(system_available).len() ==> provider_list(system_available)[i].0
                != id) ==> provider_kind_of(id) == ProviderKind::Apple,
{
    reveal_strlit("apple");
    reveal_strlit("opencc");
    reveal_strlit("cloud");
    let l = provider_list(system_available);
    assert(l[0].0 == "apple"@ && l[1].0 == "opencc"@ && l[2].0 == "cloud"@);
    assert("apple"@ != "cloud"@ && "apple"@ != "opencc"@ && "opencc"@ != "cloud"@) by {
        assert("apple"@[0] != "cloud"@[0]);
        assert("apple"@[0] != "opencc"@[0]);
        assert("opencc"@[0] != "cloud"@[0]);
    }
}

/// How a page's regions are translated with the translator `id`: refused for the
/// cloud translator; otherwise `true` when the system translator is used and
/// `false` for table conversion only.
pub open spec fn region_translation_mode(id: Seq<char>) -> Option<bool> {
    if id == "cloud"@ {
        None
    } else {
        Some(id != "opencc"@)
    }
}

pub fn translation_mode(id: &str) -> (r: Result<bool, TranslateError>)
    ensures
        match region_translation_mode(id@) {
            Some(apple) => r == Ok::<bool, TranslateError>(apple),
            None => r matches Err(TranslateError::NotAvailable(m)) && m@
                == "Cloud translation is not configured"@,
        },
{
    let v = text::chars_of(id);
    if text::lit_eq(v.as_slice(), "cloud") {
        return Err(TranslateError::NotAvailable(
            text::string_of(text::chars_of("Cloud translation is not configured").as_slice()),
        ));
    }
    Ok(!text::lit_eq(v.as_slice(), "opencc"))
}

} // verus!
