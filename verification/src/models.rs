//! The library's data model: stored enums with their text forms, and the plain
//! records that the application hands around.
use vstd::prelude::*;
use crate::text::str_eq;

verus! {

#[derive(Debug, Clone)]
pub struct LibraryRoot {
    pub id: i64,
    pub path: String,
    pub added_at: String,
}

#[derive(Debug, Clone, Copy, PartialEq, Eq, Structural)]
pub enum ContentType {
    Manga,
    Manhwa,
    Comic,
    Book,
    Document,
    Video,
}

pub open spec fn content_type_name(t: ContentType) -> Seq<char> {
    match t {
        ContentType::Manga => "manga"@,
        ContentType::Manhwa => "manhwa"@,
        ContentType::Comic => "comic"@,
        ContentType::Book => "book"@,
        ContentType::Document => "document"@,
        ContentType::Video => "video"@,
    }
}

/// Unknown names read back as `Manga`.
pub open spec fn content_type_of(s: Seq<char>) -> ContentType {
    if s == "manhwa"@ {
        ContentType::Manhwa
    } else if s == "comic"@ {
        ContentType::Comic
    } else if s == "book"@ {
        ContentType::Book
    } else if s == "document"@ {
        ContentType::Document
    } else if s == "video"@ {
        ContentType::Video
    } else {
        ContentType::Manga
    }
}

impl ContentType {
    pub fn as_str(&self) -> (r: &'static str)
        ensures
            r@ == content_type_name(*self),
    {
        match self {
            ContentType::Manga => "manga",
            ContentType::Manhwa => "manhwa",
            ContentType::Comic => "comic",
            ContentType::Book => "book",
            ContentType::Document => "document",
            ContentType::Video => "video",
        }
    }

    pub fn from_str(s: &str) -> (r: Self)
        ensures
            r == content_type_of(s@),
    {
        if str_eq(s, "manhwa") {
            ContentType::Manhwa
        } else if str_eq(s, "comic") {
            ContentType::Comic
        } else if str_eq(s, "book") {
            ContentType::Book
        } else if str_eq(s, "document") {
            ContentType::Document
        } else if str_eq(s, "video") {
            ContentType::Video
        } else {
            ContentType::Manga
        }
    }
}

#[derive(Debug, Clone, Copy, PartialEq, Eq, Structural)]
pub enum SourceFormat {
    Pdf,
    Mp4,
}

pub open spec fn source_format_name(f: SourceFormat) -> Seq<char> {
    match f {
        SourceFormat::Pdf => "pdf"@,
        SourceFormat::Mp4 => "mp4"@,
    }
}

/// Unknown names read back as `Pdf`.
pub open spec fn source_format_of(s: Seq<char>) -> SourceFormat {
    if s == "mp4"@ {
        SourceFormat::Mp4
    } else {
        SourceFormat::Pdf
    }
}

impl SourceFormat {
    pub fn as_str(&self) -> (r: &'static str)
        ensures
            r@ == source_format_name(*self),
    {
        match self {
            SourceFormat::Pdf => "pdf",
            SourceFormat::Mp4 => "mp4",
        }
    }

    pub fn from_str(s: &str) -> (r: Self)
        ensures
            r == source_format_of(s@),
    {
        if str_eq(s, "mp4") {
            SourceFormat::Mp4
        } else {
            SourceFormat::Pdf
        }
    }
}

#[derive(Debug, Clone, Copy, PartialEq, Eq, Structural)]
pub enum VariantPreference {
    Primary,
    Uncensored,
    Revised,
    Bonus,
    Alternate,
}

pub open spec fn variant_preference_name(v: VariantPreference) -> Seq<char> {
    match v {
        VariantPreference::Primary => "primary"@,
        VariantPreference::Uncensored => "uncensored"@,
        VariantPreference::Revised => "revised"@,
        VariantPreference::Bonus => "bonus"@,
        VariantPreference::Alternate => "alternate"@,
    }
}

/// Unknown names read back as `Primary`.
pub open spec fn variant_preference_of(s: Seq<char>) -> VariantPreference {
    if s == "uncensored"@ {
        VariantPreference::Uncensored
    } else if s == "revised"@ {
        VariantPreference::Revised
    } else if s == "bonus"@ {
        VariantPreference::Bonus
    } else if s == "alternate"@ {
        VariantPreference::Alternate
    } else {
        VariantPreference::Primary
    }
}

impl VariantPreference {
    pub fn as_str(&self) -> (r: &'static str)
        ensures
            r@ == variant_preference_name(*self),
    {
        match self {
            VariantPreference::Primary => "primary",
            VariantPreference::Uncensored => "uncensored",
            VariantPreference::Revised => "revised",
            VariantPreference::Bonus => "bonus",
            VariantPreference::Alternate => "alternate",
        }
    }

    pub fn from_str(s: &str) -> (r: Self)
        ensures
            r == variant_preference_of(s@),
    {
        if str_eq(s, "uncensored") {
            VariantPreference::Uncensored
        } else if str_eq(s, "revised") {
            VariantPreference::Revised
        } else if str_eq(s, "bonus") {
            VariantPreference::Bonus
        } else if str_eq(s, "alternate") {
            VariantPreference::Alternate
        } else {
            VariantPreference::Primary
        }
    }
}

#[derive(Debug, Clone, Copy, PartialEq, Eq, Structural)]
pub enum ReadingMode {
    Auto,
    Webtoon,
    PagedLtr,
    PagedRtl,
}

pub open spec fn reading_mode_name(m: ReadingMode) -> Seq<char> {
    match m {
        ReadingMode::Auto => "auto"@,
        ReadingMode::Webtoon => "webtoon"@,
        ReadingMode::PagedLtr => "paged_ltr"@,
        ReadingMode::PagedRtl => "paged_rtl"@,
    }
}

/// Unknown names read back as `Auto`.
pub open spec fn reading_mode_of(s: Seq<char>) -> ReadingMode {
    if s == "webtoon"@ {
        ReadingMode::Webtoon
    } else if s == "paged_ltr"@ {
        ReadingMode::PagedLtr
    } else if s == "paged_rtl"@ {
        ReadingMode::PagedRtl
    } else {
        ReadingMode::Auto
    }
}

impl ReadingMode {
    pub fn as_str(&self) -> (r: &'static str)
        ensures
            r@ == reading_mode_name(*self),
    {
        match self {
            ReadingMode::Auto => "auto",
            ReadingMode::Webtoon => "webtoon",
            ReadingMode::PagedLtr => "paged_ltr",
            ReadingMode::PagedRtl => "paged_rtl",
        }
    }

    pub fn from_str(s: &str) -> (r: Self)
        ensures
            r == reading_mode_of(s@),
    {
        if str_eq(s, "webtoon") {
            ReadingMode::Webtoon
        } else if str_eq(s, "paged_ltr") {
            ReadingMode::PagedLtr
        } else if str_eq(s, "paged_rtl") {
            ReadingMode::PagedRtl
        } else {
            ReadingMode::Auto
        }
    }
}

#[derive(Debug, Clone, Copy, PartialEq, Eq, Structural)]
pub enum PageDirection {
    Ltr,
    Rtl,
}

pub open spec fn page_direction_name(d: PageDirection) -> Seq<char> {
    match d {
        PageDirection::Ltr => "ltr"@,
        PageDirection::Rtl => "rtl"@,
    }
}

/// Unknown names read back as `Rtl`.
pub open spec fn page_direction_of(s: Seq<char>) -> PageDirection {
    if s == "ltr"@ {
        PageDirection::Ltr
    } else {
        PageDirection::Rtl
    }
}

impl PageDirection {
    pub fn as_str(&self) -> (r: &'static str)
        ensures
            r@ == page_direction_name(*self),
    {
        match self {
            PageDirection::Ltr => "ltr",
            PageDirection::Rtl => "rtl",
        }
    }

    pub fn from_str(s: &str) -> (r: Self)
        ensures
            r == page_direction_of(s@),
    {
        if str_eq(s, "ltr") {
            PageDirection::Ltr
        } else {
            PageDirection::Rtl
        }
    }
}

#[derive(Debug, Clone, Copy, PartialEq, Eq, Structural)]
pub enum UserRole {
    Owner,
    Member,
}

pub open spec fn user_role_name(r: UserRole) -> Seq<char> {
    match r {
        UserRole::Owner => "owner"@,
        UserRole::Member => "member"@,
    }
}

/// Unknown names read back as `Member`: no stored text grants ownership by accident.
pub open spec fn user_role_of(s: Seq<char>) -> UserRole {
    if s == "owner"@ {
        UserRole::Owner
    } else {
        UserRole::Member
    }
}

impl UserRole {
    pub fn as_str(&self) -> (r: &'static str)
        ensures
            r@ == user_role_name(*self),
    {
        match self {
            UserRole::Owner => "owner",
            UserRole::Member => "member",
        }
    }

    pub fn from_str(s: &str) -> (r: Self)
        ensures
            r == user_role_of(s@),
    {
        if str_eq(s, "owner") {
            UserRole::Owner
        } else {
            UserRole::Member
        }
    }
}

/// A content type's stored name reads back as that content type.
pub proof fn lemma_content_type_round_trip(c: ContentType)
    ensures
        content_type_of(content_type_name(c)) == c,
{
    reveal_strlit("manga");
    assert("manga"@.len() == 5);
    reveal_strlit("manhwa");
    assert("manhwa"@.len() == 6);
    reveal_strlit("comic");
    assert("comic"@.len() == 5);
    reveal_strlit("book");
    assert("book"@.len() == 4);
    reveal_strlit("document");
    assert("document"@.len() == 8);
    reveal_strlit("video");
    assert("video"@.len() == 5);
    assert("manga"@[3] != "comic"@[3]);
    assert("manga"@[0] != "video"@[0]);
    assert("comic"@[0] != "video"@[0]);
    assert("manhwa"@[0] != "comic"@[0]);
}

/// A source format's stored name reads back as that format.
pub proof fn lemma_source_format_round_trip(f: SourceFormat)
    ensures
        source_format_of(source_format_name(f)) == f,
{
    reveal_strlit("pdf");
    assert("pdf"@.len() == 3);
    reveal_strlit("mp4");
    assert("mp4"@.len() == 3);
    assert("pdf"@[0] != "mp4"@[0]);
}

/// A variant preference's stored name reads back as that preference.
pub proof fn lemma_variant_preference_round_trip(v: VariantPreference)
    ensures
        variant_preference_of(variant_preference_name(v)) == v,
{
    reveal_strlit("primary");
    assert("primary"@.len() == 7);
    reveal_strlit("uncensored");
    assert("uncensored"@.len() == 10);
    reveal_strlit("revised");
    assert("revised"@.len() == 7);
    reveal_strlit("bonus");
    assert("bonus"@.len() == 5);
    reveal_strlit("alternate");
    assert("alternate"@.len() == 9);
    assert("primary"@[0] != "revised"@[0]);
}

/// A reading mode's stored name reads back as that mode.
pub proof fn lemma_reading_mode_round_trip(m: ReadingMode)
    ensures
        reading_mode_of(reading_mode_name(m)) == m,
{
    reveal_strlit("auto");
    assert("auto"@.len() == 4);
    reveal_strlit("webtoon");
    assert("webtoon"@.len() == 7);
    reveal_strlit("paged_ltr");
    assert("paged_ltr"@.len() == 9);
    reveal_strlit("paged_rtl");
    assert("paged_rtl"@.len() == 9);
    assert("paged_ltr"@[6] != "paged_rtl"@[6]);
}

/// A page direction's stored name reads back as that direction.
pub proof fn lemma_page_direction_round_trip(d: PageDirection)
    ensures
        page_direction_of(page_direction_name(d)) == d,
{
    reveal_strlit("ltr");
    assert("ltr"@.len() == 3);
    reveal_strlit("rtl");
    assert("rtl"@.len() == 3);
    assert("ltr"@[0] != "rtl"@[0]);
}

/// A role's stored name reads back as that role.
pub proof fn lemma_user_role_round_trip(r: UserRole)
    ensures
        user_role_of(user_role_name(r)) == r,
{
    reveal_strlit("owner");
    assert("owner"@.len() == 5);
    reveal_strlit("member");
    assert("member"@.len() == 6);
}

#[derive(Debug, Clone, Copy)]
pub struct PageTile {
    pub page_index: i32,
    pub tile_index: u32,
    pub width: u32,
    pub height: u32,
}

#[derive(Debug, Clone)]
pub struct PageImage {
    pub data_url: String,
    pub width: u32,
    pub height: u32,
    pub page_index: i32,
    pub from_cache: bool,
}

#[derive(Debug, Clone)]
pub struct SeriesUpdate {
    pub title: Option<String>,
    pub description: Option<String>,
    pub reading_mode: Option<ReadingMode>,
    pub variant_preference: Option<VariantPreference>,
    pub page_direction: Option<PageDirection>,
    pub favorite: Option<bool>,
}

/// Public HTTPS reverse tunnel used for internet access.
#[derive(Debug, Clone, Copy, PartialEq, Eq, Structural)]
pub enum TunnelMode {
    Named,
}

#[derive(Debug, Clone)]
pub struct RemoteSettings {
    pub enabled: bool,
    pub mode: TunnelMode,
    pub public_url: Option<String>,
    pub configured_hostname: Option<String>,
    pub has_token: bool,
    pub cloudflared_installed: bool,
    pub running: bool,
    pub status: String,
    pub qr_data_url: Option<String>,
    pub restart_count: u32,
}

/// Nearby connect session: LAN bind plus Bonjour advertising.
#[derive(Debug, Clone)]
pub struct LanSettings {
    pub enabled: bool,
    pub duration: String,
    pub expires_at: Option<String>,
    pub local_url: Option<String>,
    pub hostname: Option<String>,
    pub ip: Option<String>,
    pub port: u16,
    pub advertised: bool,
    pub qr_data_url: Option<String>,
}

#[derive(Debug, Clone)]
pub struct AppSettings {
    pub cache_size_mb: u32,
    pub cache_used_mb: u32,
    pub default_reading_mode: ReadingMode,
    pub remote: RemoteSettings,
    pub lan: LanSettings,
    pub ocr_engine_id: Option<String>,
    pub translator_id: Option<String>,
    pub remote_login_ready: bool,
}

#[derive(Debug, Clone)]
pub struct EngineInfo {
    pub id: String,
    pub name: String,
    pub available: bool,
}

#[derive(Debug, Clone)]
pub struct IndexStatus {
    pub indexing: bool,
    pub pending_jobs: u32,
    pub processed_jobs: u32,
    pub failed_jobs: u32,
    pub series_count: i64,
    pub chapter_count: i64,
}

#[derive(Debug, Clone)]
pub struct Collection {
    pub id: i64,
    pub name: String,
    pub created_at: String,
    pub series_count: i64,
}

#[derive(Debug, Clone)]
pub struct Tag {
    pub id: i64,
    pub name: String,
}

#[derive(Debug, Clone)]
pub struct User {
    pub id: i64,
    pub username: String,
    pub display_name: String,
    pub role: UserRole,
    /// Owners always see the whole library; members only when this is set.
    pub access_all: bool,
    pub disabled: bool,
    pub has_password: bool,
    pub created_at: String,
    pub locked_until: Option<String>,
}

/// Identity of whoever is making a request, and the basis for every visibility decision.
#[derive(Debug, Clone, Copy, PartialEq, Eq, Structural)]
pub struct Viewer {
    pub user_id: i64,
    pub access_all: bool,
}

impl Viewer {
    /// The viewer that indexing, cover generation and the folder watcher act as:
    /// the owner's id with the whole library in view. Never built from request data.
    pub fn system() -> (v: Viewer)
        ensures
            v.user_id == 1,
            v.access_all,
    {
        Viewer { user_id: 1, access_all: true }
    }
}

#[derive(Debug, Clone)]
pub struct ActiveSession {
    pub id: i64,
    pub user_id: i64,
    pub username: String,
    pub device_label: String,
    pub created_at: String,
    pub last_used_at: String,
    pub idle_expires_at: String,
}

#[derive(Debug, Clone)]
pub struct LoginRequest {
    pub username: String,
    pub password: String,
    pub device_name: Option<String>,
}

#[derive(Debug, Clone)]
pub struct SessionInfo {
    pub user_id: i64,
    pub username: String,
    pub display_name: String,
    pub role: UserRole,
    pub access_all: bool,
    pub expires_at: String,
}

#[derive(Debug, Clone)]
pub struct SeriesFilter {
    pub search: Option<String>,
    pub favorites_only: bool,
    pub unread_only: bool,
    pub collection_id: Option<i64>,
    pub reading_mode: Option<String>,
    pub content_type: Option<String>,
    pub sort: String,
}

impl Default for SeriesFilter {
    fn default() -> (r: Self)
        ensures
            r.search is None,
            !r.favorites_only,
            !r.unread_only,
            r.collection_id is None,
            r.reading_mode is None,
            r.content_type is None,
            r.sort@.len() == 0,
    {
        SeriesFilter {
            search: None,
            favorites_only: false,
            unread_only: false,
            collection_id: None,
            reading_mode: None,
            content_type: None,
            sort: String::new(),
        }
    }
}

#[derive(Debug, Clone)]
pub struct CreateUserRequest {
    pub username: String,
    pub display_name: String,
    pub password: String,
    pub access_all: bool,
    pub series_ids: Vec<i64>,
}

#[derive(Debug, Clone)]
pub struct UpdateUserRequest {
    pub display_name: Option<String>,
    pub password: Option<String>,
    pub access_all: Option<bool>,
    pub disabled: Option<bool>,
    pub series_ids: Option<Vec<i64>>,
}

#[derive(Debug, Clone)]
pub struct CreateFolderRequest {
    pub root_id: i64,
    pub name: String,
}

#[derive(Debug, Clone)]
pub struct InitUploadRequest {
    pub series_id: i64,
    pub file_name: String,
    pub size: u64,
}

#[derive(Debug, Clone)]
pub struct UploadStatus {
    pub upload_id: String,
    pub offset: u64,
    pub size: u64,
}

#[derive(Debug, Clone)]
pub struct AuthSession {
    pub id: i64,
    pub viewer: Viewer,
    pub username: String,
    pub display_name: String,
    pub role: UserRole,
    pub idle_expires_at: String,
    pub absolute_expires_at: String,
    pub rotated_at: String,
}

} // verus!
