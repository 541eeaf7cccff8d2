//! The rules the catalogue store applies to its records: what a user record shows
//! of itself, how a series' kind is guessed from its folder, and which reading
//! position wins when two devices report one.
use vstd::prelude::*;
use crate::media::{media_kind_of, MediaKind};
use crate::models::{ContentType, SeriesFilter, SourceFormat, User, UserRole, Viewer};
use crate::text;
use crate::text::{contains, ends_with, unicode_lower};

verus! {

// ---------------------------------------------------------------------------
// Users
// ---------------------------------------------------------------------------

/// A user as stored, password hash and lockout state included.
pub struct UserRecord {
    pub id: i64,
    pub username: String,
    pub display_name: String,
    pub password_hash: String,
    pub role: UserRole,
    pub access_all: bool,
    pub disabled: bool,
    pub failed_attempts: i64,
    pub locked_until: Option<String>,
    pub created_at: String,
}

impl UserRecord {
    /// The user as shown to clients: without the hash, owners always seeing the
    /// whole library, and whether a password is set.
    pub fn into_user(self) -> (u: User)
        ensures
            u.id == self.id,
            u.username == self.username,
            u.display_name == self.display_name,
            u.role == self.role,
            u.access_all == (self.access_all || self.role == UserRole::Owner),
            u.disabled == self.disabled,
            u.has_password == (self.password_hash@.len() > 0),
            u.created_at == self.created_at,
            u.locked_until == self.locked_until,
    {
        let has_password = text::chars_of(self.password_hash.as_str()).len() > 0;
        let owner = self.role == UserRole::Owner;
        User {
            id: self.id,
            username: self.username,
            display_name: self.display_name,
            role: self.role,
            access_all: self.access_all || owner,
            disabled: self.disabled,
            has_password,
            created_at: self.created_at,
            locked_until: self.locked_until,
        }
    }
}

// ---------------------------------------------------------------------------
// Guessing a series' kind
// ---------------------------------------------------------------------------

/// A series' kind from `folder/title`: by file name when that names a PDF or MP4
/// file, else by words in the lowercased path (video and movie folders, documents
/// and books, manhwa and webtoons), manga by default.
pub open spec fn series_media_guess(folder_path: Seq<char>, title: Seq<char>) -> (ContentType, SourceFormat) {
    let combined = folder_path + "/"@ + title;
    let k = media_kind_of(combined);
    let lower = unicode_lower(combined);
    if k.supported && (ends_with(lower, ".pdf"@) || ends_with(lower, ".mp4"@)) {
        (k.content_type, k.source_format)
    } else if contains(lower, "video"@) || contains(lower, "movie"@) || contains(lower, "/movies/"@) {
        (ContentType::Video, SourceFormat::Mp4)
    } else if contains(lower, "document"@) || contains(lower, "book"@) || contains(lower, "novel"@)
        || contains(lower, "notes"@) || contains(lower, "reference"@) {
        (ContentType::Document, SourceFormat::Pdf)
    } else if contains(lower, "manhwa"@) || contains(lower, "webtoon"@) {
        (ContentType::Manhwa, SourceFormat::Pdf)
    } else {
        (ContentType::Manga, SourceFormat::Pdf)
    }
}

pub fn detect_series_media(folder_path: &str, title: &str) -> (r: (ContentType, SourceFormat))
    ensures
        r == series_media_guess(folder_path@, title@),
{
    let mut combined = text::chars_of(folder_path);
    text::push_str(&mut combined, "/");
    text::push_str(&mut combined, title);
    let cs = text::string_of(combined.as_slice());
    let from_path: MediaKind = crate::media::detect_media_kind(cs.as_str());
    let lower_s = text::to_lowercase(cs.as_str());
    let lower = text::chars_of(lower_s.as_str());
    let l = lower.as_slice();
    if from_path.supported && (text::str_ends_with(l, ".pdf") || text::str_ends_with(l, ".mp4")) {
        return (from_path.content_type, from_path.source_format);
    }
    if text::str_contains(l, "video") || text::str_contains(l, "movie") || text::str_contains(
        l,
        "/movies/",
    ) {
        return (ContentType::Video, SourceFormat::Mp4);
    }
    if text::str_contains(l, "document") || text::str_contains(l, "book") || text::str_contains(
        l,
        "novel",
    ) || text::str_contains(l, "notes") || text::str_contains(l, "reference") {
        return (ContentType::Document, SourceFormat::Pdf);
    }
    if text::str_contains(l, "manhwa") || text::str_contains(l, "webtoon") {
        return (ContentType::Manhwa, SourceFormat::Pdf);
    }
    (ContentType::Manga, SourceFormat::Pdf)
}

// ---------------------------------------------------------------------------
// Reading progress: the latest report wins
// ---------------------------------------------------------------------------

/// Text order as `str` compares: character by character by code point (the same
/// order as UTF-8 bytes), a proper prefix before the longer text.
pub open spec fn text_lt(a: Seq<char>, b: Seq<char>) -> bool
    decreases a.len(),
{
    if b.len() == 0 {
        false
    } else if a.len() == 0 {
        true
    } else if a[0] != b[0] {
        (a[0] as u32) < (b[0] as u32)
    } else {
        text_lt(a.drop_first(), b.drop_first())
    }
}

pub proof fn lemma_text_lt_irreflexive(a: Seq<char>)
    ensures
        !text_lt(a, a),
    decreases a.len(),
{
    if a.len() > 0 {
        lemma_text_lt_irreflexive(a.drop_first());
    }
}

pub proof fn lemma_text_lt_transitive(a: Seq<char>, b: Seq<char>, c: Seq<char>)
    requires
        text_lt(a, b),
        text_lt(b, c),
    ensures
        text_lt(a, c),
    decreases a.len(),
{
    if a.len() > 0 && b.len() > 0 && c.len() > 0 && a[0] == b[0] && b[0] == c[0] {
        lemma_text_lt_transitive(a.drop_first(), b.drop_first(), c.drop_first());
    }
}

pub proof fn lemma_text_lt_total(a: Seq<char>, b: Seq<char>)
    ensures
        text_lt(a, b) || text_lt(b, a) || a == b,
    decreases a.len(),
{
    if a.len() > 0 && b.len() > 0 {
        if a[0] == b[0] {
            lemma_text_lt_total(a.drop_first(), b.drop_first());
            if a.drop_first() == b.drop_first() {
                assert(a =~= seq![a[0]] + a.drop_first());
                assert(b =~= seq![b[0]] + b.drop_first());
            }
        } else {
            vstd::utf8::char_u32_cast(a[0], a[0] as u32);
            vstd::utf8::char_u32_cast(b[0], b[0] as u32);
        }
    } else if a.len() == 0 && b.len() == 0 {
        assert(a =~= b);
    }
}

/// A reported position is stored unless one stamped later is already stored.
pub open spec fn progress_applies(stored: Option<Seq<char>>, updated_at: Seq<char>) -> bool {
    match stored {
        Some(prev) => !text_lt(updated_at, prev),
        None => true,
    }
}

fn text_less(a: &[char], b: &[char]) -> (r: bool)
    ensures
        r == text_lt(a@, b@),
{
    let mut i: usize = 0;
    assert(a@.skip(0) =~= a@ && b@.skip(0) =~= b@);
    while i < a.len() && i < b.len() && a[i] == b[i]
        invariant
            i <= a@.len(),
            i <= b@.len(),
            text_lt(a@, b@) == text_lt(a@.skip(i as int), b@.skip(i as int)),
        decreases a@.len() - i,
    {
        proof {
            assert(a@.skip(i as int).drop_first() =~= a@.skip(i + 1));
            assert(b@.skip(i as int).drop_first() =~= b@.skip(i + 1));
        }
        i = i + 1;
    }
    if i == b.len() {
        return false;
    }
    if i == a.len() {
        return true;
    }
    assert(a@.skip(i as int)[0] == a@[i as int] && b@.skip(i as int)[0] == b@[i as int]);
    (a[i] as u32) < (b[i] as u32)
}

pub fn progress_update_applies(stored_updated_at: Option<&str>, updated_at: &str) -> (r: bool)
    ensures
        r == progress_applies(crate::lan::opt_str_view(stored_updated_at), updated_at@),
{
    match stored_updated_at {
        Some(prev) => {
            let p = text::chars_of(prev);
            let u = text::chars_of(updated_at);
            !text_less(u.as_slice(), p.as_slice())
        },
        None => true,
    }
}

/// A stored sign-in session is honoured while both its idle and its absolute
/// expiry, compared as text as the store compares them, are later than now, and
/// while its user is not disabled.
pub open spec fn session_honoured(
    idle_expires_at: Seq<char>,
    absolute_expires_at: Seq<char>,
    now: Seq<char>,
    disabled: bool,
) -> bool {
    !disabled && text_lt(now, idle_expires_at) && text_lt(now, absolute_expires_at)
}

pub fn session_is_honoured(
    idle_expires_at: &str,
    absolute_expires_at: &str,
    now: &str,
    disabled: bool,
) -> (r: bool)
    ensures
        r == session_honoured(idle_expires_at@, absolute_expires_at@, now@, disabled),
{
    if disabled {
        return false;
    }
    let n = text::chars_of(now);
    let idle = text::chars_of(idle_expires_at);
    let abs = text::chars_of(absolute_expires_at);
    text_less(n.as_slice(), idle.as_slice()) && text_less(n.as_slice(), abs.as_slice())
}

/// A session's viewer sees the whole library when the user is the owner or was
/// given the whole library.
pub fn session_viewer(user_id: i64, role: UserRole, access_all: bool) -> (v: Viewer)
    ensures
        v.user_id == user_id,
        v.access_all == (role == UserRole::Owner || access_all),
{
    Viewer { user_id, access_all: role == UserRole::Owner || access_all }
}

/// The stamp stored after a series of reports, starting from `stored`.
pub open spec fn stored_after(stored: Option<Seq<char>>, reports: Seq<Seq<char>>) -> Option<Seq<char>>
    decreases reports.len(),
{
    if reports.len() == 0 {
        stored
    } else {
        let s = stored_after(stored, reports.drop_last());
        if progress_applies(s, reports.last()) {
            Some(reports.last())
        } else {
            s
        }
    }
}

/// Whatever order devices report in, the position kept is the one stamped latest:
/// after any non-empty series of reports from nothing stored, the stored stamp is
/// one of the reported stamps and none of them is later.
pub proof fn lemma_progress_latest_wins(reports: Seq<Seq<char>>)
    requires
        reports.len() > 0,
    ensures
        stored_after(None, reports) matches Some(s) && (exists|i: int|
            0 <= i < reports.len() && reports[i] == s) && (forall|i: int|
            0 <= i < reports.len() ==> !text_lt(s, #[trigger] reports[i])),
    decreases reports.len(),
{
    let init = reports.drop_last();
    let last = reports.last();
    if init.len() == 0 {
        assert(stored_after(None, init) == None::<Seq<char>>);
        assert(reports[0] == last);
        assert forall|i: int| 0 <= i < reports.len() implies !text_lt(last, #[trigger] reports[i]) by {
            lemma_text_lt_irreflexive(last);
        }
    } else {
        lemma_progress_latest_wins(init);
        let s = stored_after(None, init)->0;
        if !text_lt(last, s) {
            assert(reports[reports.len() - 1] == last);
            assert forall|i: int| 0 <= i < reports.len() implies !text_lt(last, #[trigger] reports[i]) by {
                if i < init.len() {
                    assert(reports[i] == init[i]);
                    assert(!text_lt(s, init[i]));
                    lemma_text_lt_total(last, s);
                    if text_lt(last, init[i]) {
                        lemma_text_lt_total(s, init[i]);
                        if s == init[i] {
                        } else if text_lt(init[i], s) {
                            lemma_text_lt_transitive(last, init[i], s);
                        }
                        if text_lt(s, last) {
                            lemma_text_lt_transitive(s, last, init[i]);
                        }
                    }
                } else {
                    lemma_text_lt_irreflexive(last);
                }
            }
        } else {
            let j = choose|j: int| 0 <= j < init.len() && init[j] == s;
            assert(reports[j] == s);
            assert forall|i: int| 0 <= i < reports.len() implies !text_lt(s, #[trigger] reports[i]) by {
                if i < init.len() {
                    assert(reports[i] == init[i]);
                } else {
                    assert(reports[i] == last);
                    lemma_text_lt_total(s, last);
                    if text_lt(s, last) {
                        lemma_text_lt_transitive(s, last, s);
                        lemma_text_lt_irreflexive(s);
                    }
                }
            }
        }
    }
}

// ---------------------------------------------------------------------------
// The series listing query
// ---------------------------------------------------------------------------

/// A value bound to a `?` of a query.
#[derive(Debug, Clone, PartialEq, Eq)]
pub enum SqlValue {
    Integer(i64),
    Text(String),
}

/// What a bound value holds.
pub enum SqlArg {
    Int(int),
    Str(Seq<char>),
}

pub open spec fn sql_arg(v: SqlValue) -> SqlArg {
    match v {
        SqlValue::Integer(i) => SqlArg::Int(i as int),
        SqlValue::Text(s) => SqlArg::Str(s@),
    }
}

pub open spec fn sql_args(vs: Seq<SqlValue>) -> Seq<SqlArg> {
    vs.map_values(|v: SqlValue| sql_arg(v))
}

/// Every series with its chapter and unread counts, average progress and last read
/// time for the viewer, and its tags, limited to the series the viewer may see:
/// all of them with the whole library in view, else those granted to the viewer.
pub const SERIES_SELECT_SQL: &'static str = "SELECT s.id, s.root_id, s.folder_path, s.title, s.cover_path,
                    s.content_type, s.source_format, s.reading_mode, s.variant_preference, s.page_direction, s.favorite, s.description,
                    s.created_at, s.updated_at,
                    COALESCE(agg.chapter_count, 0),
                    COALESCE(agg.unread_count, 0),
                    COALESCE(agg.progress_percent, 0),
                    p.last_read,
                    (SELECT GROUP_CONCAT(t.name, ', ') FROM tags t
                     JOIN series_tags st ON st.tag_id = t.id WHERE st.series_id = s.id),
                    s.group_name
             FROM series s
             LEFT JOIN (
                 SELECT c.series_id,
                        COUNT(*) as chapter_count,
                        SUM(CASE WHEN COALESCE(pr.percent, 0) < 99 THEN 1 ELSE 0 END) as unread_count,
                        AVG(COALESCE(pr.percent, 0)) as progress_percent
                 FROM chapters c
                 LEFT JOIN progress pr ON pr.chapter_id = c.id AND pr.user_id = ?
                 WHERE COALESCE(c.missing, 0) = 0
                 GROUP BY c.series_id
             ) agg ON agg.series_id = s.id
             LEFT JOIN (
                 SELECT c.series_id, MAX(pr.updated_at) as last_read
                 FROM progress pr
                 JOIN chapters c ON c.id = pr.chapter_id
                 WHERE pr.user_id = ?
                 GROUP BY c.series_id
             ) p ON p.series_id = s.id
             WHERE (? = 1 OR EXISTS (
                 SELECT 1 FROM library_grants g
                 WHERE g.series_id = s.id AND g.user_id = ?
             ))";

pub const FAVORITES_CLAUSE: &'static str = " AND s.favorite = 1";

pub const UNREAD_CLAUSE: &'static str = " AND COALESCE(agg.unread_count, 0) > 0";

pub const COLLECTION_CLAUSE: &'static str = " AND EXISTS (SELECT 1 FROM collection_items ci WHERE ci.series_id = s.id AND ci.collection_id = ?)";

pub const READING_MODE_CLAUSE: &'static str = " AND s.reading_mode = ?";

pub const CONTENT_TYPE_CLAUSE: &'static str = " AND s.content_type = ?";

/// A search term matches a series' title, description, tags, collections or
/// chapter titles.
pub const SEARCH_CLAUSE: &'static str = " AND (
                    s.title LIKE ? OR COALESCE(s.description, '') LIKE ?
                    OR EXISTS (SELECT 1 FROM tags t JOIN series_tags st ON st.tag_id = t.id
                               WHERE st.series_id = s.id AND t.name LIKE ?)
                    OR EXISTS (SELECT 1 FROM collections col JOIN collection_items ci ON ci.collection_id = col.id
                               WHERE ci.series_id = s.id AND col.name LIKE ?)
                    OR EXISTS (SELECT 1 FROM chapters ch WHERE ch.series_id = s.id AND ch.title LIKE ?)
                )";

/// The order of a listing: most recently read, most recently added, furthest read,
/// or by title without regard to case.
pub open spec fn series_order_of(sort: Seq<char>) -> Seq<char> {
    if sort == "last_read"@ {
        "COALESCE(p.last_read, s.updated_at) DESC"@
    } else if sort == "added"@ {
        "s.created_at DESC"@
    } else if sort == "progress"@ {
        "COALESCE(agg.progress_percent, 0) DESC"@
    } else {
        "s.title COLLATE NOCASE ASC"@
    }
}

pub fn series_order(sort: &str) -> (r: &'static str)
    ensures
        r@ == series_order_of(sort@),
{
    if text::str_eq(sort, "last_read") {
        "COALESCE(p.last_read, s.updated_at) DESC"
    } else if text::str_eq(sort, "added") {
        "s.created_at DESC"
    } else if text::str_eq(sort, "progress") {
        "COALESCE(agg.progress_percent, 0) DESC"
    } else {
        "s.title COLLATE NOCASE ASC"
    }
}

pub open spec fn when(cond: bool, s: Seq<char>) -> Seq<char> {
    if cond {
        s
    } else {
        Seq::empty()
    }
}

/// The listing query for a filter: the base query, one clause per filter that is
/// set, and the order.
pub open spec fn series_sql_of(filter: SeriesFilter) -> Seq<char> {
    SERIES_SELECT_SQL@ + when(filter.favorites_only, FAVORITES_CLAUSE@) + when(
        filter.unread_only,
        UNREAD_CLAUSE@,
    ) + when(filter.collection_id is Some, COLLECTION_CLAUSE@) + when(
        filter.reading_mode is Some,
        READING_MODE_CLAUSE@,
    ) + when(filter.content_type is Some, CONTENT_TYPE_CLAUSE@) + when(
        filter.search is Some,
        SEARCH_CLAUSE@,
    ) + " ORDER BY "@ + series_order_of(filter.sort@)
}

/// `%term%`, the pattern a search term is matched with.
pub open spec fn like_pattern(q: Seq<char>) -> Seq<char> {
    "%"@ + q + "%"@
}

/// The values bound to the listing query, in the order of its `?`s: the viewer for
/// both progress joins, whether the viewer sees the whole library, the viewer for
/// the grant test, then the collection, reading mode, content type, and five times
/// the search pattern, for the filters that are set.
pub open spec fn series_args_of(viewer: Viewer, filter: SeriesFilter) -> Seq<SqlArg> {
    viewer_args(viewer) + collection_args(filter) + mode_args(filter) + type_args(filter)
        + search_args(filter)
}

pub open spec fn viewer_args(viewer: Viewer) -> Seq<SqlArg> {
    seq![
        SqlArg::Int(viewer.user_id as int),
        SqlArg::Int(viewer.user_id as int),
        SqlArg::Int(if viewer.access_all { 1 } else { 0 }),
        SqlArg::Int(viewer.user_id as int),
    ]
}

pub open spec fn collection_args(filter: SeriesFilter) -> Seq<SqlArg> {
    match filter.collection_id {
        Some(id) => seq![SqlArg::Int(id as int)],
        None => Seq::empty(),
    }
}

pub open spec fn mode_args(filter: SeriesFilter) -> Seq<SqlArg> {
    match filter.reading_mode {
        Some(mode) => seq![SqlArg::Str(mode@)],
        None => Seq::empty(),
    }
}

pub open spec fn type_args(filter: SeriesFilter) -> Seq<SqlArg> {
    match filter.content_type {
        Some(ct) => seq![SqlArg::Str(ct@)],
        None => Seq::empty(),
    }
}

pub open spec fn search_args(filter: SeriesFilter) -> Seq<SqlArg> {
    match filter.search {
        Some(q) => Seq::new(5, |i: int| SqlArg::Str(like_pattern(q@))),
        None => Seq::empty(),
    }
}

pub fn series_query(viewer: &Viewer, filter: &SeriesFilter) -> (r: (String, Vec<SqlValue>))
    ensures
        r.0@ == series_sql_of(*filter),
        sql_args(r.1@) == series_args_of(*viewer, *filter),
{
    let mut sql = text::chars_of(SERIES_SELECT_SQL);
    let mut args: Vec<SqlValue> = Vec::new();
    args.push(SqlValue::Integer(viewer.user_id));
    args.push(SqlValue::Integer(viewer.user_id));
    args.push(SqlValue::Integer(if viewer.access_all { 1 } else { 0 }));
    args.push(SqlValue::Integer(viewer.user_id));
    let ghost base = args@;
    proof {
        assert(sql_args(base) =~= viewer_args(*viewer));
    }
    if filter.favorites_only {
        text::push_str(&mut sql, FAVORITES_CLAUSE);
    }
    if filter.unread_only {
        text::push_str(&mut sql, UNREAD_CLAUSE);
    }
    if let Some(cid) = filter.collection_id {
        text::push_str(&mut sql, COLLECTION_CLAUSE);
        args.push(SqlValue::Integer(cid));
    }
    let ghost a2 = args@;
    proof {
        assert(sql_args(a2) =~= sql_args(base) + collection_args(*filter));
    }
    if let Some(mode) = &filter.reading_mode {
        text::push_str(&mut sql, READING_MODE_CLAUSE);
        args.push(SqlValue::Text(text::string_of(text::chars_of(mode.as_str()).as_slice())));
    }
    let ghost a3 = args@;
    proof {
        assert(sql_args(a3) =~= sql_args(a2) + mode_args(*filter));
    }
    if let Some(content_type) = &filter.content_type {
        text::push_str(&mut sql, CONTENT_TYPE_CLAUSE);
        args.push(SqlValue::Text(text::string_of(text::chars_of(content_type.as_str()).as_slice())));
    }
    let ghost a4 = args@;
    proof {
        assert(sql_args(a4) =~= sql_args(a3) + type_args(*filter));
    }
    if let Some(q) = &filter.search {
        text::push_str(&mut sql, SEARCH_CLAUSE);
        let mut like = text::chars_of("%");
        text::push_str(&mut like, q.as_str());
        like.push('%');
        proof {
            reveal_strlit("%");
            assert(like@ =~= like_pattern(q@));
        }
        let mut k: usize = 0;
        while k < 5
            invariant
                k <= 5,
                args@.len() == a4.len() + k,
                like@ == like_pattern(q@),
                forall|j: int| 0 <= j < a4.len() ==> args@[j] == a4[j],
                forall|j: int|
                    a4.len() <= j < args@.len() ==> sql_arg(#[trigger] args@[j]) == SqlArg::Str(
                        like_pattern(q@),
                    ),
            decreases 5 - k,
        {
            args.push(SqlValue::Text(text::string_of(like.as_slice())));
            k = k + 1;
        }
        proof {
            assert(sql_args(args@) =~= sql_args(a4) + search_args(*filter));
        }
    } else {
        assert(sql_args(args@) =~= sql_args(a4) + search_args(*filter));
    }
    text::push_str(&mut sql, " ORDER BY ");
    text::push_str(&mut sql, series_order(filter.sort.as_str()));
    proof {
        assert(sql@ =~= series_sql_of(*filter));
        assert(sql_args(args@) =~= series_args_of(*viewer, *filter));
    }
    (text::string_of(sql.as_slice()), args)
}

// ---------------------------------------------------------------------------
// Neighbouring chapters
// ---------------------------------------------------------------------------

/// Positions of the chapters that are not marked missing, in order; each chapter
/// is given as its id and whether it is missing.
pub open spec fn present_positions(cs: Seq<(i64, bool)>) -> Seq<int>
    decreases cs.len(),
{
    if cs.len() == 0 {
        Seq::empty()
    } else {
        let p = present_positions(cs.drop_last());
        if cs.last().1 {
            p
        } else {
            p.push(cs.len() - 1)
        }
    }
}

/// `k` is the first place among the present chapters that holds `id`.
pub open spec fn first_present(cs: Seq<(i64, bool)>, id: i64, k: int) -> bool {
    let p = present_positions(cs);
    &&& 0 <= k < p.len()
    &&& cs[p[k]].0 == id
    &&& forall|j: int| 0 <= j < k ==> cs[#[trigger] p[j]].0 != id
}

/// The chapter after (or before) `id` among the chapters that are not missing,
/// as a position in `cs`; none when `id` is not among them or has no neighbour
/// on that side.
pub open spec fn adjacent_position(cs: Seq<(i64, bool)>, id: i64, next: bool) -> Option<int> {
    let p = present_positions(cs);
    if exists|k: int| first_present(cs, id, k) {
        let k = choose|k: int| first_present(cs, id, k);
        if next {
            if k + 1 < p.len() {
                Some(p[k + 1])
            } else {
                None
            }
        } else if k > 0 {
            Some(p[k - 1])
        } else {
            None
        }
    } else {
        None
    }
}

proof fn lemma_first_present_unique(cs: Seq<(i64, bool)>, id: i64, a: int, b: int)
    requires
        first_present(cs, id, a),
        first_present(cs, id, b),
    ensures
        a == b,
{
    let p = present_positions(cs);
    if a < b {
        assert(cs[p[a]].0 != id);
    } else if b < a {
        assert(cs[p[b]].0 != id);
    }
}

/// Present positions are positions of `cs`, increasing, of chapters not missing.
proof fn lemma_present_positions(cs: Seq<(i64, bool)>)
    ensures
        forall|j: int|
            0 <= j < present_positions(cs).len() ==> 0 <= #[trigger] present_positions(cs)[j]
                < cs.len() && !cs[present_positions(cs)[j]].1,
        forall|i: int, j: int|
            0 <= i < j < present_positions(cs).len() ==> present_positions(cs)[i]
                < present_positions(cs)[j],
    decreases cs.len(),
{
    if cs.len() > 0 {
        let d = cs.drop_last();
        lemma_present_positions(d);
        let p = present_positions(d);
        let q = present_positions(cs);
        assert forall|j: int| 0 <= j < q.len() implies 0 <= #[trigger] q[j] < cs.len()
            && !cs[q[j]].1 by {
            if j < p.len() {
                assert(q[j] == p[j]);
                assert(d[p[j]] == cs[p[j]]);
            }
        }
        assert forall|i: int, j: int| 0 <= i < j < q.len() implies q[i] < q[j] by {
            if j < p.len() {
                assert(q[i] == p[i] && q[j] == p[j]);
            } else {
                assert(q[i] == p[i]);
            }
        }
    }
}

/// No id is listed twice among the chapters that are not missing.
pub open spec fn present_ids_distinct(cs: Seq<(i64, bool)>) -> bool {
    let p = present_positions(cs);
    forall|a: int, b: int| 0 <= a < b < p.len() ==> cs[#[trigger] p[a]].0 != cs[#[trigger] p[b]].0
}

/// Stepping to the next chapter and back again, or back and then forward, returns
/// to the chapter one started from, when no chapter id is listed twice.
pub proof fn lemma_adjacent_round_trip(cs: Seq<(i64, bool)>, id: i64, next: bool)
    requires
        present_ids_distinct(cs),
    ensures
        adjacent_position(cs, id, next) matches Some(i) ==> 0 <= i < cs.len() && (adjacent_position(
            cs,
            cs[i].0,
            !next,
        ) matches Some(j) && 0 <= j < cs.len() && cs[j].0 == id),
{
    let p = present_positions(cs);
    lemma_present_positions(cs);
    if exists|k: int| first_present(cs, id, k) {
        let k = choose|k: int| first_present(cs, id, k);
        let k2: int = if next { k + 1 } else { k - 1 };
        if 0 <= k2 < p.len() {
            let id2 = cs[p[k2]].0;
            if next {
                assert forall|j: int| 0 <= j < k2 implies cs[#[trigger] p[j]].0 != id2 by {
                    assert(cs[p[j]].0 != cs[p[k2]].0);
                }
                assert(first_present(cs, id2, k2));
            } else {
                assert forall|j: int| 0 <= j < k2 implies cs[#[trigger] p[j]].0 != id2 by {
                    assert(cs[p[j]].0 != cs[p[k2]].0);
                }
                assert(first_present(cs, id2, k2));
            }
            let c2 = choose|c: int| first_present(cs, id2, c);
            lemma_first_present_unique(cs, id2, c2, k2);
        }
    }
}

pub fn adjacent_chapter(chapters: &[(i64, bool)], chapter_id: i64, next: bool) -> (r: Option<usize>)
    ensures
        match r {
            Some(i) => adjacent_position(chapters@, chapter_id, next) == Some(i as int),
            None => adjacent_position(chapters@, chapter_id, next) is None,
        },
{
    let ghost cs = chapters@;
    let mut present: Vec<usize> = Vec::new();
    let mut i: usize = 0;
    while i < chapters.len()
        invariant
            i <= chapters@.len(),
            cs == chapters@,
            present@.len() == present_positions(cs.subrange(0, i as int)).len(),
            forall|j: int|
                0 <= j < present@.len() ==> present@[j] as int == #[trigger] present_positions(
                    cs.subrange(0, i as int),
                )[j],
        decreases chapters@.len() - i,
    {
        assert(cs.subrange(0, i + 1).drop_last() =~= cs.subrange(0, i as int));
        if !chapters[i].1 {
            present.push(i);
        }
        i = i + 1;
    }
    assert(cs.subrange(0, chapters@.len() as int) =~= cs);
    let ghost p = present_positions(cs);
    proof {
        lemma_present_positions(cs);
    }
    let mut k: usize = 0;
    while k < present.len()
        invariant
            k <= present@.len(),
            cs == chapters@,
            p == present_positions(cs),
            present@.len() == p.len(),
            forall|j: int| 0 <= j < present@.len() ==> present@[j] as int == #[trigger] p[j],
            forall|j: int| 0 <= j < p.len() ==> 0 <= #[trigger] p[j] < cs.len(),
            forall|j: int| 0 <= j < k ==> cs[#[trigger] p[j]].0 != chapter_id,
        decreases present@.len() - k,
    {
        assert(p[k as int] == present@[k as int] as int);
        if chapters[present[k]].0 == chapter_id {
            assert(first_present(cs, chapter_id, k as int));
            proof {
                assert forall|k2: int| first_present(cs, chapter_id, k2) implies k2 == k by {
                    lemma_first_present_unique(cs, chapter_id, k2, k as int);
                }
            }
            if next {
                if k + 1 < present.len() {
                    return Some(present[k + 1]);
                } else {
                    return None;
                }
            } else if k > 0 {
                return Some(present[k - 1]);
            } else {
                return None;
            }
        }
        k = k + 1;
    }
    assert(!exists|k2: int| first_present(cs, chapter_id, k2));
    None
}


} // verus!
