//! Page geometry for PDF rendering: requested widths, stacked segments, and the
//! image type of rendered bytes.
use vstd::prelude::*;
use crate::paths::{file_name, path_join};
use crate::text;
use crate::text::{ascii_lower, before_char, decimal, parse_int, signed_decimal, starts_with};

verus! {

/// Output height of one stacked segment. Webtoon pages are far taller than any
/// browser decodes in one piece, so a page is cut into segments of this height.
pub const MAX_TILE_HEIGHT: u32 = 2400;

/// Smallest and largest width a page is rendered at.
pub const MIN_TARGET_WIDTH: u32 = 100;
pub const MAX_TARGET_WIDTH: u32 = 2560;

#[derive(Debug, Clone, Copy, PartialEq, Eq, Structural)]
pub struct TileGeometry {
    pub page_index: i32,
    pub tile_index: u32,
    pub width: u32,
    pub height: u32,
}

pub open spec fn clamp_width(w: u32) -> u32 {
    if w < MIN_TARGET_WIDTH {
        MIN_TARGET_WIDTH
    } else if w > MAX_TARGET_WIDTH {
        MAX_TARGET_WIDTH
    } else {
        w
    }
}

pub fn clamp_target_width(target_width: u32) -> (r: u32)
    ensures
        r == clamp_width(target_width),
{
    if target_width < MIN_TARGET_WIDTH {
        MIN_TARGET_WIDTH
    } else if target_width > MAX_TARGET_WIDTH {
        MAX_TARGET_WIDTH
    } else {
        target_width
    }
}

/// Number of segments a page of `h` output pixels is cut into.
pub open spec fn segment_count(h: int) -> int {
    (h + MAX_TILE_HEIGHT - 1) / (MAX_TILE_HEIGHT as int)
}

/// Splits a page's output height into stacked `(y_offset, height)` segments.
///
/// Segment `i` starts at `i * MAX_TILE_HEIGHT` and is `MAX_TILE_HEIGHT` tall except
/// the last, which takes what is left; an empty page has no segments.
pub fn tile_layout(output_height: u32) -> (tiles: Vec<(u32, u32)>)
    ensures
        tiles@.len() == segment_count(output_height as int),
        forall|i: int|
            #![trigger tiles@[i]]
            0 <= i < tiles@.len() ==> {
                &&& tiles@[i].0 == i * MAX_TILE_HEIGHT
                &&& tiles@[i].1 == if output_height - tiles@[i].0 < MAX_TILE_HEIGHT {
                    output_height - tiles@[i].0
                } else {
                    MAX_TILE_HEIGHT as int
                }
            },
{
    let mut tiles: Vec<(u32, u32)> = Vec::new();
    if output_height == 0 {
        return tiles;
    }
    let mut y: u32 = 0;
    while y < output_height
        invariant
            y < output_height ==> y as int == tiles@.len() * MAX_TILE_HEIGHT,
            y <= output_height,
            y < output_height ==> tiles@.len() < segment_count(output_height as int),
            y == output_height ==> tiles@.len() == segment_count(output_height as int),
            forall|i: int|
                #![trigger tiles@[i]]
                0 <= i < tiles@.len() ==> {
                    &&& tiles@[i].0 == i * MAX_TILE_HEIGHT
                    &&& tiles@[i].1 == if output_height - tiles@[i].0 < MAX_TILE_HEIGHT {
                        output_height - tiles@[i].0
                    } else {
                        MAX_TILE_HEIGHT as int
                    }
                },
        decreases output_height - y,
    {
        let height = if output_height - y < MAX_TILE_HEIGHT {
            output_height - y
        } else {
            MAX_TILE_HEIGHT
        };
        tiles.push((y, height));
        y = y + height;
        proof {
            let n = tiles@.len() as int;
            if y < output_height {
                assert(n * 2400 < output_height);
                assert(n < segment_count(output_height as int));
            } else {
                assert((n - 1) * 2400 < output_height <= n * 2400);
                assert(segment_count(output_height as int) == n);
            }
        }
    }
    tiles
}

/// The segments of a layout stack flush: the first starts at the top, each starts
/// where the previous one ends, the last ends at the bottom of the page, and every
/// segment is non-empty and at most `MAX_TILE_HEIGHT` tall.
pub proof fn lemma_tile_layout_covers_page(h: u32, tiles: Seq<(u32, u32)>)
    requires
        tiles.len() == segment_count(h as int),
        forall|i: int|
            #![trigger tiles[i]]
            0 <= i < tiles.len() ==> {
                &&& tiles[i].0 == i * MAX_TILE_HEIGHT
                &&& tiles[i].1 == if h - tiles[i].0 < MAX_TILE_HEIGHT {
                    h - tiles[i].0
                } else {
                    MAX_TILE_HEIGHT as int
                }
            },
    ensures
        h > 0 ==> tiles.len() > 0 && tiles[0].0 == 0,
        h == 0 ==> tiles.len() == 0,
        forall|i: int| 0 <= i < tiles.len() ==> 0 < #[trigger] tiles[i].1 <= MAX_TILE_HEIGHT,
        forall|i: int|
            0 <= i < tiles.len() - 1 ==> #[trigger] tiles[i].0 + tiles[i].1 == tiles[i + 1].0,
        tiles.len() > 0 ==> tiles.last().0 + tiles.last().1 == h,
{
    let n = tiles.len() as int;
    assert forall|i: int| 0 <= i < tiles.len() implies 0 < #[trigger] tiles[i].1
        <= MAX_TILE_HEIGHT by {
        assert(i < segment_count(h as int));
        assert(i * 2400 < h);
    }
    assert forall|i: int| 0 <= i < tiles.len() - 1 implies #[trigger] tiles[i].0 + tiles[i].1
        == tiles[i + 1].0 by {
        assert(i + 1 < segment_count(h as int));
        assert((i + 1) * 2400 < h);
        assert(tiles[i + 1].0 == (i + 1) * 2400);
    }
    if n > 0 {
        let l = tiles[n - 1];
        assert((n - 1) * 2400 < h <= n * 2400);
    }
}

pub open spec fn is_png_signature(b: Seq<u8>) -> bool {
    b.len() >= 8 && b[0] == 0x89 && b[1] == 0x50 && b[2] == 0x4e && b[3] == 0x47 && b[4] == 0x0d
        && b[5] == 0x0a && b[6] == 0x1a && b[7] == 0x0a
}

pub open spec fn is_webp_signature(b: Seq<u8>) -> bool {
    b.len() >= 12 && b[0] == 0x52 && b[1] == 0x49 && b[2] == 0x46 && b[3] == 0x46 && b[8] == 0x57
        && b[9] == 0x45 && b[10] == 0x42 && b[11] == 0x50
}

/// MIME type of rendered image bytes, told by their signature; JPEG when unknown.
pub open spec fn image_mime_of(b: Seq<u8>) -> Seq<char> {
    if b.len() >= 3 && b[0] == 0xff && b[1] == 0xd8 {
        "image/jpeg"@
    } else if is_png_signature(b) {
        "image/png"@
    } else if is_webp_signature(b) {
        "image/webp"@
    } else {
        "image/jpeg"@
    }
}

pub fn image_mime(bytes: &[u8]) -> (r: &'static str)
    ensures
        r@ == image_mime_of(bytes@),
{
    let n = bytes.len();
    if n >= 3 && bytes[0] == 0xff && bytes[1] == 0xd8 {
        "image/jpeg"
    } else if n >= 8 && bytes[0] == 0x89 && bytes[1] == 0x50 && bytes[2] == 0x4e && bytes[3]
        == 0x47 && bytes[4] == 0x0d && bytes[5] == 0x0a && bytes[6] == 0x1a && bytes[7] == 0x0a {
        "image/png"
    } else if n >= 12 && bytes[0] == 0x52 && bytes[1] == 0x49 && bytes[2] == 0x46 && bytes[3]
        == 0x46 && bytes[8] == 0x57 && bytes[9] == 0x45 && bytes[10] == 0x42 && bytes[11] == 0x50 {
        "image/webp"
    } else {
        "image/jpeg"
    }
}

// ---------------------------------------------------------------------------
// The PDFium library
// ---------------------------------------------------------------------------

/// A file named like a PDFium build for macOS, Linux or Windows, in any case.
pub open spec fn pdfium_lib_name(p: Seq<char>) -> bool {
    match file_name(p) {
        Some(n) => {
            let l = ascii_lower(n);
            l == "libpdfium.dylib"@ || l == "libpdfium.so"@ || l == "pdfium.dll"@
        },
        None => false,
    }
}

pub fn is_pdfium_lib(path: &str) -> (r: bool)
    ensures
        r == pdfium_lib_name(path@),
{
    let v = text::chars_of(path);
    match crate::paths::file_name_exec(v.as_slice()) {
        Some(n) => {
            let l = text::lower_all(n.as_slice());
            let ls = l.as_slice();
            text::lit_eq(ls, "libpdfium.dylib") || text::lit_eq(ls, "libpdfium.so") || text::lit_eq(
                ls,
                "pdfium.dll",
            )
        },
        None => false,
    }
}

// ---------------------------------------------------------------------------
// The rendered-page cache
// ---------------------------------------------------------------------------

/// Name of a cached page rendering: `CHAPTER_PAGE_WIDTH.jpg`.
pub open spec fn page_file_name(chapter_id: i64, page_index: i32, width: u32) -> Seq<char> {
    signed_decimal(chapter_id as int) + "_"@ + signed_decimal(page_index as int) + "_"@ + decimal(
        width as nat,
    ) + ".jpg"@
}

/// Name of a cached segment: `CHAPTER_PAGE_tTILE_WIDTH.jpg`.
pub open spec fn tile_file_name(chapter_id: i64, page_index: i32, tile_index: u32, width: u32) -> Seq<
    char,
> {
    signed_decimal(chapter_id as int) + "_"@ + signed_decimal(page_index as int) + "_t"@ + decimal(
        tile_index as nat,
    ) + "_"@ + decimal(width as nat) + ".jpg"@
}

/// Name of a cached cover: `SERIES.webp`.
pub open spec fn cover_file_name(series_id: i64) -> Seq<char> {
    signed_decimal(series_id as int) + ".webp"@
}

/// A cached rendering of another page of `chapter_id` than those within `window`
/// pages of `current_page`: its name starts with the chapter and `_`, and the
/// number up to the next `_` is a page that far away.
pub open spec fn distant_page_file(name: Seq<char>, chapter_id: i64, current_page: i32, window: i32) -> bool {
    let pre = signed_decimal(chapter_id as int) + "_"@;
    if !starts_with(name, pre) {
        false
    } else {
        match parse_int(before_char(name.skip(pre.len() as int), '_'), i32::MIN as int, i32::MAX as int) {
            Some(page) => {
                let d = page - current_page;
                (if d < 0 {
                    -d
                } else {
                    d
                }) > window
            },
            None => false,
        }
    }
}

pub fn is_distant_page_file(name: &str, chapter_id: i64, current_page: i32, window: i32) -> (r: bool)
    ensures
        r == distant_page_file(name@, chapter_id, current_page, window),
{
    let v = text::chars_of(name);
    let mut pre = text::i64_to_decimal(chapter_id);
    pre.push('_');
    assert(pre@ =~= signed_decimal(chapter_id as int) + "_"@) by {
        reveal_strlit("_");
    }
    if !text::has_prefix(v.as_slice(), pre.as_slice()) {
        return false;
    }
    let rest = text::copy_range(v.as_slice(), pre.len(), v.len());
    let first = text::before_char_exec(rest.as_slice(), '_');
    match text::parse_i32(first.as_slice()) {
        Some(page) => {
            let d: i64 = page as i64 - current_page as i64;
            let a: i64 = if d < 0 {
                -d
            } else {
                d
            };
            a > window as i64
        },
        None => false,
    }
}

/// Rendered pages, segments and covers kept on disk, with the space they take.
pub struct PageCache {
    cache_dir: String,
    max_bytes: u64,
    current_bytes: u64,
}

/// Bytes in `mb` mebibytes.
pub open spec fn mib(mb: u32) -> u64 {
    (mb * 1048576) as u64
}

impl PageCache {
    pub closed spec fn max_bytes(&self) -> u64 {
        self.max_bytes
    }

    pub closed spec fn used(&self) -> u64 {
        self.current_bytes
    }

    pub closed spec fn dir(&self) -> Seq<char> {
        self.cache_dir@
    }

    /// The folder the cache lives in.
    pub fn cache_dir(&self) -> (r: &str)
        ensures
            r@ == self.dir(),
    {
        self.cache_dir.as_str()
    }

    /// An empty cache in `cache_dir` holding up to `max_mb` mebibytes.
    pub fn new(cache_dir: String, max_mb: u32) -> (r: PageCache)
        ensures
            r.dir() == cache_dir@,
            r.max_bytes() == mib(max_mb),
            r.used() == 0,
    {
        PageCache { cache_dir, max_bytes: max_mb as u64 * 1048576, current_bytes: 0 }
    }

    pub fn used_bytes(&self) -> (r: u64)
        ensures
            r == self.used(),
    {
        self.current_bytes
    }

    pub fn set_max_mb(&mut self, mb: u32)
        ensures
            final(self).max_bytes() == mib(mb),
            final(self).used() == old(self).used(),
            final(self).dir() == old(self).dir(),
    {
        self.max_bytes = mb as u64 * 1048576;
    }

    /// The space found on disk when the cache is opened.
    pub fn set_used(&mut self, bytes: u64)
        ensures
            final(self).used() == bytes,
            final(self).max_bytes() == old(self).max_bytes(),
            final(self).dir() == old(self).dir(),
    {
        self.current_bytes = bytes;
    }

    /// Every file was removed.
    pub fn clear(&mut self)
        ensures
            final(self).used() == 0,
            final(self).max_bytes() == old(self).max_bytes(),
            final(self).dir() == old(self).dir(),
    {
        self.current_bytes = 0;
    }

    /// A file of `len` bytes was written (the count stops at the largest `u64`).
    pub fn record_written(&mut self, len: u64)
        ensures
            final(self).used() == (if old(self).used() + len > u64::MAX {
                u64::MAX as int
            } else {
                old(self).used() + len
            }),
            final(self).max_bytes() == old(self).max_bytes(),
            final(self).dir() == old(self).dir(),
    {
        self.current_bytes = self.current_bytes.saturating_add(len);
    }

    /// A file of `size` bytes was removed (the count does not go below zero).
    pub fn record_removed(&mut self, size: u64)
        ensures
            final(self).used() == (if old(self).used() < size {
                0
            } else {
                old(self).used() - size
            }),
            final(self).max_bytes() == old(self).max_bytes(),
            final(self).dir() == old(self).dir(),
    {
        self.current_bytes = self.current_bytes.saturating_sub(size);
    }

    /// The cache has grown past its limit, so old pages should go.
    pub fn over_limit(&self) -> (r: bool)
        ensures
            r == (self.used() > self.max_bytes()),
    {
        self.current_bytes > self.max_bytes
    }

    /// Eviction continues while the cache is above 80% of its limit.
    pub fn above_eviction_floor(&self) -> (r: bool)
        ensures
            r == (self.used() > self.max_bytes() * 8 / 10),
    {
        (self.current_bytes as u128) > (self.max_bytes as u128) * 8 / 10
    }

    fn sub_path(&self, sub: &str, name: &[char]) -> (r: String)
        ensures
            r@ == path_join(path_join(self.dir(), sub@), name@),
    {
        let d = text::chars_of(self.cache_dir.as_str());
        let s = text::chars_of(sub);
        let a = crate::paths::path_join_exec(d.as_slice(), s.as_slice());
        let b = crate::paths::path_join_exec(a.as_slice(), name);
        text::string_of(b.as_slice())
    }

    pub fn page_path(&self, chapter_id: i64, page_index: i32, width: u32) -> (r: String)
        ensures
            r@ == path_join(
                path_join(self.dir(), "pages"@),
                page_file_name(chapter_id, page_index, width),
            ),
    {
        let mut n = text::i64_to_decimal(chapter_id);
        n.push('_');
        let p = text::i64_to_decimal(page_index as i64);
        text::push_all(&mut n, p.as_slice());
        n.push('_');
        let w = text::u64_to_decimal(width as u64);
        text::push_all(&mut n, w.as_slice());
        text::push_str(&mut n, ".jpg");
        assert(n@ =~= page_file_name(chapter_id, page_index, width)) by {
            reveal_strlit("_");
        }
        self.sub_path("pages", n.as_slice())
    }

    pub fn tile_path(&self, chapter_id: i64, page_index: i32, tile_index: u32, width: u32) -> (r: String)
        ensures
            r@ == path_join(
                path_join(self.dir(), "pages"@),
                tile_file_name(chapter_id, page_index, tile_index, width),
            ),
    {
        let mut n = text::i64_to_decimal(chapter_id);
        n.push('_');
        let p = text::i64_to_decimal(page_index as i64);
        text::push_all(&mut n, p.as_slice());
        text::push_str(&mut n, "_t");
        let t = text::u64_to_decimal(tile_index as u64);
        text::push_all(&mut n, t.as_slice());
        n.push('_');
        let w = text::u64_to_decimal(width as u64);
        text::push_all(&mut n, w.as_slice());
        text::push_str(&mut n, ".jpg");
        assert(n@ =~= tile_file_name(chapter_id, page_index, tile_index, width)) by {
            reveal_strlit("_");
        }
        self.sub_path("pages", n.as_slice())
    }

    pub fn cover_path(&self, series_id: i64) -> (r: String)
        ensures
            r@ == path_join(path_join(self.dir(), "covers"@), cover_file_name(series_id)),
    {
        let mut n = text::i64_to_decimal(series_id);
        text::push_str(&mut n, ".webp");
        self.sub_path("covers", n.as_slice())
    }
}

// ---------------------------------------------------------------------------
// Segment geometry of pages and chapters
// ---------------------------------------------------------------------------

/// Height of segment `i` of a page `h` pixels tall.
pub open spec fn segment_height(h: int, i: int) -> int {
    if h - i * MAX_TILE_HEIGHT < MAX_TILE_HEIGHT {
        h - i * MAX_TILE_HEIGHT
    } else {
        MAX_TILE_HEIGHT as int
    }
}

/// The segments of page `page_index`, `width` wide and `h` tall, in order.
pub open spec fn page_geometry(page_index: i32, width: u32, h: u32) -> Seq<TileGeometry> {
    Seq::new(
        segment_count(h as int) as nat,
        |i: int|
            TileGeometry {
                page_index,
                tile_index: i as u32,
                width,
                height: segment_height(h as int, i) as u32,
            },
    )
}

pub fn page_tile_geometry(page_index: i32, width: u32, output_height: u32) -> (r: Vec<TileGeometry>)
    ensures
        r@ == page_geometry(page_index, width, output_height),
{
    let layout = tile_layout(output_height);
    let mut out: Vec<TileGeometry> = Vec::new();
    let mut i: usize = 0;
    proof {
        assert(segment_count(output_height as int) <= u32::MAX) by (nonlinear_arith)
            requires
                output_height <= u32::MAX,
        ;
    }
    while i < layout.len()
        invariant
            i <= layout@.len(),
            layout@.len() == segment_count(output_height as int),
            segment_count(output_height as int) <= u32::MAX,
            forall|k: int|
                #![trigger layout@[k]]
                0 <= k < layout@.len() ==> {
                    &&& layout@[k].0 == k * MAX_TILE_HEIGHT
                    &&& layout@[k].1 == if output_height - layout@[k].0 < MAX_TILE_HEIGHT {
                        output_height - layout@[k].0
                    } else {
                        MAX_TILE_HEIGHT as int
                    }
                },
            out@ =~= page_geometry(page_index, width, output_height).take(i as int),
        decreases layout@.len() - i,
    {
        let t = TileGeometry { page_index, tile_index: i as u32, width, height: layout[i].1 };
        out.push(t);
        i = i + 1;
        assert(out@ =~= page_geometry(page_index, width, output_height).take(i as int));
    }
    assert(page_geometry(page_index, width, output_height).take(i as int) =~= page_geometry(
        page_index,
        width,
        output_height,
    ));
    out
}

/// The segments of every page of a chapter, page by page, from each page's
/// output size.
pub open spec fn chapter_geometry(sizes: Seq<(u32, u32)>) -> Seq<TileGeometry>
    decreases sizes.len(),
{
    if sizes.len() == 0 {
        Seq::empty()
    } else {
        let k = sizes.len() - 1;
        chapter_geometry(sizes.drop_last()) + page_geometry(k as i32, sizes.last().0, sizes.last().1)
    }
}

/// The segments of a chapter whose pages have the given output sizes; refused
/// when there are none.
pub fn chapter_tile_geometry(page_sizes: &[(u32, u32)]) -> (r: Result<Vec<TileGeometry>, String>)
    requires
        page_sizes@.len() <= i32::MAX,
    ensures
        chapter_geometry(page_sizes@).len() > 0 ==> (r matches Ok(v) && v@ == chapter_geometry(
            page_sizes@,
        )),
        chapter_geometry(page_sizes@).len() == 0 ==> (r matches Err(m) && m@
            == "This PDF has no readable pages"@),
{
    let mut out: Vec<TileGeometry> = Vec::new();
    let mut p: usize = 0;
    while p < page_sizes.len()
        invariant
            p <= page_sizes@.len() <= i32::MAX,
            out@ == chapter_geometry(page_sizes@.take(p as int)),
        decreases page_sizes@.len() - p,
    {
        let (w, h) = page_sizes[p];
        let page = page_tile_geometry(p as i32, w, h);
        proof {
            assert(page_sizes@.take(p + 1).drop_last() =~= page_sizes@.take(p as int));
            assert(page_sizes@.take(p + 1).last() == page_sizes@[p as int]);
        }
        let ghost before = out@;
        let mut j: usize = 0;
        while j < page.len()
            invariant
                j <= page@.len(),
                out@ == before + page@.take(j as int),
            decreases page@.len() - j,
        {
            out.push(page[j]);
            j = j + 1;
            assert(out@ =~= before + page@.take(j as int));
        }
        assert(page@.take(page@.len() as int) =~= page@);
        p = p + 1;
    }
    assert(page_sizes@.take(page_sizes@.len() as int) =~= page_sizes@);
    if out.len() == 0 {
        return Err(text::string_of(text::chars_of("This PDF has no readable pages").as_slice()));
    }
    Ok(out)
}

/// Segments that belong to page `page_index`.
pub open spec fn on_page(page_index: i32) -> spec_fn(TileGeometry) -> bool {
    |t: TileGeometry| t.page_index == page_index
}

/// The segments of one page out of a chapter's, in order; refused when the page
/// has none.
pub fn page_tiles(tiles: &[TileGeometry], page_index: i32) -> (r: Result<Vec<TileGeometry>, String>)
    ensures
        tiles@.filter(on_page(page_index)).len() > 0 ==> (r matches Ok(v) && v@ == tiles@.filter(
            on_page(page_index),
        )),
        tiles@.filter(on_page(page_index)).len() == 0 ==> (r matches Err(m) && m@ == "Page "@
            + signed_decimal(page_index as int) + " is out of range"@),
{
    let mut out: Vec<TileGeometry> = Vec::new();
    let mut i: usize = 0;
    while i < tiles.len()
        invariant
            i <= tiles@.len(),
            out@ == tiles@.take(i as int).filter(on_page(page_index)),
        decreases tiles@.len() - i,
    {
        let t = tiles[i];
        proof {
            reveal(Seq::filter);
            assert(tiles@.take(i + 1).drop_last() =~= tiles@.take(i as int));
            assert(tiles@.take(i + 1).last() == t);
        }
        if t.page_index == page_index {
            out.push(t);
        }
        i = i + 1;
    }
    assert(tiles@.take(tiles@.len() as int) =~= tiles@);
    if out.len() == 0 {
        let mut m = text::chars_of("Page ");
        let d = text::i64_to_decimal(page_index as i64);
        text::push_all(&mut m, d.as_slice());
        text::push_str(&mut m, " is out of range");
        return Err(text::string_of(m.as_slice()));
    }
    Ok(out)
}

// ---------------------------------------------------------------------------
// Data URLs
// ---------------------------------------------------------------------------

/// Standard base64 (with padding) of the bytes.
pub uninterp spec fn base64_standard(b: Seq<u8>) -> Seq<char>;

/// `base64::engine::general_purpose::STANDARD.encode`: RFC 4648 base64 with
/// padding, named rather than restated.
#[verifier::external_body]
pub(crate) fn base64_encode(b: &[u8]) -> (r: String)
    ensures
        r@ == base64_standard(b@),
{
    base64::Engine::encode(&base64::engine::general_purpose::STANDARD, b)
}

/// A `data:` URL of rendered image bytes, typed by their signature.
pub fn bytes_to_data_url(bytes: &[u8]) -> (r: String)
    ensures
        r@ == "data:"@ + image_mime_of(bytes@) + ";base64,"@ + base64_standard(bytes@),
{
    let mut out = text::chars_of("data:");
    text::push_str(&mut out, image_mime(bytes));
    text::push_str(&mut out, ";base64,");
    let b = base64_encode(bytes);
    text::push_str(&mut out, b.as_str());
    text::string_of(out.as_slice())
}

// ---------------------------------------------------------------------------
// Eviction order
// ---------------------------------------------------------------------------

/// Cached file `a` was written before file `b`: by modification time (seconds,
/// then nanoseconds), and by listing position when the times are equal.
pub open spec fn written_before(times: Seq<(i64, u32)>, a: int, b: int) -> bool {
    ||| times[a].0 < times[b].0
    ||| (times[a].0 == times[b].0 && times[a].1 < times[b].1)
    ||| (times[a].0 == times[b].0 && times[a].1 == times[b].1 && a < b)
}

/// `x` appears in `order`.
pub open spec fn listed(order: Seq<usize>, x: int) -> bool {
    exists|i: int| 0 <= i < order.len() && order[i] == x
}

/// `order` lists every position of `times` once, oldest first.
pub open spec fn oldest_first_order(times: Seq<(i64, u32)>, order: Seq<usize>) -> bool {
    &&& order.len() == times.len()
    &&& forall|i: int| 0 <= i < order.len() ==> #[trigger] order[i] < times.len()
    &&& forall|x: int| 0 <= x < times.len() ==> #[trigger] listed(order, x)
    &&& forall|i: int, j: int|
        0 <= i < j < order.len() ==> written_before(times, #[trigger] order[i] as int, #[trigger] order[j] as int)
}

fn is_written_before(times: &[(i64, u32)], a: usize, b: usize) -> (r: bool)
    requires
        a < times@.len(),
        b < times@.len(),
    ensures
        r == written_before(times@, a as int, b as int),
{
    let (sa, na) = times[a];
    let (sb, nb) = times[b];
    sa < sb || (sa == sb && na < nb) || (sa == sb && na == nb && a < b)
}

/// The order in which the cache removes files when it is over its budget: oldest
/// first, given each file's modification time.
pub fn oldest_first(times: &[(i64, u32)]) -> (order: Vec<usize>)
    ensures
        oldest_first_order(times@, order@),
{
    let mut order: Vec<usize> = Vec::new();
    let mut k: usize = 0;
    while k < times.len()
        invariant
            k <= times@.len(),
            order@.len() == k,
            forall|i: int| 0 <= i < order@.len() ==> #[trigger] order@[i] < k,
            forall|x: int| 0 <= x < k ==> #[trigger] listed(order@, x),
            forall|i: int, j: int|
                0 <= i < j < order@.len() ==> written_before(
                    times@,
                    #[trigger] order@[i] as int,
                    #[trigger] order@[j] as int,
                ),
        decreases times@.len() - k,
    {
        let mut pos: usize = 0;
        while pos < order.len() && is_written_before(times, order[pos], k)
            invariant
                k < times@.len(),
                pos <= order@.len(),
                forall|i: int| 0 <= i < order@.len() ==> #[trigger] order@[i] < k,
                forall|i: int| 0 <= i < pos ==> written_before(times@, #[trigger] order@[i] as int, k as int),
            decreases order@.len() - pos,
        {
            pos = pos + 1;
        }
        let ghost before = order@;
        proof {
            if pos < before.len() {
                assert(!written_before(times@, before[pos as int] as int, k as int));
                assert forall|i: int| pos <= i < before.len() implies written_before(
                    times@,
                    k as int,
                    #[trigger] before[i] as int,
                ) by {
                    if i > pos {
                        assert(written_before(times@, before[pos as int] as int, before[i] as int));
                    }
                }
            }
        }
        order.insert(pos, k);
        proof {
            assert forall|x: int| 0 <= x < k + 1 implies #[trigger] listed(order@, x) by {
                if x == k {
                    assert(order@[pos as int] == x);
                } else {
                    assert(listed(before, x));
                    let i0 = choose|i: int| 0 <= i < before.len() && before[i] == x;
                    if i0 < pos {
                        assert(order@[i0] == x);
                    } else {
                        assert(order@[i0 + 1] == x);
                    }
                }
            }
            assert forall|i: int| 0 <= i < order@.len() implies #[trigger] order@[i] < k + 1 by {
                if i < pos {
                    assert(order@[i] == before[i]);
                } else if i > pos {
                    assert(order@[i] == before[i - 1]);
                }
            }
            assert forall|i: int, j: int| 0 <= i < j < order@.len() implies written_before(
                times@,
                #[trigger] order@[i] as int,
                #[trigger] order@[j] as int,
            ) by {
                if j < pos {
                    assert(order@[i] == before[i] && order@[j] == before[j]);
                } else if j == pos {
                    assert(order@[i] == before[i]);
                } else if i < pos {
                    assert(order@[i] == before[i] && order@[j] == before[j - 1]);
                    assert(written_before(times@, before[i] as int, k as int));
                    assert(written_before(times@, k as int, before[j - 1] as int));
                } else if i == pos {
                    assert(order@[j] == before[j - 1]);
                } else {
                    assert(order@[i] == before[i - 1] && order@[j] == before[j - 1]);
                }
            }
        }
        k = k + 1;
    }
    order
}

// ---------------------------------------------------------------------------
// Reader pages from image bytes
// ---------------------------------------------------------------------------

/// Width and height of the image the bytes encode, or the decoder's message.
pub uninterp spec fn decoded_size(bytes: Seq<u8>) -> Result<(u32, u32), Seq<char>>;

/// `image::load_from_memory`, then the decoded image's `width()` and `height()`;
/// a failure is given as the error's message. The result depends on the bytes
/// alone; the decoders are not restated.
#[verifier::external_body]
fn decode_size(bytes: &[u8]) -> (r: Result<(u32, u32), String>)
    ensures
        match r {
            Ok(d) => decoded_size(bytes@) == Ok::<(u32, u32), Seq<char>>(d),
            Err(e) => decoded_size(bytes@) == Err::<(u32, u32), Seq<char>>(e@),
        },
{
    match image::load_from_memory(bytes) {
        Ok(img) => Ok((img.width(), img.height())),
        Err(e) => Err(e.to_string()),
    }
}

pub open spec fn data_url_of(bytes: Seq<u8>) -> Seq<char> {
    "data:"@ + image_mime_of(bytes) + ";base64,"@ + base64_standard(bytes)
}

/// The page the reader shows for rendered image bytes: the bytes as a data URL
/// and the decoded image's size; bytes that do not decode give the decoder's
/// message.
pub fn page_image_from_bytes(bytes: &[u8], page_index: i32, from_cache: bool) -> (r: Result<
    crate::models::PageImage,
    String,
>)
    ensures
        match decoded_size(bytes@) {
            Ok((w, h)) => r matches Ok(p) && p.data_url@ == data_url_of(bytes@) && p.width == w
                && p.height == h && p.page_index == page_index && p.from_cache == from_cache,
            Err(m) => r matches Err(e) && e@ == m,
        },
{
    match decode_size(bytes) {
        Ok((width, height)) => Ok(
            crate::models::PageImage {
                data_url: bytes_to_data_url(bytes),
                width,
                height,
                page_index,
                from_cache,
            },
        ),
        Err(e) => Err(e),
    }
}

/// Width and height in the image header the bytes start with, as `image` guesses
/// the format from the bytes.
pub uninterp spec fn header_size(bytes: Seq<u8>) -> Option<(u32, u32)>;

/// `image::ImageReader::new` over the bytes, `with_guessed_format`, then
/// `into_dimensions`; none when either step fails. The result depends on the
/// bytes alone; the header parsers are not restated.
#[verifier::external_body]
fn peek_image_size(bytes: &[u8]) -> (r: Option<(u32, u32)>)
    ensures
        r == header_size(bytes@),
{
    match image::ImageReader::new(std::io::Cursor::new(bytes)).with_guessed_format() {
        Ok(reader) => reader.into_dimensions().ok(),
        Err(_) => None,
    }
}

/// Size of a cached page rendering, as decoded; a file that does not decode gives
/// the decoder's message after "Image error: ".
pub fn cached_page_size(bytes: &[u8]) -> (r: Result<(u32, u32), String>)
    ensures
        match decoded_size(bytes@) {
            Ok(d) => r == Ok::<(u32, u32), String>(d),
            Err(m) => r matches Err(e) && e@ == "Image error: "@ + m,
        },
{
    match decode_size(bytes) {
        Ok(d) => Ok(d),
        Err(m) => {
            let mut out = text::chars_of("Image error: ");
            text::push_str(&mut out, m.as_str());
            Err(text::string_of(out.as_slice()))
        },
    }
}

/// Size of a cached segment, read from its header.
pub fn cached_segment_size(bytes: &[u8]) -> (r: Result<(u32, u32), String>)
    ensures
        match header_size(bytes@) {
            Some(d) => r == Ok::<(u32, u32), String>(d),
            None => r matches Err(e) && e@ == "Cached segment is unreadable"@,
        },
{
    match peek_image_size(bytes) {
        Some(d) => Ok(d),
        None => Err(text::string_of(text::chars_of("Cached segment is unreadable").as_slice())),
    }
}

} // verus!
