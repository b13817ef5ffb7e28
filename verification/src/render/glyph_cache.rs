use std::collections::HashMap;

use fontdue::Font;
use vstd::prelude::*;

verus! {

broadcast use vstd::std_specs::hash::group_hash_axioms;

#[verifier::external_type_specification]
#[verifier::external_body]
pub struct ExFont(Font);

/// A glyph that has been stored in the atlas.
#[derive(Clone, Copy, Debug, PartialEq, Eq, Structural)]
pub struct CachedGlyph {
    /// Horizontal pixel offset of the glyph in the atlas.
    pub atlas_x: u32,
    /// Vertical pixel offset of the glyph in the atlas.
    pub atlas_y: u32,
    /// Width of the glyph bitmap in pixels.
    pub width: u32,
    /// Height of the glyph bitmap in pixels.
    pub height: u32,
    /// Horizontal advance in pixels, as the bit pattern of an IEEE-754 single.
    pub advance_width_bits: u32,
    /// Horizontal offset of the bitmap in pixels.
    pub xmin: i32,
    /// Vertical offset of the bitmap from the baseline in pixels.
    pub ymin: i32,
}

/// The key under which a glyph of character `ch` at pixel size `px` is cached.
pub open spec fn glyph_key(ch: char, px: u32) -> u64 {
    ((ch as u32) as int * 0x1_0000_0000 + px as int) as u64
}

fn glyph_key_exec(ch: char, px: u32) -> (k: u64)
    ensures
        k == glyph_key(ch, px),
{
    let c: u32 = ch as u32;
    assert(c as int * 0x1_0000_0000 + px as int <= u64::MAX) by (nonlinear_arith)
        requires
            c <= u32::MAX,
            px <= u32::MAX,
    ;
    (c as u64) * 0x1_0000_0000 + (px as u64)
}

/// Whether a glyph covers any pixel.
pub open spec fn covers_pixels(g: CachedGlyph) -> bool {
    g.width > 0 && g.height > 0
}

/// Whether the pixel rectangles of two glyphs share no pixel.
pub open spec fn glyphs_disjoint(a: CachedGlyph, b: CachedGlyph) -> bool {
    ||| a.atlas_x + a.width <= b.atlas_x
    ||| b.atlas_x + b.width <= a.atlas_x
    ||| a.atlas_y + a.height <= b.atlas_y
    ||| b.atlas_y + b.height <= a.atlas_y
}

/// A glyph lies in a finished shelf above `cy`, or in the current shelf at `cy`,
/// left of `cx` and no taller than the shelf.
pub open spec fn on_shelf(g: CachedGlyph, cx: int, cy: int, rh: int) -> bool {
    ||| g.atlas_y + g.height <= cy
    ||| (g.atlas_y == cy && g.atlas_x + g.width <= cx && g.height <= rh)
}

/// Byte offset of pixel (`row`, `col`) of a glyph placed at (`x`, `y`) in an
/// RGBA atlas `size` pixels wide.
pub open spec fn pixel_offset(size: int, x: int, y: int, row: int, col: int) -> int {
    ((y + row) * size + x + col) * 4
}

/// `data` with one white pixel of coverage `alpha` written at byte offset `at`.
pub open spec fn write_pixel(data: Seq<u8>, at: int, alpha: u8) -> Seq<u8> {
    data.update(at, 255u8).update(at + 1, 255u8).update(at + 2, 255u8).update(at + 3, alpha)
}

/// Whether pixel `p` of the RGBA bytes `data` is blank or white: its three
/// colour bytes are equal and each 0 or 255, and it is fully transparent where
/// they are 0.
pub open spec fn pixel_ok(data: Seq<u8>, p: int) -> bool {
    &&& data[4 * p] == data[4 * p + 1]
    &&& data[4 * p] == data[4 * p + 2]
    &&& (data[4 * p] == 0 || data[4 * p] == 255)
    &&& (data[4 * p] == 0 ==> data[4 * p + 3] == 0)
}

/// Whether `data` is whole RGBA pixels, each blank or white.
pub open spec fn pixels_ok(data: Seq<u8>) -> bool {
    &&& data.len() % 4 == 0
    &&& forall|p: int| 0 <= p < data.len() / 4 ==> #[trigger] pixel_ok(data, p)
}

/// Writing a white pixel at pixel `k` keeps every pixel blank or white.
proof fn lemma_write_pixel_ok(data: Seq<u8>, k: int, alpha: u8)
    requires
        pixels_ok(data),
        0 <= k,
        4 * k + 3 < data.len(),
    ensures
        pixels_ok(write_pixel(data, 4 * k, alpha)),
{
    let d = write_pixel(data, 4 * k, alpha);
    assert(d.len() == data.len());
    assert forall|p: int| 0 <= p < d.len() / 4 implies #[trigger] pixel_ok(d, p) by {
        assert(pixel_ok(data, p));
    }
}

/// The atlas bytes after the pixels of a `w`-wide glyph bitmap placed at (`x`, `y`)
/// have been written in row-major order up to (but not including) pixel (`row`, `col`).
pub open spec fn painted(
    data: Seq<u8>,
    size: int,
    x: int,
    y: int,
    w: nat,
    bitmap: Seq<u8>,
    row: nat,
    col: nat,
) -> Seq<u8>
    decreases row, col,
{
    if col == 0 {
        if row == 0 {
            data
        } else {
            painted(data, size, x, y, w, bitmap, (row - 1) as nat, w)
        }
    } else {
        write_pixel(
            painted(data, size, x, y, w, bitmap, row, (col - 1) as nat),
            pixel_offset(size, x, y, row as int, col - 1),
            bitmap[row * w + col - 1],
        )
    }
}

/// The abstract state of a glyph atlas.
pub struct AtlasView {
    /// Side of the square atlas in pixels.
    pub size: u32,
    /// RGBA bytes of the atlas, row by row.
    pub data: Seq<u8>,
    /// Where the next glyph goes in the current shelf.
    pub cursor_x: u32,
    /// Top of the current shelf.
    pub cursor_y: u32,
    /// Height of the tallest glyph in the current shelf.
    pub row_height: u32,
    /// The cached glyphs, by `glyph_key`.
    pub glyphs: Map<u64, CachedGlyph>,
    /// Whether the atlas changed since the flag was last cleared.
    pub dirty: bool,
}

impl AtlasView {
    /// Whether a glyph `w` pixels wide starts a new shelf.
    pub open spec fn wraps(self, w: u32) -> bool {
        self.cursor_x + w > self.size
    }

    /// Column at which a glyph `w` pixels wide is placed.
    pub open spec fn place_x(self, w: u32) -> int {
        if self.wraps(w) {
            0
        } else {
            self.cursor_x as int
        }
    }

    /// Row at which a glyph `w` pixels wide is placed.
    pub open spec fn place_y(self, w: u32) -> int {
        if self.wraps(w) {
            self.cursor_y + self.row_height
        } else {
            self.cursor_y as int
        }
    }

    /// Height of the shelf that a glyph `w` pixels wide joins, before it joins.
    pub open spec fn shelf_height(self, w: u32) -> int {
        if self.wraps(w) {
            0
        } else {
            self.row_height as int
        }
    }

    /// Whether storing a new non-empty `w` x `h` bitmap of `bitmap_len` bytes
    /// stays within the integer ranges and within the atlas and bitmap buffers.
    pub open spec fn can_place(self, w: u32, h: u32, bitmap_len: nat) -> bool {
        &&& self.cursor_x + w <= u32::MAX
        &&& (self.wraps(w) ==> self.cursor_y + self.row_height <= u32::MAX)
        &&& self.place_y(w) + h <= u32::MAX
        &&& (self.place_y(w) + h <= self.size ==> {
            &&& w * h <= 0x1_0000_0000
            &&& w * h <= bitmap_len
            &&& (w > 0 && h > 0 ==> pixel_offset(
                self.size as int,
                self.place_x(w),
                self.place_y(w),
                h - 1,
                w - 1,
            ) + 3 < self.size * self.size * 4)
        })
    }

    /// Whether a request for `key` with a `w` x `h` bitmap of `bitmap_len` bytes
    /// can be served without an arithmetic overflow or an out-of-range index.
    pub open spec fn insert_ok(self, key: u64, w: u32, h: u32, bitmap_len: nat) -> bool {
        !self.glyphs.contains_key(key) && bitmap_len > 0 ==> self.can_place(w, h, bitmap_len)
    }

    /// The atlas and the answer after a request for `key`, given the rasterized
    /// bitmap (`w` x `h`, row-major coverage bytes) and metrics of the glyph.
    pub open spec fn after_insert(
        self,
        key: u64,
        w: u32,
        h: u32,
        bitmap: Seq<u8>,
        advance_width_bits: u32,
        xmin: i32,
        ymin: i32,
    ) -> (AtlasView, Option<CachedGlyph>) {
        if self.glyphs.contains_key(key) {
            (self, Some(self.glyphs[key]))
        } else if bitmap.len() == 0 {
            let g = CachedGlyph {
                atlas_x: 0,
                atlas_y: 0,
                width: 0,
                height: 0,
                advance_width_bits,
                xmin,
                ymin,
            };
            (AtlasView { glyphs: self.glyphs.insert(key, g), dirty: true, ..self }, Some(g))
        } else {
            let x = self.place_x(w);
            let y = self.place_y(w);
            let rh = self.shelf_height(w);
            if y + h > self.size {
                (
                    AtlasView {
                        cursor_x: x as u32,
                        cursor_y: y as u32,
                        row_height: rh as u32,
                        ..self
                    },
                    None,
                )
            } else {
                let g = CachedGlyph {
                    atlas_x: x as u32,
                    atlas_y: y as u32,
                    width: w,
                    height: h,
                    advance_width_bits,
                    xmin,
                    ymin,
                };
                (
                    AtlasView {
                        data: painted(self.data, self.size as int, x, y, w as nat, bitmap, h as nat, 0),
                        cursor_x: (x + w) as u32,
                        cursor_y: y as u32,
                        row_height: (if rh >= h { rh } else { h as int }) as u32,
                        glyphs: self.glyphs.insert(key, g),
                        dirty: true,
                        ..self
                    },
                    Some(g),
                )
            }
        }
    }

    /// Every glyph that covers pixels lies in the atlas's rows, in a shelf, and
    /// no two such glyphs overlap.
    pub open spec fn packed(self) -> bool {
        &&& forall|k: u64| #[trigger]
            self.glyphs.contains_key(k) && covers_pixels(self.glyphs[k]) ==> {
                &&& on_shelf(
                    self.glyphs[k],
                    self.cursor_x as int,
                    self.cursor_y as int,
                    self.row_height as int,
                )
                &&& self.glyphs[k].atlas_y + self.glyphs[k].height <= self.size
                &&& (self.glyphs[k].width <= self.size ==> self.glyphs[k].atlas_x
                    + self.glyphs[k].width <= self.size)
            }
        &&& forall|k1: u64, k2: u64|
            #![trigger self.glyphs[k1], self.glyphs[k2]]
            self.glyphs.contains_key(k1) && self.glyphs.contains_key(k2) && k1 != k2
                && covers_pixels(self.glyphs[k1]) && covers_pixels(self.glyphs[k2])
                ==> glyphs_disjoint(self.glyphs[k1], self.glyphs[k2])
    }
}

/// A square RGBA texture into which glyph bitmaps are packed shelf by shelf,
/// left to right and top to bottom, with the glyphs it holds.
pub struct GlyphAtlas {
    atlas_size: u32,
    atlas_data: Vec<u8>,
    cursor_x: u32,
    cursor_y: u32,
    row_height: u32,
    glyphs: HashMap<u64, CachedGlyph>,
    dirty: bool,
}

impl View for GlyphAtlas {
    type V = AtlasView;

    closed spec fn view(&self) -> AtlasView {
        AtlasView {
            size: self.atlas_size,
            data: self.atlas_data@,
            cursor_x: self.cursor_x,
            cursor_y: self.cursor_y,
            row_height: self.row_height,
            glyphs: self.glyphs@,
            dirty: self.dirty,
        }
    }
}

impl GlyphAtlas {
    /// The atlas holds `size * size` RGBA pixels, that byte count fits in a `u32`,
    /// each pixel is blank or white, and the glyphs are packed.
    pub open spec fn wf(&self) -> bool {
        &&& self@.size * self@.size * 4 <= u32::MAX
        &&& self@.data.len() == self@.size * self@.size * 4
        &&& pixels_ok(self@.data)
        &&& self@.packed()
    }

    /// The empty, fully transparent atlas of `atlas_size` x `atlas_size` pixels.
    pub open spec fn new_view(atlas_size: u32) -> AtlasView {
        AtlasView {
            size: atlas_size,
            data: Seq::new((atlas_size * atlas_size * 4) as nat, |i: int| 0u8),
            cursor_x: 0,
            cursor_y: 0,
            row_height: 0,
            glyphs: Map::empty(),
            dirty: false,
        }
    }

    /// An empty, fully transparent atlas of `atlas_size` x `atlas_size` pixels.
    pub fn new(atlas_size: u32) -> (r: Self)
        requires
            atlas_size * atlas_size * 4 <= u32::MAX,
        ensures
            r.wf(),
            r@ == Self::new_view(atlas_size),
    {
        let atlas_data = vec![0u8; (atlas_size * atlas_size * 4) as usize];
        let r = GlyphAtlas {
            atlas_size,
            atlas_data,
            cursor_x: 0,
            cursor_y: 0,
            row_height: 0,
            glyphs: HashMap::new(),
            dirty: false,
        };
        assert(r@.data =~= Seq::new((atlas_size * atlas_size * 4) as nat, |i: int| 0u8));
        proof {
            vstd::arithmetic::div_mod::lemma_mod_multiples_basic((atlas_size * atlas_size) as int, 4);
            assert forall|p: int| 0 <= p < r@.data.len() / 4 implies #[trigger] pixel_ok(r@.data, p) by {
            }
        }
        r
    }

    /// The cached glyph of `ch` at pixel size `px`, if any.
    pub fn lookup(&self, ch: char, px: u32) -> (r: Option<CachedGlyph>)
        ensures
            r == (if self@.glyphs.contains_key(glyph_key(ch, px)) {
                Some(self@.glyphs[glyph_key(ch, px)])
            } else {
                None
            }),
    {
        let key = glyph_key_exec(ch, px);
        match self.glyphs.get(&key) {
            Some(g) => Some(*g),
            None => None,
        }
    }

    /// Whether `insert_rasterized` may be called with these arguments.
    pub fn can_insert(&self, ch: char, px: u32, width: usize, height: usize, bitmap_len: usize) -> (r:
        bool)
        requires
            self.wf(),
        ensures
            r == self@.insert_ok(glyph_key(ch, px), width as u32, height as u32, bitmap_len as nat),
    {
        let key = glyph_key_exec(ch, px);
        if self.glyphs.contains_key(&key) || bitmap_len == 0 {
            return true;
        }
        let w = width as u32;
        let h = height as u32;
        let s = self.atlas_size as u64;
        if self.cursor_x as u64 + w as u64 > u32::MAX as u64 {
            return false;
        }
        let wraps = self.cursor_x as u64 + w as u64 > s;
        if wraps && self.cursor_y as u64 + self.row_height as u64 > u32::MAX as u64 {
            return false;
        }
        let x: u64 = if wraps { 0 } else { self.cursor_x as u64 };
        let y: u64 = if wraps { self.cursor_y as u64 + self.row_height as u64 } else { self.cursor_y as u64 };
        if y + h as u64 > u32::MAX as u64 {
            return false;
        }
        if y + h as u64 > s {
            return true;
        }
        assert(w as int * h as int <= u32::MAX as int * u32::MAX as int) by (nonlinear_arith)
            requires
                w <= u32::MAX,
                h <= u32::MAX,
        ;
        let area: u64 = w as u64 * h as u64;
        if area > 0x1_0000_0000 || area > bitmap_len as u64 {
            return false;
        }
        if w > 0 && h > 0 {
            assert((y + h - 1) * s <= s * s) by (nonlinear_arith)
                requires
                    y + h <= s,
                    h > 0,
            ;
            let last: u64 = ((y + h as u64 - 1) * s + x + w as u64 - 1) * 4 + 3;
            if last >= s * s * 4 {
                return false;
            }
        }
        true
    }

    /// Stores a freshly rasterized glyph of `ch` at pixel size `px`, unless one
    /// is already cached, and returns the cached glyph, or `None` when the atlas
    /// has no room left below the current shelf.
    ///
    /// `bitmap` holds `width` x `height` coverage bytes in row-major order; each
    /// becomes a white RGBA pixel with that alpha.
    pub fn insert_rasterized(
        &mut self,
        ch: char,
        px: u32,
        width: usize,
        height: usize,
        bitmap: &[u8],
        advance_width_bits: u32,
        xmin: i32,
        ymin: i32,
    ) -> (r: Option<CachedGlyph>)
        requires
            old(self).wf(),
            old(self)@.insert_ok(glyph_key(ch, px), width as u32, height as u32, bitmap@.len()),
        ensures
            final(self).wf(),
            (final(self)@, r) == old(self)@.after_insert(
                glyph_key(ch, px),
                width as u32,
                height as u32,
                bitmap@,
                advance_width_bits,
                xmin,
                ymin,
            ),
    {
        let key = glyph_key_exec(ch, px);
        match self.glyphs.get(&key) {
            Some(g) => {
                return Some(*g);
            },
            None => {},
        }
        let ghost old_view = self@;
        if bitmap.len() == 0 {
            let glyph = CachedGlyph {
                atlas_x: 0,
                atlas_y: 0,
                width: 0,
                height: 0,
                advance_width_bits,
                xmin,
                ymin,
            };
            self.glyphs.insert(key, glyph);
            self.dirty = true;
            assert(self@.glyphs == old_view.glyphs.insert(key, glyph));
            return Some(glyph);
        }
        let w = width as u32;
        let h = height as u32;

        if self.cursor_x + w > self.atlas_size {
            self.cursor_x = 0;
            self.cursor_y = self.cursor_y + self.row_height;
            self.row_height = 0;
        }
        proof {
            lemma_shelf_after_wrap(old_view, w);
        }
        assert(self@.glyphs == old_view.glyphs);
        assert(self@.packed());
        if self.cursor_y + h > self.atlas_size {
            return None;
        }

        let atlas_x = self.cursor_x;
        let atlas_y = self.cursor_y;
        let size = self.atlas_size;
        let ghost data0 = self.atlas_data@;
        let ghost placed = self@;

        let mut row: u32 = 0;
        while row < h
            invariant
                self.atlas_size == size,
                size * size * 4 <= u32::MAX,
                self.atlas_data@.len() == size * size * 4,
                atlas_y + h <= size,
                atlas_x + w <= u32::MAX,
                w * h <= 0x1_0000_0000,
                w * h <= bitmap@.len(),
                w > 0 && h > 0 ==> pixel_offset(size as int, atlas_x as int, atlas_y as int, h - 1, w - 1)
                    + 3 < size * size * 4,
                row <= h,
                pixels_ok(self.atlas_data@),
                self@ == (AtlasView { data: self.atlas_data@, ..placed }),
                placed.cursor_x == atlas_x,
                placed.cursor_y == atlas_y,
                self.atlas_data@ == painted(
                    data0,
                    size as int,
                    atlas_x as int,
                    atlas_y as int,
                    w as nat,
                    bitmap@,
                    row as nat,
                    0,
                ),
            decreases h - row,
        {
            let mut col: u32 = 0;
            while col < w
                invariant
                    self.atlas_size == size,
                    size * size * 4 <= u32::MAX,
                    self.atlas_data@.len() == size * size * 4,
                    atlas_y + h <= size,
                    atlas_x + w <= u32::MAX,
                    w * h <= 0x1_0000_0000,
                    w * h <= bitmap@.len(),
                    w > 0 && h > 0 ==> pixel_offset(size as int, atlas_x as int, atlas_y as int, h - 1, w - 1)
                        + 3 < size * size * 4,
                    row < h,
                    pixels_ok(self.atlas_data@),
                    self@ == (AtlasView { data: self.atlas_data@, ..placed }),
                    placed.cursor_x == atlas_x,
                    placed.cursor_y == atlas_y,
                    col <= w,
                    self.atlas_data@ == painted(
                        data0,
                        size as int,
                        atlas_x as int,
                        atlas_y as int,
                        w as nat,
                        bitmap@,
                        row as nat,
                        col as nat,
                    ),
                decreases w - col,
            {
                assert(row * w + col < w * h) by (nonlinear_arith)
                    requires
                        row < h,
                        col < w,
                ;
                assert(pixel_offset(size as int, atlas_x as int, atlas_y as int, row as int, col as int)
                    <= pixel_offset(size as int, atlas_x as int, atlas_y as int, h - 1, w - 1))
                    by (nonlinear_arith)
                    requires
                        row < h,
                        col < w,
                ;
                let src_idx = (row * w + col) as usize;
                let alpha = bitmap[src_idx];
                let dst_idx = ((atlas_y + row) as usize * size as usize + (atlas_x + col) as usize) * 4;
                let ghost prev = self.atlas_data@;
                self.atlas_data.set(dst_idx, 255);
                self.atlas_data.set(dst_idx + 1, 255);
                self.atlas_data.set(dst_idx + 2, 255);
                self.atlas_data.set(dst_idx + 3, alpha);
                proof {
                    let k = (atlas_y + row) * size + atlas_x + col;
                    lemma_write_pixel_ok(prev, k, alpha);
                    assert(self.atlas_data@ =~= write_pixel(prev, 4 * k, alpha));
                }
                col = col + 1;
            }
            row = row + 1;
        }

        let ghost mid = self@;
        self.cursor_x = self.cursor_x + w;
        if h > self.row_height {
            self.row_height = h;
        }
        let glyph = CachedGlyph {
            atlas_x,
            atlas_y,
            width: w,
            height: h,
            advance_width_bits,
            xmin,
            ymin,
        };
        self.glyphs.insert(key, glyph);
        self.dirty = true;
        proof {
            lemma_place_keeps_packing(mid, key, glyph, self@);
        }
        Some(glyph)
    }

    /// The RGBA bytes of the atlas and its width and height in pixels.
    pub fn atlas_texture_data(&self) -> (r: (&[u8], u32, u32))
        ensures
            r.0@ == self@.data,
            r.1 == self@.size,
            r.2 == self@.size,
    {
        (self.atlas_data.as_slice(), self.atlas_size, self.atlas_size)
    }

    /// Whether the atlas changed since `clear_dirty` was last called.
    pub fn is_dirty(&self) -> (r: bool)
        ensures
            r == self@.dirty,
    {
        self.dirty
    }

    /// Clears the change flag.
    pub fn clear_dirty(&mut self)
        requires
            old(self).wf(),
        ensures
            final(self).wf(),
            final(self)@ == (AtlasView { dirty: false, ..old(self)@ }),
    {
        self.dirty = false;
    }
}

/// What `fontdue::Font::from_bytes`, with the default settings, makes of `data`:
/// `Ok(())` when it parses a font, else the text of its error.
pub uninterp spec fn font_from_bytes_outcome(data: Seq<u8>) -> Result<(), Seq<char>>;

/// Calls `fontdue::Font::from_bytes` with `FontSettings::default()`. Trusted: its
/// success and its error text are those that `font_from_bytes_outcome` names for
/// the same bytes; nothing is said of the font it returns.
#[verifier::external_body]
fn parse_font(data: &[u8]) -> (r: Result<Font, &'static str>)
    ensures
        match r {
            Ok(_) => font_from_bytes_outcome(data@) is Ok,
            Err(e) => font_from_bytes_outcome(data@) == Err::<(), Seq<char>>(e@),
        },
{
    Font::from_bytes(data, fontdue::FontSettings::default())
}

/// The text that precedes a font loader's error in the error of `GlyphCache::new`.
pub open spec fn font_error_prefix() -> Seq<char> {
    "加载字体失败: "@
}

/// An `n` x `n` RGBA atlas fits in `u32` bytes exactly when `n` is below 2^15.
proof fn lemma_atlas_bytes_fit(n: u32)
    ensures
        n * n * 4 <= u32::MAX <==> n < 0x8000,
{
    if n < 0x8000 {
        assert(n * n <= 0x7FFF * 0x7FFF) by (nonlinear_arith)
            requires
                n <= 0x7FFF,
        ;
    } else {
        assert(n * n >= 0x8000 * 0x8000) by (nonlinear_arith)
            requires
                n >= 0x8000,
        ;
    }
}

/// A font together with the atlas of the glyphs rasterized from it.
pub struct GlyphCache {
    font: Font,
    atlas: GlyphAtlas,
}

impl GlyphCache {
    /// The glyph atlas of the cache.
    pub closed spec fn atlas_spec(&self) -> GlyphAtlas {
        self.atlas
    }

    /// The font of the cache, which no operation of the cache replaces.
    pub closed spec fn font_spec(&self) -> Font {
        self.font
    }

    /// The atlas of the cache is well formed.
    pub open spec fn wf(&self) -> bool {
        self.atlas_spec().wf()
    }

    /// What `new(font_data, atlas_size)` returns: on bytes that are a font, a
    /// cache holding an empty `atlas_size` x `atlas_size` atlas; on other bytes,
    /// the loader's message after `font_error_prefix`.
    pub open spec fn new_outcome(font_data: Seq<u8>, atlas_size: u32, r: Result<Self, String>) -> bool {
        match r {
            Ok(c) => {
                &&& font_from_bytes_outcome(font_data) is Ok
                &&& c.wf()
                &&& c.atlas_spec()@ == GlyphAtlas::new_view(atlas_size)
            },
            Err(e) => {
                &&& font_from_bytes_outcome(font_data) is Err
                &&& e@ == font_error_prefix() + font_from_bytes_outcome(font_data)->Err_0
            },
        }
    }

    /// Loads the font in `font_data` and sets up an empty `atlas_size` x
    /// `atlas_size` atlas; fails with the loader's message when the bytes are no
    /// font. The atlas is only made, and its byte count only computed, once the
    /// font has loaded.
    pub fn new(font_data: &[u8], atlas_size: u32) -> (r: Result<Self, String>)
        requires
            font_from_bytes_outcome(font_data@) is Ok ==> atlas_size * atlas_size * 4 <= u32::MAX,
        ensures
            Self::new_outcome(font_data@, atlas_size, r),
    {
        let font = match parse_font(font_data) {
            Ok(f) => f,
            Err(e) => {
                let mut msg = "加载字体失败: ".to_owned();
                proof {
                    reveal_strlit("加载字体失败: ");
                }
                msg.append(e);
                return Err(msg);
            },
        };
        let atlas = GlyphAtlas::new(atlas_size);
        Ok(GlyphCache { font, atlas })
    }

    /// `new`, guarded by its size test: gives `None`, making no cache, exactly
    /// when the bytes are a font and the `atlas_size` x `atlas_size` RGBA bytes
    /// would not fit in `u32`; else `Some` of what `new` gives.
    pub fn new_checked(font_data: &[u8], atlas_size: u32) -> (r: Option<Result<Self, String>>)
        ensures
            r is None <==> (font_from_bytes_outcome(font_data@) is Ok && atlas_size * atlas_size * 4
                > u32::MAX),
            r matches Some(res) ==> Self::new_outcome(font_data@, atlas_size, res),
    {
        proof {
            lemma_atlas_bytes_fit(atlas_size);
        }
        if atlas_size < 0x8000 {
            Some(Self::new(font_data, atlas_size))
        } else {
            match parse_font(font_data) {
                Ok(_) => None,
                Err(_) => Some(Self::new(font_data, atlas_size)),
            }
        }
    }

    /// The font the glyphs are rasterized from.
    pub fn font(&self) -> (r: &Font)
        ensures
            *r == self.font_spec(),
    {
        &self.font
    }

    /// The glyph atlas.
    pub fn atlas(&self) -> (r: &GlyphAtlas)
        ensures
            *r == self.atlas_spec(),
    {
        &self.atlas
    }

    /// The cached glyph of `ch` at pixel size `px`, if any.
    pub fn lookup(&self, ch: char, px: u32) -> (r: Option<CachedGlyph>)
        ensures
            r == (if self.atlas_spec()@.glyphs.contains_key(glyph_key(ch, px)) {
                Some(self.atlas_spec()@.glyphs[glyph_key(ch, px)])
            } else {
                None
            }),
    {
        self.atlas.lookup(ch, px)
    }

    /// Whether `insert_rasterized` may be called with these arguments.
    pub fn can_insert(&self, ch: char, px: u32, width: usize, height: usize, bitmap_len: usize) -> (r:
        bool)
        requires
            self.wf(),
        ensures
            r == self.atlas_spec()@.insert_ok(
                glyph_key(ch, px),
                width as u32,
                height as u32,
                bitmap_len as nat,
            ),
    {
        self.atlas.can_insert(ch, px, width, height, bitmap_len)
    }

    /// Stores the rasterized glyph of `ch` at pixel size `px` (see
    /// `GlyphAtlas::insert_rasterized`).
    pub fn insert_rasterized(
        &mut self,
        ch: char,
        px: u32,
        width: usize,
        height: usize,
        bitmap: &[u8],
        advance_width_bits: u32,
        xmin: i32,
        ymin: i32,
    ) -> (r: Option<CachedGlyph>)
        requires
            old(self).wf(),
            old(self).atlas_spec()@.insert_ok(
                glyph_key(ch, px),
                width as u32,
                height as u32,
                bitmap@.len(),
            ),
        ensures
            final(self).wf(),
            final(self).font_spec() == old(self).font_spec(),
            (final(self).atlas_spec()@, r) == old(self).atlas_spec()@.after_insert(
                glyph_key(ch, px),
                width as u32,
                height as u32,
                bitmap@,
                advance_width_bits,
                xmin,
                ymin,
            ),
    {
        self.atlas.insert_rasterized(ch, px, width, height, bitmap, advance_width_bits, xmin, ymin)
    }

    /// The RGBA bytes of the atlas and its width and height in pixels.
    pub fn atlas_texture_data(&self) -> (r: (&[u8], u32, u32))
        ensures
            r.0@ == self.atlas_spec()@.data,
            r.1 == self.atlas_spec()@.size,
            r.2 == self.atlas_spec()@.size,
    {
        self.atlas.atlas_texture_data()
    }

    /// Whether the atlas changed since `clear_dirty` was last called.
    pub fn is_dirty(&self) -> (r: bool)
        ensures
            r == self.atlas_spec()@.dirty,
    {
        self.atlas.is_dirty()
    }

    /// Clears the change flag.
    pub fn clear_dirty(&mut self)
        requires
            old(self).wf(),
        ensures
            final(self).wf(),
            final(self).font_spec() == old(self).font_spec(),
            final(self).atlas_spec()@ == (AtlasView { dirty: false, ..old(self).atlas_spec()@ }),
    {
        self.atlas.clear_dirty()
    }
}

/// No two cached glyphs that cover pixels overlap, and each lies within the
/// rows of the atlas (and within its columns when it is no wider than the atlas).
pub proof fn lemma_cached_glyphs_disjoint(atlas: GlyphAtlas, k1: u64, k2: u64)
    requires
        atlas.wf(),
        atlas@.glyphs.contains_key(k1),
        atlas@.glyphs.contains_key(k2),
        covers_pixels(atlas@.glyphs[k1]),
        covers_pixels(atlas@.glyphs[k2]),
    ensures
        k1 != k2 ==> glyphs_disjoint(atlas@.glyphs[k1], atlas@.glyphs[k2]),
        atlas@.glyphs[k1].atlas_y + atlas@.glyphs[k1].height <= atlas@.size,
        atlas@.glyphs[k1].width <= atlas@.size ==> atlas@.glyphs[k1].atlas_x
            + atlas@.glyphs[k1].width <= atlas@.size,
{
}

/// A second request for a cached glyph returns that glyph and leaves the atlas as
/// it was, whatever bitmap comes with the request.
pub proof fn lemma_cache_hit_is_stable(
    v: AtlasView,
    key: u64,
    w: u32,
    h: u32,
    bitmap: Seq<u8>,
    advance_width_bits: u32,
    xmin: i32,
    ymin: i32,
)
    requires
        v.glyphs.contains_key(key),
    ensures
        v.after_insert(key, w, h, bitmap, advance_width_bits, xmin, ymin) == (v, Some(v.glyphs[key])),
{
}

/// After a request, the glyph returned (if any) is the one cached under the key,
/// and glyphs cached under other keys are unchanged.
pub proof fn lemma_insert_then_lookup(
    v: AtlasView,
    key: u64,
    w: u32,
    h: u32,
    bitmap: Seq<u8>,
    advance_width_bits: u32,
    xmin: i32,
    ymin: i32,
    other: u64,
)
    requires
        other != key,
    ensures
        ({
            let (post, r) = v.after_insert(key, w, h, bitmap, advance_width_bits, xmin, ymin);
            &&& (r matches Some(g) ==> post.glyphs.contains_key(key) && post.glyphs[key] == g)
            &&& (r is None ==> !post.glyphs.contains_key(key))
            &&& post.glyphs.contains_key(other) == v.glyphs.contains_key(other)
            &&& (v.glyphs.contains_key(other) ==> post.glyphs[other] == v.glyphs[other])
        }),
{
}

/// Once a request for `key` has returned a glyph, a later request for the same
/// key returns that same glyph and leaves the atlas as it was, whatever bitmap
/// and metrics come with it.
pub proof fn lemma_repeat_request_returns_cached(
    v: AtlasView,
    key: u64,
    w: u32,
    h: u32,
    bitmap: Seq<u8>,
    advance_width_bits: u32,
    xmin: i32,
    ymin: i32,
    w2: u32,
    h2: u32,
    bitmap2: Seq<u8>,
    advance_width_bits2: u32,
    xmin2: i32,
    ymin2: i32,
)
    ensures
        ({
            let (v1, r1) = v.after_insert(key, w, h, bitmap, advance_width_bits, xmin, ymin);
            r1 matches Some(g) ==> v1.after_insert(
                key,
                w2,
                h2,
                bitmap2,
                advance_width_bits2,
                xmin2,
                ymin2,
            ) == (v1, Some(g))
        }),
{
    let (v1, r1) = v.after_insert(key, w, h, bitmap, advance_width_bits, xmin, ymin);
    if r1 is Some {
        assert(v1.glyphs.contains_key(key) && Some(v1.glyphs[key]) == r1);
        lemma_cache_hit_is_stable(v1, key, w2, h2, bitmap2, advance_width_bits2, xmin2, ymin2);
    }
}

/// A glyph newly cached in a packed atlas, when its bitmap is no wider than the
/// atlas, lies within the atlas and shares no pixel with any glyph cached before.
pub proof fn lemma_new_glyph_fits_apart(
    v: AtlasView,
    key: u64,
    w: u32,
    h: u32,
    bitmap: Seq<u8>,
    advance_width_bits: u32,
    xmin: i32,
    ymin: i32,
)
    requires
        v.packed(),
        !v.glyphs.contains_key(key),
        w <= v.size,
    ensures
        ({
            let (post, r) = v.after_insert(key, w, h, bitmap, advance_width_bits, xmin, ymin);
            r matches Some(g) ==> {
                &&& g.atlas_x + g.width <= v.size
                &&& g.atlas_y + g.height <= v.size
                &&& forall|k: u64|
                    #[trigger] v.glyphs.contains_key(k) && covers_pixels(v.glyphs[k]) ==> glyphs_disjoint(
                        g,
                        v.glyphs[k],
                    )
            }
        }),
{
    lemma_shelf_after_wrap(v, w);
}

/// Where a request for a key not cached yet, with a non-empty `w` x `h` bitmap
/// that the atlas can take, puts the glyph. When the glyph does not fit right
/// of the cursor it starts a new shelf at the left edge, just below the current
/// shelf, and the new shelf is as tall as the glyph; otherwise it goes at the
/// cursor, and the shelf grows to the glyph's height if that is taller. The
/// cursor moves right of the glyph; when the new shelf runs past the bottom of
/// the atlas the request gives `None` and caches nothing.
pub proof fn lemma_request_placement(
    v: AtlasView,
    key: u64,
    w: u32,
    h: u32,
    bitmap: Seq<u8>,
    advance_width_bits: u32,
    xmin: i32,
    ymin: i32,
)
    requires
        !v.glyphs.contains_key(key),
        bitmap.len() > 0,
        v.can_place(w, h, bitmap.len()),
    ensures
        ({
            let (post, r) = v.after_insert(key, w, h, bitmap, advance_width_bits, xmin, ymin);
            let wrapped = v.cursor_x + w > v.size;
            let top = if wrapped {
                v.cursor_y + v.row_height
            } else {
                v.cursor_y as int
            };
            let left = if wrapped {
                0
            } else {
                v.cursor_x as int
            };
            let shelf = if wrapped {
                0
            } else {
                v.row_height as int
            };
            &&& post.cursor_y == top
            &&& (top + h > v.size ==> {
                &&& r is None
                &&& post.glyphs == v.glyphs
                &&& post.cursor_x == left
                &&& post.row_height == shelf
                &&& post.data == v.data
                &&& post.dirty == v.dirty
            })
            &&& (top + h <= v.size ==> {
                &&& r == Some(
                    CachedGlyph {
                        atlas_x: left as u32,
                        atlas_y: top as u32,
                        width: w,
                        height: h,
                        advance_width_bits,
                        xmin,
                        ymin,
                    },
                )
                &&& post.glyphs == v.glyphs.insert(key, r->Some_0)
                &&& post.cursor_x == left + w
                &&& post.row_height == (if shelf >= h {
                    shelf
                } else {
                    h as int
                })
                &&& post.dirty
            })
        }),
{
}

/// Whether the current shelf is exactly as tall as the tallest glyph on it: its
/// height is 0, or that of a glyph whose top is the shelf's top.
pub open spec fn shelf_tight(v: AtlasView) -> bool {
    v.row_height == 0 || exists|k: u64|
        #[trigger] v.glyphs.contains_key(k) && v.glyphs[k].atlas_y == v.cursor_y
            && v.glyphs[k].height == v.row_height
}

/// An empty atlas has a tight shelf, and every request that the atlas can serve
/// keeps the shelf tight: no shelf is ever taller than the glyphs placed on it,
/// so each new shelf starts right below the tallest glyph of the one before.
pub proof fn lemma_shelf_stays_tight(
    v: AtlasView,
    key: u64,
    w: u32,
    h: u32,
    bitmap: Seq<u8>,
    advance_width_bits: u32,
    xmin: i32,
    ymin: i32,
)
    requires
        shelf_tight(v),
        v.insert_ok(key, w, h, bitmap.len()),
    ensures
        shelf_tight(GlyphAtlas::new_view(v.size)),
        shelf_tight(v.after_insert(key, w, h, bitmap, advance_width_bits, xmin, ymin).0),
{
    let (post, r) = v.after_insert(key, w, h, bitmap, advance_width_bits, xmin, ymin);
    if !v.glyphs.contains_key(key) && bitmap.len() == 0 {
        if v.row_height != 0 {
            let k = choose|k: u64|
                #[trigger] v.glyphs.contains_key(k) && v.glyphs[k].atlas_y == v.cursor_y
                    && v.glyphs[k].height == v.row_height;
            assert(k != key);
            assert(post.glyphs.contains_key(k) && post.glyphs[k] == v.glyphs[k]);
        }
    } else if !v.glyphs.contains_key(key) {
        let wrapped = v.cursor_x + w > v.size;
        if post.row_height != 0 {
            if r is Some && post.row_height == h {
                assert(post.glyphs.contains_key(key));
            } else {
                assert(!wrapped);
                let k = choose|k: u64|
                    #[trigger] v.glyphs.contains_key(k) && v.glyphs[k].atlas_y == v.cursor_y
                        && v.glyphs[k].height == v.row_height;
                assert(k != key);
                assert(post.glyphs.contains_key(k) && post.glyphs[k] == v.glyphs[k]);
            }
        }
    }
}

/// The atlas after the glyph requests `reqs`, in order; each request is a key,
/// the width and height of the rasterized bitmap, its bytes, and the glyph's
/// advance-width bits and offsets, as `insert_rasterized` takes them.
pub open spec fn after_requests(v: AtlasView, reqs: Seq<(u64, u32, u32, Seq<u8>, u32, i32, i32)>) -> AtlasView
    decreases reqs.len(),
{
    if reqs.len() == 0 {
        v
    } else {
        let (key, w, h, bitmap, adv, xmin, ymin) = reqs.last();
        after_requests(v, reqs.drop_last()).after_insert(key, w, h, bitmap, adv, xmin, ymin).0
    }
}

/// Whether `post` caches a glyph under a key that `pre` does not.
pub open spec fn has_new_glyph(pre: AtlasView, post: AtlasView) -> bool {
    exists|k: u64| post.glyphs.contains_key(k) && !pre.glyphs.contains_key(k)
}

/// Over any run of glyph requests, no cached glyph is dropped or changed, and
/// the change flag ends set exactly when it was set before the run or some
/// request cached a glyph under a new key (cache hits and requests refused for
/// a full atlas do not set it).
pub proof fn lemma_dirty_tracks_new_glyphs(
    v: AtlasView,
    reqs: Seq<(u64, u32, u32, Seq<u8>, u32, i32, i32)>,
)
    ensures
        forall|k: u64| #[trigger]
            v.glyphs.contains_key(k) ==> after_requests(v, reqs).glyphs.contains_key(k)
                && after_requests(v, reqs).glyphs[k] == v.glyphs[k],
        after_requests(v, reqs).dirty == (v.dirty || has_new_glyph(v, after_requests(v, reqs))),
    decreases reqs.len(),
{
    if reqs.len() > 0 {
        let mid = after_requests(v, reqs.drop_last());
        let post = after_requests(v, reqs);
        let (key, w, h, bitmap, adv, xmin, ymin) = reqs.last();
        lemma_dirty_tracks_new_glyphs(v, reqs.drop_last());
        assert(post == mid.after_insert(key, w, h, bitmap, adv, xmin, ymin).0);
        assert forall|k: u64| #[trigger] mid.glyphs.contains_key(k) implies post.glyphs.contains_key(k)
            && post.glyphs[k] == mid.glyphs[k] by {
            if k != key {
                lemma_insert_then_lookup(mid, key, w, h, bitmap, adv, xmin, ymin, k);
            }
        }
        if has_new_glyph(v, mid) {
            let k = choose|k: u64| mid.glyphs.contains_key(k) && !v.glyphs.contains_key(k);
            assert(post.glyphs.contains_key(k));
        }
        if has_new_glyph(v, post) {
            let k = choose|k: u64| post.glyphs.contains_key(k) && !v.glyphs.contains_key(k);
            if !mid.glyphs.contains_key(k) {
                assert(has_new_glyph(mid, post));
            } else {
                assert(has_new_glyph(v, mid));
            }
        }
        if has_new_glyph(mid, post) {
            let k = choose|k: u64| post.glyphs.contains_key(k) && !mid.glyphs.contains_key(k);
            assert(!v.glyphs.contains_key(k));
            assert(has_new_glyph(v, post));
        }
        assert(post.dirty == (mid.dirty || has_new_glyph(mid, post))) by {
            if !mid.glyphs.contains_key(key) && post.glyphs.contains_key(key) {
                assert(has_new_glyph(mid, post));
            }
            if has_new_glyph(mid, post) {
                let k = choose|k: u64| post.glyphs.contains_key(k) && !mid.glyphs.contains_key(k);
                if k != key {
                    lemma_insert_then_lookup(mid, key, w, h, bitmap, adv, xmin, ymin, k);
                }
            }
        }
    }
}

/// Whether byte `idx` of an atlas `size` pixels wide belongs to a pixel of the
/// `w` x `h` rectangle whose top-left pixel is (`x`, `y`).
pub open spec fn in_glyph_rect(size: int, x: int, y: int, w: int, h: int, idx: int) -> bool {
    &&& idx >= 0
    &&& y <= (idx / 4) / size < y + h
    &&& x <= (idx / 4) % size < x + w
}

/// The byte that writing a `w`-wide bitmap at (`x`, `y`) puts at `idx`, where
/// `idx` lies in the rectangle: white for the colour bytes, the coverage of the
/// matching bitmap pixel for the alpha byte.
pub open spec fn glyph_byte(size: int, x: int, y: int, w: int, bitmap: Seq<u8>, idx: int) -> u8 {
    let q = idx / 4;
    if idx % 4 < 3 {
        255u8
    } else {
        bitmap[(q / size - y) * w + (q % size - x)]
    }
}

spec fn before_cursor(size: int, x: int, y: int, w: int, row: int, col: int, idx: int) -> bool {
    let q = idx / 4;
    let r = q / size - y;
    let c = q % size - x;
    &&& idx >= 0
    &&& 0 <= c < w
    &&& 0 <= r
    &&& (r < row || (r == row && c < col))
}

spec fn written_end(size: int, x: int, y: int, w: int, row: int, col: int) -> int {
    if col > 0 {
        pixel_offset(size, x, y, row, col - 1) + 4
    } else if row > 0 {
        pixel_offset(size, x, y, row - 1, w - 1) + 4
    } else {
        0
    }
}

proof fn lemma_pixel_position(size: int, x: int, y: int, r: int, c: int, k: int)
    requires
        size > 0,
        0 <= x + c < size,
        0 <= y + r,
        0 <= k < 4,
    ensures
        (pixel_offset(size, x, y, r, c) + k) / 4 == (y + r) * size + x + c,
        (pixel_offset(size, x, y, r, c) + k) % 4 == k,
        ((y + r) * size + x + c) / size == y + r,
        ((y + r) * size + x + c) % size == x + c,
{
    vstd::arithmetic::div_mod::lemma_fundamental_div_mod_converse(
        pixel_offset(size, x, y, r, c) + k,
        4,
        (y + r) * size + x + c,
        k,
    );
    vstd::arithmetic::div_mod::lemma_fundamental_div_mod_converse(
        (y + r) * size + x + c,
        size,
        y + r,
        x + c,
    );
}

proof fn lemma_painted_prefix(
    data: Seq<u8>,
    size: int,
    x: int,
    y: int,
    w: nat,
    bitmap: Seq<u8>,
    row: nat,
    col: nat,
)
    requires
        0 <= x,
        0 <= y,
        w > 0,
        x + w <= size,
        col <= w,
        written_end(size, x, y, w as int, row as int, col as int) <= data.len(),
    ensures
        painted(data, size, x, y, w, bitmap, row, col).len() == data.len(),
        forall|idx: int|
            0 <= idx < data.len() ==> #[trigger] painted(data, size, x, y, w, bitmap, row, col)[idx]
                == if before_cursor(size, x, y, w as int, row as int, col as int, idx) {
                glyph_byte(size, x, y, w as int, bitmap, idx)
            } else {
                data[idx]
            },
    decreases row, col,
{
    let p = painted(data, size, x, y, w, bitmap, row, col);
    if col == 0 {
        if row > 0 {
            lemma_painted_prefix(data, size, x, y, w, bitmap, (row - 1) as nat, w);
        }
    } else {
        let o = pixel_offset(size, x, y, row as int, col - 1);
        assert(written_end(size, x, y, w as int, row as int, col - 1) <= o) by (nonlinear_arith)
            requires
                col >= 1,
                o == ((y + row) * size + x + col - 1) * 4,
                written_end(size, x, y, w as int, row as int, col - 1) == if col - 1 > 0 {
                    ((y + row) * size + x + col - 2) * 4 + 4
                } else if row > 0 {
                    ((y + row - 1) * size + x + w - 1) * 4 + 4
                } else {
                    0
                },
                x + w <= size,
                0 <= x,
                0 <= y,
        ;
        lemma_painted_prefix(data, size, x, y, w, bitmap, row, (col - 1) as nat);
        assert forall|idx: int| 0 <= idx < data.len() implies #[trigger] p[idx] == if before_cursor(
            size,
            x,
            y,
            w as int,
            row as int,
            col as int,
            idx,
        ) {
            glyph_byte(size, x, y, w as int, bitmap, idx)
        } else {
            data[idx]
        } by {
            let q = idx / 4;
            if o <= idx < o + 4 {
                lemma_pixel_position(size, x, y, row as int, col - 1, idx - o);
            } else {
                vstd::arithmetic::div_mod::lemma_fundamental_div_mod(q, size);
                vstd::arithmetic::div_mod::lemma_fundamental_div_mod(idx, 4);
                if before_cursor(size, x, y, w as int, row as int, col as int, idx) && !before_cursor(
                    size,
                    x,
                    y,
                    w as int,
                    row as int,
                    col - 1,
                    idx,
                ) {
                    assert(q == (y + row) * size + x + col - 1) by (nonlinear_arith)
                        requires
                            q == size * (q / size) + q % size,
                            q / size - y == row,
                            q % size - x == col - 1,
                    ;
                    assert(o <= idx < o + 4) by (nonlinear_arith)
                        requires
                            idx == 4 * q + idx % 4,
                            0 <= idx % 4 < 4,
                            o == q * 4,
                    ;
                }
            }
        }
    }
}

/// Writing a glyph bitmap whose rectangle lies within the atlas's columns sets
/// exactly the bytes of that rectangle: each pixel becomes white with the
/// coverage of the matching bitmap pixel as alpha; every other byte keeps its
/// value.
pub proof fn lemma_painted_glyph(
    data: Seq<u8>,
    size: int,
    x: int,
    y: int,
    w: nat,
    h: nat,
    bitmap: Seq<u8>,
)
    requires
        0 <= x,
        0 <= y,
        x + w <= size,
        w > 0 && h > 0 ==> pixel_offset(size, x, y, h - 1, w - 1) + 3 < data.len(),
    ensures
        painted(data, size, x, y, w, bitmap, h, 0).len() == data.len(),
        forall|idx: int|
            0 <= idx < data.len() ==> #[trigger] painted(data, size, x, y, w, bitmap, h, 0)[idx] == if in_glyph_rect(
                size,
                x,
                y,
                w as int,
                h as int,
                idx,
            ) {
                glyph_byte(size, x, y, w as int, bitmap, idx)
            } else {
                data[idx]
            },
    decreases h,
{
    if w == 0 {
        if h > 0 {
            lemma_painted_glyph(data, size, x, y, w, (h - 1) as nat, bitmap);
            assert(painted(data, size, x, y, w, bitmap, h, 0) == painted(
                data,
                size,
                x,
                y,
                w,
                bitmap,
                (h - 1) as nat,
                0,
            ));
        }
    } else {
        lemma_painted_prefix(data, size, x, y, w, bitmap, h, 0);
    }
}

/// Starting a new shelf moves every glyph of the current shelf into the finished
/// ones, so the packing holds for the cursor at which the next glyph goes.
proof fn lemma_shelf_after_wrap(v: AtlasView, w: u32)
    requires
        v.packed(),
    ensures
        forall|k: u64| #[trigger]
            v.glyphs.contains_key(k) && covers_pixels(v.glyphs[k]) ==> on_shelf(
                v.glyphs[k],
                v.place_x(w),
                v.place_y(w),
                v.shelf_height(w),
            ),
{
}

/// Placing `g` at the cursor of the shelf keeps the packing.
proof fn lemma_place_keeps_packing(mid: AtlasView, key: u64, g: CachedGlyph, post: AtlasView)
    requires
        !mid.glyphs.contains_key(key),
        forall|k: u64| #[trigger]
            mid.glyphs.contains_key(k) && covers_pixels(mid.glyphs[k]) ==> {
                &&& on_shelf(mid.glyphs[k], g.atlas_x as int, g.atlas_y as int, mid.row_height as int)
                &&& mid.glyphs[k].atlas_y + mid.glyphs[k].height <= mid.size
                &&& (mid.glyphs[k].width <= mid.size ==> mid.glyphs[k].atlas_x
                    + mid.glyphs[k].width <= mid.size)
            },
        forall|k1: u64, k2: u64|
            #![trigger mid.glyphs[k1], mid.glyphs[k2]]
            mid.glyphs.contains_key(k1) && mid.glyphs.contains_key(k2) && k1 != k2 && covers_pixels(
                mid.glyphs[k1],
            ) && covers_pixels(mid.glyphs[k2]) ==> glyphs_disjoint(mid.glyphs[k1], mid.glyphs[k2]),
        g.atlas_y + g.height <= mid.size,
        g.width <= mid.size ==> g.atlas_x + g.width <= mid.size,
        post.glyphs == mid.glyphs.insert(key, g),
        post.size == mid.size,
        post.cursor_x == g.atlas_x + g.width,
        post.cursor_y == g.atlas_y,
        post.row_height == (if mid.row_height >= g.height { mid.row_height } else { g.height }),
    ensures
        post.packed(),
{
    assert forall|k: u64| #[trigger]
        post.glyphs.contains_key(k) && covers_pixels(post.glyphs[k]) implies {
        &&& on_shelf(
            post.glyphs[k],
            post.cursor_x as int,
            post.cursor_y as int,
            post.row_height as int,
        )
        &&& post.glyphs[k].atlas_y + post.glyphs[k].height <= post.size
        &&& (post.glyphs[k].width <= post.size ==> post.glyphs[k].atlas_x + post.glyphs[k].width
            <= post.size)
    } by {
        if k != key {
            assert(mid.glyphs.contains_key(k));
        }
    }
    assert forall|k1: u64, k2: u64|
        #![trigger post.glyphs[k1], post.glyphs[k2]]
        post.glyphs.contains_key(k1) && post.glyphs.contains_key(k2) && k1 != k2 && covers_pixels(
            post.glyphs[k1],
        ) && covers_pixels(post.glyphs[k2]) implies glyphs_disjoint(
        post.glyphs[k1],
        post.glyphs[k2],
    ) by {
        if k1 == key {
            assert(mid.glyphs.contains_key(k2));
        } else if k2 == key {
            assert(mid.glyphs.contains_key(k1));
        } else {
            assert(mid.glyphs[k1] == post.glyphs[k1]);
            assert(mid.glyphs[k2] == post.glyphs[k2]);
        }
    }
}

} // verus!
