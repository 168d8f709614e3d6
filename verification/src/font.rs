//! Integer model of a rasterized font.
//!
//! The layout engine never talks to a font library directly: the caller
//! rasterizes the font once, at every candidate size, into the plain-data
//! tables below (advance widths, vertical metrics, bounding boxes and
//! per-pixel coverage masks).  All metrics are whole pixels; a coverage
//! value `c` stands for the intensity `c / 255`.

use vstd::prelude::*;

verus! {

/// Largest candidate font size tried by the size search.
pub const MAX_FONT_SIZE: u32 = 120;

/// Smallest candidate font size tried by the size search.
pub const MIN_FONT_SIZE: u32 = 20;

/// Every metric of a well-formed font lies within this many pixels of zero.
pub const METRIC_LIMIT: i64 = 65536;

/// Bounding box and coverage mask of one glyph, relative to the glyph origin.
pub struct GlyphBounds {
    pub min_x: i64,
    pub min_y: i64,
    pub width: u32,
    pub height: u32,
    /// Row-major, `width * height` entries; `coverage[gy * width + gx]`
    /// is the intensity of the pixel at `(min_x + gx, min_y + gy)`.
    pub coverage: Vec<u8>,
}

/// Mathematical value of a [`GlyphBounds`].
pub struct SpecGlyphBounds {
    pub min_x: int,
    pub min_y: int,
    pub width: int,
    pub height: int,
    pub coverage: Seq<u8>,
}

impl View for GlyphBounds {
    type V = SpecGlyphBounds;

    open spec fn view(&self) -> SpecGlyphBounds {
        SpecGlyphBounds {
            min_x: self.min_x as int,
            min_y: self.min_y as int,
            width: self.width as int,
            height: self.height as int,
            coverage: self.coverage@,
        }
    }
}

impl SpecGlyphBounds {
    pub open spec fn wf(self) -> bool {
        &&& 1 <= self.width <= METRIC_LIMIT
        &&& 1 <= self.height <= METRIC_LIMIT
        &&& -METRIC_LIMIT <= self.min_x <= METRIC_LIMIT
        &&& -METRIC_LIMIT <= self.min_y <= METRIC_LIMIT
        &&& self.coverage.len() == self.width * self.height
    }
}

impl Clone for GlyphBounds {
    fn clone(&self) -> (r: Self)
        ensures
            r@ == self@,
    {
        let r = GlyphBounds {
            min_x: self.min_x,
            min_y: self.min_y,
            width: self.width,
            height: self.height,
            coverage: self.coverage.clone(),
        };
        proof {
            assert(r.coverage@ =~= self.coverage@);
            assert(r@ =~= self@);
        }
        r
    }
}

/// One glyph of a font at one size: the character it renders, its
/// horizontal metrics, and its coverage mask (absent for blank glyphs).
pub struct GlyphInfo {
    pub ch: char,
    pub advance: i64,
    pub left_side_bearing: i64,
    pub bounds: Option<GlyphBounds>,
}

/// Mathematical value of a [`GlyphInfo`].
pub struct SpecGlyphInfo {
    pub ch: char,
    pub advance: int,
    pub left_side_bearing: int,
    pub bounds: Option<SpecGlyphBounds>,
}

impl View for GlyphInfo {
    type V = SpecGlyphInfo;

    open spec fn view(&self) -> SpecGlyphInfo {
        SpecGlyphInfo {
            ch: self.ch,
            advance: self.advance as int,
            left_side_bearing: self.left_side_bearing as int,
            bounds: match self.bounds {
                Option::Some(b) => Option::Some(b@),
                Option::None => Option::None,
            },
        }
    }
}

impl SpecGlyphInfo {
    pub open spec fn wf(self) -> bool {
        &&& 0 <= self.advance <= METRIC_LIMIT
        &&& -METRIC_LIMIT <= self.left_side_bearing <= METRIC_LIMIT
        &&& match self.bounds {
            Option::Some(b) => b.wf(),
            Option::None => true,
        }
    }

    /// The glyph handed out for characters the font does not cover.
    pub open spec fn missing(c: char) -> SpecGlyphInfo {
        SpecGlyphInfo { ch: c, advance: 0, left_side_bearing: 0, bounds: Option::None }
    }
}

impl Clone for GlyphInfo {
    fn clone(&self) -> (r: Self)
        ensures
            r@ == self@,
    {
        GlyphInfo {
            ch: self.ch,
            advance: self.advance,
            left_side_bearing: self.left_side_bearing,
            bounds: match &self.bounds {
                Option::Some(b) => Option::Some(b.clone()),
                Option::None => Option::None,
            },
        }
    }
}

/// First glyph of `gs` that renders `c`, or the blank fallback glyph.
pub open spec fn find_glyph(gs: Seq<SpecGlyphInfo>, c: char) -> SpecGlyphInfo
    decreases gs.len(),
{
    if gs.len() == 0 {
        SpecGlyphInfo::missing(c)
    } else if gs[0].ch == c {
        gs[0]
    } else {
        find_glyph(gs.drop_first(), c)
    }
}

/// A font rasterized at one size: vertical metrics, the advance of the
/// inter-word space, and the glyph table.
pub struct SizedFont {
    pub size: u32,
    pub ascent: i64,
    pub descent: i64,
    pub space_advance: i64,
    pub glyphs: Vec<GlyphInfo>,
}

/// Mathematical value of a [`SizedFont`].
pub struct SpecSizedFont {
    pub size: int,
    pub ascent: int,
    pub descent: int,
    pub space_advance: int,
    pub glyphs: Seq<SpecGlyphInfo>,
}

impl View for SizedFont {
    type V = SpecSizedFont;

    open spec fn view(&self) -> SpecSizedFont {
        SpecSizedFont {
            size: self.size as int,
            ascent: self.ascent as int,
            descent: self.descent as int,
            space_advance: self.space_advance as int,
            glyphs: Seq::new(self.glyphs@.len(), |i: int| self.glyphs@[i]@),
        }
    }
}

impl SpecSizedFont {
    pub open spec fn wf(self) -> bool {
        &&& -METRIC_LIMIT <= self.descent < self.ascent <= METRIC_LIMIT
        &&& 0 <= self.space_advance <= METRIC_LIMIT
        &&& forall|i: int| 0 <= i < self.glyphs.len() ==> #[trigger] self.glyphs[i].wf()
    }

    /// Vertical extent of one line at this size.
    pub open spec fn glyph_height(self) -> int {
        self.ascent - self.descent
    }

    pub open spec fn spec_glyph(self, c: char) -> SpecGlyphInfo {
        find_glyph(self.glyphs, c)
    }
}

pub proof fn lemma_find_glyph_wf(gs: Seq<SpecGlyphInfo>, c: char)
    requires
        forall|i: int| 0 <= i < gs.len() ==> #[trigger] gs[i].wf(),
    ensures
        find_glyph(gs, c).wf(),
    decreases gs.len(),
{
    if gs.len() == 0 {
    } else if gs[0].ch == c {
    } else {
        lemma_find_glyph_wf(gs.drop_first(), c);
    }
}

impl SizedFont {
    /// Look the character up in the glyph table; characters the font does
    /// not cover come back as the blank fallback glyph.
    pub fn glyph(&self, c: char) -> (r: GlyphInfo)
        ensures
            r@ == self@.spec_glyph(c),
    {
        let n = self.glyphs.len();
        proof {
            assert(self@.glyphs.skip(0) =~= self@.glyphs);
        }
        for i in 0..n
            invariant
                n == self.glyphs.len(),
                find_glyph(self@.glyphs, c) == find_glyph(self@.glyphs.skip(i as int), c),
        {
            proof {
                assert(self@.glyphs.skip(i as int)[0] == self@.glyphs[i as int]);
                assert(self@.glyphs.skip(i as int).drop_first() =~= self@.glyphs.skip(i + 1));
            }
            if self.glyphs[i].ch == c {
                return self.glyphs[i].clone();
            }
        }
        proof {
            assert(self@.glyphs.skip(n as int) =~= Seq::<SpecGlyphInfo>::empty());
        }
        GlyphInfo { ch: c, advance: 0, left_side_bearing: 0, bounds: Option::None }
    }

    pub fn glyph_height(&self) -> (r: i64)
        requires
            self@.wf(),
        ensures
            r == self@.glyph_height(),
            1 <= r <= 2 * METRIC_LIMIT,
    {
        self.ascent - self.descent
    }
}

impl GlyphBounds {
    /// Runtime test of well-formedness, for callers that build fonts
    /// from unchecked data.
    pub fn check(&self) -> (r: bool)
        ensures
            r == self@.wf(),
    {
        let dims_ok = 1 <= self.width && self.width as i64 <= METRIC_LIMIT && 1 <= self.height
            && self.height as i64 <= METRIC_LIMIT && -METRIC_LIMIT <= self.min_x && self.min_x
            <= METRIC_LIMIT && -METRIC_LIMIT <= self.min_y && self.min_y <= METRIC_LIMIT;
        if !dims_ok {
            return false;
        }
        proof {
            assert((self.width as int) * (self.height as int) <= 0x1_0000_0000) by (nonlinear_arith)
                requires
                    0 <= self.width <= 0x10000,
                    0 <= self.height <= 0x10000,
            ;
        }
        (self.coverage.len() as u64) == (self.width as u64) * (self.height as u64)
    }
}

impl GlyphInfo {
    pub fn check(&self) -> (r: bool)
        ensures
            r == self@.wf(),
    {
        let metrics_ok = 0 <= self.advance && self.advance <= METRIC_LIMIT && -METRIC_LIMIT
            <= self.left_side_bearing && self.left_side_bearing <= METRIC_LIMIT;
        if !metrics_ok {
            return false;
        }
        match &self.bounds {
            Option::Some(b) => b.check(),
            Option::None => true,
        }
    }
}

impl SizedFont {
    pub fn check(&self) -> (r: bool)
        ensures
            r == self@.wf(),
    {
        let metrics_ok = -METRIC_LIMIT <= self.descent && self.descent < self.ascent && self.ascent
            <= METRIC_LIMIT && 0 <= self.space_advance && self.space_advance <= METRIC_LIMIT;
        if !metrics_ok {
            return false;
        }
        let n = self.glyphs.len();
        for i in 0..n
            invariant
                n == self.glyphs@.len(),
                -METRIC_LIMIT <= self@.descent < self@.ascent <= METRIC_LIMIT,
                0 <= self@.space_advance <= METRIC_LIMIT,
                forall|k: int| 0 <= k < i ==> (#[trigger] self@.glyphs[k]).wf(),
        {
            proof {
                assert(self@.glyphs[i as int] == self.glyphs@[i as int]@);
            }
            if !self.glyphs[i].check() {
                proof {
                    assert(!self@.glyphs[i as int].wf());
                }
                return false;
            }
        }
        true
    }
}

/// A font rasterized at every candidate size of the search range:
/// `sizes[i]` holds the metrics for size `MIN_FONT_SIZE + i`.
pub struct Font {
    pub sizes: Vec<SizedFont>,
}

impl View for Font {
    type V = Seq<SpecSizedFont>;

    open spec fn view(&self) -> Seq<SpecSizedFont> {
        Seq::new(self.sizes@.len(), |i: int| self.sizes@[i]@)
    }
}

impl Font {
    pub open spec fn wf(self) -> bool {
        &&& self@.len() == MAX_FONT_SIZE - MIN_FONT_SIZE + 1
        &&& forall|i: int|
            0 <= i < self@.len() ==> (#[trigger] self@[i]).wf() && self@[i].size == MIN_FONT_SIZE + i
    }

    /// Metrics at one size of the search range.
    pub open spec fn spec_at(self, size: int) -> SpecSizedFont {
        self@[size - MIN_FONT_SIZE]
    }

    /// Runtime test of well-formedness: the right number of sizes, each
    /// well formed and labelled with its place in the search range.
    pub fn check(&self) -> (r: bool)
        ensures
            r == self.wf(),
    {
        let n = self.sizes.len();
        if n != (MAX_FONT_SIZE - MIN_FONT_SIZE + 1) as usize {
            return false;
        }
        for i in 0..n
            invariant
                n == self.sizes@.len(),
                n == MAX_FONT_SIZE - MIN_FONT_SIZE + 1,
                forall|k: int|
                    0 <= k < i ==> (#[trigger] self@[k]).wf() && self@[k].size == MIN_FONT_SIZE + k,
        {
            proof {
                assert(self@[i as int] == self.sizes@[i as int]@);
            }
            if !(self.sizes[i].check() && self.sizes[i].size as usize == MIN_FONT_SIZE as usize
                + i) {
                proof {
                    assert(!(self@[i as int].wf() && self@[i as int].size == MIN_FONT_SIZE
                        + i as int));
                }
                return false;
            }
        }
        true
    }

    pub fn at_size(&self, size: u32) -> (r: &SizedFont)
        requires
            self.wf(),
            MIN_FONT_SIZE <= size <= MAX_FONT_SIZE,
        ensures
            r@ == self.spec_at(size as int),
            r@.wf(),
    {
        let i = (size - MIN_FONT_SIZE) as usize;
        proof {
            assert(self@[i as int].wf());
        }
        &self.sizes[i]
    }
}

} // verus!
