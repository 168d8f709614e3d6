//! The engine's global guarantees, stated and proved once: what the size
//! search returns, that successful layouts fit their rectangle, that
//! layout and rendering are deterministic, when a block is centered, and
//! how clipping treats every canvas pixel.

use vstd::prelude::*;

use crate::canvas::Rgba;
use crate::canvas::blend;
use crate::font::Font;
use crate::font::SpecGlyphBounds;
use crate::font::SpecSizedFont;
use crate::font::MAX_FONT_SIZE;
use crate::font::MIN_FONT_SIZE;
use crate::layout::HorizontalLayoutCalculator;
use crate::layout::Layout;
use crate::layout::LayoutError;
use crate::layout::SpecPositionedGlyph;
use crate::layout::clamp_u32;
use crate::layout::last_bounded;
use crate::layout::lemma_last_bounded_in_range;
use crate::layout::lemma_lay_word_props;
use crate::layout::rows_max_width;
use crate::layout::spec_blit;
use crate::layout::spec_layout_at;
use crate::layout::spec_line_width;
use crate::layout::spec_new;
use crate::layout::spec_render_layout;
use crate::layout::spec_search;
use crate::layout::spec_word_width;
use crate::layout::spec_wrap;
use crate::layout::split_words;
use crate::layout::MIN_DISTANCE_TO_CENTER_TEXT;

verus! {

// ---------------------------------------------------------------------------
// What the size search returns
// ---------------------------------------------------------------------------

/// The search result characterized: a success is a size of the range
/// whose wrap succeeds while every larger size of the range fails, and a
/// fit error means every size of the range fails.
pub proof fn lemma_search_characterizes(
    font: Font,
    words: Seq<Seq<char>>,
    width: u32,
    height: u32,
    size: int,
)
    requires
        MIN_FONT_SIZE <= size <= MAX_FONT_SIZE,
    ensures
        match spec_search(font, words, width, height, size) {
            Result::Ok(p) => {
                &&& MIN_FONT_SIZE <= p.1 <= size
                &&& spec_layout_at(font.spec_at(p.1), words, width as int, height as int)
                    == Result::Ok::<Seq<Seq<SpecPositionedGlyph>>, LayoutError>(p.0)
                &&& forall|s: int|
                    p.1 < s <= size ==> !((#[trigger] spec_layout_at(
                        font.spec_at(s),
                        words,
                        width as int,
                        height as int,
                    )) is Ok)
            },
            Result::Err(e) => {
                ||| e == LayoutError::MalformedWord
                ||| {
                    &&& e == (LayoutError::FitError { width, height })
                    &&& forall|s: int|
                        MIN_FONT_SIZE <= s <= size ==> !((#[trigger] spec_layout_at(
                            font.spec_at(s),
                            words,
                            width as int,
                            height as int,
                        )) is Ok)
                }
            },
        },
    decreases size,
{
    match spec_layout_at(font.spec_at(size), words, width as int, height as int) {
        Result::Ok(rows) => {},
        Result::Err(e) => {
            if e == LayoutError::MalformedWord {
            } else if size == MIN_FONT_SIZE {
                assert(spec_search(font, words, width, height, size - 1) == Result::Err::<
                    (Seq<Seq<SpecPositionedGlyph>>, int),
                    LayoutError,
                >(LayoutError::FitError { width, height }));
            } else {
                lemma_search_characterizes(font, words, width, height, size - 1);
            }
        },
    }
}

/// Monotonic size search: when some size of the range fits, the search
/// never settles on a smaller size, and it can only fail on a malformed
/// word, never with a fit error.
pub proof fn lemma_monotonic_size_search(
    font: Font,
    text: Seq<char>,
    width: u32,
    height: u32,
    s: int,
)
    requires
        MIN_FONT_SIZE <= s <= MAX_FONT_SIZE,
        spec_layout_at(font.spec_at(s), split_words(text), width as int, height as int) is Ok,
    ensures
        match spec_new(font, text, width, height) {
            Result::Ok(p) => p.1 >= s,
            Result::Err(e) => e == LayoutError::MalformedWord,
        },
{
    lemma_search_characterizes(font, split_words(text), width, height, MAX_FONT_SIZE as int);
}

// ---------------------------------------------------------------------------
// Fit invariant
// ---------------------------------------------------------------------------

proof fn lemma_wrap_height(
    f: SpecSizedFont,
    words: Seq<Seq<char>>,
    width: int,
    rw: int,
    rh: int,
    done: Seq<Seq<SpecPositionedGlyph>>,
    cur: Seq<SpecPositionedGlyph>,
    height: int,
)
    requires
        f.wf(),
        rh == height - (done.len() + 1) * f.glyph_height(),
        done.len() >= 1 ==> rh > 0,
        spec_wrap(f, words, width, rw, rh, done, cur) is Ok,
    ensures
        ({
            let rows = spec_wrap(f, words, width, rw, rh, done, cur)->Ok_0;
            &&& rows.len() >= done.len() + 1
            &&& (rows.len() >= done.len() + 2 ==> rows.len() * f.glyph_height() < height)
            &&& (rows.len() == done.len() + 1 ==> rows.len() * f.glyph_height() == height - rh)
        }),
    decreases (if rh > 0 { rh } else { 0 }), words.len(),
{
    let gh = f.glyph_height();
    if words.len() == 0 {
        let rows = done.push(cur);
        assert(rows.len() * gh == (done.len() + 1) * gh);
    } else {
        let gs = crate::layout::spec_lay_word(
            f,
            words[0],
            width - rw,
            (done.len() + 1) * gh + f.descent,
        );
        match spec_word_width(gs) {
            Option::None => {},
            Option::Some(ww) => {
                if ww < rw {
                    lemma_wrap_height(
                        f,
                        words.drop_first(),
                        width,
                        rw - ww - f.space_advance,
                        rh,
                        done,
                        cur + gs,
                        height,
                    );
                } else if rh - gh > 0 && gh > 0 {
                    let done2 = done.push(cur);
                    assert((done2.len() + 1) * gh == (done.len() + 1) * gh + gh) by (nonlinear_arith)
                        requires
                            done2.len() == done.len() + 1,
                    ;
                    lemma_wrap_height(
                        f,
                        words,
                        width,
                        width,
                        rh - gh,
                        done2,
                        Seq::empty(),
                        height,
                    );
                } else {
                }
            },
        }
    }
}

/// Fit invariant (height): a successful layout has at least one line, a
/// block of two or more lines stacks strictly within the target height,
/// and a block whose line height fits the target at all fits entirely.
pub proof fn lemma_fit_height(font: Font, text: Seq<char>, width: u32, height: u32)
    requires
        font.wf(),
        spec_new(font, text, width, height) is Ok,
    ensures
        ({
            let p = spec_new(font, text, width, height)->Ok_0;
            let gh = font.spec_at(p.1).glyph_height();
            &&& p.0.len() >= 1
            &&& (p.0.len() >= 2 ==> p.0.len() * gh < height)
            &&& (gh <= height ==> p.0.len() * gh <= height)
        }),
{
    let words = split_words(text);
    lemma_search_characterizes(font, words, width, height, MAX_FONT_SIZE as int);
    let p = spec_new(font, text, width, height)->Ok_0;
    assert(font@[p.1 - MIN_FONT_SIZE].wf());
    let f = font.spec_at(p.1);
    let gh = f.glyph_height();
    assert((0 + 1) * gh == gh) by (nonlinear_arith);
    lemma_wrap_height(
        f,
        words,
        width as int,
        width as int,
        height - gh,
        Seq::empty(),
        Seq::empty(),
        height as int,
    );
    assert(1 * gh == gh) by (nonlinear_arith);
}

/// A row fits when its measured glyph-run width is strictly below the
/// target width; a row with no measurable width must be empty.
pub open spec fn row_fits(row: Seq<SpecPositionedGlyph>, width: int) -> bool {
    match spec_word_width(row) {
        Option::Some(v) => v < width,
        Option::None => row.len() == 0,
    }
}

proof fn lemma_last_bounded_concat(a: Seq<SpecPositionedGlyph>, b: Seq<SpecPositionedGlyph>)
    ensures
        match last_bounded(b) {
            Option::Some(j) => last_bounded(a + b) == Option::Some(a.len() + j),
            Option::None => last_bounded(a + b) == last_bounded(a),
        },
    decreases b.len(),
{
    if b.len() == 0 {
        assert(a + b =~= a);
    } else {
        assert((a + b).last() == b.last());
        assert((a + b).drop_last() =~= a + b.drop_last());
        lemma_last_bounded_concat(a, b.drop_last());
    }
}

proof fn lemma_wrap_width(
    f: SpecSizedFont,
    words: Seq<Seq<char>>,
    width: int,
    rw: int,
    rh: int,
    done: Seq<Seq<SpecPositionedGlyph>>,
    cur: Seq<SpecPositionedGlyph>,
)
    requires
        f.wf(),
        1 <= width,
        rw <= width,
        cur.len() == 0 ==> rw == width,
        cur.len() > 0 ==> cur[0].x == 0 && row_fits(cur, width) && last_bounded(cur) is Some,
        forall|i: int| 0 <= i < done.len() ==> row_fits(#[trigger] done[i], width),
        spec_wrap(f, words, width, rw, rh, done, cur) is Ok,
    ensures
        ({
            let rows = spec_wrap(f, words, width, rw, rh, done, cur)->Ok_0;
            forall|i: int| 0 <= i < rows.len() ==> row_fits(#[trigger] rows[i], width)
        }),
    decreases (if rh > 0 { rh } else { 0 }), words.len(),
{
    let gh = f.glyph_height();
    if words.len() == 0 {
        let rows = done.push(cur);
        assert(row_fits(cur, width));
        assert forall|i: int| 0 <= i < rows.len() implies row_fits(#[trigger] rows[i], width) by {
            if i < done.len() {
                assert(rows[i] == done[i]);
            } else {
                assert(rows[i] == cur);
            }
        }
    } else {
        let x0 = width - rw;
        let y0 = (done.len() + 1) * gh + f.descent;
        let gs = crate::layout::spec_lay_word(f, words[0], x0, y0);
        match spec_word_width(gs) {
            Option::None => {},
            Option::Some(ww) => {
                if ww < rw {
                    // The appended run keeps the line's measured width below
                    // the target: the new extent is the cursor plus the
                    // word's width, and the word fit the remaining width.
                    lemma_lay_word_props(f, words[0], x0, y0);
                    lemma_last_bounded_in_range(gs);
                    let j = last_bounded(gs).unwrap();
                    let cur2 = cur + gs;
                    lemma_last_bounded_concat(cur, gs);
                    let j2 = cur.len() + j;
                    assert(last_bounded(cur2) == Option::Some(j2 as int));
                    assert(cur2[j2 as int] == gs[j]);
                    assert(gs[0].x == x0);
                    if cur.len() == 0 {
                        assert(cur2 =~= gs);
                        assert(cur2[0].x == x0 && x0 == 0);
                    } else {
                        assert(cur2[0] == cur[0]);
                    }
                    let bbw = gs[j].info.bounds.unwrap().width;
                    assert(ww == bbw + gs[j].x - gs[0].x);
                    assert(spec_word_width(cur2) == Option::Some(bbw + gs[j].x - cur2[0].x));
                    assert(bbw + gs[j].x - cur2[0].x == ww + x0);
                    assert(ww + x0 < width);
                    lemma_wrap_width(
                        f,
                        words.drop_first(),
                        width,
                        rw - ww - f.space_advance,
                        rh,
                        done,
                        cur2,
                    );
                } else if rh - gh > 0 && gh > 0 {
                    let done2 = done.push(cur);
                    assert(row_fits(cur, width));
                    assert forall|i: int| 0 <= i < done2.len() implies row_fits(
                        #[trigger] done2[i],
                        width,
                    ) by {
                        if i < done.len() {
                            assert(done2[i] == done[i]);
                        } else {
                            assert(done2[i] == cur);
                        }
                    }
                    lemma_wrap_width(f, words, width, width, rh - gh, done2, Seq::empty());
                } else {
                }
            },
        }
    }
}

/// Fit invariant (width): in a successful layout every line's glyph run
/// measures strictly less than the target width (a line can overrun the
/// target only by its first glyph's left-side bearing), and a line with
/// no measurable width is empty.
pub proof fn lemma_fit_width(font: Font, text: Seq<char>, width: u32, height: u32)
    requires
        font.wf(),
        width >= 1,
        spec_new(font, text, width, height) is Ok,
    ensures
        ({
            let p = spec_new(font, text, width, height)->Ok_0;
            forall|i: int| 0 <= i < p.0.len() ==> row_fits(#[trigger] p.0[i], width as int)
        }),
{
    let words = split_words(text);
    lemma_search_characterizes(font, words, width, height, MAX_FONT_SIZE as int);
    let p = spec_new(font, text, width, height)->Ok_0;
    assert(font@[p.1 - MIN_FONT_SIZE].wf());
    let f = font.spec_at(p.1);
    lemma_wrap_width(
        f,
        words,
        width as int,
        width as int,
        height - f.glyph_height(),
        Seq::empty(),
        Seq::empty(),
    );
    let rows = spec_wrap(
        f,
        words,
        width as int,
        width as int,
        height - f.glyph_height(),
        Seq::empty(),
        Seq::empty(),
    )->Ok_0;
    assert(rows == p.0);
    assert forall|i: int| 0 <= i < p.0.len() implies row_fits(#[trigger] p.0[i], width as int) by {
        assert(p.0[i] == rows[i]);
        assert(row_fits(rows[i], width as int));
    }
}

// ---------------------------------------------------------------------------
// Determinism
// ---------------------------------------------------------------------------

/// Determinism of layout: the block geometry is a function of the text,
/// the target rectangle and the font alone; two runs on equal inputs
/// agree exactly.
pub proof fn lemma_layout_deterministic(
    font1: Font,
    font2: Font,
    text1: Seq<char>,
    text2: Seq<char>,
    width: u32,
    height: u32,
)
    requires
        font1 == font2,
        text1 == text2,
    ensures
        spec_new(font1, text1, width, height) == spec_new(font2, text2, width, height),
{
}

/// Determinism of rendering: compositing the same block with the same
/// color at the same position onto equal pixel buffers of equal
/// dimensions yields equal pixel buffers.
pub proof fn lemma_render_deterministic(
    pixels1: Seq<Rgba>,
    pixels2: Seq<Rgba>,
    cw: int,
    ch: int,
    layout: Layout,
    x: int,
    y: int,
    color: Rgba,
)
    requires
        pixels1 == pixels2,
    ensures
        spec_render_layout(pixels1, cw, ch, layout, x, y, color) == spec_render_layout(
            pixels2,
            cw,
            ch,
            layout,
            x,
            y,
            color,
        ),
{
}

// ---------------------------------------------------------------------------
// Alignment threshold
// ---------------------------------------------------------------------------

/// Alignment threshold: a block is left-aligned exactly when every line
/// is within the threshold of the widest line; otherwise it is centered
/// on the widest line's width, and a centered line's padding is half its
/// distance to that width (integer division).
pub proof fn lemma_alignment_threshold(layout: Layout)
    ensures
        ({
            let maxw = rows_max_width(layout.rows());
            &&& (layout.spec_policy() == HorizontalLayoutCalculator::LeftAligned <==> (forall|
                i: int,
            |
                0 <= i < layout.rows().len() ==> maxw - clamp_u32(
                    spec_line_width(#[trigger] layout.rows()[i]),
                ) <= MIN_DISTANCE_TO_CENTER_TEXT))
            &&& (layout.spec_policy() is CenterAligned ==> layout.spec_policy()->0 == maxw)
            &&& forall|w: u32|
                w <= maxw ==> (HorizontalLayoutCalculator::CenterAligned(maxw)).spec_left_padding(
                    w,
                ) == ((maxw - w) as u32) / 2
        }),
{
}

// ---------------------------------------------------------------------------
// Clipping
// ---------------------------------------------------------------------------

/// The canvas position that entry `i` of a coverage mask lands on.
pub open spec fn mask_target(b: SpecGlyphBounds, ox: int, oy: int, i: int) -> (int, int) {
    (ox + i % b.width, oy + i / b.width)
}

proof fn lemma_mask_target_injective(b: SpecGlyphBounds, ox: int, oy: int, i1: int, i2: int)
    requires
        b.width >= 1,
        0 <= i1,
        0 <= i2,
        i1 != i2,
    ensures
        mask_target(b, ox, oy, i1) != mask_target(b, ox, oy, i2),
{
    assert(i1 == (i1 / b.width) * b.width + i1 % b.width && 0 <= i1 % b.width < b.width)
        by (nonlinear_arith)
        requires
            b.width >= 1,
            i1 >= 0,
    ;
    assert(i2 == (i2 / b.width) * b.width + i2 % b.width && 0 <= i2 % b.width < b.width)
        by (nonlinear_arith)
        requires
            b.width >= 1,
            i2 >= 0,
    ;
}

proof fn lemma_index_injective(cw: int, px1: int, py1: int, px2: int, py2: int)
    requires
        0 <= px1 < cw,
        0 <= px2 < cw,
        (px1, py1) != (px2, py2),
    ensures
        py1 * cw + px1 != py2 * cw + px2,
{
    if py1 == py2 {
    } else {
        assert(py1 * cw + px1 != py2 * cw + px2) by (nonlinear_arith)
            requires
                0 <= px1 < cw,
                0 <= px2 < cw,
                py1 != py2,
        ;
    }
}

pub proof fn lemma_blit_len(
    pixels: Seq<Rgba>,
    cw: int,
    ch: int,
    b: SpecGlyphBounds,
    ox: int,
    oy: int,
    color: Rgba,
    k: nat,
)
    ensures
        spec_blit(pixels, cw, ch, b, ox, oy, color, k).len() == pixels.len(),
    decreases k,
{
    if k == 0 || b.width <= 0 {
    } else {
        lemma_blit_len(pixels, cw, ch, b, ox, oy, color, (k - 1) as nat);
    }
}

/// Clipping (untouched pixels): a canvas pixel that no mask entry lands
/// on keeps its value — in particular, everything a glyph would draw
/// outside the canvas is simply dropped.
pub proof fn lemma_blit_untouched(
    pixels: Seq<Rgba>,
    cw: int,
    ch: int,
    b: SpecGlyphBounds,
    ox: int,
    oy: int,
    color: Rgba,
    k: nat,
    j: int,
)
    requires
        0 <= j < pixels.len(),
        forall|i: int|
            0 <= i < k ==> {
                let (px, py) = #[trigger] mask_target(b, ox, oy, i);
                !(0 <= px < cw && 0 <= py < ch && j == py * cw + px)
            },
    ensures
        spec_blit(pixels, cw, ch, b, ox, oy, color, k)[j] == pixels[j],
    decreases k,
{
    if k == 0 || b.width <= 0 {
    } else {
        lemma_blit_untouched(pixels, cw, ch, b, ox, oy, color, (k - 1) as nat, j);
        lemma_blit_len(pixels, cw, ch, b, ox, oy, color, (k - 1) as nat);
        assert(mask_target(b, ox, oy, k - 1) == (ox + (k - 1) % b.width, oy + (k - 1) / b.width));
    }
}

/// Clipping (blended pixels): the canvas pixel that in-bounds mask entry
/// `i` lands on holds exactly the blend of its prior value with the draw
/// color at that entry's coverage, once the whole mask is composited.
pub proof fn lemma_blit_blended(
    pixels: Seq<Rgba>,
    cw: int,
    ch: int,
    b: SpecGlyphBounds,
    ox: int,
    oy: int,
    color: Rgba,
    k: nat,
    i: int,
)
    requires
        b.wf(),
        pixels.len() == cw * ch,
        0 < cw,
        0 < ch,
        0 <= i < k,
        k <= b.coverage.len(),
        ({
            let (px, py) = mask_target(b, ox, oy, i);
            0 <= px < cw && 0 <= py < ch
        }),
    ensures
        ({
            let (px, py) = mask_target(b, ox, oy, i);
            spec_blit(pixels, cw, ch, b, ox, oy, color, k)[py * cw + px] == blend(
                pixels[py * cw + px],
                color,
                b.coverage[i],
            )
        }),
    decreases k,
{
    let (px, py) = mask_target(b, ox, oy, i);
    let idx = py * cw + px;
    assert(0 <= py * cw + px < cw * ch) by (nonlinear_arith)
        requires
            0 <= px < cw,
            0 <= py < ch,
    ;
    if k == i + 1 {
        // The step at entry `i` writes the blend; before it, no earlier
        // entry touched this pixel.
        assert forall|i2: int|
            0 <= i2 < i implies {
            let (px2, py2) = #[trigger] mask_target(b, ox, oy, i2);
            !(0 <= px2 < cw && 0 <= py2 < ch && idx == py2 * cw + px2)
        } by {
            lemma_mask_target_injective(b, ox, oy, i, i2);
            let (px2, py2) = mask_target(b, ox, oy, i2);
            if 0 <= px2 < cw && 0 <= py2 < ch {
                lemma_index_injective(cw, px, py, px2, py2);
            }
        }
        lemma_blit_untouched(pixels, cw, ch, b, ox, oy, color, i as nat, idx);
        lemma_blit_len(pixels, cw, ch, b, ox, oy, color, i as nat);
        assert(mask_target(b, ox, oy, i) == (ox + i % b.width, oy + i / b.width));
    } else {
        lemma_blit_blended(pixels, cw, ch, b, ox, oy, color, (k - 1) as nat, i);
        lemma_blit_len(pixels, cw, ch, b, ox, oy, color, (k - 1) as nat);
        lemma_mask_target_injective(b, ox, oy, k - 1, i);
        let (px2, py2) = mask_target(b, ox, oy, k - 1);
        if 0 <= px2 < cw && 0 <= py2 < ch {
            lemma_index_injective(cw, px2, py2, px, py);
        }
        assert(mask_target(b, ox, oy, k - 1) == (ox + (k - 1) % b.width, oy + (k - 1) / b.width));
    }
}

// ---------------------------------------------------------------------------
// A one-pixel-high target
// ---------------------------------------------------------------------------

/// With a 1-pixel target height a successful layout can only be a single
/// line: as soon as the text wraps at every size of the range, the search
/// must end in the fit error.
pub proof fn lemma_tiny_height_single_line(font: Font, text: Seq<char>, width: u32)
    requires
        font.wf(),
        spec_new(font, text, width, 1) is Ok,
    ensures
        spec_new(font, text, width, 1)->Ok_0.0.len() == 1,
{
    lemma_fit_height(font, text, width, 1);
    lemma_search_characterizes(font, split_words(text), width, 1, MAX_FONT_SIZE as int);
    let p = spec_new(font, text, width, 1)->Ok_0;
    let gh = font.spec_at(p.1).glyph_height();
    assert(font@[p.1 - MIN_FONT_SIZE].wf());
    if p.0.len() >= 2 {
        assert(p.0.len() * gh >= p.0.len()) by (nonlinear_arith)
            requires
                gh >= 1,
                p.0.len() >= 0,
        ;
    }
}

} // verus!
