//! The text-fitting and layout engine.
//!
//! Given a title string, a target rectangle and a [`Font`](crate::font::Font),
//! the engine searches the font sizes from [`MAX_FONT_SIZE`] down to
//! [`MIN_FONT_SIZE`] for the largest one whose greedily word-wrapped text
//! fits the rectangle's height, wrapping each line at the rectangle's width.

use vstd::prelude::*;

use crate::canvas::Canvas;
use crate::canvas::Rgba;
use crate::canvas::blend;
use crate::canvas::blend_exec;
use crate::font::Font;
use crate::font::SpecGlyphBounds;
use crate::font::GlyphInfo;
use crate::font::SizedFont;
use crate::font::SpecGlyphInfo;
use crate::font::SpecSizedFont;
use crate::font::lemma_find_glyph_wf;
use crate::font::MAX_FONT_SIZE;
use crate::font::MIN_FONT_SIZE;
use crate::font::METRIC_LIMIT;

verus! {

/// A line is never centered when every line of the block is within this
/// many pixels of the widest line.
pub const MIN_DISTANCE_TO_CENTER_TEXT: u32 = 70;

/// Every glyph position produced by the engine stays within this many
/// pixels of the origin.
pub const POSITION_LIMIT: i64 = 0x4_0000_0000_0000;

/// How a laid-out block failed, or could not be produced at one size.
#[derive(Clone, Copy, PartialEq, Eq, Structural, Debug)]
pub enum LayoutError {
    /// One font size's wrapped text exceeds the target height; the size
    /// search recovers from this by trying the next smaller size.
    Overflow,
    /// No font size in the search range fits the target rectangle.
    FitError { width: u32, height: u32 },
    /// A word yields no glyph with a bounding box, so its width is undefined.
    MalformedWord,
    /// Reserved for catastrophic rendering failures; never produced, since
    /// out-of-bounds pixels are clipped rather than rejected.
    RenderError,
}

/// A glyph placed at an absolute position in the block's coordinate space.
pub struct PositionedGlyph {
    pub info: GlyphInfo,
    pub x: i64,
    pub y: i64,
}

/// Mathematical value of a [`PositionedGlyph`].
pub struct SpecPositionedGlyph {
    pub info: SpecGlyphInfo,
    pub x: int,
    pub y: int,
}

impl View for PositionedGlyph {
    type V = SpecPositionedGlyph;

    open spec fn view(&self) -> SpecPositionedGlyph {
        SpecPositionedGlyph { info: self.info@, x: self.x as int, y: self.y as int }
    }
}

/// A positioned glyph whose metrics are well formed and whose position is
/// small enough for all rendering arithmetic to stay in range.
pub open spec fn pg_wf(g: SpecPositionedGlyph) -> bool {
    &&& g.info.wf()
    &&& -POSITION_LIMIT <= g.x <= POSITION_LIMIT
    &&& -POSITION_LIMIT <= g.y <= POSITION_LIMIT
}

/// One visual row of the block.
pub struct Line {
    pub glyphs: Vec<PositionedGlyph>,
}

impl View for Line {
    type V = Seq<SpecPositionedGlyph>;

    open spec fn view(&self) -> Seq<SpecPositionedGlyph> {
        Seq::new(self.glyphs@.len(), |i: int| self.glyphs@[i]@)
    }
}

pub open spec fn words_view(ws: Seq<Vec<char>>) -> Seq<Seq<char>> {
    Seq::new(ws.len(), |i: int| ws[i]@)
}

pub open spec fn pg_view(gs: Seq<PositionedGlyph>) -> Seq<SpecPositionedGlyph> {
    Seq::new(gs.len(), |i: int| gs[i]@)
}

pub open spec fn rows_view(ls: Seq<Line>) -> Seq<Seq<SpecPositionedGlyph>> {
    Seq::new(ls.len(), |i: int| ls[i]@)
}

// ---------------------------------------------------------------------------
// Splitting the title into words
// ---------------------------------------------------------------------------

pub open spec fn is_ascii_space(c: char) -> bool {
    c == ' ' || c == '\t' || c == '\n' || c == '\x0c' || c == '\r'
}

/// One step of the splitting fold: feed the next character into the
/// accumulated `(finished words, current word)` pair.
pub open spec fn split_step(words: Seq<Seq<char>>, cur: Seq<char>, c: char) -> (Seq<Seq<char>>, Seq<
    char,
>) {
    if is_ascii_space(c) {
        if cur.len() == 0 {
            (words, cur)
        } else {
            (words.push(cur), Seq::empty())
        }
    } else {
        (words, cur.push(c))
    }
}

pub open spec fn split_fold(s: Seq<char>) -> (Seq<Seq<char>>, Seq<char>)
    decreases s.len(),
{
    if s.len() == 0 {
        (Seq::empty(), Seq::empty())
    } else {
        let p = split_fold(s.drop_last());
        split_step(p.0, p.1, s.last())
    }
}

/// The maximal runs of non-whitespace characters of `s`, in order.
pub open spec fn split_words(s: Seq<char>) -> Seq<Seq<char>> {
    let p = split_fold(s);
    if p.1.len() == 0 {
        p.0
    } else {
        p.0.push(p.1)
    }
}

/// Every word of the split is no longer than the text, and there are no
/// more words than characters.
pub proof fn lemma_split_fold_bounds(s: Seq<char>)
    ensures
        split_fold(s).0.len() <= s.len(),
        split_fold(s).1.len() <= s.len(),
        forall|i: int|
            0 <= i < split_fold(s).0.len() ==> #[trigger] split_fold(s).0[i].len() <= s.len(),
    decreases s.len(),
{
    if s.len() == 0 {
    } else {
        lemma_split_fold_bounds(s.drop_last());
        assert(forall|i: int|
            0 <= i < split_fold(s.drop_last()).0.len()
                ==> #[trigger] split_fold(s.drop_last()).0[i].len() <= s.len() - 1);
    }
}

pub proof fn lemma_split_words_bounds(s: Seq<char>)
    ensures
        split_words(s).len() <= s.len() + 1,
        forall|i: int| 0 <= i < split_words(s).len() ==> #[trigger] split_words(s)[i].len() <= s.len(),
{
    lemma_split_fold_bounds(s);
}

fn is_space(c: char) -> (r: bool)
    ensures
        r == is_ascii_space(c),
{
    c == ' ' || c == '\t' || c == '\n' || c == '\x0c' || c == '\r'
}

/// Split the title on ASCII whitespace, dropping empty words.
pub fn split_ascii_words(text: &str) -> (words: Vec<Vec<char>>)
    ensures
        words_view(words@) == split_words(text@),
{
    let n = text.unicode_len();
    let mut words: Vec<Vec<char>> = Vec::new();
    let mut cur: Vec<char> = Vec::new();
    proof {
        assert(text@.take(0) =~= Seq::<char>::empty());
        assert(words_view(words@) =~= Seq::<Seq<char>>::empty());
    }
    for i in 0..n
        invariant
            n == text@.len(),
            words_view(words@) == split_fold(text@.take(i as int)).0,
            cur@ == split_fold(text@.take(i as int)).1,
    {
        let c = text.get_char(i);
        proof {
            assert(text@.take(i + 1).drop_last() =~= text@.take(i as int));
            assert(text@.take(i + 1).last() == text@[i as int]);
        }
        if is_space(c) {
            if cur.len() > 0 {
                let finished = cur;
                cur = Vec::new();
                words.push(finished);
                proof {
                    assert(words_view(words@) =~= split_fold(text@.take(i + 1)).0);
                }
            }
        } else {
            cur.push(c);
        }
    }
    proof {
        assert(text@.take(n as int) =~= text@);
    }
    if cur.len() > 0 {
        let finished = cur;
        words.push(finished);
        proof {
            assert(words_view(words@) =~= split_words(text@));
        }
    }
    words
}

// ---------------------------------------------------------------------------
// Laying out one word
// ---------------------------------------------------------------------------

/// Glyphs of `w` placed left to right from cursor `x` on baseline `y`,
/// each advancing the cursor by its advance width.
pub open spec fn spec_lay_word(f: SpecSizedFont, w: Seq<char>, x: int, y: int) -> Seq<
    SpecPositionedGlyph,
>
    decreases w.len(),
{
    if w.len() == 0 {
        Seq::empty()
    } else {
        let info = f.spec_glyph(w[0]);
        seq![SpecPositionedGlyph { info, x, y }] + spec_lay_word(f, w.drop_first(), x + info.advance, y)
    }
}

pub proof fn lemma_lay_word_props(f: SpecSizedFont, w: Seq<char>, x: int, y: int)
    requires
        f.wf(),
    ensures
        spec_lay_word(f, w, x, y).len() == w.len(),
        forall|j: int|
            0 <= j < w.len() ==> {
                let g = #[trigger] spec_lay_word(f, w, x, y)[j];
                &&& g.info.wf()
                &&& g.y == y
                &&& x <= g.x <= x + j * METRIC_LIMIT
            },
        forall|j: int, k: int|
            0 <= j <= k < w.len() ==> spec_lay_word(f, w, x, y)[j].x <= spec_lay_word(f, w, x, y)[k].x,
    decreases w.len(),
{
    if w.len() == 0 {
    } else {
        let info = f.spec_glyph(w[0]);
        lemma_find_glyph_wf(f.glyphs, w[0]);
        lemma_lay_word_props(f, w.drop_first(), x + info.advance, y);
        assert forall|j: int| 1 <= j < w.len() implies {
            let g = #[trigger] spec_lay_word(f, w, x, y)[j];
            &&& g.info.wf()
            &&& g.y == y
            &&& x <= g.x <= x + j * METRIC_LIMIT
        } by {
            let rest = spec_lay_word(f, w.drop_first(), x + info.advance, y);
            assert(spec_lay_word(f, w, x, y)[j] == rest[j - 1]);
        }
    }
}

/// Build the glyph run for `w[i..]` starting at cursor `x` on baseline `y`.
fn lay_word_from(f: &SizedFont, w: &Vec<char>, i: usize, x: i64, y: i64) -> (gs: Vec<
    PositionedGlyph,
>)
    requires
        f@.wf(),
        i <= w@.len(),
        -POSITION_LIMIT <= x,
        x + (w@.len() - i) * METRIC_LIMIT <= POSITION_LIMIT,
        -POSITION_LIMIT <= y <= POSITION_LIMIT,
    ensures
        pg_view(gs@) == spec_lay_word(f@, w@.skip(i as int), x as int, y as int),
    decreases w@.len() - i,
{
    if i == w.len() {
        let gs: Vec<PositionedGlyph> = Vec::new();
        proof {
            assert(w@.skip(i as int) =~= Seq::<char>::empty());
            assert(pg_view(gs@) =~= spec_lay_word(f@, w@.skip(i as int), x as int, y as int));
        }
        gs
    } else {
        let info = f.glyph(w[i]);
        proof {
            lemma_find_glyph_wf(f@.glyphs, w@[i as int]);
        }
        let next_x = x + info.advance;
        let mut gs = lay_word_from(f, w, i + 1, next_x, y);
        let g = PositionedGlyph { info, x, y };
        gs.insert(0, g);
        proof {
            assert(w@.skip(i as int)[0] == w@[i as int]);
            assert(w@.skip(i as int).drop_first() =~= w@.skip(i + 1));
            assert(pg_view(gs@) =~= spec_lay_word(f@, w@.skip(i as int), x as int, y as int));
        }
        gs
    }
}

// ---------------------------------------------------------------------------
// Word width
// ---------------------------------------------------------------------------

/// Index of the last glyph of the run that has a bounding box.
pub open spec fn last_bounded(gs: Seq<SpecPositionedGlyph>) -> Option<int>
    decreases gs.len(),
{
    if gs.len() == 0 {
        Option::None
    } else if gs.last().info.bounds is Some {
        Option::Some(gs.len() - 1)
    } else {
        last_bounded(gs.drop_last())
    }
}

/// Width of a glyph run: the bounding-box width of its last boxed glyph
/// plus the distance from the first glyph's origin to that glyph's origin.
/// Undefined for an empty run or a run with no boxed glyph.
pub open spec fn spec_word_width(gs: Seq<SpecPositionedGlyph>) -> Option<int> {
    if gs.len() == 0 {
        Option::None
    } else {
        match last_bounded(gs) {
            Option::None => Option::None,
            Option::Some(j) => Option::Some(
                gs[j].info.bounds.unwrap().width + gs[j].x - gs[0].x,
            ),
        }
    }
}

pub proof fn lemma_last_bounded_in_range(gs: Seq<SpecPositionedGlyph>)
    ensures
        match last_bounded(gs) {
            Option::Some(j) => 0 <= j < gs.len() && gs[j].info.bounds is Some,
            Option::None => true,
        },
    decreases gs.len(),
{
    if gs.len() == 0 {
    } else if gs.last().info.bounds is Some {
    } else {
        lemma_last_bounded_in_range(gs.drop_last());
    }
}

/// Measure a glyph run, failing when no glyph has a bounding box.
pub fn word_width(word: &Vec<PositionedGlyph>) -> (r: Result<i64, LayoutError>)
    requires
        forall|i: int| 0 <= i < word@.len() ==> pg_wf(#[trigger] pg_view(word@)[i]),
    ensures
        match spec_word_width(pg_view(word@)) {
            Option::Some(v) => r is Ok && r->Ok_0 == v,
            Option::None => r == Err::<i64, LayoutError>(LayoutError::MalformedWord),
        },
{
    let gs = Ghost(pg_view(word@));
    if word.len() == 0 {
        return Err(LayoutError::MalformedWord);
    }
    let mut k = word.len();
    proof {
        assert(gs@.take(k as int) =~= gs@);
    }
    while k > 0
        invariant
            k <= word@.len(),
            gs@ == pg_view(word@),
            word@.len() > 0,
            forall|i: int| 0 <= i < word@.len() ==> pg_wf(#[trigger] pg_view(word@)[i]),
            last_bounded(gs@) == last_bounded(gs@.take(k as int)),
        decreases k,
    {
        k = k - 1;
        proof {
            assert(gs@.take(k + 1).last() == gs@[k as int]);
            assert(gs@.take(k + 1).drop_last() =~= gs@.take(k as int));
        }
        match &word[k].info.bounds {
            Option::Some(b) => {
                proof {
                    assert(last_bounded(gs@) == Option::Some(k as int));
                    assert(pg_wf(gs@[k as int]));
                    assert(pg_wf(gs@[0]));
                }
                let width = b.width;
                return Ok(width as i64 + (word[k].x - word[0].x));
            },
            Option::None => {},
        }
    }
    proof {
        assert(gs@.take(0) =~= Seq::<SpecPositionedGlyph>::empty());
    }
    Err(LayoutError::MalformedWord)
}

// ---------------------------------------------------------------------------
// Greedy wrapping at one font size
// ---------------------------------------------------------------------------

/// The greedy wrap, one word at a time.
///
/// `rw` is the width still free on the current line, `rh` the height still
/// free below it, `done` the closed lines and `cur` the line being filled.
/// A word is laid out at the current cursor; if its measured width is
/// strictly less than `rw` it joins the current line (consuming its width
/// and one space advance), otherwise the line is closed and the word is
/// retried on a fresh line, failing with `Overflow` as soon as the height
/// budget runs out.
pub open spec fn spec_wrap(
    f: SpecSizedFont,
    words: Seq<Seq<char>>,
    width: int,
    rw: int,
    rh: int,
    done: Seq<Seq<SpecPositionedGlyph>>,
    cur: Seq<SpecPositionedGlyph>,
) -> Result<Seq<Seq<SpecPositionedGlyph>>, LayoutError>
    decreases (if rh > 0 { rh } else { 0 }), words.len(),
{
    if words.len() == 0 {
        Result::Ok(done.push(cur))
    } else {
        let gh = f.glyph_height();
        let gs = spec_lay_word(f, words[0], width - rw, (done.len() + 1) * gh + f.descent);
        match spec_word_width(gs) {
            Option::None => Result::Err(LayoutError::MalformedWord),
            Option::Some(ww) => if ww < rw {
                spec_wrap(
                    f,
                    words.drop_first(),
                    width,
                    rw - ww - f.space_advance,
                    rh,
                    done,
                    cur + gs,
                )
            } else if rh - gh > 0 && gh > 0 {
                spec_wrap(f, words, width, width, rh - gh, done.push(cur), Seq::empty())
            } else {
                Result::Err(LayoutError::Overflow)
            },
        }
    }
}

/// Wrap `words` at size `f`: lines at most `width` wide (but for a single
/// over-wide word), stacked within `height`.
pub open spec fn spec_layout_at(
    f: SpecSizedFont,
    words: Seq<Seq<char>>,
    width: int,
    height: int,
) -> Result<Seq<Seq<SpecPositionedGlyph>>, LayoutError> {
    spec_wrap(f, words, width, width, height - f.glyph_height(), Seq::empty(), Seq::empty())
}

/// Greedily wrap `words` at one font size of the search range.
///
/// On success the returned pair holds the lines and the line height
/// (glyph ascent minus descent) at that size.
pub fn layout_at_font_size(
    font: &Font,
    words: &Vec<Vec<char>>,
    width: u32,
    height: u32,
    font_size: u32,
) -> (r: Result<(Vec<Line>, u32), LayoutError>)
    requires
        font.wf(),
        MIN_FONT_SIZE <= font_size <= MAX_FONT_SIZE,
        width >= 1,
        forall|i: int| 0 <= i < words@.len() ==> #[trigger] words@[i]@.len() <= 0xFFFF_FFFFu64,
    ensures
        match spec_layout_at(
            font.spec_at(font_size as int),
            words_view(words@),
            width as int,
            height as int,
        ) {
            Result::Ok(rows) => {
                &&& r is Ok
                &&& rows_view(r->Ok_0.0@) == rows
                &&& r->Ok_0.1 == font.spec_at(font_size as int).glyph_height()
                &&& forall|a: int, b: int|
                    0 <= a < rows.len() && 0 <= b < rows[a].len() ==> pg_wf(#[trigger] rows[a][b])
            },
            Result::Err(e) => r == Result::Err::<(Vec<Line>, u32), LayoutError>(e),
        },
{
    let f = font.at_size(font_size);
    let ghost fs = f@;
    let ghost wvs = words_view(words@);
    let ghost target = spec_layout_at(fs, wvs, width as int, height as int);
    let gh: i64 = f.glyph_height();
    let space: i64 = f.space_advance;
    let w_i: i64 = width as i64;
    let mut lines: Vec<Line> = Vec::new();
    let mut current: Vec<PositionedGlyph> = Vec::new();
    let mut rw: i64 = w_i;
    let mut rh: i64 = height as i64 - gh;
    let mut wi: usize = 0;
    proof {
        assert(rows_view(lines@) =~= Seq::<Seq<SpecPositionedGlyph>>::empty());
        assert(pg_view(current@) =~= Seq::<SpecPositionedGlyph>::empty());
        assert(wvs.skip(0) =~= wvs);
        assert((lines@.len() + 1) * (gh as int) == gh) by (nonlinear_arith)
            requires
                lines@.len() == 0,
        ;
    }
    while wi < words.len()
        invariant
            font.wf(),
            f@ == fs,
            fs == font.spec_at(font_size as int),
            fs.wf(),
            wvs == words_view(words@),
            forall|i: int| 0 <= i < words@.len() ==> #[trigger] words@[i]@.len() <= 0xFFFF_FFFFu64,
            gh == fs.glyph_height(),
            space == fs.space_advance,
            w_i == width as int,
            1 <= w_i,
            wi <= words@.len(),
            -METRIC_LIMIT <= rw <= w_i,
            -0x40000 <= rh < 0x1_0000_0000,
            rh as int == height as int - (lines@.len() + 1) * gh,
            lines@.len() >= 1 ==> rh > 0,
            forall|a: int, b: int|
                0 <= a < lines@.len() && 0 <= b < rows_view(lines@)[a].len() ==> pg_wf(
                    #[trigger] rows_view(lines@)[a][b],
                ),
            forall|b: int| 0 <= b < current@.len() ==> pg_wf(#[trigger] pg_view(current@)[b]),
            spec_wrap(
                fs,
                wvs.skip(wi as int),
                w_i as int,
                rw as int,
                rh as int,
                rows_view(lines@),
                pg_view(current@),
            ) == target,
            target == spec_layout_at(fs, wvs, width as int, height as int),
        decreases (if rh > 0 { rh as int } else { 0 }), words@.len() - wi,
    {
        let word = &words[wi];
        let x: i64 = w_i - rw;
        let k = lines.len();
        proof {
            assert((lines@.len() + 1) * gh == height as int - rh);
            assert((lines@.len() + 1) * gh >= lines@.len() + 1 && (lines@.len() + 1) * gh
                >= gh) by (nonlinear_arith)
                requires
                    gh >= 1,
                    lines@.len() >= 0,
            ;
        }
        let y: i64 = (k as i64 + 1) * gh + f.descent;
        let mut gs = lay_word_from(f, word, 0, x, y);
        proof {
            assert(word@.skip(0) =~= word@);
            lemma_lay_word_props(fs, word@, x as int, y as int);
            assert forall|b: int| 0 <= b < gs@.len() implies pg_wf(#[trigger] pg_view(gs@)[b]) by {
                assert(pg_view(gs@)[b] == spec_lay_word(fs, word@, x as int, y as int)[b]);
            }
            assert(wvs.skip(wi as int)[0] == word@);
            assert(wvs.skip(wi as int).drop_first() =~= wvs.skip(wi + 1));
        }
        let ww = match word_width(&gs) {
            Result::Ok(v) => v,
            Result::Err(e) => {
                proof {
                    assert(spec_wrap(
                        fs,
                        wvs.skip(wi as int),
                        w_i as int,
                        rw as int,
                        rh as int,
                        rows_view(lines@),
                        pg_view(current@),
                    ) == Result::Err::<Seq<Seq<SpecPositionedGlyph>>, LayoutError>(
                        LayoutError::MalformedWord,
                    ));
                }
                return Result::Err(e);
            },
        };
        proof {
            lemma_last_bounded_in_range(pg_view(gs@));
            let j = last_bounded(pg_view(gs@)).unwrap();
            assert(pg_view(gs@)[j] == spec_lay_word(fs, word@, x as int, y as int)[j]);
            assert(pg_view(gs@)[0] == spec_lay_word(fs, word@, x as int, y as int)[0]);
            assert(pg_view(gs@)[j].x >= pg_view(gs@)[0].x);
            assert(pg_view(gs@)[j].info.bounds.unwrap().width >= 1);
        }
        if ww < rw {
            let ghost cur_before = pg_view(current@);
            let ghost gs_before = pg_view(gs@);
            current.append(&mut gs);
            rw = rw - ww;
            rw = rw - space;
            wi = wi + 1;
            proof {
                assert(pg_view(current@) =~= cur_before + gs_before);
            }
        } else {
            let ghost cur_before = pg_view(current@);
            let ghost rows_before = rows_view(lines@);
            let finished = current;
            current = Vec::new();
            lines.push(Line { glyphs: finished });
            rw = w_i;
            rh = rh - gh;
            proof {
                assert(rows_view(lines@) =~= rows_before.push(cur_before));
                assert(pg_view(current@) =~= Seq::<SpecPositionedGlyph>::empty());
                let n = rows_before.len() as int;
                assert((n + 2) * (gh as int) == (n + 1) * (gh as int) + gh) by (nonlinear_arith);
            }
            if rh <= 0 {
                return Result::Err(LayoutError::Overflow);
            }
        }
    }
    proof {
        assert(wvs.skip(wi as int) =~= Seq::<Seq<char>>::empty());
    }
    let finished = current;
    lines.push(Line { glyphs: finished });
    proof {
        assert(rows_view(lines@) =~= target->Ok_0);
    }
    Result::Ok((lines, gh as u32))
}

// ---------------------------------------------------------------------------
// The font size search
// ---------------------------------------------------------------------------

/// Try sizes from `size` down to [`MIN_FONT_SIZE`], returning the wrap of
/// the first (largest) size that fits together with that size.  A word
/// whose width is undefined aborts the search at once, since no size can
/// mend it; running out of sizes yields the terminal fit error.
pub open spec fn spec_search(
    font: Font,
    words: Seq<Seq<char>>,
    width: u32,
    height: u32,
    size: int,
) -> Result<(Seq<Seq<SpecPositionedGlyph>>, int), LayoutError>
    decreases (if size >= MIN_FONT_SIZE { size - MIN_FONT_SIZE + 1 } else { 0 }),
{
    if size < MIN_FONT_SIZE {
        Result::Err(LayoutError::FitError { width, height })
    } else {
        match spec_layout_at(font.spec_at(size), words, width as int, height as int) {
            Result::Ok(rows) => Result::Ok((rows, size)),
            Result::Err(e) => if e == LayoutError::MalformedWord {
                Result::Err(LayoutError::MalformedWord)
            } else {
                spec_search(font, words, width, height, size - 1)
            },
        }
    }
}

/// The whole engine: split the text into words and search the size range.
pub open spec fn spec_new(font: Font, text: Seq<char>, width: u32, height: u32) -> Result<
    (Seq<Seq<SpecPositionedGlyph>>, int),
    LayoutError,
> {
    spec_search(font, split_words(text), width, height, MAX_FONT_SIZE as int)
}

/// A block of laid-out lines, all produced at `font_size`, each
/// `line_height` pixels tall.
pub struct Layout {
    pub lines: Vec<Line>,
    pub line_height: u32,
    pub font_size: u32,
}

// ---------------------------------------------------------------------------
// Line and block widths
// ---------------------------------------------------------------------------

pub open spec fn clamp_u32(v: int) -> u32 {
    if v < 0 {
        0u32
    } else if v > u32::MAX {
        u32::MAX
    } else {
        v as u32
    }
}

/// Pixel width of one line: the left-side bearing of its first glyph plus
/// the measured width of its glyph run (each 0 when undefined), clamped
/// to the `u32` range.
pub open spec fn spec_line_width(l: Seq<SpecPositionedGlyph>) -> int {
    let lsb = if l.len() == 0 {
        0
    } else {
        l[0].info.left_side_bearing
    };
    let ww = match spec_word_width(l) {
        Option::Some(v) => v,
        Option::None => 0,
    };
    lsb + ww
}

/// Width of the widest line of the block, 0 for an empty block.
pub open spec fn rows_max_width(rows: Seq<Seq<SpecPositionedGlyph>>) -> u32
    decreases rows.len(),
{
    if rows.len() == 0 {
        0u32
    } else {
        let m = rows_max_width(rows.drop_last());
        let w = clamp_u32(spec_line_width(rows.last()));
        if w > m {
            w
        } else {
            m
        }
    }
}

pub proof fn lemma_rows_max_width_ge(rows: Seq<Seq<SpecPositionedGlyph>>, i: int)
    requires
        0 <= i < rows.len(),
    ensures
        clamp_u32(spec_line_width(rows[i])) <= rows_max_width(rows),
    decreases rows.len(),
{
    if i == rows.len() - 1 {
    } else {
        lemma_rows_max_width_ge(rows.drop_last(), i);
    }
}

impl Line {
    /// Pixel width of this line; 0 when the line has no boxed glyph.
    pub fn calculated_width(&self) -> (r: u32)
        requires
            forall|i: int| 0 <= i < self@.len() ==> pg_wf(#[trigger] self@[i]),
        ensures
            r == clamp_u32(spec_line_width(self@)),
    {
        proof {
            assert(pg_view(self.glyphs@) =~= self@);
        }
        let lsb: i64 = if self.glyphs.len() > 0 {
            self.glyphs[0].info.left_side_bearing
        } else {
            0
        };
        let ww: i64 = match word_width(&self.glyphs) {
            Result::Ok(v) => {
                proof {
                    lemma_last_bounded_in_range(self@);
                    let j = last_bounded(self@).unwrap();
                    assert(pg_wf(self@[j]));
                    assert(pg_wf(self@[0]));
                }
                v
            },
            Result::Err(_) => 0,
        };
        let total = lsb + ww;
        if total < 0 {
            0
        } else if total > u32::MAX as i64 {
            u32::MAX
        } else {
            total as u32
        }
    }
}

// ---------------------------------------------------------------------------
// Horizontal alignment
// ---------------------------------------------------------------------------

/// Horizontal placement policy for a whole block of laid-out lines:
/// either every line starts at the left edge, or each line is centered
/// against the widest line of the block.
#[derive(Clone, Copy, PartialEq, Eq, Structural, Debug)]
pub enum HorizontalLayoutCalculator {
    LeftAligned,
    CenterAligned(u32),
}

impl HorizontalLayoutCalculator {
    pub open spec fn spec_left_padding(self, line_width: u32) -> u32 {
        match self {
            HorizontalLayoutCalculator::LeftAligned => 0u32,
            HorizontalLayoutCalculator::CenterAligned(max_width) => (((max_width - line_width)
                / 2) as u32),
        }
    }

    /// Number of pixels of padding inserted to the left of a line of the
    /// given width under this policy: half the distance to the widest line
    /// when centering, none when left-aligned.
    pub fn left_padding(&self, line_width: u32) -> (r: u32)
        requires
            self is CenterAligned ==> line_width <= self->0,
        ensures
            r == self.spec_left_padding(line_width),
    {
        match self {
            HorizontalLayoutCalculator::LeftAligned => 0,
            HorizontalLayoutCalculator::CenterAligned(max_width) => (*max_width - line_width) / 2,
        }
    }
}

impl Layout {
    pub open spec fn rows(self) -> Seq<Seq<SpecPositionedGlyph>> {
        rows_view(self.lines@)
    }

    pub open spec fn wf(self) -> bool {
        forall|a: int, b: int|
            0 <= a < self.rows().len() && 0 <= b < self.rows()[a].len() ==> pg_wf(
                #[trigger] self.rows()[a][b],
            )
    }

    /// The alignment the block asks for: centered as soon as some line is
    /// more than [`MIN_DISTANCE_TO_CENTER_TEXT`] pixels narrower than the
    /// widest line, left-aligned otherwise.
    pub open spec fn spec_policy(self) -> HorizontalLayoutCalculator {
        let maxw = rows_max_width(self.rows());
        if exists|i: int|
            0 <= i < self.rows().len() && maxw - clamp_u32(spec_line_width(self.rows()[i]))
                > MIN_DISTANCE_TO_CENTER_TEXT {
            HorizontalLayoutCalculator::CenterAligned(maxw)
        } else {
            HorizontalLayoutCalculator::LeftAligned
        }
    }

    /// Find the largest font size in the search range whose wrapped text
    /// fits the `width` x `height` rectangle.
    pub fn new(font: &Font, text: &str, width: u32, height: u32) -> (r: Result<
        Layout,
        LayoutError,
    >)
        requires
            font.wf(),
            width >= 1,
            height >= 1,
            text@.len() <= 0xFFFF_FFFFu64,
        ensures
            match spec_new(*font, text@, width, height) {
                Result::Ok(p) => {
                    &&& r is Ok
                    &&& r->Ok_0.rows() == p.0
                    &&& r->Ok_0.font_size == p.1
                    &&& r->Ok_0.line_height == font.spec_at(p.1).glyph_height()
                    &&& r->Ok_0.wf()
                },
                Result::Err(e) => r == Result::Err::<Layout, LayoutError>(e),
            },
    {
        let words = split_ascii_words(text);
        proof {
            lemma_split_words_bounds(text@);
            assert forall|i: int| 0 <= i < words@.len() implies #[trigger] words@[i]@.len()
                <= 0xFFFF_FFFFu64 by {
                assert(words@[i]@ == words_view(words@)[i]);
                assert(words_view(words@)[i].len() <= text@.len());
            }
        }
        let mut size: u32 = MAX_FONT_SIZE;
        loop
            invariant
                font.wf(),
                MIN_FONT_SIZE <= size <= MAX_FONT_SIZE,
                words_view(words@) == split_words(text@),
                forall|i: int| 0 <= i < words@.len() ==> #[trigger] words@[i]@.len()
                    <= 0xFFFF_FFFFu64,
                width >= 1,
                spec_search(*font, words_view(words@), width, height, size as int) == spec_new(
                    *font,
                    text@,
                    width,
                    height,
                ),
            decreases size,
        {
            match layout_at_font_size(font, &words, width, height, size) {
                Result::Ok(p) => {
                    let (line_vec, line_height) = p;
                    return Result::Ok(
                        Layout { lines: line_vec, line_height, font_size: size },
                    );
                },
                Result::Err(LayoutError::MalformedWord) => {
                    return Result::Err(LayoutError::MalformedWord);
                },
                Result::Err(_) => {
                    if size == MIN_FONT_SIZE {
                        proof {
                            assert(spec_search(
                                *font,
                                words_view(words@),
                                width,
                                height,
                                MIN_FONT_SIZE - 1,
                            ) == Result::Err::<(Seq<Seq<SpecPositionedGlyph>>, int), LayoutError>(
                                LayoutError::FitError { width, height },
                            ));
                        }
                        return Result::Err(LayoutError::FitError { width, height });
                    }
                    size = size - 1;
                },
            }
        }
    }

    /// Width of the widest line of the block.
    pub fn calculated_width(&self) -> (r: u32)
        requires
            self.wf(),
        ensures
            r == rows_max_width(self.rows()),
    {
        let mut m: u32 = 0;
        proof {
            assert(self.rows().take(0) =~= Seq::<Seq<SpecPositionedGlyph>>::empty());
        }
        let n = self.lines.len();
        for i in 0..n
            invariant
                n == self.lines@.len(),
                self.wf(),
                m == rows_max_width(self.rows().take(i as int)),
        {
            proof {
                assert(self.rows()[i as int] == self.lines@[i as int]@);
                assert forall|b: int| 0 <= b < self.lines@[i as int]@.len() implies pg_wf(
                    #[trigger] self.lines@[i as int]@[b],
                ) by {
                    assert(self.rows()[i as int][b] == self.lines@[i as int]@[b]);
                }
            }
            let w = self.lines[i].calculated_width();
            proof {
                assert(self.rows().take(i + 1).drop_last() =~= self.rows().take(i as int));
                assert(self.rows().take(i + 1).last() == self.rows()[i as int]);
            }
            if w > m {
                m = w;
            }
        }
        proof {
            assert(self.rows().take(n as int) =~= self.rows());
        }
        m
    }

    /// Total height of the block: line count times line height.
    pub fn calculated_height(&self) -> (r: u32)
        requires
            self.lines@.len() <= u32::MAX,
            self.lines@.len() * self.line_height <= u32::MAX,
        ensures
            r == self.lines@.len() * self.line_height,
    {
        (self.lines.len() as u32) * self.line_height
    }

    /// Decide the block's alignment policy from its line widths.
    pub fn calculate_padding(&self) -> (r: HorizontalLayoutCalculator)
        requires
            self.wf(),
        ensures
            r == self.spec_policy(),
    {
        let max_width = self.calculated_width();
        let mut centered = false;
        let n = self.lines.len();
        for i in 0..n
            invariant
                n == self.lines@.len(),
                self.wf(),
                max_width == rows_max_width(self.rows()),
                centered == exists|j: int|
                    0 <= j < i && max_width - clamp_u32(spec_line_width(self.rows()[j]))
                        > MIN_DISTANCE_TO_CENTER_TEXT,
        {
            proof {
                assert(self.rows()[i as int] == self.lines@[i as int]@);
                assert forall|b: int| 0 <= b < self.lines@[i as int]@.len() implies pg_wf(
                    #[trigger] self.lines@[i as int]@[b],
                ) by {
                    assert(self.rows()[i as int][b] == self.lines@[i as int]@[b]);
                }
            }
            let w = self.lines[i].calculated_width();
            proof {
                lemma_rows_max_width_ge(self.rows(), i as int);
            }
            if max_width - w > MIN_DISTANCE_TO_CENTER_TEXT {
                centered = true;
            }
        }
        if centered {
            HorizontalLayoutCalculator::CenterAligned(max_width)
        } else {
            HorizontalLayoutCalculator::LeftAligned
        }
    }
}

// ---------------------------------------------------------------------------
// Compositing
// ---------------------------------------------------------------------------

/// Blend the first `k` entries of the coverage mask `b`, whose pixel
/// `i` of each row `i / b.width` lands at `(ox + i % b.width,
/// oy + i / b.width)` on the canvas; entries outside the canvas are
/// skipped (clipped), in-bounds entries are source-over blended.
pub open spec fn spec_blit(
    pixels: Seq<Rgba>,
    cw: int,
    ch: int,
    b: SpecGlyphBounds,
    ox: int,
    oy: int,
    color: Rgba,
    k: nat,
) -> Seq<Rgba>
    decreases k,
{
    if k == 0 || b.width <= 0 {
        pixels
    } else {
        let p = spec_blit(pixels, cw, ch, b, ox, oy, color, (k - 1) as nat);
        let i = k - 1;
        let px = ox + i % b.width;
        let py = oy + i / b.width;
        if 0 <= px < cw && 0 <= py < ch && i < b.coverage.len() {
            let idx = py * cw + px;
            if 0 <= idx < p.len() {
                p.update(idx, blend(p[idx], color, b.coverage[i]))
            } else {
                p
            }
        } else {
            p
        }
    }
}

/// Composite one positioned glyph; a glyph without a bounding box draws
/// nothing.
pub open spec fn spec_render_glyph(
    pixels: Seq<Rgba>,
    cw: int,
    ch: int,
    g: SpecPositionedGlyph,
    dx: int,
    dy: int,
    color: Rgba,
) -> Seq<Rgba> {
    match g.info.bounds {
        Option::None => pixels,
        Option::Some(b) => spec_blit(
            pixels,
            cw,
            ch,
            b,
            g.x + dx + b.min_x,
            g.y + dy + b.min_y,
            color,
            b.coverage.len(),
        ),
    }
}

/// Composite the glyphs of one line, in order.
pub open spec fn spec_render_line(
    pixels: Seq<Rgba>,
    cw: int,
    ch: int,
    l: Seq<SpecPositionedGlyph>,
    dx: int,
    dy: int,
    color: Rgba,
) -> Seq<Rgba>
    decreases l.len(),
{
    if l.len() == 0 {
        pixels
    } else {
        spec_render_glyph(
            spec_render_line(pixels, cw, ch, l.drop_last(), dx, dy, color),
            cw,
            ch,
            l.last(),
            dx,
            dy,
            color,
        )
    }
}

/// Composite every line of the block, in order, each shifted right by
/// its padding under `policy`.
pub open spec fn spec_render_rows(
    pixels: Seq<Rgba>,
    cw: int,
    ch: int,
    rows: Seq<Seq<SpecPositionedGlyph>>,
    policy: HorizontalLayoutCalculator,
    x: int,
    y: int,
    color: Rgba,
) -> Seq<Rgba>
    decreases rows.len(),
{
    if rows.len() == 0 {
        pixels
    } else {
        let p = spec_render_rows(pixels, cw, ch, rows.drop_last(), policy, x, y, color);
        let l = rows.last();
        let pad = policy.spec_left_padding(clamp_u32(spec_line_width(l)));
        spec_render_line(p, cw, ch, l, x + pad, y, color)
    }
}

/// The whole render: the block's lines composited under its own policy.
pub open spec fn spec_render_layout(
    pixels: Seq<Rgba>,
    cw: int,
    ch: int,
    layout: Layout,
    x: int,
    y: int,
    color: Rgba,
) -> Seq<Rgba> {
    spec_render_rows(pixels, cw, ch, layout.rows(), layout.spec_policy(), x, y, color)
}

impl Line {
    /// Composite this line's glyphs onto the canvas at `(x, y)`, shifted
    /// right by the padding the policy assigns to this line's width.
    /// Pixels falling outside the canvas are clipped, never an error.
    pub fn render(
        &self,
        canvas: &mut Canvas,
        color: Rgba,
        x: u32,
        y: u32,
        padding_calculator: &HorizontalLayoutCalculator,
    ) -> (r: Result<(), LayoutError>)
        requires
            old(canvas).wf(),
            forall|i: int| 0 <= i < self@.len() ==> pg_wf(#[trigger] self@[i]),
            padding_calculator is CenterAligned ==> clamp_u32(spec_line_width(self@))
                <= padding_calculator->0,
        ensures
            final(canvas).wf(),
            final(canvas).width == old(canvas).width,
            final(canvas).height == old(canvas).height,
            final(canvas).pixels@ == spec_render_line(
                old(canvas).pixels@,
                old(canvas).width as int,
                old(canvas).height as int,
                self@,
                x + padding_calculator.spec_left_padding(clamp_u32(spec_line_width(self@))),
                y as int,
                color,
            ),
            r is Ok,
    {
        proof {
            assert(pg_view(self.glyphs@) =~= self@);
        }
        let width = self.calculated_width();
        let centering_padding = padding_calculator.left_padding(width);
        let dx: i64 = x as i64 + centering_padding as i64;
        let dy: i64 = y as i64;
        let n = self.glyphs.len();
        proof {
            assert(self@.take(0) =~= Seq::<SpecPositionedGlyph>::empty());
        }
        for j in 0..n
            invariant
                n == self.glyphs@.len(),
                n == self@.len(),
                forall|i: int| 0 <= i < self@.len() ==> pg_wf(#[trigger] self@[i]),
                canvas.wf(),
                canvas.width == old(canvas).width,
                canvas.height == old(canvas).height,
                dx == x + padding_calculator.spec_left_padding(
                    clamp_u32(spec_line_width(self@)),
                ),
                dy == y as int,
                canvas.pixels@ == spec_render_line(
                    old(canvas).pixels@,
                    canvas.width as int,
                    canvas.height as int,
                    self@.take(j as int),
                    dx as int,
                    dy as int,
                    color,
                ),
        {
            proof {
                assert(self@.take(j + 1).drop_last() =~= self@.take(j as int));
                assert(self@.take(j + 1).last() == self@[j as int]);
                assert(self@[j as int] == self.glyphs@[j as int]@);
                assert(pg_wf(self@[j as int]));
            }
            let ghost before_glyph = canvas.pixels@;
            match &self.glyphs[j].info.bounds {
                Option::None => {},
                Option::Some(b) => {
                    let g_x = self.glyphs[j].x;
                    let g_y = self.glyphs[j].y;
                    let ox: i64 = g_x + dx + b.min_x;
                    let oy: i64 = g_y + dy + b.min_y;
                    let w_us: usize = b.width as usize;
                    let total: usize = b.coverage.len();
                    let cw = canvas.width;
                    let ch = canvas.height;
                    proof {
                        assert(b@ == self@[j as int].info.bounds.unwrap());
                        assert(b@.wf());
                    }
                    for k in 0..total
                        invariant
                            total == b@.coverage.len(),
                            w_us == b@.width,
                            b@.wf(),
                            cw == canvas.width,
                            ch == canvas.height,
                            canvas.wf(),
                            canvas.width == old(canvas).width,
                            canvas.height == old(canvas).height,
                            -0x10_0000_0000_0000 <= ox <= 0x10_0000_0000_0000,
                            -0x10_0000_0000_0000 <= oy <= 0x10_0000_0000_0000,
                            canvas.pixels@ == spec_blit(
                                before_glyph,
                                cw as int,
                                ch as int,
                                b@,
                                ox as int,
                                oy as int,
                                color,
                                k as nat,
                            ),
                    {
                        let gx = k % w_us;
                        let gy = k / w_us;
                        proof {
                            assert(k as int / (b@.width) < b@.height && k as int % (b@.width)
                                < b@.width && k as int % (b@.width) >= 0 && k as int / (b@.width)
                                >= 0) by (nonlinear_arith)
                                requires
                                    0 <= k < b@.coverage.len(),
                                    b@.coverage.len() == b@.width * b@.height,
                                    b@.width >= 1,
                                    b@.height >= 1,
                            ;
                        }
                        let px: i64 = ox + gx as i64;
                        let py: i64 = oy + gy as i64;
                        if px >= 0 && px < cw as i64 && py >= 0 && py < ch as i64 {
                            let cov = b.coverage[k];
                            proof {
                                assert((py as int) * (cw as int) + (px as int) < (cw as int) * (
                                ch as int)) by (nonlinear_arith)
                                    requires
                                        0 <= px < cw,
                                        0 <= py < ch,
                                ;
                            }
                            let idx: usize = (py as usize) * (cw as usize) + (px as usize);
                            let dst = canvas.get_pixel(px as u32, py as u32);
                            proof {
                                assert(dst == canvas.pixels@[idx as int]);
                            }
                            let blended = blend_exec(dst, color, cov);
                            canvas.put_pixel_at(idx, blended);
                        }
                    }
                    proof {
                        assert(canvas.pixels@ == spec_render_glyph(
                            before_glyph,
                            canvas.width as int,
                            canvas.height as int,
                            self@[j as int],
                            dx as int,
                            dy as int,
                            color,
                        ));
                    }
                },
            }
        }
        proof {
            assert(self@.take(n as int) =~= self@);
        }
        Result::Ok(())
    }
}

impl Layout {
    /// Composite the whole block onto the canvas with its top-left corner
    /// at `(x, y)`: every line is placed under the block's alignment
    /// policy and every glyph is alpha-blended with clipping at the
    /// canvas edges.  Only the canvas changes; the call always succeeds.
    pub fn render(&self, canvas: &mut Canvas, color: Rgba, x: u32, y: u32) -> (r: Result<
        (),
        LayoutError,
    >)
        requires
            self.wf(),
            old(canvas).wf(),
        ensures
            final(canvas).wf(),
            final(canvas).width == old(canvas).width,
            final(canvas).height == old(canvas).height,
            final(canvas).pixels@ == spec_render_layout(
                old(canvas).pixels@,
                old(canvas).width as int,
                old(canvas).height as int,
                *self,
                x as int,
                y as int,
                color,
            ),
            r is Ok,
    {
        let padding_calculator = self.calculate_padding();
        let n = self.lines.len();
        proof {
            assert(self.rows().take(0) =~= Seq::<Seq<SpecPositionedGlyph>>::empty());
        }
        for i in 0..n
            invariant
                n == self.lines@.len(),
                self.wf(),
                canvas.wf(),
                canvas.width == old(canvas).width,
                canvas.height == old(canvas).height,
                padding_calculator == self.spec_policy(),
                canvas.pixels@ == spec_render_rows(
                    old(canvas).pixels@,
                    canvas.width as int,
                    canvas.height as int,
                    self.rows().take(i as int),
                    padding_calculator,
                    x as int,
                    y as int,
                    color,
                ),
        {
            proof {
                assert(self.rows()[i as int] == self.lines@[i as int]@);
                assert forall|b: int| 0 <= b < self.lines@[i as int]@.len() implies pg_wf(
                    #[trigger] self.lines@[i as int]@[b],
                ) by {
                    assert(self.rows()[i as int][b] == self.lines@[i as int]@[b]);
                }
                lemma_rows_max_width_ge(self.rows(), i as int);
                assert(self.rows().take(i + 1).drop_last() =~= self.rows().take(i as int));
                assert(self.rows().take(i + 1).last() == self.rows()[i as int]);
            }
            match self.lines[i].render(canvas, color, x, y, &padding_calculator) {
                Result::Ok(_) => {},
                Result::Err(e) => {
                    return Result::Err(e);
                },
            }
        }
        proof {
            assert(self.rows().take(n as int) =~= self.rows());
        }
        Result::Ok(())
    }
}

} // verus!
