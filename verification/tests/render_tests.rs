use titlefit::canvas::{blend_exec, Canvas, Rgba};
use titlefit::font::{GlyphBounds, GlyphInfo};
use titlefit::layout::{Layout, Line, PositionedGlyph};

const BG: Rgba = Rgba {
    r: 10,
    g: 20,
    b: 30,
    a: 255,
};

const INK: Rgba = Rgba {
    r: 200,
    g: 100,
    b: 50,
    a: 255,
};

fn glyph_block(
    x: i64,
    y: i64,
    min_x: i64,
    min_y: i64,
    width: u32,
    height: u32,
    coverage: Vec<u8>,
) -> Layout {
    Layout {
        lines: vec![Line {
            glyphs: vec![PositionedGlyph {
                info: GlyphInfo {
                    ch: 'a',
                    advance: width as i64,
                    left_side_bearing: 0,
                    bounds: Some(GlyphBounds {
                        min_x,
                        min_y,
                        width,
                        height,
                        coverage,
                    }),
                },
                x,
                y,
            }],
        }],
        line_height: 1,
        font_size: 20,
    }
}

#[test]
fn blending_has_the_expected_rounded_values() {
    // (10 * 127 + 200 * 128 + 127) / 255 == 105, and so on per channel.
    let out = blend_exec(BG, INK, 128);
    assert_eq!(out, Rgba { r: 105, g: 60, b: 40, a: 255 });
    // Full coverage replaces the pixel, zero coverage keeps it.
    assert_eq!(blend_exec(BG, INK, 255), INK);
    assert_eq!(blend_exec(BG, INK, 0), BG);
}

#[test]
fn a_glyph_overhanging_the_edges_is_clipped() {
    // A fully opaque 3x3 mask drawn with its corner one pixel above and
    // left of the canvas: the five off-canvas pixels vanish, the four
    // on-canvas pixels take the ink exactly.
    let block = glyph_block(0, 0, -1, -1, 3, 3, vec![255u8; 9]);
    let mut canvas = Canvas::new(4, 4, BG);
    block.render(&mut canvas, INK, 0, 0).expect("render succeeds");
    for x in 0..4u32 {
        for y in 0..4u32 {
            let expected = if x <= 1 && y <= 1 { INK } else { BG };
            assert_eq!(canvas.get_pixel(x, y), expected, "pixel {} {}", x, y);
        }
    }
}

#[test]
fn partial_coverage_blends_in_bounds_pixels() {
    let block = glyph_block(1, 1, 0, 0, 1, 1, vec![128u8]);
    let mut canvas = Canvas::new(3, 3, BG);
    block.render(&mut canvas, INK, 0, 0).expect("render succeeds");
    assert_eq!(canvas.get_pixel(1, 1), Rgba { r: 105, g: 60, b: 40, a: 255 });
    assert_eq!(canvas.get_pixel(0, 0), BG);
    assert_eq!(canvas.get_pixel(2, 2), BG);
}

#[test]
fn rendering_is_idempotent_on_fresh_canvases() {
    let block = glyph_block(0, 2, 0, -2, 2, 2, vec![0, 64, 128, 255]);
    let mut first = Canvas::new(5, 5, BG);
    let mut second = Canvas::new(5, 5, BG);
    block.render(&mut first, INK, 1, 1).expect("render succeeds");
    block.render(&mut second, INK, 1, 1).expect("render succeeds");
    assert_eq!(first.pixels, second.pixels);
}

#[test]
fn the_render_origin_shifts_the_glyphs() {
    let block = glyph_block(0, 0, 0, 0, 1, 1, vec![255u8]);
    let mut canvas = Canvas::new(4, 4, BG);
    block.render(&mut canvas, INK, 2, 3).expect("render succeeds");
    for x in 0..4u32 {
        for y in 0..4u32 {
            let expected = if x == 2 && y == 3 { INK } else { BG };
            assert_eq!(canvas.get_pixel(x, y), expected, "pixel {} {}", x, y);
        }
    }
}

#[test]
fn a_centered_line_is_shifted_by_half_the_difference() {
    // Two lines, 8 and 1 pixels wide on a 10-wide canvas: 8 - 1 = 7 is
    // over no threshold here (7 <= 70), so the block stays left-aligned;
    // widen the gap with an 80-wide first line on a canvas of 100 to
    // force centering instead.
    let wide_glyph = PositionedGlyph {
        info: GlyphInfo {
            ch: 'a',
            advance: 80,
            left_side_bearing: 0,
            bounds: Some(GlyphBounds {
                min_x: 0,
                min_y: 0,
                width: 80,
                height: 1,
                coverage: vec![255u8; 80],
            }),
        },
        x: 0,
        y: 0,
    };
    let dot_glyph = PositionedGlyph {
        info: GlyphInfo {
            ch: 'b',
            advance: 1,
            left_side_bearing: 0,
            bounds: Some(GlyphBounds {
                min_x: 0,
                min_y: 0,
                width: 1,
                height: 1,
                coverage: vec![255u8],
            }),
        },
        x: 0,
        y: 1,
    };
    let block = Layout {
        lines: vec![Line { glyphs: vec![wide_glyph] }, Line { glyphs: vec![dot_glyph] }],
        line_height: 1,
        font_size: 20,
    };
    let mut canvas = Canvas::new(100, 4, BG);
    block.render(&mut canvas, INK, 0, 0).expect("render succeeds");
    // The 1-pixel second line is padded by (80 - 1) / 2 = 39.
    assert_eq!(canvas.get_pixel(39, 1), INK);
    assert_eq!(canvas.get_pixel(0, 1), BG);
    // The first line starts at the left edge: no padding for the widest.
    assert_eq!(canvas.get_pixel(0, 0), INK);
}
