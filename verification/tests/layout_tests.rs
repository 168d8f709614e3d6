use titlefit::font::{Font, GlyphBounds, GlyphInfo, SizedFont, MAX_FONT_SIZE, MIN_FONT_SIZE};
use titlefit::layout::{HorizontalLayoutCalculator, Layout, LayoutError, Line, PositionedGlyph};

/// A synthetic font: at size `s`, every listed character is `s / 2` wide
/// and `s` tall, with a fully opaque coverage mask and no side bearing.
fn square_font(chars: &[char]) -> Font {
    let mut sizes = Vec::new();
    for s in MIN_FONT_SIZE..=MAX_FONT_SIZE {
        let adv = (s / 2) as i64;
        let mut glyphs = Vec::new();
        for &c in chars {
            glyphs.push(GlyphInfo {
                ch: c,
                advance: adv,
                left_side_bearing: 0,
                bounds: Some(GlyphBounds {
                    min_x: 0,
                    min_y: -(s as i64),
                    width: s / 2,
                    height: s,
                    coverage: vec![255u8; ((s / 2) * s) as usize],
                }),
            });
        }
        sizes.push(SizedFont {
            size: s,
            ascent: s as i64,
            descent: 0,
            space_advance: adv,
            glyphs,
        });
    }
    Font { sizes }
}

fn hello_chars() -> Vec<char> {
    "HeloWrdat".chars().collect()
}

fn line_of_width(w: u32) -> Line {
    Line {
        glyphs: vec![PositionedGlyph {
            info: GlyphInfo {
                ch: 'a',
                advance: w as i64,
                left_side_bearing: 0,
                bounds: Some(GlyphBounds {
                    min_x: 0,
                    min_y: 0,
                    width: w,
                    height: 1,
                    coverage: vec![255u8; w as usize],
                }),
            },
            x: 0,
            y: 0,
        }],
    }
}

fn block_of_widths(widths: &[u32]) -> Layout {
    Layout {
        lines: widths.iter().map(|&w| line_of_width(w)).collect(),
        line_height: 10,
        font_size: 20,
    }
}

#[test]
fn hello_world_fits_one_line_at_the_largest_size() {
    let font = square_font(&hello_chars());
    let layout = Layout::new(&font, "Hello World", 400, 100).expect("should fit");
    // At size 73 both words fit one line (5*36 + 36 + 5*36 = 396 < 400);
    // at size 74 they no longer do, and two lines of 74 overflow 100.
    assert_eq!(layout.font_size, 73);
    assert_eq!(layout.lines.len(), 1);
    assert_eq!(layout.line_height, 73);
    assert_eq!(layout.calculated_width(), 396);
    assert_eq!(layout.calculated_height(), 73);
}

#[test]
fn narrower_target_forces_a_smaller_size() {
    let font = square_font(&hello_chars());
    let wide = Layout::new(&font, "Hello World", 400, 100).expect("should fit");
    let narrow = Layout::new(&font, "Hello World", 200, 100).expect("should fit");
    // 200 px force a wrap; two lines of 49 px still fit 100 px of height.
    assert_eq!(narrow.font_size, 49);
    assert_eq!(narrow.lines.len(), 2);
    assert!(wide.font_size > narrow.font_size);
}

#[test]
fn one_pixel_height_with_wrapping_text_is_a_fit_error() {
    let font = square_font(&['a']);
    let text = "aaaaa aaaaa aaaaa aaaaa aaaaa aaaaa aaaaa aaaaa";
    let r = Layout::new(&font, text, 400, 1);
    match r {
        Err(LayoutError::FitError { width, height }) => {
            assert_eq!(width, 400);
            assert_eq!(height, 1);
        }
        other => panic!("expected a fit error, got {:?}", other.map(|l| l.font_size)),
    }
}

#[test]
fn layout_is_deterministic() {
    let font = square_font(&hello_chars());
    let a = Layout::new(&font, "Hello World at War", 300, 200).expect("should fit");
    let b = Layout::new(&font, "Hello World at War", 300, 200).expect("should fit");
    assert_eq!(a.font_size, b.font_size);
    assert_eq!(a.line_height, b.line_height);
    assert_eq!(a.lines.len(), b.lines.len());
    assert_eq!(a.calculated_width(), b.calculated_width());
    assert_eq!(a.calculated_height(), b.calculated_height());
    for (la, lb) in a.lines.iter().zip(b.lines.iter()) {
        assert_eq!(la.glyphs.len(), lb.glyphs.len());
        for (ga, gb) in la.glyphs.iter().zip(lb.glyphs.iter()) {
            assert_eq!(ga.x, gb.x);
            assert_eq!(ga.y, gb.y);
            assert_eq!(ga.info.ch, gb.info.ch);
        }
    }
}

#[test]
fn a_word_without_any_bounding_box_is_malformed() {
    let mut font = square_font(&['a']);
    for sized in font.sizes.iter_mut() {
        for g in sized.glyphs.iter_mut() {
            if g.ch == 'a' {
                g.bounds = None;
            }
        }
    }
    let r = Layout::new(&font, "a", 400, 100);
    match r {
        Err(LayoutError::MalformedWord) => {}
        other => panic!(
            "expected a malformed word, got {:?}",
            other.map(|l| l.font_size)
        ),
    }
}

#[test]
fn empty_text_lays_out_as_one_empty_line_at_the_largest_size() {
    let font = square_font(&hello_chars());
    let layout = Layout::new(&font, "   ", 100, 200).expect("empty text always fits");
    assert_eq!(layout.font_size, 120);
    assert_eq!(layout.lines.len(), 1);
    assert_eq!(layout.lines[0].glyphs.len(), 0);
    assert_eq!(layout.calculated_width(), 0);
    assert_eq!(layout.calculated_height(), 120);
}

#[test]
fn lines_within_the_threshold_stay_left_aligned() {
    // Widths 100, 60 and 40 differ from the maximum by 0, 40 and 60
    // pixels, all within the 70 px threshold.
    let block = block_of_widths(&[100, 60, 40]);
    let policy = block.calculate_padding();
    assert_eq!(policy, HorizontalLayoutCalculator::LeftAligned);
    assert_eq!(policy.left_padding(40), 0);
}

#[test]
fn a_line_beyond_the_threshold_centers_the_block() {
    // 100 - 20 = 80 > 70, so the block is centered on the widest line.
    let block = block_of_widths(&[100, 20]);
    let policy = block.calculate_padding();
    assert_eq!(policy, HorizontalLayoutCalculator::CenterAligned(100));
    assert_eq!(policy.left_padding(20), 40);
    assert_eq!(policy.left_padding(100), 0);
}

#[test]
fn exactly_the_threshold_does_not_center() {
    let block = block_of_widths(&[100, 30]);
    let policy = block.calculate_padding();
    assert_eq!(policy, HorizontalLayoutCalculator::LeftAligned);
}

#[test]
fn splitting_drops_all_ascii_whitespace() {
    let words = titlefit::layout::split_ascii_words("  Hello \t\n  World ");
    assert_eq!(
        words,
        vec![
            vec!['H', 'e', 'l', 'l', 'o'],
            vec!['W', 'o', 'r', 'l', 'd'],
        ]
    );
}

#[test]
fn splitting_empty_text_yields_no_words() {
    let words = titlefit::layout::split_ascii_words(" \t ");
    assert_eq!(words.len(), 0);
}

#[test]
fn fit_invariant_holds_on_a_wrapped_layout() {
    let font = square_font(&hello_chars());
    let layout = Layout::new(&font, "Hello World at War", 200, 400).expect("should fit");
    assert!(layout.calculated_height() <= 400);
    for line in layout.lines.iter() {
        assert!(line.calculated_width() <= 200);
    }
}
