//! Text-layout tests: the word-wrap boundary and the glyph pipeline from
//! rasterized inputs through the per-style atlas.

use gggg_ui::context::Context;
use gggg_ui::error::UiError;
use gggg_ui::loader::Loader;
use gggg_ui::shape::ShapeType;
use gggg_ui::text::Text;
use gggg_ui::text_style::{Metrics, TextStyle, TextStyleComputed};
use gggg_ui::widget::{Widget, WidgetCache};
use gggg_ui::widgets::{BoxConstraints, Color, Size};
use gggg_ui::Offset;

fn metrics10() -> Metrics {
    Metrics { width: 1, height: 1, advance_width: 10, advance_height: 10, xmin: 0, ymin: 0 }
}

fn computed_for(chars: &str) -> TextStyleComputed {
    let mut glyphs = Vec::new();
    for ch in chars.chars() {
        glyphs.push((ch, metrics10(), vec![0xFF]));
    }
    TextStyleComputed::new(glyphs).unwrap()
}

fn context_with_default_style(chars: &str) -> Context {
    let mut ctx = Context::new(Loader::new());
    let style = TextStyle::new(Color::RGBA(0, 0, 0, 255), "Roboto".to_owned(), 20);
    ctx.insert_style(style.handle(), computed_for(chars));
    ctx
}

fn loose(w: i64, h: i64) -> BoxConstraints {
    BoxConstraints::new(Size::new(0, 0), Size::new(w, h))
}

#[test]
fn word_wraps_at_the_word_boundary() {
    // every character advances 10 units; under a maximum width of 50,
    // "hi " takes 30 units, so "there" (50 units) would overrun the line
    // and must start at a new line, not mid-word
    let ctx = context_with_default_style("hiter ");
    let w = Widget::Text(Text::new("hi there".to_owned()));
    let run = w.layout(&loose(50, 200), &ctx).unwrap();
    match &run.cache {
        WidgetCache::Text(tc) => {
            assert!(!tc.truncated);
            let letters: Vec<(char, i64, i64)> =
                tc.letters.iter().map(|l| (l.ch, l.x, l.y)).collect();
            // line height is 20 * 3 / 2 = 30
            assert_eq!(letters[0], ('h', 0, 0));
            assert_eq!(letters[1], ('i', 10, 0));
            assert_eq!(letters[2], ('t', 0, 30));
            assert_eq!(letters[3], ('h', 10, 30));
            assert_eq!(letters[4], ('e', 20, 30));
            assert_eq!(letters[5], ('r', 30, 30));
            assert_eq!(letters[6], ('e', 40, 30));
        },
        _ => panic!("text cache expected"),
    }
    assert_eq!(run.size, Size::new(50, 60));
}

#[test]
fn text_that_fits_stays_on_one_line() {
    let ctx = context_with_default_style("hi ");
    let w = Widget::Text(Text::new("hi".to_owned()));
    let run = w.layout(&loose(100, 100), &ctx).unwrap();
    match &run.cache {
        WidgetCache::Text(tc) => {
            assert_eq!(tc.letters.len(), 2);
            assert_eq!((tc.letters[0].x, tc.letters[0].y), (0, 0));
            assert_eq!((tc.letters[1].x, tc.letters[1].y), (10, 0));
            assert!(!tc.truncated);
        },
        _ => panic!("text cache expected"),
    }
    assert_eq!(run.size, Size::new(20, 30));
}

#[test]
fn overflowing_the_vertical_budget_truncates() {
    // the second word would need a new line, but the vertical budget
    // cannot take one more line: the remaining text is dropped
    let ctx = context_with_default_style("abcdef ");
    let w = Widget::Text(Text::new("abc def".to_owned()));
    let run = w.layout(&loose(40, 30), &ctx).unwrap();
    match &run.cache {
        WidgetCache::Text(tc) => {
            assert!(tc.truncated);
            assert_eq!(tc.letters.len(), 3);
        },
        _ => panic!("text cache expected"),
    }
}

#[test]
fn missing_style_is_reported() {
    let ctx = Context::new(Loader::new());
    let w = Widget::Text(Text::new("hi".to_owned()));
    assert_eq!(w.layout(&loose(50, 50), &ctx).err(), Some(UiError::StyleNotFound));
}

#[test]
fn missing_glyph_is_reported() {
    let ctx = context_with_default_style("h");
    let w = Widget::Text(Text::new("hi".to_owned()));
    assert_eq!(w.layout(&loose(500, 500), &ctx).err(), Some(UiError::UnknownHandle));
}

#[test]
fn glyph_shapes_carry_their_atlas_rects() {
    let ctx = context_with_default_style("hi ");
    let w = Widget::Text(Text::new("hi".to_owned()));
    let c = loose(100, 100);
    let run = w.layout(&c, &ctx).unwrap();
    let shapes = w.get_shapes(&Offset { dx: 5, dy: 7 }, &c, &run.cache, &ctx).unwrap();
    assert_eq!(shapes.len(), 2);
    match &shapes[0].shape {
        ShapeType::Glyph(g) => {
            assert_eq!(g.character, 'h');
            assert_eq!(g.font_family, "Roboto");
            // the glyph's atlas rectangle has the bitmap's dimensions
            assert_eq!((g.atlas_rect.w, g.atlas_rect.h), (1, 1));
        },
        _ => panic!("glyph expected"),
    }
    assert_eq!((shapes[0].offset.dx, shapes[0].offset.dy), (5, 7));
    assert_eq!((shapes[1].offset.dx, shapes[1].offset.dy), (15, 7));
}

#[test]
fn style_handles_are_deterministic() {
    let s1 = TextStyle::new(Color::RGBA(1, 2, 3, 4), "Roboto".to_owned(), 20);
    let s2 = TextStyle::new(Color::RGBA(9, 9, 9, 9), "Roboto".to_owned(), 20);
    let s3 = TextStyle::new(Color::RGBA(1, 2, 3, 4), "Roboto".to_owned(), 21);
    assert_eq!(s1.handle(), s2.handle());
    assert_ne!(s1.handle(), s3.handle());
}

#[test]
fn building_a_style_rejects_oversized_glyphs() {
    // a glyph wider than the packing width can never fit a shelf row
    let glyphs = vec![(
        'w',
        Metrics { width: 513, height: 1, advance_width: 10, advance_height: 10, xmin: 0, ymin: 0 },
        vec![0u8; 513],
    )];
    assert_eq!(TextStyleComputed::new(glyphs).err(), Some(UiError::AtlasTooLarge));
}

#[test]
fn building_a_style_rejects_mismatched_bitmaps() {
    // the bitmap must hold exactly width * height bytes
    let glyphs = vec![(
        'm',
        Metrics { width: 2, height: 2, advance_width: 10, advance_height: 10, xmin: 0, ymin: 0 },
        vec![0u8; 3],
    )];
    assert_eq!(TextStyleComputed::new(glyphs).err(), Some(UiError::AtlasTooLarge));
}

#[test]
fn built_styles_resolve_every_character_with_its_dimensions() {
    let glyphs = vec![
        ('a', Metrics { width: 3, height: 2, advance_width: 4, advance_height: 4, xmin: 0, ymin: 0 }, vec![1u8; 6]),
        ('b', Metrics { width: 1, height: 5, advance_width: 2, advance_height: 6, xmin: 0, ymin: 0 }, vec![2u8; 5]),
    ];
    let computed = TextStyleComputed::new(glyphs).unwrap();
    let ra = computed.get_char_rect('a').unwrap();
    let rb = computed.get_char_rect('b').unwrap();
    assert_eq!((ra.w, ra.h), (3, 2));
    assert_eq!((rb.w, rb.h), (1, 5));
    assert!(computed.get_char_rect('c').is_none());
}

#[test]
fn built_styles_compose_the_glyph_image() {
    let glyphs = vec![
        ('a', Metrics { width: 1, height: 1, advance_width: 2, advance_height: 2, xmin: 0, ymin: 0 }, vec![0x11]),
        ('b', Metrics { width: 1, height: 1, advance_width: 2, advance_height: 2, xmin: 0, ymin: 0 }, vec![0x22]),
    ];
    let computed = TextStyleComputed::new(glyphs).unwrap();
    let img = computed.image();
    // the two unit glyphs sit side by side on the first shelf of the
    // fixed-width atlas; everything else stays zero
    assert_eq!((img.width, img.height), (512, 1));
    assert_eq!(img.data.len(), 512);
    let ra = computed.get_char_rect('a').unwrap();
    let rb = computed.get_char_rect('b').unwrap();
    assert_eq!(img.data[(ra.y * 512 + ra.x) as usize], 0x11);
    assert_eq!(img.data[(rb.y * 512 + rb.x) as usize], 0x22);
    assert!(img.data.iter().enumerate().all(|(i, b)| {
        i == (ra.y * 512 + ra.x) as usize || i == (rb.y * 512 + rb.x) as usize || *b == 0
    }));
}
