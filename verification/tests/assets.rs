//! Asset loader and texture-atlas bookkeeping tests.

use gggg_ui::error::UiError;
use gggg_ui::loader::Loader;
use gggg_ui::texture_atlas::{Image, TextureAtlas};

#[test]
fn registered_font_bytes_come_back() {
    let mut loader = Loader::new();
    assert_eq!(loader.get_font_by_family().err(), Some(UiError::StyleNotFound));
    loader.insert_asset("/".to_owned(), vec![1, 2, 3]);
    let asset = loader.get_font_by_family().unwrap();
    assert_eq!(asset.bytes, vec![1, 2, 3]);
}

#[test]
fn texture_atlas_packs_at_fixed_width() {
    let mut atlas = TextureAtlas::new();
    let a = atlas.add(4, 4);
    let b = atlas.add(2, 2);
    atlas.pack().unwrap();
    assert_eq!(atlas.width, 512);
    let (ra, ha) = atlas.get_rect_from_handle(&a).unwrap();
    let (rb, hb) = atlas.get_rect_from_handle(&b).unwrap();
    assert_eq!((ha, hb), (a, b));
    // tallest first, side by side on the first shelf
    assert_eq!((ra.x, ra.y, ra.w, ra.h), (0, 0, 4, 4));
    assert_eq!((rb.x, rb.y, rb.w, rb.h), (4, 0, 2, 2));
    assert_eq!(atlas.height, 4);
}

#[test]
fn merge_composes_the_character_bitmaps() {
    let mut atlas = TextureAtlas::new();
    let a = atlas.add(1, 1);
    let b = atlas.add(1, 1);
    atlas.pack().unwrap();
    let bitmaps = vec![
        ('a', Image { data: vec![0x11], width: 1, height: 1 }),
        ('b', Image { data: vec![0x22], width: 1, height: 1 }),
    ];
    let keys = vec![('a', a), ('b', b)];
    let img = atlas.merge_bitmaps(bitmaps, keys).unwrap();
    assert_eq!(img.width, 512);
    let ra = atlas.get_rect('a').unwrap();
    let rb = atlas.get_rect('b').unwrap();
    let idx =
        |r: gggg_ui::texture_atlas::Rect| (r.y as usize) * img.width + r.x as usize;
    assert_eq!(img.data[idx(ra)], 0x11);
    assert_eq!(img.data[idx(rb)], 0x22);
}

#[test]
fn merge_rejects_unknown_handles_and_bad_bitmaps() {
    let mut atlas = TextureAtlas::new();
    let a = atlas.add(1, 1);
    atlas.pack().unwrap();
    let wrong = vec![('a', Image { data: vec![1, 2, 3], width: 3, height: 1 })];
    let keys = vec![('a', a)];
    assert_eq!(
        atlas.merge_bitmaps(wrong, keys).err(),
        Some(UiError::AtlasTooLarge),
    );
    let mut other = TextureAtlas::new();
    other.add(1, 1);
    other.pack().unwrap();
    // a handle that was never issued by this atlas
    let keys = vec![('z', 77)];
    assert_eq!(
        other.merge_bitmaps(Vec::new(), keys).err(),
        Some(UiError::UnknownHandle),
    );
}

#[test]
fn unknown_atlas_handle_reads_back_nothing() {
    let atlas = TextureAtlas::new();
    assert!(atlas.get_rect_from_handle(&5).is_none());
    assert!(atlas.get_rect('x').is_none());
}

#[test]
fn merge_rejects_characters_without_keys() {
    let mut atlas = TextureAtlas::new();
    atlas.add(1, 1);
    atlas.pack().unwrap();
    // a bitmap whose character has no entry in the key table
    let bitmaps = vec![('q', Image { data: vec![0x33], width: 1, height: 1 })];
    assert_eq!(
        atlas.merge_bitmaps(bitmaps, Vec::new()).err(),
        Some(UiError::UnknownHandle),
    );
}
