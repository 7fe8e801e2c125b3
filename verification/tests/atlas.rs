use depict::atlas::place::accepts;
use depict::atlas::{Atlas, NotFound, PackError, PackedRect};
use depict::bitmap::Bitmap;

fn solid(width: u32, height: u32, value: u8) -> Bitmap {
    Bitmap::new(width, height, vec![value; (width * height * 4) as usize]).unwrap()
}

#[test]
fn bitmap_needs_four_bytes_per_pixel() {
    assert!(Bitmap::new(2, 2, vec![0; 16]).is_some());
    assert!(Bitmap::new(2, 2, vec![0; 15]).is_none());
    assert!(Bitmap::new(0, 7, vec![]).is_some());
}

#[test]
fn add_twice_returns_same_id() {
    let mut atlas = Atlas::new(16, 64);
    let first = atlas.add(solid(4, 4, 9));
    let count = atlas.len();
    let second = atlas.add(solid(4, 4, 9));
    assert_eq!(first, second);
    assert_eq!(atlas.len(), count);
    let other = atlas.add(solid(4, 4, 10));
    assert_ne!(first, other);
    assert_eq!(atlas.len(), 2);
    assert!(atlas.dirty());
}

#[test]
fn repack_places_without_overlap() {
    let mut atlas = Atlas::new(16, 64);
    let a = atlas.add(solid(8, 8, 1));
    let b = atlas.add(solid(8, 8, 2));
    let c = atlas.add(solid(4, 12, 3));
    assert_eq!(atlas.repack(), Ok(()));
    assert!(!atlas.dirty());
    let side = atlas.size();
    let rects = [atlas.get(a).unwrap(), atlas.get(b).unwrap(), atlas.get(c).unwrap()];
    for (i, r) in rects.iter().enumerate() {
        assert!(r.x + r.width <= side && r.y + r.height <= side);
        assert_eq!(r.side, side);
        for s in rects.iter().skip(i + 1) {
            let apart = r.x + r.width <= s.x || s.x + s.width <= r.x || r.y + r.height <= s.y
                || s.y + s.height <= r.y;
            assert!(apart);
        }
    }
    let pixels = atlas.pixels();
    assert_eq!(pixels.len(), (side * side * 4) as usize);
    for (r, value) in rects.iter().zip([1u8, 2, 3]) {
        for y in r.y..r.y + r.height {
            for x in r.x..r.x + r.width {
                for ch in 0..4 {
                    assert_eq!(pixels[((y * side + x) * 4 + ch) as usize], value);
                }
            }
        }
    }
}

#[test]
fn repack_grows_to_the_ceiling() {
    let mut atlas = Atlas::new(4, 16);
    atlas.add(solid(16, 16, 5));
    assert_eq!(atlas.repack(), Ok(()));
    assert_eq!(atlas.size(), 16);
}

#[test]
fn repack_reports_out_of_space() {
    let mut atlas = Atlas::new(4, 8);
    let id = atlas.add(solid(9, 9, 5));
    assert_eq!(atlas.repack(), Err(PackError::OutOfSpace));
    assert_eq!(atlas.size(), 8);
    assert!(atlas.dirty());
    assert_eq!(atlas.get(id), Err(NotFound { id }));
}

#[test]
fn clean_repack_changes_nothing() {
    let mut atlas = Atlas::new(8, 8);
    let id = atlas.add(solid(2, 2, 1));
    assert_eq!(atlas.repack(), Ok(()));
    let at = atlas.get(id).unwrap();
    let pixels = atlas.pixels().clone();
    assert_eq!(atlas.repack(), Ok(()));
    assert_eq!(atlas.get(id).unwrap(), at);
    assert_eq!(atlas.pixels(), &pixels);
}

#[test]
fn sweep_drops_what_was_not_requested() {
    let mut atlas = Atlas::new(16, 16);
    let x = atlas.add(solid(2, 2, 1));
    let y = atlas.add(solid(2, 2, 2));
    assert_eq!(atlas.repack(), Ok(()));
    atlas.sweep();
    assert_eq!(atlas.len(), 2);
    assert!(atlas.entries().iter().all(|e| !e.referenced()));
    let again = atlas.add(solid(2, 2, 1));
    assert_eq!(again, x);
    atlas.sweep();
    assert_eq!(atlas.len(), 1);
    assert_eq!(atlas.entries()[0].id(), x);
    assert!(!atlas.entries()[0].referenced());
    assert!(atlas.get(x).is_ok());
    assert_eq!(atlas.get(y), Err(NotFound { id: y }));
}

fn rect(id: u32, x: u32, y: u32, width: u32, height: u32, side: u32) -> PackedRect {
    PackedRect { id, x, y, width, height, side }
}

#[test]
fn given_layout_is_composed_pixel_by_pixel() {
    let mut atlas = Atlas::new(4, 4);
    let a = atlas.add(Bitmap::new(2, 1, vec![1, 2, 3, 4, 5, 6, 7, 8]).unwrap());
    let b = atlas.add(Bitmap::new(1, 2, vec![9, 10, 11, 12, 13, 14, 15, 16]).unwrap());
    let rects = vec![rect(a, 1, 0, 2, 1, 4), rect(b, 3, 2, 1, 2, 4)];
    assert!(atlas.lay_out(&rects));
    assert!(!atlas.dirty());
    assert_eq!(atlas.get(a), Ok(rects[0]));
    assert_eq!(atlas.get(b), Ok(rects[1]));
    let mut expected = vec![0u8; 64];
    expected[4..12].copy_from_slice(&[1, 2, 3, 4, 5, 6, 7, 8]);
    expected[(2 * 4 + 3) * 4..(2 * 4 + 3) * 4 + 4].copy_from_slice(&[9, 10, 11, 12]);
    expected[(3 * 4 + 3) * 4..(3 * 4 + 3) * 4 + 4].copy_from_slice(&[13, 14, 15, 16]);
    assert_eq!(atlas.pixels(), &expected);
}

#[test]
fn bad_layouts_are_refused() {
    let mut atlas = Atlas::new(4, 8);
    let a = atlas.add(solid(2, 2, 1));
    let b = atlas.add(solid(2, 2, 2));
    let good = vec![rect(a, 0, 0, 2, 2, 4), rect(b, 2, 0, 2, 2, 4)];
    assert!(accepts(&good, atlas.entries(), 4));
    let bad = [
        vec![rect(a, 0, 0, 2, 2, 4), rect(b, 1, 1, 2, 2, 4)],
        vec![rect(a, 0, 0, 2, 2, 4), rect(b, 3, 0, 2, 2, 4)],
        vec![rect(a, 0, 0, 2, 2, 4), rect(b, 0, 3, 2, 2, 4)],
        vec![rect(a, 0, 0, 2, 2, 4), rect(b, 2, 0, 2, 1, 4)],
        vec![rect(a, 0, 0, 2, 2, 4), rect(b, 2, 0, 1, 2, 4)],
        vec![rect(a, 0, 0, 2, 2, 4), rect(a, 2, 0, 2, 2, 4)],
        vec![rect(b, 2, 0, 2, 2, 4), rect(a, 0, 0, 2, 2, 4)],
        vec![rect(a, 0, 0, 2, 2, 4), rect(b, 2, 0, 2, 2, 8)],
        vec![rect(a, 0, 0, 2, 2, 4)],
        vec![rect(a, 0, 0, 2, 2, 4), rect(b, 2, 0, 2, 2, 4), rect(b, 0, 2, 2, 2, 4)],
        vec![rect(a, u32::MAX, 0, 2, 2, 4), rect(b, 2, 0, 2, 2, 4)],
    ];
    for rects in bad.iter() {
        assert!(!accepts(rects, atlas.entries(), 4));
        assert!(!atlas.lay_out(rects));
        assert!(atlas.dirty());
        assert!(atlas.get(a).is_err());
        assert!(atlas.pixels().is_empty());
    }
    assert!(!accepts(&good, atlas.entries(), 8));
    assert!(atlas.lay_out(&good));
}

#[test]
fn rectangles_are_apart_or_not() {
    let a = rect(0, 0, 0, 4, 4, 16);
    assert!(a.is_apart(&rect(1, 4, 0, 4, 4, 16)));
    assert!(a.is_apart(&rect(1, 0, 4, 4, 4, 16)));
    assert!(!a.is_apart(&rect(1, 3, 3, 4, 4, 16)));
    assert!(!a.is_apart(&rect(1, 1, 1, 1, 1, 16)));
    assert!(a.is_apart(&rect(1, 1, 1, 0, 3, 16)));
    assert!(a.is_apart(&rect(1, 1, 1, 3, 0, 16)));
    assert!(a.is_inside());
    assert!(rect(0, 12, 12, 4, 4, 16).is_inside());
    assert!(!rect(0, 13, 12, 4, 4, 16).is_inside());
    assert!(!rect(0, 12, 13, 4, 4, 16).is_inside());
}

#[test]
fn empty_bitmaps_take_no_room() {
    let mut atlas = Atlas::new(2, 2);
    let blank = atlas.add(Bitmap::new(0, 0, vec![]).unwrap());
    let full = atlas.add(solid(2, 2, 7));
    assert_eq!(atlas.add(Bitmap::new(0, 0, vec![]).unwrap()), blank);
    // The packer finds no room for a rectangle without pixels beside one
    // that fills the texture; a layout that puts it anywhere inside is
    // taken all the same.
    assert_eq!(atlas.repack(), Err(PackError::OutOfSpace));
    let rects = vec![rect(blank, 1, 1, 0, 0, 2), rect(full, 0, 0, 2, 2, 2)];
    assert!(atlas.lay_out(&rects));
    assert_eq!(atlas.get(blank), Ok(rects[0]));
    assert_eq!(atlas.get(full), Ok(rects[1]));
    assert_eq!(atlas.pixels(), &vec![7u8; 16]);
    let mut atlas = Atlas::new(2, 8);
    let blank = atlas.add(Bitmap::new(0, 0, vec![]).unwrap());
    let full = atlas.add(solid(2, 2, 7));
    assert_eq!(atlas.repack(), Ok(()));
    let at = atlas.get(blank).unwrap();
    assert_eq!((at.width, at.height), (0, 0));
    let at = atlas.get(full).unwrap();
    assert_eq!((at.width, at.height), (2, 2));
    assert!(at.is_inside());
}

#[test]
fn empty_dirty_atlas_repacks_to_a_blank_texture() {
    let mut atlas = Atlas::new(2, 4);
    atlas.add(solid(1, 1, 3));
    atlas.sweep();
    atlas.sweep();
    assert_eq!(atlas.len(), 0);
    assert!(atlas.dirty());
    assert_eq!(atlas.repack(), Ok(()));
    assert_eq!(atlas.pixels(), &vec![0u8; 16]);
}

#[test]
fn too_much_area_is_out_of_space() {
    let mut atlas = Atlas::new(2, 8);
    for value in 0..5 {
        atlas.add(solid(4, 4, value));
    }
    // 80 pixels do not fit in 64.
    assert_eq!(atlas.repack(), Err(PackError::OutOfSpace));
    assert_eq!(atlas.size(), 8);
    let mut atlas = Atlas::new(2, 8);
    for value in 0..4 {
        atlas.add(solid(4, 4, value));
    }
    assert_eq!(atlas.repack(), Ok(()));
    assert_eq!(atlas.size(), 8);
}

#[test]
fn growth_doubles_the_side() {
    let mut atlas = Atlas::new(3, 100);
    atlas.add(solid(10, 10, 1));
    assert_eq!(atlas.repack(), Ok(()));
    assert_eq!(atlas.size(), 12);
    assert_eq!(atlas.max_size(), 100);
    let mut atlas = Atlas::new(3, 20);
    atlas.add(solid(13, 13, 1));
    assert_eq!(atlas.repack(), Ok(()));
    assert_eq!(atlas.size(), 20);
}

#[test]
fn keep_marks_an_entry_by_its_identifier() {
    let mut atlas = Atlas::new(8, 8);
    let a = atlas.add(solid(1, 1, 1));
    let b = atlas.add(solid(1, 1, 2));
    atlas.sweep();
    assert_eq!(atlas.keep(b), Ok(()));
    assert_eq!(atlas.keep(77), Err(NotFound { id: 77 }));
    assert!(atlas.entries()[1].referenced());
    atlas.sweep();
    assert_eq!(atlas.len(), 1);
    assert_eq!(atlas.entries()[0].id(), b);
    assert_eq!(atlas.keep(a), Err(NotFound { id: a }));
    assert!(atlas.has_spare_id());
}

#[test]
fn identifiers_are_never_reused() {
    let mut atlas = Atlas::new(8, 8);
    let a = atlas.add(solid(1, 1, 1));
    atlas.sweep();
    atlas.sweep();
    let b = atlas.add(solid(1, 1, 1));
    assert_ne!(a, b);
    assert_eq!((a, b), (0, 1));
    assert_eq!(atlas.entries()[0].content().bytes(), &vec![1u8; 4]);
}

#[test]
fn bitmaps_compare_by_size_and_bytes() {
    let a = Bitmap::new(2, 1, vec![1; 8]).unwrap();
    assert!(a.same_content(&Bitmap::new(2, 1, vec![1; 8]).unwrap()));
    assert!(!a.same_content(&Bitmap::new(1, 2, vec![1; 8]).unwrap()));
    let mut bytes = vec![1; 8];
    bytes[7] = 2;
    assert!(!a.same_content(&Bitmap::new(2, 1, bytes).unwrap()));
    let mut atlas = Atlas::new(8, 8);
    assert_ne!(atlas.add(a), atlas.add(Bitmap::new(1, 2, vec![1; 8]).unwrap()));
}
