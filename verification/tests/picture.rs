use tuicore::color::{Color, Pixel};
use tuicore::picture::{ImageCache, Raster};

fn cell(r: u8, g: u8, b: u8) -> Pixel {
    Pixel::new(None, Some(Color::new(r, g, b)), None)
}

fn two_by_one() -> Raster {
    Raster { width: 2, height: 1, data: vec![10, 20, 30, 40, 50, 60] }
}

#[test]
fn new_cache_holds_the_pixels() {
    let c = ImageCache::new(&two_by_one());
    assert_eq!(c.at_width, 2);
    assert_eq!(c.at_height, 1);
    assert_eq!(c.data, vec![cell(10, 20, 30), cell(40, 50, 60)]);
}

#[test]
fn cached_size_is_returned_as_it_is() {
    let src = two_by_one();
    let mut c = ImageCache::new(&src);
    assert_eq!(c.get_at_size(&src, 2, 1), vec![cell(10, 20, 30), cell(40, 50, 60)]);
}

#[test]
fn new_size_is_scaled_and_followed_by_blanks() {
    let src = two_by_one();
    let mut c = ImageCache::new(&src);
    let cells = c.get_at_size(&src, 4, 1);
    let b = Pixel::empty();
    assert_eq!(
        cells,
        vec![cell(10, 20, 30), cell(10, 20, 30), cell(40, 50, 60), cell(40, 50, 60), b, b, b, b]
    );
    assert_eq!(c.at_width, 4);
    assert_eq!(c.data, cells);
    let again = c.get_at_size(&src, 4, 1);
    assert_eq!(again, cells);
    let small = c.get_at_size(&src, 1, 1);
    assert_eq!(small.len(), 2);
    assert_eq!(small[1], b);
}

#[test]
fn zero_size_gives_no_cells() {
    let src = two_by_one();
    let mut c = ImageCache::new(&src);
    assert!(c.get_at_size(&src, 0, 0).is_empty());
    assert!(c.get_at_size(&src, 3, 0).is_empty());
}

#[test]
fn own_size_after_another_size_is_the_image_itself() {
    let src = two_by_one();
    let mut c = ImageCache::new(&src);
    c.get_at_size(&src, 4, 1);
    let b = Pixel::empty();
    assert_eq!(c.get_at_size(&src, 2, 1), vec![cell(10, 20, 30), cell(40, 50, 60), b, b]);
}

#[test]
fn repeated_lookup_returns_the_same_cells() {
    let src = two_by_one();
    let mut c = ImageCache::new(&src);
    for (w, h) in [(3u32, 2u32), (3, 2), (2, 1), (2, 1), (1, 1), (1, 1)] {
        let first = c.get_at_size(&src, w, h);
        let second = c.get_at_size(&src, w, h);
        assert_eq!(first, second);
        assert_eq!((c.at_width, c.at_height), (w, h));
    }
}
