use tuicore::color::{Color, Pixel};
use tuicore::framebuffer::FrameBuffer;
use tuicore::geometry::Size;

fn marked(c: char) -> Pixel {
    Pixel::new(None, None, Some(c))
}

#[test]
fn new_and_init_fill_the_area() {
    let fb = FrameBuffer::init(Size { width: 4, height: 3 });
    assert_eq!(fb.buffer.len(), 12);
    assert!(fb.buffer.iter().all(|p| *p == Pixel::empty()));
    let e = Pixel::new(Some(Color::new(1, 1, 1)), None, Some('.'));
    let fb = FrameBuffer::new(Size { width: 2, height: 5 }, Some(e));
    assert_eq!(fb.buffer, vec![e; 10]);
    assert_eq!(fb.empty, e);
    assert_eq!(FrameBuffer::init(Size { width: 0, height: 9 }).buffer.len(), 0);
}

#[test]
fn clear_resets_every_cell() {
    let mut fb = FrameBuffer::init(Size { width: 3, height: 2 });
    fb.buffer[1] = marked('a');
    fb.buffer[5] = marked('b');
    fb.clear();
    assert_eq!(fb.buffer, vec![Pixel::empty(); 6]);
    assert_eq!(fb.size, Size { width: 3, height: 2 });
}

#[test]
fn resize_grows_with_empty_cells() {
    let mut fb = FrameBuffer::init(Size { width: 2, height: 2 });
    fb.buffer[3] = marked('z');
    fb.resize(Size { width: 3, height: 2 });
    assert_eq!(fb.size, Size { width: 3, height: 2 });
    assert_eq!(fb.buffer.len(), 6);
    assert_eq!(fb.buffer[3], marked('z'));
    assert_eq!(fb.buffer[4], Pixel::empty());
}

#[test]
fn resize_shrinks_dropping_the_tail() {
    let mut fb = FrameBuffer::init(Size { width: 3, height: 3 });
    fb.buffer[0] = marked('a');
    fb.buffer[8] = marked('b');
    fb.resize(Size { width: 2, height: 2 });
    assert_eq!(fb.size, Size { width: 2, height: 2 });
    assert_eq!(fb.buffer.len(), 4);
    assert_eq!(fb.buffer[0], marked('a'));
}

#[test]
fn resize_to_equal_area_changes_nothing() {
    let mut fb = FrameBuffer::init(Size { width: 2, height: 3 });
    fb.buffer[2] = marked('q');
    fb.resize(Size { width: 3, height: 2 });
    assert_eq!(fb.size, Size { width: 2, height: 3 });
    assert_eq!(fb.buffer.len(), 6);
    assert_eq!(fb.buffer[2], marked('q'));
}

#[test]
fn resize_grows_a_short_buffer_to_the_new_area() {
    let mut fb = FrameBuffer { buffer: vec![marked('a')], size: Size { width: 2, height: 2 }, empty: Pixel::empty() };
    fb.resize(Size { width: 3, height: 3 });
    assert_eq!(fb.buffer.len(), 9);
    assert_eq!(fb.buffer[0], marked('a'));
}
