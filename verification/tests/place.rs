use tuicore::framebuffer::FrameBuffer;
use tuicore::geometry::{Position, Positions, RelPosition, Size, Sizes};
use tuicore::place::{
    image_cells, image_in_range, label_cells, label_in_range, rectangle_cells, rectangle_in_range,
};

fn at(x: u16, y: u16) -> Positions {
    Positions::Position(Position { x, y })
}

#[test]
fn label_covers_consecutive_cells() {
    let fb = FrameBuffer::init(Size { width: 10, height: 3 });
    let plan = label_cells(&fb, at(2, 1), "abc", false);
    assert_eq!(plan, vec![(12, 'a'), (13, 'b'), (14, 'c')]);
}

#[test]
fn centred_label_moves_left_by_half_its_byte_length() {
    let fb = FrameBuffer::init(Size { width: 20, height: 2 });
    let plan = label_cells(&fb, at(10, 0), "abcd", true);
    assert_eq!(plan, vec![(8, 'a'), (9, 'b'), (10, 'c'), (11, 'd')]);
    // Two-byte characters: 3 characters, 6 bytes, moved left by 3.
    let plan = label_cells(&fb, at(10, 1), "жук", true);
    assert_eq!(plan, vec![(27, 'ж'), (28, 'у'), (29, 'к')]);
}

#[test]
fn label_skips_cells_past_the_buffer() {
    let fb = FrameBuffer::init(Size { width: 4, height: 2 });
    let plan = label_cells(&fb, at(2, 1), "hello", false);
    assert_eq!(plan, vec![(6, 'h'), (7, 'e')]);
}

#[test]
fn relative_label() {
    let fb = FrameBuffer::init(Size { width: 80, height: 24 });
    let plan = label_cells(&fb, Positions::RelPosition(RelPosition { relx: 50, rely: 45 }), "ok", true);
    assert_eq!(plan, vec![(11 * 80 + 39, 'o'), (11 * 80 + 40, 'k')]);
}

#[test]
fn rectangle_covers_its_box_row_by_row() {
    let fb = FrameBuffer::init(Size { width: 5, height: 4 });
    let plan = rectangle_cells(&fb, at(1, 1), &Sizes::Size(Size { width: 2, height: 2 }), false);
    assert_eq!(plan, vec![6, 7, 11, 12]);
    let plan = rectangle_cells(&fb, at(2, 2), &Sizes::Size(Size { width: 2, height: 3 }), true);
    assert_eq!(plan, vec![6, 7, 11, 12, 16, 17]);
}

#[test]
fn rectangle_skips_cells_past_the_buffer() {
    let fb = FrameBuffer::init(Size { width: 3, height: 2 });
    let plan = rectangle_cells(&fb, at(1, 1), &Sizes::Size(Size { width: 3, height: 2 }), false);
    assert_eq!(plan, vec![4, 5]);
    let plan = rectangle_cells(&fb, at(0, 0), &Sizes::Size(Size { width: 0, height: 5 }), false);
    assert!(plan.is_empty());
}

#[test]
fn image_pairs_cells_with_pixels() {
    let fb = FrameBuffer::init(Size { width: 4, height: 4 });
    let plan = image_cells(&fb, at(1, 2), &Sizes::Size(Size { width: 2, height: 2 }), 8, false);
    assert_eq!(plan, vec![(9, 0), (10, 1), (13, 2), (14, 3)]);
    let plan = image_cells(&fb, at(1, 2), &Sizes::Size(Size { width: 2, height: 2 }), 3, false);
    assert_eq!(plan, vec![(9, 0), (10, 1), (13, 2)]);
}

#[test]
fn range_checks() {
    let fb = FrameBuffer::init(Size { width: 10, height: 3 });
    assert!(label_in_range(&fb, at(2, 1), "abc", false));
    assert!(!label_in_range(&fb, at(1, 1), "abcd", true));
    assert!(label_in_range(&fb, at(2, 1), "abcd", true));
    let wide = FrameBuffer { buffer: Vec::new(), size: Size { width: 1000, height: 100 }, empty: tuicore::color::Pixel::empty() };
    assert!(label_in_range(&wide, at(0, 65), "abc", false));
    assert!(!label_in_range(&wide, at(999, 65), "abc", false));
    assert!(rectangle_in_range(&fb, at(1, 1), &Sizes::Size(Size { width: 2, height: 2 }), false));
    assert!(!rectangle_in_range(&fb, at(0, 0), &Sizes::Size(Size { width: 2, height: 2 }), true));
    assert!(!rectangle_in_range(&wide, at(0, 60), &Sizes::Size(Size { width: 10, height: 10 }), false));
    assert!(rectangle_in_range(&wide, at(0, 60), &Sizes::Size(Size { width: 10, height: 5 }), false));
    assert!(image_in_range(&fb, at(1, 2), &Sizes::Size(Size { width: 2, height: 2 }), false));
    // An image wider than the frame: its cells fit, and whether its pixel
    // numbers do depends on which cells lie inside the buffer.
    let narrow = FrameBuffer::init(Size { width: 10, height: 100 });
    assert!(image_in_range(&narrow, at(0, 0), &Sizes::Size(Size { width: 300, height: 300 }), false));
    let tall = FrameBuffer::init(Size { width: 10, height: 400 });
    assert!(!image_in_range(&tall, at(0, 0), &Sizes::Size(Size { width: 300, height: 300 }), false));
    let box_too_big = FrameBuffer::init(Size { width: 300, height: 200 });
    assert!(!image_in_range(&box_too_big, at(0, 0), &Sizes::Size(Size { width: 300, height: 300 }), false));
}

#[test]
fn empty_label_plans_nothing() {
    let fb = FrameBuffer::init(Size { width: 10, height: 3 });
    assert!(label_in_range(&fb, at(0, 0), "", true));
    assert!(label_cells(&fb, at(0, 0), "", true).is_empty());
}
