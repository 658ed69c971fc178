use tuicore::color::{Color, Pixel};
use tuicore::frame::{compose_frame, PaletteCache};
use tuicore::framebuffer::FrameBuffer;
use tuicore::geometry::Size;

fn fg(c: Color) -> String {
    format!("\x1b[38;2;{};{};{}m", c.red, c.green, c.blue)
}

fn bg(c: Color) -> String {
    format!("\x1b[48;2;{};{};{}m", c.red, c.green, c.blue)
}

#[test]
fn uniform_frame_is_plain_text_after_the_header() {
    let mut fb = FrameBuffer::init(Size { width: 3, height: 1 });
    fb.buffer[0].char = 'a';
    fb.buffer[1].char = 'b';
    fb.buffer[2].char = 'c';
    let mut cache = PaletteCache::new();
    let frame = compose_frame(&fb, &mut cache, Color::white(), Color::black(), Color::white(), Color::black());
    assert_eq!(frame, format!("{}{}abc", bg(Color::black()), fg(Color::white())));
}

#[test]
fn colour_changes_emit_escapes() {
    let red = Color::new(255, 0, 0);
    let blue = Color::new(0, 0, 255);
    let mut fb = FrameBuffer::init(Size { width: 2, height: 2 });
    fb.buffer[0] = Pixel::new(Some(red), None, Some('x'));
    fb.buffer[1] = Pixel::new(Some(red), Some(blue), Some('y'));
    fb.buffer[2] = Pixel::new(None, Some(blue), Some('z'));
    let mut cache = PaletteCache::new();
    let frame = compose_frame(&fb, &mut cache, Color::white(), Color::black(), Color::white(), Color::black());
    let expected = format!(
        "{}{}{}x{}y{}z{} ",
        bg(Color::black()),
        fg(red),
        fg(red),
        bg(blue),
        fg(Color::white()),
        bg(Color::black())
    );
    assert_eq!(frame, expected);
}

#[test]
fn masks_apply_to_the_frame() {
    let mut fb = FrameBuffer::init(Size { width: 1, height: 1 });
    fb.buffer[0] = Pixel::new(Some(Color::new(250, 10, 128)), Some(Color::new(0, 0, 0)), Some('m'));
    let mut cache = PaletteCache::new();
    let max = Color::new(200, 200, 200);
    let min = Color::new(20, 20, 20);
    let frame = compose_frame(&fb, &mut cache, max, min, Color::white(), Color::black());
    let f = Color::new(200, 20, 128);
    let b = Color::new(20, 20, 20);
    assert_eq!(frame, format!("{}{}{}{}m", bg(b), fg(f), fg(f), bg(b)));
}

#[test]
fn empty_buffer_uses_the_default_colours() {
    let fb = FrameBuffer::init(Size { width: 0, height: 0 });
    let mut cache = PaletteCache::new();
    let d = Color::new(7, 8, 9);
    let db = Color::new(1, 2, 3);
    let frame = compose_frame(&fb, &mut cache, Color::white(), Color::black(), d, db);
    assert_eq!(frame, format!("{}{}", bg(db), fg(d)));
}

#[test]
fn cache_returns_the_escape_sequences() {
    let mut cache = PaletteCache::new();
    let c = Color::new(12, 34, 56);
    assert_eq!(cache.get_fg_str(c).clone(), c.to_fg_string());
    assert_eq!(cache.get_fg_str(c).clone(), c.to_fg_string());
    assert_eq!(cache.get_bg_str(c).clone(), c.to_bg_string());
    assert_eq!(cache.fg.len(), 1);
    assert_eq!(cache.bg.len(), 1);
}
