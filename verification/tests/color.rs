use tuicore::color::{Color, Pixel};

#[test]
fn masks_cap_and_raise_channels() {
    let c = Color::new(10, 200, 128);
    assert_eq!(c.maskmax(Color::new(100, 100, 100)), Color::new(10, 100, 100));
    assert_eq!(c.maskmin(Color::new(100, 100, 100)), Color::new(100, 200, 128));
    assert_eq!(c.maskmax(Color::white()), c);
    assert_eq!(c.maskmin(Color::black()), c);
}

#[test]
fn named_colors() {
    assert_eq!(Color::black(), Color { red: 0, green: 0, blue: 0 });
    assert_eq!(Color::white(), Color { red: 255, green: 255, blue: 255 });
}

#[test]
fn escape_sequences() {
    assert_eq!(Color::new(1, 22, 255).to_fg_string(), "\x1b[38;2;1;22;255m");
    assert_eq!(Color::new(0, 100, 9).to_bg_string(), "\x1b[48;2;0;100;9m");
    for v in [0u8, 5, 9, 10, 42, 99, 100, 101, 199, 250, 255] {
        let c = Color::new(v, 255 - v, v / 3);
        assert_eq!(c.to_fg_string(), format!("\x1b[38;2;{};{};{}m", c.red, c.green, c.blue));
        assert_eq!(c.to_bg_string(), format!("\x1b[48;2;{};{};{}m", c.red, c.green, c.blue));
    }
}

#[test]
fn pixel_defaults() {
    let p = Pixel::new(None, None, None);
    assert_eq!(p, Pixel { foreground_color: Color::white(), background_color: Color::black(), char: ' ' });
    assert_eq!(Pixel::empty(), p);
    let q = Pixel::new(Some(Color::new(1, 2, 3)), None, Some('x'));
    assert_eq!(q.foreground_color, Color::new(1, 2, 3));
    assert_eq!(q.background_color, Color::black());
    assert_eq!(q.char, 'x');
}

#[test]
fn different_colours_have_different_escapes() {
    // Channels whose decimal forms could run together if the separators
    // were missing.
    let a = Color::new(1, 23, 4);
    let b = Color::new(12, 3, 4);
    assert_ne!(a.to_bg_string(), b.to_bg_string());
    assert_ne!(a.to_fg_string(), b.to_fg_string());
    assert_eq!(a.to_bg_string(), Color::new(1, 23, 4).to_bg_string());
}
