use tuicore::geometry::{percent_of, Position, Positions, RelPosition, RelSize, Size, Sizes};

fn single_precision(p: u8, len: u16) -> u16 {
    ((p as f32 / 100.0) * (len as f32)).round() as u16
}

#[test]
fn percent_matches_single_precision_on_small_lengths() {
    for p in 0..=255u8 {
        for len in 0..4096u16 {
            assert_eq!(percent_of(p, len), single_precision(p, len), "p={} len={}", p, len);
        }
    }
}

#[test]
fn percent_matches_single_precision_on_large_lengths() {
    for p in 0..=255u8 {
        let mut len: u32 = 4096;
        while len <= 65535 {
            assert_eq!(percent_of(p, len as u16), single_precision(p, len as u16), "p={} len={}", p, len);
            len += 13;
        }
        assert_eq!(percent_of(p, 65535), single_precision(p, 65535));
    }
}

#[test]
fn percent_ties_round_as_single_precision_does() {
    // 13% of 450 is exactly 58.5, but 0.13 in single precision is slightly
    // below 0.13, so the product rounds down.
    assert_eq!(percent_of(13, 450), 58);
    // 50% of 1 is exactly 0.5 and rounds away from zero.
    assert_eq!(percent_of(50, 1), 1);
    assert_eq!(percent_of(30, 5), 2);
}

#[test]
fn percent_saturates() {
    assert_eq!(percent_of(255, 65535), 65535);
    assert_eq!(percent_of(200, 40000), 65535);
    assert_eq!(percent_of(200, 300), 600);
}

#[test]
fn zero_and_full_percent() {
    for len in [0u16, 1, 7, 80, 12345, 65535] {
        assert_eq!(percent_of(0, len), 0);
        assert_eq!(percent_of(100, len), len);
    }
}

#[test]
fn percent_is_monotone() {
    for len in [1u16, 3, 79, 1000, 65535] {
        let mut prev = 0;
        for p in 0..=255u8 {
            let v = percent_of(p, len);
            assert!(v >= prev);
            prev = v;
        }
    }
}

#[test]
fn relative_position() {
    let screen = Size { width: 80, height: 24 };
    let p = RelPosition { relx: 50, rely: 45 }.calc(screen);
    assert_eq!(p, Position { x: 40, y: 11 });
    let p = RelPosition { relx: 50, rely: 30 }.calc(screen);
    assert_eq!(p, Position { x: 40, y: 7 });
    let p = Positions::RelPosition(RelPosition { relx: 5, rely: 10 }).calc(screen);
    assert_eq!(p, Position { x: 4, y: 2 });
}

#[test]
fn absolute_position_ignores_screen() {
    let p = Positions::Position(Position { x: 3, y: 9 });
    assert_eq!(p.calc(Size { width: 1, height: 1 }), Position { x: 3, y: 9 });
    assert_eq!(p.calc(Size { width: 500, height: 200 }), Position { x: 3, y: 9 });
}

#[test]
fn relative_size() {
    let screen = Size { width: 80, height: 24 };
    let s = RelSize { relwidth: 40, relheight: 80 }.calc(screen);
    assert_eq!(s, Size { width: 32, height: 19 });
    let s = Sizes::RelSize(RelSize { relwidth: 100, relheight: 100 }).calc(screen);
    assert_eq!(s, screen);
    let s = Sizes::Size(Size { width: 5, height: 6 }).calc(screen);
    assert_eq!(s, Size { width: 5, height: 6 });
}
