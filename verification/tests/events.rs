use std::collections::HashMap;
use tuicore::events::{key_event, register_renderer, renderer_order, screen_resize, EventType, KeyInput};
use tuicore::geometry::Size;

#[test]
fn renderers_get_consecutive_numbers() {
    let mut items: HashMap<u32, &str> = HashMap::new();
    let mut count: u32 = 0;
    assert_eq!(register_renderer(&mut items, &mut count, "a"), 0);
    assert_eq!(register_renderer(&mut items, &mut count, "b"), 1);
    assert_eq!(register_renderer(&mut items, &mut count, "c"), 2);
    assert_eq!(count, 3);
    assert_eq!(items.get(&0), Some(&"a"));
    assert_eq!(items.get(&1), Some(&"b"));
    assert_eq!(items.get(&2), Some(&"c"));
}

#[test]
fn event_types_compare_by_value() {
    assert_eq!(EventType::Char { char: 'a' }, EventType::Char { char: 'a' });
    assert_ne!(EventType::Char { char: 'a' }, EventType::Char { char: 'b' });
    assert_ne!(EventType::PreRender, EventType::PostRender);
}

#[test]
fn keys_raise_events() {
    assert_eq!(key_event(KeyInput::Char('q')), Some(EventType::Char { char: 'q' }));
    assert_eq!(key_event(KeyInput::Enter), Some(EventType::Enter));
    assert_eq!(key_event(KeyInput::Backspace), Some(EventType::Backspace));
    assert_eq!(key_event(KeyInput::Other), None);
}

#[test]
fn resize_only_when_the_screen_changes() {
    let a = Size { width: 80, height: 24 };
    assert_eq!(screen_resize(a, a), None);
    let b = Size { width: 81, height: 24 };
    assert_eq!(screen_resize(a, b), Some(b));
    let c = Size { width: 80, height: 25 };
    assert_eq!(screen_resize(a, c), Some(c));
}

#[test]
fn renderers_are_drawn_in_number_order() {
    assert_eq!(renderer_order(0), Vec::<u32>::new());
    assert_eq!(renderer_order(4), vec![0, 1, 2, 3]);
}
