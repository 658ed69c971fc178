//! The kinds of events an application reacts to, and the numbering of the
//! elements it draws.

use vstd::prelude::*;
use std::collections::HashMap;
use crate::geometry::Size;

verus! {

broadcast use vstd::std_specs::hash::group_hash_axioms;

/// Something an application reacts to: a stage of drawing a frame, a change
/// of the terminal's size, or a key.
#[derive(PartialEq, Eq, Clone, Copy, Debug, Structural)]
pub enum EventType {
    PreRender,
    PostRender,
    OnSizeChange,
    Char { char: char },
    Enter,
    Backspace,
}

/// A key that the terminal reports, as far as an application tells keys
/// apart.
#[derive(PartialEq, Eq, Clone, Copy, Debug, Structural)]
pub enum KeyInput {
    Char(char),
    Enter,
    Backspace,
    Other,
}

/// The event that a key press raises: a character, Enter or Backspace;
/// any other key raises none.
pub fn key_event(key: KeyInput) -> (e: Option<EventType>)
    ensures
        e == (match key {
            KeyInput::Char(c) => Some(EventType::Char { char: c }),
            KeyInput::Enter => Some(EventType::Enter),
            KeyInput::Backspace => Some(EventType::Backspace),
            KeyInput::Other => None,
        }),
{
    match key {
        KeyInput::Char(c) => Some(EventType::Char { char: c }),
        KeyInput::Enter => Some(EventType::Enter),
        KeyInput::Backspace => Some(EventType::Backspace),
        KeyInput::Other => None,
    }
}

/// The size to resize the frame to at the start of a frame: the screen's
/// size where it differs from the frame's in width or height, else none
/// (and then no size-change event is raised).
pub fn screen_resize(frame: Size, screen: Size) -> (r: Option<Size>)
    ensures
        r == (if screen.width != frame.width || screen.height != frame.height {
            Some(screen)
        } else {
            None
        }),
{
    if screen.width != frame.width || screen.height != frame.height {
        Some(screen)
    } else {
        None
    }
}

/// The numbers of the elements to draw, in drawing order, where `len`
/// elements are registered: `0, 1, ..., len - 1`, each taken as a 32-bit
/// number.
pub fn renderer_order(len: usize) -> (ids: Vec<u32>)
    ensures
        ids@ == Seq::new(len as nat, |k: int| k as u32),
{
    let mut ids: Vec<u32> = Vec::new();
    let mut i: usize = 0;
    while i < len
        invariant
            i <= len,
            ids@ == Seq::new(i as nat, |k: int| k as u32),
        decreases len - i,
    {
        ids.push(i as u32);
        i = i + 1;
        assert(ids@ =~= Seq::new(i as nat, |k: int| k as u32));
    }
    ids
}

/// Files `item` under the number `*count`, the next free one, and moves
/// `*count` past it; returns the number.
pub fn register_renderer<T>(items: &mut HashMap<u32, T>, count: &mut u32, item: T) -> (id: u32)
    requires
        *old(count) < u32::MAX,
    ensures
        id == *old(count),
        *final(count) == *old(count) + 1,
        final(items)@ == old(items)@.insert(id, item),
{
    items.insert(*count, item);
    *count = *count + 1;
    *count - 1
}

/// Where every number in use lies below the counter, registering files the
/// item under a number that was free, keeps every item filed before, and
/// keeps every number in use below the counter.
pub proof fn lemma_register_keeps_items<T>(items: Map<u32, T>, count: u32, item: T)
    requires
        count < u32::MAX,
        forall|k: u32| #[trigger] items.contains_key(k) ==> k < count,
    ensures
        !items.contains_key(count),
        forall|k: u32| #[trigger] items.contains_key(k) ==> items.insert(count, item)[k] == items[k],
        forall|k: u32| #[trigger] items.insert(count, item).contains_key(k) ==> k < count + 1,
        items.insert(count, item)[count] == item,
{
}

} // verus!
