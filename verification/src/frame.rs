//! Composing the frame buffer into the text that draws it on the terminal,
//! and the cache of colour escape sequences used while doing so.

use vstd::prelude::*;
use std::collections::HashMap;
use crate::color::{Color, Pixel, cap, raise, fg_escape, bg_escape, push_char, white_spec, black_spec};
use crate::framebuffer::{FrameBuffer, area};

verus! {

broadcast use vstd::std_specs::hash::group_hash_axioms;

/// The colour `c` as the terminal shows it: capped at `max`, then raised to
/// at least `min`, channel by channel.
pub open spec fn shown(c: Color, max: Color, min: Color) -> Color {
    raise(cap(c, max), min)
}

/// The number that a colour is filed under in a [`PaletteCache`]:
/// `0xRRGGBB`.
pub open spec fn color_key(c: Color) -> u32 {
    (c.red as nat * 0x10000 + c.green as nat * 0x100 + c.blue as nat) as u32
}

/// The colour filed under a number.
pub open spec fn key_color(k: u32) -> Color {
    Color { red: (k / 0x10000 % 0x100) as u8, green: (k / 0x100 % 0x100) as u8, blue: (k % 0x100) as u8 }
}

/// Escape sequences already built for foreground and background colours,
/// filed by [`color_key`].
pub struct PaletteCache {
    pub fg: HashMap<u32, String>,
    pub bg: HashMap<u32, String>,
}

impl PaletteCache {
    /// Every entry holds the escape sequence of the colour it is filed under.
    pub open spec fn valid(&self) -> bool {
        &&& forall|k: u32| #[trigger] self.fg@.contains_key(k) ==> self.fg@[k]@ == fg_escape(key_color(k))
        &&& forall|k: u32| #[trigger] self.bg@.contains_key(k) ==> self.bg@[k]@ == bg_escape(key_color(k))
    }

    /// An empty cache.
    pub fn new() -> (c: PaletteCache)
        ensures
            c.valid(),
            c.fg@ == Map::<u32, String>::empty(),
            c.bg@ == Map::<u32, String>::empty(),
    {
        PaletteCache { fg: HashMap::new(), bg: HashMap::new() }
    }

    /// The escape sequence that selects `color` as foreground colour, built
    /// and filed on first use.
    pub fn get_fg_str(&mut self, color: Color) -> (s: &String)
        requires
            old(self).valid(),
        ensures
            final(self).valid(),
            s@ == fg_escape(color),
            final(self).bg@ == old(self).bg@,
            final(self).fg@.dom() == old(self).fg@.dom().insert(color_key(color)),
    {
        let key = pack(color);
        if !self.fg.contains_key(&key) {
            self.fg.insert(key, color.to_fg_string());
        }
        assert(self.fg@.dom() =~= old(self).fg@.dom().insert(color_key(color)));
        self.fg.get(&key).unwrap()
    }

    /// The escape sequence that selects `color` as background colour, built
    /// and filed on first use.
    pub fn get_bg_str(&mut self, color: Color) -> (s: &String)
        requires
            old(self).valid(),
        ensures
            final(self).valid(),
            s@ == bg_escape(color),
            final(self).fg@ == old(self).fg@,
            final(self).bg@.dom() == old(self).bg@.dom().insert(color_key(color)),
    {
        let key = pack(color);
        if !self.bg.contains_key(&key) {
            self.bg.insert(key, color.to_bg_string());
        }
        assert(self.bg@.dom() =~= old(self).bg@.dom().insert(color_key(color)));
        self.bg.get(&key).unwrap()
    }
}

/// The number a colour is filed under.
fn pack(c: Color) -> (k: u32)
    ensures
        k == color_key(c),
        key_color(k) == c,
{
    let k = (c.red as u32) * 0x10000 + (c.green as u32) * 0x100 + (c.blue as u32);
    assert(key_color(k) == c) by (nonlinear_arith)
        requires
            k == c.red as nat * 0x10000 + c.green as nat * 0x100 + c.blue as nat,
    {
    }
    k
}

/// Every colour is filed under a number of its own: the colour filed under
/// a colour's number is that colour.
pub proof fn lemma_color_key_roundtrip(c: Color)
    ensures
        key_color(color_key(c)) == c,
{
    let k = c.red as nat * 0x10000 + c.green as nat * 0x100 + c.blue as nat;
    assert(k < 0x100_0000);
    assert(key_color(k as u32) == c) by (nonlinear_arith)
        requires
            k == c.red as nat * 0x10000 + c.green as nat * 0x100 + c.blue as nat,
    {
    }
}

/// With the default masks (at most white, at least black) every colour is
/// shown as it is.
pub proof fn lemma_default_masks_keep_colors(c: Color)
    ensures
        shown(c, white_spec(), black_spec()) == c,
{
}

/// Where the lower mask lies below the upper one, channel by channel, a
/// shown colour lies between the two masks, and showing it again changes
/// nothing.
pub proof fn lemma_shown_between_masks(c: Color, max: Color, min: Color)
    requires
        min.red <= max.red,
        min.green <= max.green,
        min.blue <= max.blue,
    ensures
        min.red <= shown(c, max, min).red <= max.red,
        min.green <= shown(c, max, min).green <= max.green,
        min.blue <= shown(c, max, min).blue <= max.blue,
        shown(shown(c, max, min), max, min) == shown(c, max, min),
{
}

/// The foreground colour selected after the text of `cells`, starting from
/// `init`.
pub open spec fn last_fg(cells: Seq<Pixel>, init: Color, max: Color, min: Color) -> Color {
    if cells.len() == 0 {
        init
    } else {
        shown(cells.last().foreground_color, max, min)
    }
}

/// The background colour selected after the text of `cells`, starting from
/// `init`.
pub open spec fn last_bg(cells: Seq<Pixel>, init: Color, max: Color, min: Color) -> Color {
    if cells.len() == 0 {
        init
    } else {
        shown(cells.last().background_color, max, min)
    }
}

/// The text of one cell when `fg` and `bg` are the colours selected before
/// it: an escape sequence for each colour that changes, then the character.
pub open spec fn cell_text(p: Pixel, fg: Color, bg: Color, max: Color, min: Color) -> Seq<char> {
    let f = shown(p.foreground_color, max, min);
    let b = shown(p.background_color, max, min);
    (if fg != f {
        fg_escape(f)
    } else {
        Seq::empty()
    }) + (if bg != b {
        bg_escape(b)
    } else {
        Seq::empty()
    }) + seq![p.char]
}

/// The text of `cells` in order, starting with `fg` and `bg` selected.
pub open spec fn cells_text(cells: Seq<Pixel>, fg: Color, bg: Color, max: Color, min: Color) -> Seq<
    char,
>
    decreases cells.len(),
{
    if cells.len() == 0 {
        Seq::empty()
    } else {
        let prev = cells.drop_last();
        cells_text(prev, fg, bg, max, min) + cell_text(
            cells.last(),
            last_fg(prev, fg, max, min),
            last_bg(prev, bg, max, min),
            max,
            min,
        )
    }
}

/// The numbers of the foreground colours whose escape sequences the text of
/// `cells` selects, starting with `fg` selected.
pub open spec fn fg_changes(cells: Seq<Pixel>, fg: Color, max: Color, min: Color) -> Set<u32>
    decreases cells.len(),
{
    if cells.len() == 0 {
        Set::empty()
    } else {
        let prev = cells.drop_last();
        let f = shown(cells.last().foreground_color, max, min);
        if last_fg(prev, fg, max, min) != f {
            fg_changes(prev, fg, max, min).insert(color_key(f))
        } else {
            fg_changes(prev, fg, max, min)
        }
    }
}

/// The numbers of the background colours whose escape sequences the text of
/// `cells` selects, starting with `bg` selected.
pub open spec fn bg_changes(cells: Seq<Pixel>, bg: Color, max: Color, min: Color) -> Set<u32>
    decreases cells.len(),
{
    if cells.len() == 0 {
        Set::empty()
    } else {
        let prev = cells.drop_last();
        let b = shown(cells.last().background_color, max, min);
        if last_bg(prev, bg, max, min) != b {
            bg_changes(prev, bg, max, min).insert(color_key(b))
        } else {
            bg_changes(prev, bg, max, min)
        }
    }
}

/// The first cell of a frame, or a blank cell in the default colours where
/// the frame holds none.
pub open spec fn first_cell(cells: Seq<Pixel>, default_fg: Color, default_bg: Color) -> Pixel {
    if cells.len() > 0 {
        cells[0]
    } else {
        Pixel { foreground_color: default_fg, background_color: default_bg, char: ' ' }
    }
}

/// The text that draws a frame: the escape sequences of the first cell's
/// background and foreground colours (of a blank cell in the default colours
/// where the frame holds none), then the cells of the frame's area in order,
/// starting from the default colours.
pub open spec fn frame_text(
    cells: Seq<Pixel>,
    width: u16,
    height: u16,
    max: Color,
    min: Color,
    default_fg: Color,
    default_bg: Color,
) -> Seq<char> {
    let first = first_cell(cells, default_fg, default_bg);
    bg_escape(shown(first.background_color, max, min)) + fg_escape(
        shown(first.foreground_color, max, min),
    ) + cells_text(cells.take((width as nat * height as nat) as int), default_fg, default_bg, max, min)
}

/// The characters of `cells`, in order.
pub open spec fn chars_of(cells: Seq<Pixel>) -> Seq<char> {
    cells.map_values(|p: Pixel| p.char)
}

/// A cell's text selects the colours the cell is shown in: it starts with
/// the foreground escape sequence of the cell's shown foreground exactly when
/// that colour differs, in any channel, from the one selected before; the
/// background escape sequence follows exactly when the shown background
/// differs from the one selected before; the cell's character ends it.
pub proof fn lemma_cell_text_selects_its_colours(p: Pixel, fg: Color, bg: Color, max: Color, min: Color)
    ensures
        ({
            let f = shown(p.foreground_color, max, min);
            let b = shown(p.background_color, max, min);
            let t = cell_text(p, fg, bg, max, min);
            let fe = if fg.red != f.red || fg.green != f.green || fg.blue != f.blue {
                fg_escape(f)
            } else {
                Seq::<char>::empty()
            };
            let be = if bg.red != b.red || bg.green != b.green || bg.blue != b.blue {
                bg_escape(b)
            } else {
                Seq::<char>::empty()
            };
            &&& t == fe + be + seq![p.char]
            &&& t.last() == p.char
        }),
{
    let f = shown(p.foreground_color, max, min);
    let b = shown(p.background_color, max, min);
    assert((fg != f) == (fg.red != f.red || fg.green != f.green || fg.blue != f.blue));
    assert((bg != b) == (bg.red != b.red || bg.green != b.green || bg.blue != b.blue));
}

/// After the text of some cells, the colours selected are those the last
/// cell is shown in (or the starting ones where there is no cell), and the
/// text of one more cell is appended to the text of the cells before it.
pub proof fn lemma_cells_text_extends(cells: Seq<Pixel>, p: Pixel, fg: Color, bg: Color, max: Color, min: Color)
    ensures
        last_fg(cells.push(p), fg, max, min) == shown(p.foreground_color, max, min),
        last_bg(cells.push(p), bg, max, min) == shown(p.background_color, max, min),
        cells.len() == 0 ==> last_fg(cells, fg, max, min) == fg && last_bg(cells, bg, max, min) == bg,
        cells_text(cells.push(p), fg, bg, max, min) == cells_text(cells, fg, bg, max, min) + cell_text(
            p,
            last_fg(cells, fg, max, min),
            last_bg(cells, bg, max, min),
            max,
            min,
        ),
{
    assert(cells.push(p).drop_last() =~= cells);
}

/// The text that draws a frame opens with the escape sequences of the first
/// cell's shown background and then foreground colour (those of a blank cell
/// in the default colours where the frame holds no cell and has no area),
/// followed by the
/// text of the frame's area, which starts with the default colours selected.
pub proof fn lemma_frame_text_opens_with_first_cell(
    cells: Seq<Pixel>,
    width: u16,
    height: u16,
    max: Color,
    min: Color,
    default_fg: Color,
    default_bg: Color,
)
    ensures
        cells.len() > 0 ==> frame_text(cells, width, height, max, min, default_fg, default_bg) == bg_escape(
            shown(cells[0].background_color, max, min),
        ) + fg_escape(shown(cells[0].foreground_color, max, min)) + cells_text(
            cells.take(width * height),
            default_fg,
            default_bg,
            max,
            min,
        ),
        cells.len() == 0 && width * height == 0 ==> frame_text(cells, width, height, max, min, default_fg, default_bg)
            == bg_escape(shown(default_bg, max, min)) + fg_escape(shown(default_fg, max, min)),
{
    if cells.len() == 0 && width * height == 0 {
        assert(cells.take((width as nat * height as nat) as int) =~= Seq::<Pixel>::empty());
        assert(cells_text(Seq::<Pixel>::empty(), default_fg, default_bg, max, min) =~= Seq::<char>::empty());
    }
}

/// Cells that are all shown in the colours already selected are drawn as
/// their bare characters, with no escape sequence.
pub proof fn lemma_uniform_cells_are_plain_text(
    cells: Seq<Pixel>,
    fg: Color,
    bg: Color,
    max: Color,
    min: Color,
)
    requires
        forall|i: int|
            0 <= i < cells.len() ==> shown(#[trigger] cells[i].foreground_color, max, min) == fg
                && shown(cells[i].background_color, max, min) == bg,
    ensures
        cells_text(cells, fg, bg, max, min) == chars_of(cells),
    decreases cells.len(),
{
    if cells.len() > 0 {
        let prev = cells.drop_last();
        assert forall|i: int| 0 <= i < prev.len() implies shown(
            #[trigger] prev[i].foreground_color,
            max,
            min,
        ) == fg && shown(prev[i].background_color, max, min) == bg by {
            assert(prev[i] == cells[i]);
        }
        lemma_uniform_cells_are_plain_text(prev, fg, bg, max, min);
        let last = cells[cells.len() - 1];
        assert(shown(last.foreground_color, max, min) == fg);
        assert(last_fg(prev, fg, max, min) == fg);
        assert(last_bg(prev, bg, max, min) == bg);
        assert(chars_of(cells) =~= chars_of(prev).push(last.char));
        assert(cell_text(last, fg, bg, max, min) =~= seq![last.char]);
    } else {
        assert(chars_of(cells) =~= Seq::empty());
    }
}

/// Appends the contents of `t`.
fn append_string(s: &mut String, t: &String)
    ensures
        final(s)@ == old(s)@ + t@,
{
    s.append(t.as_str());
}

/// The text that draws `buffer` on the terminal (see [`frame_text`]), with
/// the colour escape sequences taken from `cache`.
pub fn compose_frame(
    buffer: &FrameBuffer,
    cache: &mut PaletteCache,
    mask_max: Color,
    mask_min: Color,
    default_color: Color,
    default_color_bg: Color,
) -> (frame: String)
    requires
        old(cache).valid(),
        buffer.buffer@.len() >= area(buffer.size),
    ensures
        final(cache).valid(),
        final(cache).fg@.dom() == old(cache).fg@.dom().insert(
            color_key(
                shown(
                    first_cell(buffer.buffer@, default_color, default_color_bg).foreground_color,
                    mask_max,
                    mask_min,
                ),
            ),
        ).union(
            fg_changes(
                buffer.buffer@.take(area(buffer.size) as int),
                default_color,
                mask_max,
                mask_min,
            ),
        ),
        final(cache).bg@.dom() == old(cache).bg@.dom().insert(
            color_key(
                shown(
                    first_cell(buffer.buffer@, default_color, default_color_bg).background_color,
                    mask_max,
                    mask_min,
                ),
            ),
        ).union(
            bg_changes(
                buffer.buffer@.take(area(buffer.size) as int),
                default_color_bg,
                mask_max,
                mask_min,
            ),
        ),
        frame@ == frame_text(
            buffer.buffer@,
            buffer.size.width,
            buffer.size.height,
            mask_max,
            mask_min,
            default_color,
            default_color_bg,
        ),
{
    let ghost cells = buffer.buffer@;
    let first = if buffer.buffer.len() > 0 {
        buffer.buffer[0]
    } else {
        Pixel { foreground_color: default_color, background_color: default_color_bg, char: ' ' }
    };
    let first_fg = first.foreground_color.maskmax(mask_max).maskmin(mask_min);
    let first_bg = first.background_color.maskmax(mask_max).maskmin(mask_min);
    let mut frame = String::new();
    append_string(&mut frame, cache.get_bg_str(first_bg));
    append_string(&mut frame, cache.get_fg_str(first_fg));
    let ghost head = frame@;
    assert(cache.bg@.dom() =~= old(cache).bg@.dom().insert(color_key(first_bg)));
    let ghost fg0 = cache.fg@.dom();
    let ghost bg0 = cache.bg@.dom();
    assert(fg0 =~= old(cache).fg@.dom().insert(color_key(first_fg)));
    let mut last_color = default_color;
    let mut last_color_bg = default_color_bg;
    let n = (buffer.size.width as usize) * (buffer.size.height as usize);
    let mut k: usize = 0;
    while k < n
        invariant
            cache.valid(),
            cells == buffer.buffer@,
            n == area(buffer.size),
            n <= cells.len(),
            k <= n,
            frame@ == head + cells_text(cells.take(k as int), default_color, default_color_bg, mask_max, mask_min),
            last_color == last_fg(cells.take(k as int), default_color, mask_max, mask_min),
            last_color_bg == last_bg(cells.take(k as int), default_color_bg, mask_max, mask_min),
            cache.fg@.dom() == fg0.union(fg_changes(cells.take(k as int), default_color, mask_max, mask_min)),
            cache.bg@.dom() == bg0.union(bg_changes(cells.take(k as int), default_color_bg, mask_max, mask_min)),
        decreases n - k,
    {
        let pixel = buffer.buffer[k];
        let fg = pixel.foreground_color.maskmax(mask_max).maskmin(mask_min);
        let bg = pixel.background_color.maskmax(mask_max).maskmin(mask_min);
        let ghost before = frame@;
        if last_color != fg {
            append_string(&mut frame, cache.get_fg_str(fg));
            last_color = fg;
        }
        let ghost mid = frame@;
        if last_color_bg != bg {
            append_string(&mut frame, cache.get_bg_str(bg));
            last_color_bg = bg;
        }
        push_char(&mut frame, pixel.char);
        proof {
            let t = cells.take(k + 1);
            assert(t.drop_last() =~= cells.take(k as int));
            assert(t.last() == pixel);
        }
        k = k + 1;
        assert(cache.fg@.dom() =~= fg0.union(fg_changes(cells.take(k as int), default_color, mask_max, mask_min)));
        assert(cache.bg@.dom() =~= bg0.union(bg_changes(cells.take(k as int), default_color_bg, mask_max, mask_min)));
        assert(frame@ =~= head + cells_text(cells.take(k as int), default_color, default_color_bg, mask_max, mask_min));
    }
    proof {
        assert((buffer.size.width as nat * buffer.size.height as nat) == n);
        assert(fg_changes(Seq::<Pixel>::empty(), default_color, mask_max, mask_min) == Set::<u32>::empty());
    }
    frame
}

} // verus!
