//! Colours, character cells, and the ANSI escape sequences that select a
//! 24-bit foreground or background colour.

use vstd::prelude::*;

verus! {

/// A 24-bit colour.
#[derive(Clone, Copy, PartialEq, Eq, Hash, Debug, Structural)]
pub struct Color {
    pub red: u8,
    pub green: u8,
    pub blue: u8,
}

/// The smaller of two channel values.
pub open spec fn channel_min(a: u8, b: u8) -> u8 {
    if a > b {
        b
    } else {
        a
    }
}

/// The larger of two channel values.
pub open spec fn channel_max(a: u8, b: u8) -> u8 {
    if a < b {
        b
    } else {
        a
    }
}

/// `c` with every channel capped at the channel of `mask`.
pub open spec fn cap(c: Color, mask: Color) -> Color {
    Color {
        red: channel_min(c.red, mask.red),
        green: channel_min(c.green, mask.green),
        blue: channel_min(c.blue, mask.blue),
    }
}

/// `c` with every channel raised to at least the channel of `mask`.
pub open spec fn raise(c: Color, mask: Color) -> Color {
    Color {
        red: channel_max(c.red, mask.red),
        green: channel_max(c.green, mask.green),
        blue: channel_max(c.blue, mask.blue),
    }
}

/// Black: every channel 0.
pub open spec fn black_spec() -> Color {
    Color { red: 0, green: 0, blue: 0 }
}

/// White: every channel 255.
pub open spec fn white_spec() -> Color {
    Color { red: 255, green: 255, blue: 255 }
}

/// The decimal digit `d` as a character.
pub open spec fn digit(d: nat) -> char {
    ((48 + d) as u8) as char
}

/// The decimal notation of `n`, without leading zeros.
pub open spec fn decimal(n: nat) -> Seq<char>
    decreases n,
{
    if n < 10 {
        seq![digit(n)]
    } else {
        decimal(n / 10).push(digit(n % 10))
    }
}

/// The escape sequence `ESC [ <code> ; 2 ; <r> ; <g> ; <b> m` that selects
/// the colour `c` as foreground (code 38) or background (code 48).
pub open spec fn rgb_escape(code: Seq<char>, c: Color) -> Seq<char> {
    seq!['\x1b', '['] + code + seq![';', '2', ';'] + decimal(c.red as nat) + seq![';']
        + decimal(c.green as nat) + seq![';'] + decimal(c.blue as nat) + seq!['m']
}

/// A decimal digit character.
pub open spec fn is_digit(c: char) -> bool {
    '0' <= c <= '9'
}

proof fn lemma_decimal_digits(n: nat)
    ensures
        decimal(n).len() >= 1,
        n >= 10 ==> decimal(n).len() >= 2,
        forall|i: int| 0 <= i < decimal(n).len() ==> is_digit(#[trigger] decimal(n)[i]),
    decreases n,
{
    if n >= 10 {
        lemma_decimal_digits(n / 10);
        let d = decimal(n / 10);
        assert forall|i: int| 0 <= i < decimal(n).len() implies is_digit(#[trigger] decimal(n)[i]) by {
            if i < d.len() {
                assert(decimal(n)[i] == d[i]);
            }
        }
    }
}

proof fn lemma_digit_value(d: nat)
    requires
        d < 10,
    ensures
        digit(d) as int == 48 + d,
{
}

/// The number that a string of decimal digits denotes.
pub open spec fn digits_value(s: Seq<char>) -> nat
    decreases s.len(),
{
    if s.len() == 0 {
        0
    } else {
        digits_value(s.drop_last()) * 10 + ((s.last() as int - 48) as nat)
    }
}

/// The decimal notation of a number denotes that number.
pub proof fn lemma_decimal_value(n: nat)
    ensures
        digits_value(decimal(n)) == n,
    decreases n,
{
    lemma_digit_value(n % 10);
    if n >= 10 {
        lemma_decimal_value(n / 10);
        assert(decimal(n).drop_last() =~= decimal(n / 10));
        assert(decimal(n).last() == digit(n % 10));
        assert(digits_value(decimal(n)) == n / 10 * 10 + n % 10);
    } else {
        assert(decimal(n).drop_last() =~= Seq::<char>::empty());
        assert(digits_value(Seq::<char>::empty()) == 0);
        assert(decimal(n).last() == digit(n));
        assert(n % 10 == n);
        assert(digits_value(decimal(n)) == 0 * 10 + n);
    }
}

/// Capping keeps each channel at most the mask's and at most the colour's,
/// equal to one of the two; raising keeps each channel at least the mask's
/// and at least the colour's, equal to one of the two.
pub proof fn lemma_cap_raise_channels(c: Color, m: Color)
    ensures
        cap(c, m).red <= c.red && cap(c, m).red <= m.red && (cap(c, m).red == c.red || cap(c, m).red == m.red),
        cap(c, m).green <= c.green && cap(c, m).green <= m.green && (cap(c, m).green == c.green || cap(c, m).green == m.green),
        cap(c, m).blue <= c.blue && cap(c, m).blue <= m.blue && (cap(c, m).blue == c.blue || cap(c, m).blue == m.blue),
        raise(c, m).red >= c.red && raise(c, m).red >= m.red && (raise(c, m).red == c.red || raise(c, m).red == m.red),
        raise(c, m).green >= c.green && raise(c, m).green >= m.green && (raise(c, m).green == c.green || raise(c, m).green == m.green),
        raise(c, m).blue >= c.blue && raise(c, m).blue >= m.blue && (raise(c, m).blue == c.blue || raise(c, m).blue == m.blue),
{
}

/// A cell built from given parts has those parts; each missing part is
/// that of the blank cell: a white foreground, a black background, a space.
pub proof fn lemma_pixel_parts(fg: Option<Color>, bg: Option<Color>, ch: Option<char>)
    ensures
        fg matches Some(c) ==> pixel_of(fg, bg, ch).foreground_color == c,
        bg matches Some(c) ==> pixel_of(fg, bg, ch).background_color == c,
        ch matches Some(c) ==> pixel_of(fg, bg, ch).char == c,
        fg is None ==> pixel_of(fg, bg, ch).foreground_color == (Color { red: 255, green: 255, blue: 255 }),
        bg is None ==> pixel_of(fg, bg, ch).background_color == (Color { red: 0, green: 0, blue: 0 }),
        ch is None ==> pixel_of(fg, bg, ch).char == ' ',
{
}

/// Different numbers have different decimal notations.
proof fn lemma_decimal_injective(n: nat, m: nat)
    requires
        decimal(n) == decimal(m),
    ensures
        n == m,
    decreases n,
{
    lemma_decimal_digits(n);
    lemma_decimal_digits(m);
    lemma_digit_value(n % 10);
    lemma_digit_value(m % 10);
    if n < 10 && m < 10 {
        assert(decimal(n)[0] == digit(n));
        assert(decimal(m)[0] == digit(m));
    }
    if n >= 10 && m >= 10 {
        let a = decimal(n);
        assert(a.drop_last() =~= decimal(n / 10));
        assert(decimal(m).drop_last() =~= decimal(m / 10));
        assert(a.last() == digit(n % 10));
        assert(decimal(m).last() == digit(m % 10));
        lemma_decimal_injective(n / 10, m / 10);
    }
}

/// Two runs of digits each followed by `;` split a sequence in one way only.
proof fn lemma_split_at_separator(a1: Seq<char>, r1: Seq<char>, a2: Seq<char>, r2: Seq<char>)
    requires
        forall|i: int| 0 <= i < a1.len() ==> is_digit(#[trigger] a1[i]),
        forall|i: int| 0 <= i < a2.len() ==> is_digit(#[trigger] a2[i]),
        a1 + seq![';'] + r1 == a2 + seq![';'] + r2,
    ensures
        a1 == a2,
        r1 == r2,
{
    let s1 = a1 + seq![';'] + r1;
    let s2 = a2 + seq![';'] + r2;
    if a1.len() < a2.len() {
        assert(s1[a1.len() as int] == ';');
        assert(s2[a1.len() as int] == a2[a1.len() as int]);
        assert(false);
    } else if a2.len() < a1.len() {
        assert(s2[a2.len() as int] == ';');
        assert(s1[a2.len() as int] == a1[a2.len() as int]);
        assert(false);
    }
    assert(a1 =~= s1.subrange(0, a1.len() as int));
    assert(a2 =~= s2.subrange(0, a2.len() as int));
    assert(r1 =~= s1.subrange(a1.len() as int + 1, s1.len() as int));
    assert(r2 =~= s2.subrange(a2.len() as int + 1, s2.len() as int));
}

/// Different colours have different escape sequences, for foreground and
/// background alike: the three channels are written in decimal, separated
/// by `;`.
pub proof fn lemma_rgb_escape_injective(code: Seq<char>, a: Color, b: Color)
    ensures
        rgb_escape(code, a) == rgb_escape(code, b) <==> a == b,
{
    if rgb_escape(code, a) == rgb_escape(code, b) {
        let head = seq!['\x1b', '['] + code + seq![';', '2', ';'];
        let tail = |c: Color|
            decimal(c.red as nat) + seq![';'] + (decimal(c.green as nat) + seq![';'] + (decimal(
                c.blue as nat,
            ) + seq!['m']));
        assert(rgb_escape(code, a) =~= head + tail(a));
        assert(rgb_escape(code, b) =~= head + tail(b));
        assert(tail(a) =~= rgb_escape(code, a).subrange(head.len() as int, rgb_escape(code, a).len() as int));
        assert(tail(b) =~= rgb_escape(code, b).subrange(head.len() as int, rgb_escape(code, b).len() as int));
        lemma_decimal_digits(a.red as nat);
        lemma_decimal_digits(b.red as nat);
        lemma_decimal_digits(a.green as nat);
        lemma_decimal_digits(b.green as nat);
        lemma_split_at_separator(
            decimal(a.red as nat),
            decimal(a.green as nat) + seq![';'] + (decimal(a.blue as nat) + seq!['m']),
            decimal(b.red as nat),
            decimal(b.green as nat) + seq![';'] + (decimal(b.blue as nat) + seq!['m']),
        );
        lemma_split_at_separator(
            decimal(a.green as nat),
            decimal(a.blue as nat) + seq!['m'],
            decimal(b.green as nat),
            decimal(b.blue as nat) + seq!['m'],
        );
        let x = decimal(a.blue as nat) + seq!['m'];
        let y = decimal(b.blue as nat) + seq!['m'];
        assert(decimal(a.blue as nat) =~= x.drop_last());
        assert(decimal(b.blue as nat) =~= y.drop_last());
        lemma_decimal_injective(a.red as nat, b.red as nat);
        lemma_decimal_injective(a.green as nat, b.green as nat);
        lemma_decimal_injective(a.blue as nat, b.blue as nat);
    }
}

/// Two colours have the same foreground escape sequence exactly when they
/// are the same colour.
pub proof fn lemma_fg_escape_injective(a: Color, b: Color)
    ensures
        fg_escape(a) == fg_escape(b) <==> a == b,
{
    lemma_rgb_escape_injective(seq!['3', '8'], a, b);
}

/// Two colours have the same background escape sequence exactly when they
/// are the same colour.
pub proof fn lemma_bg_escape_injective(a: Color, b: Color)
    ensures
        bg_escape(a) == bg_escape(b) <==> a == b,
{
    lemma_rgb_escape_injective(seq!['4', '8'], a, b);
}

/// The escape sequence that selects `c` as foreground colour.
pub open spec fn fg_escape(c: Color) -> Seq<char> {
    rgb_escape(seq!['3', '8'], c)
}

/// The escape sequence that selects `c` as background colour.
pub open spec fn bg_escape(c: Color) -> Seq<char> {
    rgb_escape(seq!['4', '8'], c)
}

/// Appends one character to a string with `String::push`. Trusted: the
/// string afterwards is the old one with `c` appended, as the standard
/// library documents.
#[verifier::external_body]
pub(crate) fn push_char(s: &mut String, c: char)
    ensures
        final(s)@ == old(s)@.push(c),
{
    s.push(c);
}

fn push_digit(s: &mut String, d: u8)
    requires
        d < 10,
    ensures
        final(s)@ == old(s)@.push(digit(d as nat)),
{
    push_char(s, (48u8 + d) as char);
}

/// Appends the decimal notation of `v`.
fn push_decimal(s: &mut String, v: u8)
    ensures
        final(s)@ == old(s)@ + decimal(v as nat),
{
    let ghost s0 = s@;
    if v >= 100 {
        push_digit(s, v / 100);
        push_digit(s, (v / 10) % 10);
        push_digit(s, v % 10);
        assert(decimal((v / 100) as nat) == seq![digit((v / 100) as nat)]);
        assert(decimal((v / 10) as nat) == decimal((v / 100) as nat).push(digit(((v / 10) % 10) as nat)));
        assert(decimal(v as nat) == decimal((v / 10) as nat).push(digit((v % 10) as nat)));
    } else if v >= 10 {
        push_digit(s, v / 10);
        push_digit(s, v % 10);
        assert(decimal((v / 10) as nat) == seq![digit((v / 10) as nat)]);
        assert(decimal(v as nat) == decimal((v / 10) as nat).push(digit((v % 10) as nat)));
    } else {
        push_digit(s, v);
    }
    assert(s@ =~= s0 + decimal(v as nat));
}

/// Appends the escape sequence `ESC [ <a><b> ; 2 ; <r> ; <g> ; <b> m`.
fn push_rgb_escape(s: &mut String, a: char, b: char, c: Color)
    ensures
        final(s)@ == old(s)@ + rgb_escape(seq![a, b], c),
{
    let ghost s0 = s@;
    push_char(s, '\x1b');
    push_char(s, '[');
    push_char(s, a);
    push_char(s, b);
    push_char(s, ';');
    push_char(s, '2');
    push_char(s, ';');
    let ghost s1 = s@;
    push_decimal(s, c.red);
    push_char(s, ';');
    let ghost s2 = s@;
    push_decimal(s, c.green);
    push_char(s, ';');
    let ghost s3 = s@;
    push_decimal(s, c.blue);
    push_char(s, 'm');
    assert(s1 =~= s0 + seq!['\x1b', '['] + seq![a, b] + seq![';', '2', ';']);
    assert(s@ =~= s0 + rgb_escape(seq![a, b], c));
}

/// Appends the escape sequence that selects `c` as foreground colour.
pub(crate) fn push_fg_escape(s: &mut String, c: Color)
    ensures
        final(s)@ == old(s)@ + fg_escape(c),
{
    push_rgb_escape(s, '3', '8', c);
}

/// Appends the escape sequence that selects `c` as background colour.
pub(crate) fn push_bg_escape(s: &mut String, c: Color)
    ensures
        final(s)@ == old(s)@ + bg_escape(c),
{
    push_rgb_escape(s, '4', '8', c);
}

impl Color {
    /// The colour with the given red, green and blue channels.
    pub fn new(r: u8, g: u8, b: u8) -> (c: Color)
        ensures
            c == (Color { red: r, green: g, blue: b }),
    {
        Color { red: r, green: g, blue: b }
    }

    /// This colour with each channel capped at the channel of `mask`.
    pub fn maskmax(&self, mask: Color) -> (c: Color)
        ensures
            c == cap(*self, mask),
    {
        let mut res = *self;
        if res.red > mask.red {
            res.red = mask.red;
        }
        if res.green > mask.green {
            res.green = mask.green;
        }
        if res.blue > mask.blue {
            res.blue = mask.blue;
        }
        res
    }

    /// This colour with each channel raised to at least the channel of `mask`.
    pub fn maskmin(&self, mask: Color) -> (c: Color)
        ensures
            c == raise(*self, mask),
    {
        let mut res = *self;
        if res.red < mask.red {
            res.red = mask.red;
        }
        if res.green < mask.green {
            res.green = mask.green;
        }
        if res.blue < mask.blue {
            res.blue = mask.blue;
        }
        res
    }

    /// The escape sequence that selects this colour as background colour.
    pub fn to_bg_string(&self) -> (s: String)
        ensures
            s@ == bg_escape(*self),
    {
        let mut s = String::new();
        push_bg_escape(&mut s, *self);
        assert(s@ =~= bg_escape(*self));
        s
    }

    /// The escape sequence that selects this colour as foreground colour.
    pub fn to_fg_string(&self) -> (s: String)
        ensures
            s@ == fg_escape(*self),
    {
        let mut s = String::new();
        push_fg_escape(&mut s, *self);
        assert(s@ =~= fg_escape(*self));
        s
    }

    /// Black.
    pub fn black() -> (c: Color)
        ensures
            c == black_spec(),
    {
        Color { red: 0, green: 0, blue: 0 }
    }

    /// White.
    pub fn white() -> (c: Color)
        ensures
            c == white_spec(),
    {
        Color { red: 255, green: 255, blue: 255 }
    }
}

/// One character cell: a character with its foreground and background colour.
#[derive(Clone, Copy, PartialEq, Eq, Hash, Debug, Structural)]
pub struct Pixel {
    pub foreground_color: Color,
    pub background_color: Color,
    pub char: char,
}

/// The cell made of the given parts, each missing one taken from the blank
/// cell: white on black, a space.
pub open spec fn pixel_of(fg: Option<Color>, bg: Option<Color>, ch: Option<char>) -> Pixel {
    Pixel {
        foreground_color: match fg {
            Some(c) => c,
            None => white_spec(),
        },
        background_color: match bg {
            Some(c) => c,
            None => black_spec(),
        },
        char: match ch {
            Some(c) => c,
            None => ' ',
        },
    }
}

/// The blank cell: a space, white on black.
pub open spec fn blank() -> Pixel {
    pixel_of(None, None, None)
}

impl Pixel {
    /// A cell from the given parts; a missing foreground is white, a missing
    /// background black, a missing character a space.
    pub fn new(fg: Option<Color>, bg: Option<Color>, ch: Option<char>) -> (p: Pixel)
        ensures
            p == pixel_of(fg, bg, ch),
    {
        let fgcolor = match fg {
            Some(c) => c,
            None => Color::white(),
        };
        let bgcolor = match bg {
            Some(c) => c,
            None => Color::black(),
        };
        let c = match ch {
            Some(x) => x,
            None => ' ',
        };
        Pixel { foreground_color: fgcolor, background_color: bgcolor, char: c }
    }

    /// The blank cell.
    pub fn empty() -> (p: Pixel)
        ensures
            p == blank(),
    {
        Pixel::new(None, None, None)
    }
}

} // verus!
