//! Positions and sizes, absolute or relative to the size of the screen.
//!
//! A relative coordinate is a percentage `p` of a length `len`. It is computed
//! the way single-precision arithmetic computes `(p / 100) * len` followed by
//! rounding half away from zero and a saturating conversion to `u16`. The
//! functions here reproduce that computation exactly with integer arithmetic:
//! every single-precision value that occurs is a multiple of `2^-30`, so it is
//! held as an integer count of `2^-30` units.

use vstd::prelude::*;
use vstd::arithmetic::div_mod::{lemma_div_is_ordered, lemma_fundamental_div_mod};
use vstd::arithmetic::power2::{pow2, lemma_pow2_pos, lemma2_to64, lemma_pow2_adds, lemma_pow2_unfold, lemma_pow2_strictly_increases};

verus! {

/// `2^24`: a single-precision significand has 24 bits.
pub open spec fn sig_limit() -> nat {
    0x100_0000
}

/// `2^30`: the unit in which single-precision values are counted here.
pub open spec fn unit() -> nat {
    0x4000_0000
}

/// `n / d` rounded to the nearest integer, ties to the even one.
pub open spec fn rne_div(n: nat, d: nat) -> nat
    recommends
        d > 0,
{
    let q = n / d;
    let r = n % d;
    if 2 * r < d {
        q
    } else if 2 * r > d {
        q + 1
    } else if q % 2 == 0 {
        q
    } else {
        q + 1
    }
}

/// The power of two `s` such that `n / (d * s)` has 24 integer bits
/// (or `1` where `n / d` is below `2^24`).
pub open spec fn sig_scale(n: nat, d: nat) -> nat
    decreases n - d,
{
    if d == 0 || n < sig_limit() * d {
        1
    } else {
        2 * sig_scale(n, 2 * d)
    }
}

/// The rational `n / d` rounded to 24 significant bits, ties to even: the
/// rounding that single precision applies to a result.
pub open spec fn round_sig24(n: nat, d: nat) -> nat {
    let s = sig_scale(n, d);
    rne_div(n, d * s) * s
}

/// The single-precision value of `p / 100`, in units of `2^-30`.
pub open spec fn percent_units(p: u8) -> nat {
    round_sig24((p as nat) * unit(), 100)
}

/// `p` percent of `len` as single precision computes it, rounded half away
/// from zero and saturated to the range of `u16`.
pub open spec fn scale_percent(p: u8, len: u16) -> u16 {
    let product = round_sig24(percent_units(p) * (len as nat), 1);
    let r = (product + unit() / 2) / unit();
    if r > 0xffff {
        0xffff
    } else {
        r as u16
    }
}

proof fn lemma_sig_scale_step(n: nat, d: nat)
    requires
        d > 0,
        n >= sig_limit() * d,
    ensures
        sig_scale(n, d) == 2 * sig_scale(n, 2 * d),
{
}

proof fn lemma_round_bound(n: nat, dd: nat, s: nat, d: nat, m: nat)
    requires
        dd == d * s,
        d >= 1,
        s >= 1,
        m <= n / dd + 1,
        n >= s,
    ensures
        m * s <= 2 * n,
{
    assert(dd > 0) by (nonlinear_arith)
        requires
            dd == d * s,
            d >= 1,
            s >= 1,
    ;
    assert((n / dd) * dd <= n) by (nonlinear_arith)
        requires
            dd > 0,
    ;
    assert((n / dd) * s <= n) by (nonlinear_arith)
        requires
            (n / dd) * dd <= n,
            dd == d * s,
            d >= 1,
    ;
    assert(m * s <= (n / dd + 1) * s) by (nonlinear_arith)
        requires
            m <= n / dd + 1,
    ;
    let a = n / dd;
    assert((a + 1) * s == a * s + s) by (nonlinear_arith);
}

/// Rounds `n / d` to 24 significant bits, ties to even.
fn round_sig24_exec(n: u64, d: u64) -> (r: u64)
    requires
        1 <= d <= 100,
        n < 0x100_0000_0000_0000,
    ensures
        r == round_sig24(n as nat, d as nat),
        r <= 2 * n,
{
    let mut dd: u64 = d;
    let mut s: u64 = 1;
    while n >= 0x100_0000 * dd
        invariant
            1 <= d <= 100,
            n < 0x100_0000_0000_0000,
            dd == d * s,
            s >= 1,
            dd >= d,
            s <= dd,
            dd <= 0x2_0000_0000,
            s == 1 || n >= 0x80_0000 * dd,
            sig_scale(n as nat, d as nat) == s * sig_scale(n as nat, dd as nat),
        decreases n - dd,
    {
        proof {
            lemma_sig_scale_step(n as nat, dd as nat);
            let x = sig_scale(n as nat, (2 * dd) as nat);
            assert(s * (2 * x) == (2 * s) * x) by (nonlinear_arith);
            assert(2 * dd == d * (2 * s)) by (nonlinear_arith)
                requires
                    dd == d * s,
            ;
        }
        dd = dd * 2;
        s = s * 2;
    }
    assert(sig_scale(n as nat, dd as nat) == 1);
    assert(sig_scale(n as nat, d as nat) == s) by (nonlinear_arith)
        requires
            sig_scale(n as nat, d as nat) == s * sig_scale(n as nat, dd as nat),
            sig_scale(n as nat, dd as nat) == 1,
    ;
    let q = n / dd;
    let rem = n % dd;
    let m: u64 = if 2 * rem < dd {
        q
    } else if 2 * rem > dd {
        q + 1
    } else if q % 2 == 0 {
        q
    } else {
        q + 1
    };
    if n == 0 {
        assert(q == 0 && rem == 0) by (nonlinear_arith)
            requires
                n == 0,
                dd > 0,
                q == n / dd,
                rem == n % dd,
        ;
        return 0;
    }
    proof {
        assert(n >= s) by (nonlinear_arith)
            requires
                s == 1 || n >= 0x80_0000 * dd,
                dd == d * s,
                d >= 1,
                n >= 1,
        ;
        lemma_round_bound(n as nat, dd as nat, s as nat, d as nat, m as nat);
    }
    m * s
}

/// `p` percent of `len`, as in [`scale_percent`].
pub fn percent_of(p: u8, len: u16) -> (r: u16)
    ensures
        r == scale_percent(p, len),
{
    let q = round_sig24_exec(p as u64 * 0x4000_0000, 100);
    assert(q * len <= 2 * (p * 0x4000_0000) * 0xffff) by (nonlinear_arith)
        requires
            q <= 2 * (p * 0x4000_0000),
            len <= 0xffff,
    ;
    let product = round_sig24_exec(q * (len as u64), 1);
    let r = (product + 0x2000_0000) / 0x4000_0000;
    if r > 0xffff {
        0xffff
    } else {
        r as u16
    }
}

/// Where `n` is below `2^46` and `d = 2^j` with `j <= 30`, the divisor that
/// [`round_sig24`] rounds to, `d * sig_scale(n, d)`, divides `2^30`.
proof fn lemma_scale_divides_unit(n: nat, j: nat)
    requires
        j <= 30,
        n < 0x4000_0000_0000,
    ensures
        unit() % (pow2(j) * sig_scale(n, pow2(j))) == 0,
    decreases 30 - j,
{
    lemma_pow2_pos(j);
    lemma2_to64();
    let d = pow2(j);
    if n < sig_limit() * d {
        assert(sig_scale(n, d) == 1);
        lemma_pow2_adds(j, (30 - j) as nat);
        assert(pow2(30) == d * pow2((30 - j) as nat));
        let e = pow2((30 - j) as nat);
        assert((d * e) % d == 0) by (nonlinear_arith)
            requires
                d > 0,
        ;
        assert(d * 1 == d);
    } else {
        if j >= 22 {
            if j > 22 {
                lemma_pow2_strictly_increases(22, j);
            }
            assert(d >= 0x40_0000);
            assert(false);
        }
        lemma_pow2_unfold(j + 1);
        assert(pow2(j + 1) == 2 * d);
        lemma_scale_divides_unit(n, j + 1);
        let s2 = sig_scale(n, 2 * d);
        assert(sig_scale(n, d) == 2 * s2);
        assert(d * (2 * s2) == (2 * d) * s2) by (nonlinear_arith);
    }
}

/// Where `d * sig_scale(n, d)` divides `n`, rounding to 24 significant bits
/// is exact.
proof fn lemma_round_exact(n: nat, d: nat)
    requires
        d > 0,
        n % (d * sig_scale(n, d)) == 0,
        sig_scale(n, d) >= 1,
    ensures
        round_sig24(n, d) == n / d,
{
    let s = sig_scale(n, d);
    let dd = d * s;
    assert(dd > 0) by (nonlinear_arith)
        requires
            d > 0,
            s >= 1,
            dd == d * s,
    ;
    assert(rne_div(n, dd) == n / dd);
    assert((n / dd) * s == n / d) by (nonlinear_arith)
        requires
            n % dd == 0,
            dd == d * s,
            d > 0,
            s >= 1,
    {
        assert(n == (n / dd) * dd);
        assert(n == ((n / dd) * s) * d);
    }
}

proof fn lemma_sig_scale_positive(n: nat, d: nat)
    ensures
        sig_scale(n, d) >= 1,
    decreases n - d,
{
    if !(d == 0 || n < sig_limit() * d) {
        lemma_sig_scale_positive(n, 2 * d);
    }
}

/// No percent of any length is 0.
pub proof fn lemma_zero_percent(len: u16)
    ensures
        scale_percent(0, len) == 0,
{
    assert((0u8 as nat) * unit() == 0);
    assert(sig_scale(0, 100) == 1);
    assert(rne_div(0, 100) == 0);
    assert(percent_units(0) == 0);
    assert(sig_scale(0, 1) == 1);
    assert(rne_div(0, 1) == 0);
    assert(round_sig24(0, 1) == 0);
}

/// A hundred percent of a length is the whole length: a relative position or
/// size of 100% reaches the screen's full width and height.
pub proof fn lemma_full_percent(len: u16)
    ensures
        scale_percent(100, len) == len,
{
    lemma2_to64();
    let n100 = 100 * unit();
    assert(sig_scale(n100, 100) == 128) by {
        reveal_with_fuel(sig_scale, 9);
    }
    assert(rne_div(n100, 100 * 128) == 0x80_0000);
    assert(percent_units(100) == unit());
    let n = unit() * (len as nat);
    assert(n < 0x4000_0000_0000) by (nonlinear_arith)
        requires
            n == unit() * (len as nat),
            len <= 0xffff,
    ;
    lemma_scale_divides_unit(n, 0);
    lemma_sig_scale_positive(n, 1);
    let s = sig_scale(n, 1);
    assert(n % s == 0) by (nonlinear_arith)
        requires
            unit() % s == 0,
            n == unit() * (len as nat),
            s >= 1,
    {
        assert(unit() == (unit() / s) * s);
        assert(n == ((unit() / s) * (len as nat)) * s);
    }
    assert(1 * s == s);
    lemma_round_exact(n, 1);
    assert(round_sig24(n, 1) == n);
    assert((n + unit() / 2) / unit() == len as nat);
}

/// Rounding to the nearest integer is monotone in the numerator.
proof fn lemma_rne_monotone(n1: nat, n2: nat, d: nat)
    requires
        n1 <= n2,
        d > 0,
    ensures
        rne_div(n1, d) <= rne_div(n2, d),
{
    lemma_div_is_ordered(n1 as int, n2 as int, d as int);
    lemma_fundamental_div_mod(n1 as int, d as int);
    lemma_fundamental_div_mod(n2 as int, d as int);
    let q1 = n1 / d;
    let q2 = n2 / d;
    if q1 == q2 {
        assert(n1 % d <= n2 % d);
    }
}

/// The scale grows with the numerator, and where it grows it at least
/// doubles.
proof fn lemma_scale_grows(n1: nat, n2: nat, d: nat)
    requires
        n1 <= n2,
        d > 0,
    ensures
        sig_scale(n1, d) == sig_scale(n2, d) || 2 * sig_scale(n1, d) <= sig_scale(n2, d),
    decreases n2 - d,
{
    if n1 < sig_limit() * d {
        if n2 >= sig_limit() * d {
            lemma_sig_scale_positive(n2, 2 * d);
        }
    } else {
        lemma_scale_grows(n1, n2, 2 * d);
    }
}

/// The scale keeps the rounded quotient below `2^24`, and where it exceeds
/// 1 the quotient is at least `2^23`.
proof fn lemma_scale_bounds(n: nat, d: nat)
    requires
        d > 0,
    ensures
        n < sig_limit() * (d * sig_scale(n, d)),
        sig_scale(n, d) > 1 ==> n >= (sig_limit() / 2) * (d * sig_scale(n, d)),
    decreases n - d,
{
    if n >= sig_limit() * d {
        lemma_scale_bounds(n, 2 * d);
        let s2 = sig_scale(n, 2 * d);
        assert(d * (2 * s2) == (2 * d) * s2) by (nonlinear_arith);
        if s2 == 1 {
            assert((2 * d) * 1 == 2 * d);
        }
    } else {
        assert(sig_scale(n, d) == 1);
        assert(d * 1 == d);
    }
}

/// Rounding to 24 significant bits is monotone.
proof fn lemma_round_monotone(n1: nat, n2: nat, d: nat)
    requires
        n1 <= n2,
        d > 0,
    ensures
        round_sig24(n1, d) <= round_sig24(n2, d),
{
    lemma_sig_scale_positive(n1, d);
    lemma_sig_scale_positive(n2, d);
    lemma_scale_grows(n1, n2, d);
    let s1 = sig_scale(n1, d);
    let s2 = sig_scale(n2, d);
    let d1 = d * s1;
    let d2 = d * s2;
    assert(d1 > 0 && d2 > 0) by (nonlinear_arith)
        requires
            d > 0,
            s1 >= 1,
            s2 >= 1,
            d1 == d * s1,
            d2 == d * s2,
    ;
    if s1 == s2 {
        lemma_rne_monotone(n1, n2, d1);
        let a = rne_div(n1, d1);
        let b = rne_div(n2, d1);
        assert(a * s1 <= b * s1) by (nonlinear_arith)
            requires
                a <= b,
        ;
    } else {
        lemma_scale_bounds(n1, d);
        lemma_scale_bounds(n2, d);
        let q1 = n1 / d1;
        let q2 = n2 / d2;
        assert(q1 < sig_limit()) by (nonlinear_arith)
            requires
                n1 < sig_limit() * d1,
                d1 > 0,
                q1 == n1 / d1,
        ;
        assert(q2 >= sig_limit() / 2) by (nonlinear_arith)
            requires
                n2 >= (sig_limit() / 2) * d2,
                d2 > 0,
                q2 == n2 / d2,
        ;
        let a = rne_div(n1, d1);
        let b = rne_div(n2, d2);
        assert(a <= sig_limit());
        assert(b >= sig_limit() / 2);
        assert(a * s1 <= b * s2) by (nonlinear_arith)
            requires
                a <= sig_limit(),
                b >= sig_limit() / 2,
                2 * s1 <= s2,
                s1 >= 1,
        ;
    }
}

/// A larger percentage of a length is never shorter.
pub proof fn lemma_percent_monotone(p1: u8, p2: u8, len: u16)
    requires
        p1 <= p2,
    ensures
        scale_percent(p1, len) <= scale_percent(p2, len),
{
    lemma_round_monotone((p1 as nat) * unit(), (p2 as nat) * unit(), 100);
    let u1 = percent_units(p1);
    let u2 = percent_units(p2);
    assert(u1 * (len as nat) <= u2 * (len as nat)) by (nonlinear_arith)
        requires
            u1 <= u2,
    ;
    lemma_round_monotone(u1 * (len as nat), u2 * (len as nat), 1);
}

/// A percentage of a longer length is never shorter.
pub proof fn lemma_percent_of_longer(p: u8, len1: u16, len2: u16)
    requires
        len1 <= len2,
    ensures
        scale_percent(p, len1) <= scale_percent(p, len2),
{
    let u = percent_units(p);
    assert(u * (len1 as nat) <= u * (len2 as nat)) by (nonlinear_arith)
        requires
            len1 <= len2,
    ;
    lemma_round_monotone(u * (len1 as nat), u * (len2 as nat), 1);
}

/// A percentage of at most 100 never exceeds the length: a relative
/// position or size of at most 100% does not reach past the screen.
pub proof fn lemma_percent_within(p: u8, len: u16)
    requires
        p <= 100,
    ensures
        scale_percent(p, len) <= len,
{
    lemma_percent_monotone(p, 100, len);
    lemma_full_percent(len);
}

/// A cell on the screen: column `x`, row `y`.
#[derive(Clone, Copy, PartialEq, Eq, Hash, Debug, Structural)]
pub struct Position {
    pub x: u16,
    pub y: u16,
}

/// A position given in percent of the screen's width and height.
#[derive(Clone, Copy, Debug)]
pub struct RelPosition {
    pub relx: u8,
    pub rely: u8,
}

/// A position, absolute or relative to the screen.
#[derive(Clone, Copy, Debug)]
pub enum Positions {
    Position(Position),
    RelPosition(RelPosition),
}

/// A width and a height in cells.
#[derive(Clone, Copy, PartialEq, Eq, Debug, Structural)]
pub struct Size {
    pub width: u16,
    pub height: u16,
}

/// A size given in percent of the screen's width and height.
#[derive(Debug)]
pub struct RelSize {
    pub relwidth: u8,
    pub relheight: u8,
}

/// A size, absolute or relative to the screen.
#[derive(Debug)]
pub enum Sizes {
    Size(Size),
    RelSize(RelSize),
}

/// The cell that a position denotes on a screen of the given size.
pub open spec fn resolve_position(p: Positions, screen: Size) -> Position {
    match p {
        Positions::Position(x) => x,
        Positions::RelPosition(r) => Position {
            x: scale_percent(r.relx, screen.width),
            y: scale_percent(r.rely, screen.height),
        },
    }
}

/// The size that a size denotes on a screen of the given size.
pub open spec fn resolve_size(s: Sizes, screen: Size) -> Size {
    match s {
        Sizes::Size(x) => x,
        Sizes::RelSize(r) => Size {
            width: scale_percent(r.relwidth, screen.width),
            height: scale_percent(r.relheight, screen.height),
        },
    }
}

/// A relative size scales each axis by its own percentage: the width is
/// `relwidth` percent of the screen's width, whatever the height and
/// `relheight`, and the height is `relheight` percent of the screen's height,
/// whatever the width and `relwidth`; the same holds of a relative position's
/// column and row. 100% gives the screen's length and 0% gives 0.
pub proof fn lemma_relative_axes(r: RelSize, q: RelPosition, screen: Size)
    ensures
        resolve_size(Sizes::RelSize(r), screen).width == scale_percent(r.relwidth, screen.width),
        resolve_size(Sizes::RelSize(r), screen).height == scale_percent(r.relheight, screen.height),
        resolve_position(Positions::RelPosition(q), screen).x == scale_percent(q.relx, screen.width),
        resolve_position(Positions::RelPosition(q), screen).y == scale_percent(q.rely, screen.height),
        r.relwidth == 100 ==> resolve_size(Sizes::RelSize(r), screen).width == screen.width,
        r.relheight == 100 ==> resolve_size(Sizes::RelSize(r), screen).height == screen.height,
        r.relwidth == 0 ==> resolve_size(Sizes::RelSize(r), screen).width == 0,
        r.relheight == 0 ==> resolve_size(Sizes::RelSize(r), screen).height == 0,
        q.relx == 100 ==> resolve_position(Positions::RelPosition(q), screen).x == screen.width,
        q.rely == 100 ==> resolve_position(Positions::RelPosition(q), screen).y == screen.height,
        q.relx == 0 ==> resolve_position(Positions::RelPosition(q), screen).x == 0,
        q.rely == 0 ==> resolve_position(Positions::RelPosition(q), screen).y == 0,
{
    lemma_full_percent(screen.width);
    lemma_full_percent(screen.height);
    lemma_zero_percent(screen.width);
    lemma_zero_percent(screen.height);
}

/// Resolving a relative size or position depends on each axis alone: two
/// relative sizes with the same width percentage on screens of the same
/// width resolve to the same width, and likewise for heights, columns and
/// rows.
pub proof fn lemma_axes_independent(r1: RelSize, r2: RelSize, q1: RelPosition, q2: RelPosition, s1: Size, s2: Size)
    ensures
        r1.relwidth == r2.relwidth && s1.width == s2.width ==> resolve_size(Sizes::RelSize(r1), s1).width
            == resolve_size(Sizes::RelSize(r2), s2).width,
        r1.relheight == r2.relheight && s1.height == s2.height ==> resolve_size(
            Sizes::RelSize(r1),
            s1,
        ).height == resolve_size(Sizes::RelSize(r2), s2).height,
        q1.relx == q2.relx && s1.width == s2.width ==> resolve_position(Positions::RelPosition(q1), s1).x
            == resolve_position(Positions::RelPosition(q2), s2).x,
        q1.rely == q2.rely && s1.height == s2.height ==> resolve_position(
            Positions::RelPosition(q1),
            s1,
        ).y == resolve_position(Positions::RelPosition(q2), s2).y,
{
    lemma_relative_axes(r1, q1, s1);
    lemma_relative_axes(r2, q2, s2);
}

impl RelPosition {
    /// The cell at `relx` percent of the width and `rely` percent of the height.
    pub fn calc(&self, size: Size) -> (p: Position)
        ensures
            p.x == scale_percent(self.relx, size.width),
            p.y == scale_percent(self.rely, size.height),
    {
        Position { x: percent_of(self.relx, size.width), y: percent_of(self.rely, size.height) }
    }
}

impl RelSize {
    /// `relwidth` percent of the width by `relheight` percent of the height.
    pub fn calc(&self, size: Size) -> (s: Size)
        ensures
            s.width == scale_percent(self.relwidth, size.width),
            s.height == scale_percent(self.relheight, size.height),
    {
        Size {
            width: percent_of(self.relwidth, size.width),
            height: percent_of(self.relheight, size.height),
        }
    }
}

impl Sizes {
    /// The size on a screen of the given size: an absolute size as it is,
    /// a relative one scaled.
    pub fn calc(&self, size: Size) -> (s: Size)
        ensures
            s == resolve_size(*self, size),
    {
        match self {
            Sizes::Size(x) => *x,
            Sizes::RelSize(x) => x.calc(size),
        }
    }
}

impl Positions {
    /// The cell on a screen of the given size: an absolute position as it is,
    /// a relative one scaled.
    pub fn calc(&self, size: Size) -> (p: Position)
        ensures
            p == resolve_position(*self, size),
    {
        match self {
            Positions::Position(x) => *x,
            Positions::RelPosition(x) => x.calc(size),
        }
    }
}

} // verus!
