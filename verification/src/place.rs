//! Where labels, rectangles and images land on the frame buffer.
//!
//! Drawing an element blends its colours into some cells of the frame. The
//! functions here decide which cells those are, in the order in which they
//! are drawn, and which character or image pixel goes to each; the blending
//! itself is left to the caller. A cell is found at `row * width + column`,
//! computed in 16-bit arithmetic, and a cell past the end of the frame
//! buffer is skipped.

use vstd::prelude::*;
use crate::geometry::{Position, Positions, Size, Sizes, resolve_position, resolve_size};
use crate::framebuffer::FrameBuffer;

verus! {

broadcast use vstd::string::group_string_axioms;

/// The column of a label's first character: its position, or, for a
/// centred label, its position moved left by half its length in bytes
/// (taken modulo `2^16`).
pub open spec fn label_start(pos: Position, bytes: nat, centered: bool) -> int {
    if centered {
        pos.x - (bytes % 0x10000) / 2
    } else {
        pos.x as int
    }
}

/// The cell of the `i`-th character of a label that starts at column `x`
/// on row `pos.y` of a frame `width` cells wide.
pub open spec fn label_cell(width: u16, pos: Position, x: int, i: int) -> int {
    pos.y * width + x + (i % 0x10000)
}

/// The cells of the characters `chars` of a label, with their characters,
/// skipping those past `cells`.
pub open spec fn label_plan(width: u16, pos: Position, x: int, chars: Seq<char>, cells: nat) -> Seq<
    (usize, char),
>
    decreases chars.len(),
{
    if chars.len() == 0 {
        Seq::empty()
    } else {
        let k = chars.len() - 1;
        let idx = label_cell(width, pos, x, k);
        label_plan(width, pos, x, chars.drop_last(), cells) + if idx < cells {
            seq![(idx as usize, chars.last())]
        } else {
            Seq::empty()
        }
    }
}

/// Every cell of a label's plan lies inside the frame buffer.
pub proof fn lemma_label_plan_in_frame(width: u16, pos: Position, x: int, chars: Seq<char>, cells: nat)
    requires
        x >= 0,
        cells <= usize::MAX,
    ensures
        forall|i: int|
            0 <= i < label_plan(width, pos, x, chars, cells).len() ==> (#[trigger] label_plan(
                width,
                pos,
                x,
                chars,
                cells,
            )[i]).0 < cells,
    decreases chars.len(),
{
    if chars.len() > 0 {
        let prev = chars.drop_last();
        lemma_label_plan_in_frame(width, pos, x, prev, cells);
        let k = chars.len() - 1;
        let idx = label_cell(width, pos, x, k);
        assert(pos.y * width >= 0) by (nonlinear_arith);
        assert(idx >= 0);
        let a = label_plan(width, pos, x, prev, cells);
        let whole = label_plan(width, pos, x, chars, cells);
        assert forall|i: int| 0 <= i < whole.len() implies (#[trigger] whole[i]).0 < cells by {
            if i < a.len() {
                assert(whole[i] == a[i]);
            }
        }
    }
}

/// Where every character's cell lies inside the frame, a label's plan has
/// one entry per character, in order: character `k` at cell
/// `row * width + start + k` (with `k` taken modulo `2^16`).
pub proof fn lemma_label_plan_exact(width: u16, pos: Position, x: int, chars: Seq<char>, cells: nat)
    requires
        x >= 0,
        cells <= usize::MAX,
        forall|k: int| 0 <= k < chars.len() ==> #[trigger] label_cell(width, pos, x, k) < cells,
    ensures
        label_plan(width, pos, x, chars, cells).len() == chars.len(),
        forall|k: int|
            0 <= k < chars.len() ==> #[trigger] label_plan(width, pos, x, chars, cells)[k] == (
                (pos.y * width + x + (k % 0x10000)) as usize,
                chars[k],
            ),
    decreases chars.len(),
{
    if chars.len() > 0 {
        let prev = chars.drop_last();
        assert forall|k: int| 0 <= k < prev.len() implies #[trigger] label_cell(width, pos, x, k) < cells by {
            assert(label_cell(width, pos, x, k) < cells);
        }
        lemma_label_plan_exact(width, pos, x, prev, cells);
        let n = chars.len() - 1;
        assert(label_cell(width, pos, x, n) < cells);
        let a = label_plan(width, pos, x, prev, cells);
        let whole = label_plan(width, pos, x, chars, cells);
        assert forall|k: int| 0 <= k < chars.len() implies #[trigger] whole[k] == (
            (pos.y * width + x + (k % 0x10000)) as usize,
            chars[k],
        ) by {
            if k < n {
                assert(whole[k] == a[k]);
                assert(prev[k] == chars[k]);
            }
        }
    }
}

/// Drawing the label does not leave the 16-bit range: the start column is
/// not negative and every character's cell is below `2^16`.
pub open spec fn label_fits(width: u16, pos: Position, x: int, n: nat) -> bool {
    &&& x >= 0
    &&& forall|i: int| 0 <= i < n ==> #[trigger] label_cell(width, pos, x, i) <= 0xffff
}

/// Whether drawing the label `content` at `pos` on `buff` stays within the
/// 16-bit range (see [`label_fits`]).
pub fn label_in_range(buff: &FrameBuffer, pos: Positions, content: &str, centered: bool) -> (ok:
    bool)
    ensures
        ok == label_fits(
            buff.size.width,
            resolve_position(pos, buff.size),
            label_start(resolve_position(pos, buff.size), content.len() as nat, centered),
            content@.len(),
        ),
{
    let p = pos.calc(buff.size);
    let ghost x0 = label_start(p, content.len() as nat, centered);
    let half = ((content.len() % 0x10000) as u16) / 2;
    if centered && p.x < half {
        return false;
    }
    let x: u16 = if centered {
        p.x - half
    } else {
        p.x
    };
    let n = content.unicode_len();
    let width = buff.size.width;
    if n == 0 {
        return true;
    }
    let m: u64 = if n - 1 < 0x10000 {
        (n - 1) as u64
    } else {
        0xffff
    };
    assert((p.y as nat) * (width as nat) <= 0xffff * 0xffff) by (nonlinear_arith)
        requires
            p.y <= 0xffff,
            width <= 0xffff,
    ;
    let last = (p.y as u64) * (width as u64) + (x as u64) + m;
    proof {
        assert(label_cell(width, p, x0, m as int) == last);
        if last <= 0xffff {
            assert forall|i: int| 0 <= i < n implies #[trigger] label_cell(width, p, x0, i) <= 0xffff by {
                assert(i % 0x10000 <= m);
            }
        }
    }
    last <= 0xffff
}

/// The cells that the label `content` at `pos` covers on `buff`, each with
/// its character, in drawing order.
pub fn label_cells(buff: &FrameBuffer, pos: Positions, content: &str, centered: bool) -> (plan: Vec<
    (usize, char),
>)
    requires
        label_fits(
            buff.size.width,
            resolve_position(pos, buff.size),
            label_start(resolve_position(pos, buff.size), content.len() as nat, centered),
            content@.len(),
        ),
    ensures
        plan@ == label_plan(
            buff.size.width,
            resolve_position(pos, buff.size),
            label_start(resolve_position(pos, buff.size), content.len() as nat, centered),
            content@,
            buff.buffer@.len(),
        ),
{
    let p = pos.calc(buff.size);
    let ghost x0 = label_start(p, content.len() as nat, centered);
    let x: u16 = if centered {
        p.x - ((content.len() % 0x10000) as u16) / 2
    } else {
        p.x
    };
    let width = buff.size.width;
    let cells = buff.buffer.len();
    let mut plan: Vec<(usize, char)> = Vec::new();
    let mut j: u16 = 0;
    let ghost chars = content@;
    for ch in it: content.chars()
        invariant
            it.seq() == chars,
            chars == content@,
            x == x0,
            x0 >= 0,
            j == it.index() % 0x10000,
            cells == buff.buffer@.len(),
            width == buff.size.width,
            label_fits(width, p, x0, chars.len()),
            plan@ == label_plan(width, p, x0, chars.take(it.index()), cells as nat),
    {
        let ghost i = it.index();
        assert(label_cell(width, p, x0, i) <= 0xffff);
        let row = p.y * width;
        let idx = (row + (x + j)) as usize;
        if idx < cells {
            plan.push((idx, ch));
        }
        proof {
            let t = chars.take(i + 1);
            assert(t.drop_last() =~= chars.take(i));
            assert(t.last() == ch);
        }
        j = j.wrapping_add(1);
    }
    assert(chars.take(chars.len() as int) =~= chars);
    plan
}

/// The top-left cell `(column, row)` of a box of the given size at `pos`: the
/// position itself, or, for a centred box, the position moved left and up by
/// half the box's width and height.
pub open spec fn box_origin(pos: Position, size: Size, centered: bool) -> (int, int) {
    if centered {
        (pos.x - size.width / 2, pos.y - size.height / 2)
    } else {
        (pos.x as int, pos.y as int)
    }
}

/// A centred box is centred on its position: its top-left cell lies half
/// its width to the left of the position and half its height above it. A
/// box that is not centred starts at its position. Likewise a centred label
/// starts half its byte length (modulo `2^16`) to the left of its position.
pub proof fn lemma_box_centred_on_position(pos: Position, size: Size, bytes: nat)
    ensures
        box_origin(pos, size, true).0 + size.width / 2 == pos.x,
        box_origin(pos, size, true).1 + size.height / 2 == pos.y,
        box_origin(pos, size, false) == (pos.x as int, pos.y as int),
        label_start(pos, bytes, true) + (bytes % 0x10000) / 2 == pos.x,
        label_start(pos, bytes, false) == pos.x,
{
}

/// The cell at column `x` and row `y` of a box whose top-left cell is
/// `origin`, in a frame `width` cells wide.
pub open spec fn box_cell(width: u16, origin: (int, int), x: int, y: int) -> int {
    (origin.1 + y) * width + origin.0 + x
}

/// Drawing the box does not leave the 16-bit range: the origin is not
/// negative, and for every cell of the box its row and its cell number are
/// below `2^16`.
pub open spec fn box_fits(width: u16, origin: (int, int), size: Size) -> bool {
    &&& origin.0 >= 0
    &&& origin.1 >= 0
    &&& forall|x: int, y: int|
        0 <= x < size.width && 0 <= y < size.height ==> origin.1 + y <= 0xffff && #[trigger] box_cell(
            width,
            origin,
            x,
            y,
        ) <= 0xffff
}

/// The cells of the first `n` columns of row `y` of a box, skipping those
/// past `cells`.
pub open spec fn box_row(width: u16, origin: (int, int), y: int, n: nat, cells: nat) -> Seq<usize>
    decreases n,
{
    if n == 0 {
        Seq::empty()
    } else {
        let idx = box_cell(width, origin, n - 1, y);
        box_row(width, origin, y, (n - 1) as nat, cells) + if idx < cells {
            seq![idx as usize]
        } else {
            Seq::empty()
        }
    }
}

/// The cells of the first `rows` rows of a box `columns` cells wide, row by
/// row, skipping those past `cells`.
pub open spec fn box_rows(width: u16, origin: (int, int), columns: nat, rows: nat, cells: nat) -> Seq<
    usize,
>
    decreases rows,
{
    if rows == 0 {
        Seq::empty()
    } else {
        box_rows(width, origin, columns, (rows - 1) as nat, cells) + box_row(
            width,
            origin,
            rows - 1,
            columns,
            cells,
        )
    }
}

/// Every cell of a box's plan lies inside the frame buffer.
pub proof fn lemma_box_rows_in_frame(width: u16, origin: (int, int), columns: nat, rows: nat, cells: nat)
    requires
        origin.0 >= 0,
        origin.1 >= 0,
        cells <= usize::MAX,
    ensures
        forall|i: int|
            0 <= i < box_rows(width, origin, columns, rows, cells).len() ==> #[trigger] box_rows(
                width,
                origin,
                columns,
                rows,
                cells,
            )[i] < cells,
    decreases rows,
{
    if rows > 0 {
        lemma_box_rows_in_frame(width, origin, columns, (rows - 1) as nat, cells);
        lemma_box_row_in_frame(width, origin, rows - 1, columns, cells);
        let a = box_rows(width, origin, columns, (rows - 1) as nat, cells);
        let b = box_row(width, origin, rows - 1, columns, cells);
        let whole = box_rows(width, origin, columns, rows, cells);
        assert forall|i: int| 0 <= i < whole.len() implies #[trigger] whole[i] < cells by {
            if i < a.len() {
                assert(whole[i] == a[i]);
            } else {
                assert(whole[i] == b[i - a.len()]);
            }
        }
    }
}

proof fn lemma_box_row_in_frame(width: u16, origin: (int, int), y: int, n: nat, cells: nat)
    requires
        origin.0 >= 0,
        origin.1 >= 0,
        y >= 0,
        cells <= usize::MAX,
    ensures
        forall|i: int|
            0 <= i < box_row(width, origin, y, n, cells).len() ==> #[trigger] box_row(
                width,
                origin,
                y,
                n,
                cells,
            )[i] < cells,
    decreases n,
{
    if n > 0 {
        lemma_box_row_in_frame(width, origin, y, (n - 1) as nat, cells);
        assert((origin.1 + y) * width >= 0) by (nonlinear_arith)
            requires
                origin.1 + y >= 0,
        ;
        let a = box_row(width, origin, y, (n - 1) as nat, cells);
        let whole = box_row(width, origin, y, n, cells);
        assert forall|i: int| 0 <= i < whole.len() implies #[trigger] whole[i] < cells by {
            if i < a.len() {
                assert(whole[i] == a[i]);
            }
        }
    }
}

/// Whether a box of size `size` at `pos` on `buff` stays within the 16-bit
/// range (see [`box_fits`]).
fn box_in_range(buff: &FrameBuffer, pos: Positions, size: &Sizes, centered: bool) -> (ok: bool)
    ensures
        ok == box_fits(
            buff.size.width,
            box_origin(
                resolve_position(pos, buff.size),
                resolve_size(*size, buff.size),
                centered,
            ),
            resolve_size(*size, buff.size),
        ),
{
    let p = pos.calc(buff.size);
    let sz = size.calc(buff.size);
    let ghost origin = box_origin(p, sz, centered);
    if centered && (p.x < sz.width / 2 || p.y < sz.height / 2) {
        return false;
    }
    let (ox, oy) = if centered {
        (p.x - sz.width / 2, p.y - sz.height / 2)
    } else {
        (p.x, p.y)
    };
    assert(origin == (ox as int, oy as int));
    if sz.width == 0 || sz.height == 0 {
        return true;
    }
    let width = buff.size.width;
    let last_row = (oy as u64) + (sz.height as u64) - 1;
    if last_row > 0xffff {
        assert(!box_fits(width, origin, sz)) by {
            if box_fits(width, origin, sz) {
                assert(box_cell(width, origin, 0, sz.height - 1) <= 0xffff);
            }
        }
        return false;
    }
    assert((last_row as nat) * (width as nat) <= 0xffff * 0xffff) by (nonlinear_arith)
        requires
            last_row <= 0xffff,
            width <= 0xffff,
    ;
    let last = last_row * (width as u64) + (ox as u64) + (sz.width as u64) - 1;
    proof {
        assert(box_cell(width, origin, sz.width - 1, sz.height - 1) == last);
        if last <= 0xffff {
            assert forall|x: int, y: int|
                0 <= x < sz.width && 0 <= y < sz.height implies origin.1 + y <= 0xffff
                && #[trigger] box_cell(width, origin, x, y) <= 0xffff by {
                assert((origin.1 + y) * width <= (last_row as int) * width) by (nonlinear_arith)
                    requires
                        origin.1 + y <= last_row,
                        origin.1 + y >= 0,
                ;
            }
        }
    }
    last <= 0xffff
}

/// Whether drawing a rectangle of size `size` at `pos` on `buff` stays within
/// the 16-bit range (see [`box_fits`]).
pub fn rectangle_in_range(buff: &FrameBuffer, pos: Positions, size: &Sizes, centered: bool) -> (ok:
    bool)
    ensures
        ok == box_fits(
            buff.size.width,
            box_origin(
                resolve_position(pos, buff.size),
                resolve_size(*size, buff.size),
                centered,
            ),
            resolve_size(*size, buff.size),
        ),
{
    box_in_range(buff, pos, size, centered)
}

/// The number of the cell at `column`, `row` in a frame `width` cells wide.
pub open spec fn grid_index(width: u16, column: int, row: int) -> int {
    row * width + column
}

/// `v` is the number of a cell at a column and row inside the box of
/// `columns` x `rows` cells whose top-left cell is `origin`.
pub open spec fn is_box_cell(width: u16, origin: (int, int), columns: nat, rows: nat, v: int) -> bool {
    exists|c: int, r: int|
        origin.0 <= c < origin.0 + columns && origin.1 <= r < origin.1 + rows && v == #[trigger] grid_index(
            width,
            c,
            r,
        )
}

/// Every cell of a box's plan is a cell of the box: the cell at some column
/// and row inside the box, whose top-left cell is `origin`.
pub proof fn lemma_box_rows_are_box_cells(width: u16, origin: (int, int), columns: nat, rows: nat, cells: nat)
    requires
        origin.0 >= 0,
        origin.1 >= 0,
        cells <= usize::MAX,
    ensures
        forall|i: int|
            0 <= i < box_rows(width, origin, columns, rows, cells).len() ==> is_box_cell(
                width,
                origin,
                columns,
                rows,
                #[trigger] box_rows(width, origin, columns, rows, cells)[i] as int,
            ),
    decreases rows,
{
    if rows > 0 {
        let pr = (rows - 1) as nat;
        lemma_box_rows_are_box_cells(width, origin, columns, pr, cells);
        lemma_box_row_are_box_cells(width, origin, rows - 1, columns, cells);
        let a = box_rows(width, origin, columns, pr, cells);
        let b = box_row(width, origin, rows - 1, columns, cells);
        let whole = box_rows(width, origin, columns, rows, cells);
        assert(whole == a + b);
        assert forall|i: int| 0 <= i < whole.len() implies is_box_cell(
            width,
            origin,
            columns,
            rows,
            #[trigger] whole[i] as int,
        ) by {
            if i < a.len() {
                assert(whole[i] == a[i]);
                assert(is_box_cell(width, origin, columns, pr, a[i] as int));
                let (c, r) = choose|c: int, r: int|
                    origin.0 <= c < origin.0 + columns && origin.1 <= r < origin.1 + pr && a[i] as int
                        == #[trigger] grid_index(width, c, r);
                assert(whole[i] as int == grid_index(width, c, r));
            } else {
                let k = i - a.len();
                assert(whole[i] == b[k]);
                let ro = (origin.0, origin.1 + (rows - 1));
                assert(is_box_cell(width, ro, columns, 1, b[k] as int));
                let (c, r) = choose|c: int, r: int|
                    ro.0 <= c < ro.0 + columns && ro.1 <= r < ro.1 + 1 && b[k] as int
                        == #[trigger] grid_index(width, c, r);
                assert(whole[i] as int == grid_index(width, c, r));
            }
        }
    }
}

proof fn lemma_box_row_are_box_cells(width: u16, origin: (int, int), y: int, n: nat, cells: nat)
    requires
        origin.0 >= 0,
        origin.1 >= 0,
        y >= 0,
        cells <= usize::MAX,
    ensures
        forall|i: int|
            0 <= i < box_row(width, origin, y, n, cells).len() ==> is_box_cell(
                width,
                (origin.0, origin.1 + y),
                n,
                1,
                #[trigger] box_row(width, origin, y, n, cells)[i] as int,
            ),
    decreases n,
{
    if n > 0 {
        let pn = (n - 1) as nat;
        lemma_box_row_are_box_cells(width, origin, y, pn, cells);
        assert((origin.1 + y) * width >= 0) by (nonlinear_arith)
            requires
                origin.1 + y >= 0,
        ;
        let row_origin = (origin.0, origin.1 + y);
        let a = box_row(width, origin, y, pn, cells);
        let whole = box_row(width, origin, y, n, cells);
        let idx = box_cell(width, origin, n - 1, y);
        assert forall|i: int| 0 <= i < whole.len() implies is_box_cell(
            width,
            row_origin,
            n,
            1,
            #[trigger] whole[i] as int,
        ) by {
            if i < a.len() {
                assert(whole[i] == a[i]);
                assert(is_box_cell(width, row_origin, pn, 1, a[i] as int));
                let (c, r) = choose|c: int, r: int|
                    row_origin.0 <= c < row_origin.0 + pn && row_origin.1 <= r < row_origin.1 + 1
                        && a[i] as int == #[trigger] grid_index(width, c, r);
                assert(whole[i] as int == grid_index(width, c, r));
            } else {
                let c = origin.0 + (n - 1);
                assert(idx < cells);
                assert(whole == a + seq![idx as usize]);
                assert(whole[i] == idx as usize);
                assert(whole[i] as int == grid_index(width, c, origin.1 + y));
            }
        }
    }
}

/// The first cell of a box's plan, where the box is not empty and its
/// top-left cell lies inside the frame, is that top-left cell,
/// `row * width + column`.
pub proof fn lemma_box_rows_start_at_origin(width: u16, origin: (int, int), columns: nat, rows: nat, cells: nat)
    requires
        origin.0 >= 0,
        origin.1 >= 0,
        columns >= 1,
        rows >= 1,
        origin.1 * width + origin.0 < cells,
        cells <= usize::MAX,
    ensures
        box_rows(width, origin, columns, rows, cells).len() >= 1,
        box_rows(width, origin, columns, rows, cells)[0] == origin.1 * width + origin.0,
    decreases rows,
{
    assert(origin.1 * width >= 0) by (nonlinear_arith)
        requires
            origin.1 >= 0,
    ;
    lemma_box_row_first(width, origin, 0, columns, cells);
    if rows > 1 {
        lemma_box_rows_start_at_origin(width, origin, columns, (rows - 1) as nat, cells);
        let a = box_rows(width, origin, columns, (rows - 1) as nat, cells);
        let whole = box_rows(width, origin, columns, rows, cells);
        assert(whole[0] == a[0]);
    } else {
        assert(box_rows(width, origin, columns, 0, cells) =~= Seq::empty());
        let whole = box_rows(width, origin, columns, 1, cells);
        assert(whole =~= box_row(width, origin, 0, columns, cells));
    }
}

proof fn lemma_box_row_first(width: u16, origin: (int, int), y: int, n: nat, cells: nat)
    requires
        origin.0 >= 0,
        origin.1 + y >= 0,
        n >= 1,
        (origin.1 + y) * width + origin.0 < cells,
        cells <= usize::MAX,
    ensures
        box_row(width, origin, y, n, cells).len() >= 1,
        box_row(width, origin, y, n, cells)[0] == (origin.1 + y) * width + origin.0,
    decreases n,
{
    assert((origin.1 + y) * width >= 0) by (nonlinear_arith)
        requires
            origin.1 + y >= 0,
    ;
    if n > 1 {
        lemma_box_row_first(width, origin, y, (n - 1) as nat, cells);
        let a = box_row(width, origin, y, (n - 1) as nat, cells);
        assert(box_row(width, origin, y, n, cells)[0] == a[0]);
    } else {
        let e = box_row(width, origin, y, 0, cells);
        assert(e =~= Seq::empty());
        let idx = box_cell(width, origin, 0, y);
        assert(idx == (origin.1 + y) * width + origin.0);
        assert(box_row(width, origin, y, 1, cells) == e + seq![idx as usize]);
        assert(box_row(width, origin, y, 1, cells) =~= seq![idx as usize]);
    }
}

/// The cells that a rectangle of size `size` at `pos` covers on `buff`, in
/// drawing order (row by row).
pub fn rectangle_cells(buff: &FrameBuffer, pos: Positions, size: &Sizes, centered: bool) -> (plan:
    Vec<usize>)
    requires
        box_fits(
            buff.size.width,
            box_origin(
                resolve_position(pos, buff.size),
                resolve_size(*size, buff.size),
                centered,
            ),
            resolve_size(*size, buff.size),
        ),
    ensures
        plan@ == box_rows(
            buff.size.width,
            box_origin(
                resolve_position(pos, buff.size),
                resolve_size(*size, buff.size),
                centered,
            ),
            resolve_size(*size, buff.size).width as nat,
            resolve_size(*size, buff.size).height as nat,
            buff.buffer@.len(),
        ),
{
    let mut p = pos.calc(buff.size);
    let sz = size.calc(buff.size);
    let ghost origin = box_origin(p, sz, centered);
    if centered {
        p.x = p.x - sz.width / 2;
        p.y = p.y - sz.height / 2;
    }
    let width = buff.size.width;
    let cells = buff.buffer.len();
    let mut plan: Vec<usize> = Vec::new();
    let mut y: u16 = 0;
    while y < sz.height
        invariant
            y <= sz.height,
            origin == (p.x as int, p.y as int),
            width == buff.size.width,
            cells == buff.buffer@.len(),
            box_fits(width, origin, sz),
            plan@ == box_rows(width, origin, sz.width as nat, y as nat, cells as nat),
        decreases sz.height - y,
    {
        let ghost done = plan@;
        let mut x: u16 = 0;
        while x < sz.width
            invariant
                x <= sz.width,
                y < sz.height,
                origin == (p.x as int, p.y as int),
                width == buff.size.width,
                cells == buff.buffer@.len(),
                box_fits(width, origin, sz),
                done == box_rows(width, origin, sz.width as nat, y as nat, cells as nat),
                plan@ == done + box_row(width, origin, y as int, x as nat, cells as nat),
            decreases sz.width - x,
        {
            assert(box_cell(width, origin, x as int, y as int) <= 0xffff);
            let row = p.y + y;
            let base = row * width;
            let idx = (base + (p.x + x)) as usize;
            if idx < cells {
                plan.push(idx);
            }
            x = x + 1;
            assert(plan@ =~= done + box_row(width, origin, y as int, x as nat, cells as nat));
        }
        y = y + 1;
        assert(plan@ =~= box_rows(width, origin, sz.width as nat, y as nat, cells as nat));
    }
    plan
}

/// The pixel of a `columns`-wide image that goes to column `x`, row `y` of
/// the box.
pub open spec fn image_pixel(columns: u16, x: int, y: int) -> int {
    y * columns + x
}

/// Drawing the image does not leave the 16-bit range: the box fits, and for
/// every cell of the box inside the frame the image pixel's number is below
/// `2^16`.
pub open spec fn image_fits(width: u16, origin: (int, int), size: Size, cells: nat) -> bool {
    &&& box_fits(width, origin, size)
    &&& forall|x: int, y: int|
        0 <= x < size.width && 0 <= y < size.height && box_cell(width, origin, x, y) < cells
            ==> #[trigger] image_pixel(size.width, x, y) <= 0xffff
}

/// The pairs (cell, image pixel) of the first `n` columns of row `y` of an
/// image box, skipping cells past `cells` and pixels past `pixels`.
pub open spec fn image_row(
    width: u16,
    origin: (int, int),
    columns: u16,
    y: int,
    n: nat,
    cells: nat,
    pixels: nat,
) -> Seq<(usize, usize)>
    decreases n,
{
    if n == 0 {
        Seq::empty()
    } else {
        let idx = box_cell(width, origin, n - 1, y);
        let src = image_pixel(columns, n - 1, y);
        image_row(width, origin, columns, y, (n - 1) as nat, cells, pixels) + if idx < cells
            && src < pixels {
            seq![(idx as usize, src as usize)]
        } else {
            Seq::empty()
        }
    }
}

/// The pairs of the first `rows` rows of an image box, row by row.
pub open spec fn image_rows(
    width: u16,
    origin: (int, int),
    columns: u16,
    rows: nat,
    cells: nat,
    pixels: nat,
) -> Seq<(usize, usize)>
    decreases rows,
{
    if rows == 0 {
        Seq::empty()
    } else {
        image_rows(width, origin, columns, (rows - 1) as nat, cells, pixels) + image_row(
            width,
            origin,
            columns,
            rows - 1,
            columns as nat,
            cells,
            pixels,
        )
    }
}

/// Every pair of an image's plan names a cell inside the frame buffer and a
/// pixel inside the image.
pub proof fn lemma_image_rows_in_frame(
    width: u16,
    origin: (int, int),
    columns: u16,
    rows: nat,
    cells: nat,
    pixels: nat,
)
    requires
        origin.0 >= 0,
        origin.1 >= 0,
        cells <= usize::MAX,
        pixels <= usize::MAX,
    ensures
        forall|i: int|
            0 <= i < image_rows(width, origin, columns, rows, cells, pixels).len() ==> {
                let e = #[trigger] image_rows(width, origin, columns, rows, cells, pixels)[i];
                e.0 < cells && e.1 < pixels
            },
    decreases rows,
{
    if rows > 0 {
        lemma_image_rows_in_frame(width, origin, columns, (rows - 1) as nat, cells, pixels);
        lemma_image_row_in_frame(width, origin, columns, rows - 1, columns as nat, cells, pixels);
        let a = image_rows(width, origin, columns, (rows - 1) as nat, cells, pixels);
        let b = image_row(width, origin, columns, rows - 1, columns as nat, cells, pixels);
        let whole = image_rows(width, origin, columns, rows, cells, pixels);
        assert forall|i: int| 0 <= i < whole.len() implies {
            let e = #[trigger] whole[i];
            e.0 < cells && e.1 < pixels
        } by {
            if i < a.len() {
                assert(whole[i] == a[i]);
            } else {
                assert(whole[i] == b[i - a.len()]);
            }
        }
    }
}

proof fn lemma_image_row_in_frame(
    width: u16,
    origin: (int, int),
    columns: u16,
    y: int,
    n: nat,
    cells: nat,
    pixels: nat,
)
    requires
        origin.0 >= 0,
        origin.1 >= 0,
        y >= 0,
        cells <= usize::MAX,
        pixels <= usize::MAX,
    ensures
        forall|i: int|
            0 <= i < image_row(width, origin, columns, y, n, cells, pixels).len() ==> {
                let e = #[trigger] image_row(width, origin, columns, y, n, cells, pixels)[i];
                e.0 < cells && e.1 < pixels
            },
    decreases n,
{
    if n > 0 {
        lemma_image_row_in_frame(width, origin, columns, y, (n - 1) as nat, cells, pixels);
        assert((origin.1 + y) * width >= 0) by (nonlinear_arith)
            requires
                origin.1 + y >= 0,
        ;
        assert(y * columns >= 0) by (nonlinear_arith)
            requires
                y >= 0,
        ;
        let a = image_row(width, origin, columns, y, (n - 1) as nat, cells, pixels);
        let whole = image_row(width, origin, columns, y, n, cells, pixels);
        assert forall|i: int| 0 <= i < whole.len() implies {
            let e = #[trigger] whole[i];
            e.0 < cells && e.1 < pixels
        } by {
            if i < a.len() {
                assert(whole[i] == a[i]);
            }
        }
    }
}

/// Whether drawing an image of size `size` at `pos` on `buff` stays within
/// the 16-bit range (see [`image_fits`]).
pub fn image_in_range(buff: &FrameBuffer, pos: Positions, size: &Sizes, centered: bool) -> (ok:
    bool)
    ensures
        ok == image_fits(
            buff.size.width,
            box_origin(
                resolve_position(pos, buff.size),
                resolve_size(*size, buff.size),
                centered,
            ),
            resolve_size(*size, buff.size),
            buff.buffer@.len(),
        ),
{
    if !box_in_range(buff, pos, size, centered) {
        return false;
    }
    let p = pos.calc(buff.size);
    let sz = size.calc(buff.size);
    let ghost origin = box_origin(p, sz, centered);
    let (ox, oy) = if centered {
        (p.x - sz.width / 2, p.y - sz.height / 2)
    } else {
        (p.x, p.y)
    };
    let width = buff.size.width;
    let cells = buff.buffer.len();
    assert((sz.width as nat) * (sz.height as nat) <= 0xffff * 0xffff) by (nonlinear_arith)
        requires
            sz.width <= 0xffff,
            sz.height <= 0xffff,
    ;
    if (sz.width as u64) * (sz.height as u64) <= 0x10000 {
        proof {
            assert forall|x: int, y: int|
                0 <= x < sz.width && 0 <= y < sz.height && box_cell(width, origin, x, y)
                    < cells implies #[trigger] image_pixel(sz.width, x, y) <= 0xffff by {
                assert(y * sz.width + x < sz.width * sz.height) by (nonlinear_arith)
                    requires
                        0 <= x < sz.width,
                        0 <= y < sz.height,
                ;
            }
        }
        return true;
    }
    let mut y: u16 = 0;
    while y < sz.height
        invariant
            y <= sz.height,
            origin == (ox as int, oy as int),
            sz == resolve_size(*size, buff.size),
            origin == box_origin(resolve_position(pos, buff.size), sz, centered),
            width == buff.size.width,
            cells == buff.buffer@.len(),
            box_fits(width, origin, sz),
            forall|x: int, yy: int|
                0 <= x < sz.width && 0 <= yy < y && box_cell(width, origin, x, yy) < cells
                    ==> #[trigger] image_pixel(sz.width, x, yy) <= 0xffff,
        decreases sz.height - y,
    {
        let mut x: u16 = 0;
        while x < sz.width
            invariant
                x <= sz.width,
                y < sz.height,
                origin == (ox as int, oy as int),
                sz == resolve_size(*size, buff.size),
                origin == box_origin(resolve_position(pos, buff.size), sz, centered),
                width == buff.size.width,
                cells == buff.buffer@.len(),
                box_fits(width, origin, sz),
                forall|xx: int, yy: int|
                    0 <= xx < sz.width && 0 <= yy < y && box_cell(width, origin, xx, yy) < cells
                        ==> #[trigger] image_pixel(sz.width, xx, yy) <= 0xffff,
                forall|xx: int|
                    0 <= xx < x && box_cell(width, origin, xx, y as int) < cells
                        ==> #[trigger] image_pixel(sz.width, xx, y as int) <= 0xffff,
            decreases sz.width - x,
        {
            assert(box_cell(width, origin, x as int, y as int) <= 0xffff);
            let idx = ((oy + y) * width + (ox + x)) as usize;
            assert((y as nat) * (sz.width as nat) <= 0xffff * 0xffff) by (nonlinear_arith)
                requires
                    y <= 0xffff,
                    sz.width <= 0xffff,
            ;
            let src = (y as u64) * (sz.width as u64) + (x as u64);
            assert(image_pixel(sz.width, x as int, y as int) == src);
            assert(idx == box_cell(width, origin, x as int, y as int));
            if idx < cells && src > 0xffff {
                return false;
            }
            x = x + 1;
        }
        y = y + 1;
    }
    true
}

/// The cells that an image of size `size` at `pos` covers on `buff`, each
/// with the number of the image pixel drawn there, in drawing order (row by
/// row); `pixels` is the number of pixels the image has at that size.
pub fn image_cells(buff: &FrameBuffer, pos: Positions, size: &Sizes, pixels: usize, centered: bool) -> (plan:
    Vec<(usize, usize)>)
    requires
        image_fits(
            buff.size.width,
            box_origin(
                resolve_position(pos, buff.size),
                resolve_size(*size, buff.size),
                centered,
            ),
            resolve_size(*size, buff.size),
            buff.buffer@.len(),
        ),
    ensures
        plan@ == image_rows(
            buff.size.width,
            box_origin(
                resolve_position(pos, buff.size),
                resolve_size(*size, buff.size),
                centered,
            ),
            resolve_size(*size, buff.size).width,
            resolve_size(*size, buff.size).height as nat,
            buff.buffer@.len(),
            pixels as nat,
        ),
{
    let mut p = pos.calc(buff.size);
    let sz = size.calc(buff.size);
    let ghost origin = box_origin(p, sz, centered);
    if centered {
        p.x = p.x - sz.width / 2;
        p.y = p.y - sz.height / 2;
    }
    let width = buff.size.width;
    let cells = buff.buffer.len();
    let mut plan: Vec<(usize, usize)> = Vec::new();
    let mut y: u16 = 0;
    while y < sz.height
        invariant
            y <= sz.height,
            origin == (p.x as int, p.y as int),
            width == buff.size.width,
            cells == buff.buffer@.len(),
            image_fits(width, origin, sz, cells as nat),
            plan@ == image_rows(width, origin, sz.width, y as nat, cells as nat, pixels as nat),
        decreases sz.height - y,
    {
        let ghost done = plan@;
        let mut x: u16 = 0;
        while x < sz.width
            invariant
                x <= sz.width,
                y < sz.height,
                origin == (p.x as int, p.y as int),
                width == buff.size.width,
                cells == buff.buffer@.len(),
                image_fits(width, origin, sz, cells as nat),
                done == image_rows(width, origin, sz.width, y as nat, cells as nat, pixels as nat),
                plan@ == done + image_row(
                    width,
                    origin,
                    sz.width,
                    y as int,
                    x as nat,
                    cells as nat,
                    pixels as nat,
                ),
            decreases sz.width - x,
        {
            assert(box_cell(width, origin, x as int, y as int) <= 0xffff);
            let row = p.y + y;
            let base = row * width;
            let idx = (base + (p.x + x)) as usize;
            if idx < cells {
                assert(image_pixel(sz.width, x as int, y as int) <= 0xffff);
                let src = (y * sz.width + x) as usize;
                if src < pixels {
                    plan.push((idx, src));
                }
            }
            x = x + 1;
            assert(plan@ =~= done + image_row(
                width,
                origin,
                sz.width,
                y as int,
                x as nat,
                cells as nat,
                pixels as nat,
            ));
        }
        y = y + 1;
        assert(plan@ =~= image_rows(width, origin, sz.width, y as nat, cells as nat, pixels as nat));
    }
    plan
}

} // verus!
