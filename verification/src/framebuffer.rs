//! The frame buffer: the grid of character cells that elements draw into and
//! that is composed into the text written to the terminal.

use vstd::prelude::*;
use crate::geometry::Size;
use crate::color::{Pixel, blank};

verus! {

/// The cells of a frame, row by row, with the size they stand for and the
/// cell that a cleared frame holds.
pub struct FrameBuffer {
    pub buffer: Vec<Pixel>,
    pub size: Size,
    pub empty: Pixel,
}

/// What a frame buffer holds, as mathematical values.
pub struct FrameView {
    pub cells: Seq<Pixel>,
    pub size: Size,
    pub empty: Pixel,
}

impl View for FrameBuffer {
    type V = FrameView;

    open spec fn view(&self) -> FrameView {
        FrameView { cells: self.buffer@, size: self.size, empty: self.empty }
    }
}

/// The number of cells in a grid of the given size.
pub open spec fn area(s: Size) -> nat {
    (s.width as nat) * (s.height as nat)
}

/// A frame holds exactly one cell per position of its grid.
pub open spec fn well_sized(v: FrameView) -> bool {
    v.cells.len() == area(v.size)
}

/// `n` copies of the cell `p`.
pub open spec fn filled(p: Pixel, n: nat) -> Seq<Pixel> {
    Seq::new(n, |i: int| p)
}

/// The number of cells that growing to `target` cells appends: the cell
/// count is compared as a 16-bit value, so only its remainder modulo `2^16`
/// counts.
pub open spec fn growth(len: nat, target: nat) -> nat {
    if len % 0x10000 < target {
        (target - len % 0x10000) as nat
    } else {
        0
    }
}

/// The frame after resizing to `size`. A grid of more cells appends blank
/// cells and takes the new size; a grid of fewer cells drops the cells past
/// the new area and takes the new size; a grid of as many cells leaves the
/// frame as it is.
pub open spec fn resized(v: FrameView, size: Size) -> FrameView {
    let old_area = area(v.size);
    let new_area = area(size);
    if old_area < new_area {
        FrameView {
            cells: v.cells + filled(v.empty, growth(v.cells.len(), new_area)),
            size,
            empty: v.empty,
        }
    } else if old_area > new_area {
        FrameView {
            cells: if new_area <= v.cells.len() {
                v.cells.subrange(0, new_area as int)
            } else {
                v.cells
            },
            size,
            empty: v.empty,
        }
    } else {
        v
    }
}

/// Resizing a frame that holds one cell per position gives a frame that
/// holds one cell per position.
pub proof fn lemma_resize_keeps_well_sized(v: FrameView, size: Size)
    requires
        well_sized(v),
        area(v.size) <= 0xffff,
        area(size) <= 0xffff,
    ensures
        well_sized(resized(v, size)),
{
    let n = area(size);
    if area(v.size) < n {
        assert(v.cells.len() % 0x10000 == v.cells.len());
    }
}

/// Resizing a frame to its own size leaves it as it is.
pub proof fn lemma_resize_to_same_size(v: FrameView)
    ensures
        resized(v, v.size) == v,
{
}

/// Resizing keeps the empty cell, and every cell that both the old and the
/// new frame hold is kept where it was.
pub proof fn lemma_resize_keeps_cells(v: FrameView, size: Size)
    ensures
        resized(v, size).empty == v.empty,
        forall|i: int|
            0 <= i < v.cells.len() && 0 <= i < resized(v, size).cells.len() ==> #[trigger] resized(
                v,
                size,
            ).cells[i] == v.cells[i],
{
}

/// `n` copies of a cell are `n` cells, each that cell; a frame's area is
/// its width times its height.
pub proof fn lemma_filled_cells(p: Pixel, n: nat, s: Size)
    ensures
        filled(p, n).len() == n,
        forall|i: int| 0 <= i < n ==> #[trigger] filled(p, n)[i] == p,
        area(s) == s.width * s.height,
{
}

/// Growing a frame appends copies of the frame's own empty cell: every
/// cell past the old cells is the empty cell.
pub proof fn lemma_resize_appends_empty(v: FrameView, size: Size)
    ensures
        forall|i: int|
            v.cells.len() <= i < resized(v, size).cells.len() ==> #[trigger] resized(v, size).cells[i]
                == v.empty,
        resized(v, size).cells.len() >= v.cells.len() ==> resized(v, size).cells.subrange(
            0,
            v.cells.len() as int,
        ) == v.cells,
{
    let r = resized(v, size);
    if r.cells.len() >= v.cells.len() {
        assert(r.cells.subrange(0, v.cells.len() as int) =~= v.cells);
    }
}

/// A new frame holds one cell per position.
pub proof fn lemma_new_is_well_sized(size: Size, empty: Pixel)
    ensures
        well_sized(FrameView { cells: filled(empty, area(size)), size, empty }),
{
}

impl FrameBuffer {
    /// A frame of the given size whose every cell is `empty`, or the blank
    /// cell where none is given.
    pub fn new(size: Size, empty: Option<Pixel>) -> (fb: FrameBuffer)
        ensures
            fb.size == size,
            fb.empty == (match empty {
                Some(p) => p,
                None => blank(),
            }),
            fb.buffer@ == filled(fb.empty, area(size)),
    {
        let e = match empty {
            Some(p) => p,
            None => Pixel::empty(),
        };
        assert((size.width as nat) * (size.height as nat) <= 0xffff * 0xffff) by (nonlinear_arith)
            requires
                size.width <= 0xffff,
                size.height <= 0xffff,
        ;
        let n = (size.width as usize) * (size.height as usize);
        let mut buffer: Vec<Pixel> = Vec::new();
        let mut i: usize = 0;
        while i < n
            invariant
                i <= n,
                n == area(size),
                buffer@ == filled(e, i as nat),
            decreases n - i,
        {
            buffer.push(e);
            i = i + 1;
            assert(buffer@ =~= filled(e, i as nat));
        }
        FrameBuffer { buffer, size, empty: e }
    }

    /// A frame of the given size filled with blank cells.
    pub fn init(size: Size) -> (fb: FrameBuffer)
        ensures
            fb.size == size,
            fb.empty == blank(),
            fb.buffer@ == filled(blank(), area(size)),
    {
        FrameBuffer::new(size, None)
    }

    /// Sets every cell to the empty cell.
    pub fn clear(&mut self)
        ensures
            final(self).size == old(self).size,
            final(self).empty == old(self).empty,
            final(self).buffer@ == filled(old(self).empty, old(self).buffer@.len()),
    {
        let n = self.buffer.len();
        let e = self.empty;
        let mut i: usize = 0;
        while i < n
            invariant
                i <= n,
                n == self.buffer@.len(),
                e == self.empty,
                self.size == old(self).size,
                self.empty == old(self).empty,
                n == old(self).buffer@.len(),
                forall|j: int| 0 <= j < i ==> self.buffer@[j] == e,
            decreases n - i,
        {
            self.buffer.set(i, e);
            i = i + 1;
        }
        assert(self.buffer@ =~= filled(e, n as nat));
    }

    /// Adapts the frame to a screen of the given size (see [`resized`]).
    pub fn resize(&mut self, size: Size)
        requires
            area(old(self).size) <= 0xffff,
            area(size) <= 0xffff,
        ensures
            final(self)@ == resized(old(self)@, size),
    {
        let buffsize = self.size.width * self.size.height;
        let screensize = size.width * size.height;
        if buffsize < screensize {
            let ghost start = self.buffer@;
            let ghost k = growth(start.len(), screensize as nat);
            while ((self.buffer.len() % 0x10000) as u16) < screensize
                invariant
                    self.buffer@.len() % 0x10000 <= screensize ==> self.buffer@ == start + filled(
                        self.empty,
                        (self.buffer@.len() - start.len()) as nat,
                    ),
                    self.buffer@.len() >= start.len(),
                    start.len() % 0x10000 < screensize ==> self.buffer@.len() % 0x10000
                        <= screensize && self.buffer@.len() - start.len() == self.buffer@.len()
                        % 0x10000 - start.len() % 0x10000,
                    start.len() % 0x10000 >= screensize ==> self.buffer@ == start,
                    self.size == old(self).size,
                    self.empty == old(self).empty,
                    start == old(self).buffer@,
                    screensize == area(size),
                    screensize <= 0xffff,
                decreases screensize - self.buffer@.len() % 0x10000,
            {
                self.buffer.push(self.empty);
                assert(self.buffer@ =~= start + filled(
                    self.empty,
                    (self.buffer@.len() - start.len()) as nat,
                ));
            }
            self.size = size;
            assert(self.buffer@ =~= start + filled(self.empty, k));
        } else if buffsize > screensize {
            self.size = size;
            self.buffer.truncate(screensize as usize);
        }
    }
}

} // verus!
