//! Images as character cells: an image's pixels become cells whose
//! background has the pixel's colour, and an image is kept, scaled to the
//! size it was last drawn at, in an [`ImageCache`].

use vstd::prelude::*;
use crate::color::{Color, Pixel, pixel_of, blank};
use crate::framebuffer::filled;

verus! {

/// An RGB image with 8 bits per channel: `data` holds the red, green and
/// blue values of each pixel, row by row.
pub struct Raster {
    pub width: u32,
    pub height: u32,
    pub data: Vec<u8>,
}

impl Raster {
    /// `data` holds exactly three values per pixel.
    pub open spec fn well_formed(&self) -> bool {
        self.data@.len() == 3 * (self.width as nat) * (self.height as nat)
    }
}

/// The colour of pixel `k` of RGB data.
pub open spec fn rgb_at(data: Seq<u8>, k: int) -> Color {
    Color { red: data[3 * k], green: data[3 * k + 1], blue: data[3 * k + 2] }
}

/// The cell that shows pixel `k` of RGB data: a space on the pixel's colour.
pub open spec fn pixel_cell(data: Seq<u8>, k: int) -> Pixel {
    pixel_of(None, Some(rgb_at(data, k)), None)
}

/// The cells that show the first `n` pixels of RGB data.
pub open spec fn rgb_cells(data: Seq<u8>, n: nat) -> Seq<Pixel> {
    Seq::new(n, |k: int| pixel_cell(data, k))
}

/// The RGB data that `image::imageops::resize` with the nearest-neighbour
/// filter makes of a `width` x `height` image when asked for
/// `new_width` x `new_height`.
pub uninterp spec fn nearest_resized(
    width: u32,
    height: u32,
    data: Seq<u8>,
    new_width: u32,
    new_height: u32,
) -> Seq<u8>;

/// Scales `source` to `new_width` x `new_height` with
/// `image::imageops::resize` and the nearest-neighbour filter. Trusted: the
/// result is the named function [`nearest_resized`] of the arguments, and it
/// holds three values per pixel of the new size (the crate allocates the
/// result with the new dimensions), and asking for the image's own size gives
/// a copy of its data (the crate copies instead of resampling then). The
/// `requires` keep the buffers that the
/// crate allocates, including its intermediate four-channel one, within the
/// address space.
#[verifier::external_body]
fn resize_nearest(source: &Raster, new_width: u32, new_height: u32) -> (out: Vec<u8>)
    requires
        source.well_formed(),
        4 * (source.width as nat) * (new_height as nat) <= usize::MAX,
        3 * (new_width as nat) * (new_height as nat) <= usize::MAX,
    ensures
        out@ == nearest_resized(source.width, source.height, source.data@, new_width, new_height),
        out@.len() == 3 * (new_width as nat) * (new_height as nat),
        new_width == source.width && new_height == source.height ==> out@ == source.data@,
{
    let img = image::RgbImage::from_raw(source.width, source.height, source.data.clone()).unwrap();
    image::imageops::resize(&img, new_width, new_height, image::imageops::FilterType::Nearest).into_raw()
}

/// Appends the cells that show the first `n` pixels of `data`.
fn push_rgb_cells(out: &mut Vec<Pixel>, data: &Vec<u8>, n: usize)
    requires
        3 * (n as nat) <= data@.len(),
    ensures
        final(out)@ == old(out)@ + rgb_cells(data@, n as nat),
{
    let ghost start = out@;
    let len = data.len();
    let mut k: usize = 0;
    while k < n
        invariant
            k <= n,
            len == data@.len(),
            3 * (n as nat) <= data@.len(),
            out@ == start + rgb_cells(data@, k as nat),
        decreases n - k,
    {
        let c = Color::new(data[3 * k], data[3 * k + 1], data[3 * k + 2]);
        out.push(Pixel::new(None, Some(c), None));
        k = k + 1;
        assert(out@ =~= start + rgb_cells(data@, k as nat));
    }
}

/// Appends `n` blank cells.
fn push_blanks(out: &mut Vec<Pixel>, n: usize)
    ensures
        final(out)@ == old(out)@ + filled(blank(), n as nat),
{
    let ghost start = out@;
    let mut k: usize = 0;
    while k < n
        invariant
            k <= n,
            out@ == start + filled(blank(), k as nat),
        decreases n - k,
    {
        out.push(Pixel::empty());
        k = k + 1;
        assert(out@ =~= start + filled(blank(), k as nat));
    }
}

/// A copy of a sequence of cells.
fn copy_cells(v: &Vec<Pixel>) -> (out: Vec<Pixel>)
    ensures
        out@ == v@,
{
    let mut out: Vec<Pixel> = Vec::new();
    let mut k: usize = 0;
    while k < v.len()
        invariant
            k <= v@.len(),
            out@ == v@.take(k as int),
        decreases v@.len() - k,
    {
        out.push(v[k]);
        k = k + 1;
        assert(out@ =~= v@.take(k as int));
    }
    assert(v@.take(v@.len() as int) =~= v@);
    out
}

/// The cells of an image at the size it was last scaled to.
pub struct ImageCache {
    pub at_width: u32,
    pub at_height: u32,
    pub data: Vec<Pixel>,
}

/// The cells that [`ImageCache::get_at_size`] makes of an image scaled to
/// `width` x `height`: one cell per pixel of the scaled image, row by row,
/// followed by as many blank cells.
pub open spec fn scaled_cells(source: Raster, width: u32, height: u32) -> Seq<Pixel> {
    let n = (width as nat) * (height as nat);
    rgb_cells(nearest_resized(source.width, source.height, source.data@, width, height), n)
        + filled(blank(), n)
}

/// Whether `cells` are what an image cache may hold for `source` at
/// `width` x `height`: the scaled cells, or, at the image's own size, one
/// cell per pixel as a new cache holds them.
pub open spec fn cells_of(source: Raster, width: u32, height: u32, cells: Seq<Pixel>) -> bool {
    ||| cells == scaled_cells(source, width, height)
    ||| width == source.width && height == source.height && cells == rgb_cells(
        source.data@,
        (width as nat) * (height as nat),
    )
}

impl ImageCache {
    /// The cache holds cells of `source` at the size it records.
    pub open spec fn holds(&self, source: Raster) -> bool {
        cells_of(source, self.at_width, self.at_height, self.data@)
    }

    /// The cache of an image at its own size: one cell per pixel. (Walking
    /// the pixels of an image of width 0 and height above 1 fails, hence the
    /// second `requires`.)
    pub fn new(source: &Raster) -> (c: ImageCache)
        requires
            source.well_formed(),
            source.width > 0 || source.height <= 1,
        ensures
            c.at_width == source.width,
            c.at_height == source.height,
            c.data@ == rgb_cells(source.data@, (source.width as nat) * (source.height as nat)),
            c.holds(*source),
    {
        let len = source.data.len();
        assert((source.width as nat) * (source.height as nat) <= len) by (nonlinear_arith)
            requires
                len == 3 * (source.width as nat) * (source.height as nat),
        ;
        let n = (source.width as usize) * (source.height as usize);
        assert(3 * (n as nat) <= source.data@.len()) by (nonlinear_arith)
            requires
                n == (source.width as nat) * (source.height as nat),
                source.data@.len() == 3 * (source.width as nat) * (source.height as nat),
        ;
        let mut data: Vec<Pixel> = Vec::new();
        push_rgb_cells(&mut data, &source.data, n);
        assert(data@ =~= rgb_cells(source.data@, (source.width as nat) * (source.height as nat)));
        ImageCache { at_width: source.width, at_height: source.height, data }
    }

    /// The cells of `source` scaled to `width` x `height`: the cached cells
    /// where the cache holds that size, else [`scaled_cells`], which then
    /// replace the cache. Afterwards the cache records the size asked for and
    /// the cells returned, so asking again for the same size returns the same
    /// cells; a cache that holds cells of `source` keeps doing so, and then
    /// the cells returned are cells of `source` at the size asked for,
    /// whatever calls came before.
    pub fn get_at_size(&mut self, source: &Raster, width: u32, height: u32) -> (cells: Vec<Pixel>)
        requires
            old(self).at_width == width && old(self).at_height == height || {
                &&& source.well_formed()
                &&& (width as nat) * (height as nat) <= u32::MAX
                &&& width > 0 || height <= 1
                &&& 4 * (source.width as nat) * (height as nat) <= usize::MAX
                &&& 3 * (width as nat) * (height as nat) <= usize::MAX
            },
        ensures
            final(self).at_width == width,
            final(self).at_height == height,
            final(self).data@ == cells@,
            old(self).holds(*source) ==> final(self).holds(*source) && cells_of(
                *source,
                width,
                height,
                cells@,
            ),
            old(self).at_width == width && old(self).at_height == height ==> {
                &&& cells@ == old(self).data@
                &&& *final(self) == *old(self)
            },
            !(old(self).at_width == width && old(self).at_height == height) ==> {
                &&& cells@ == scaled_cells(*source, width, height)
                &&& final(self).data@ == cells@
                &&& final(self).at_width == width
                &&& final(self).at_height == height
            },
            !(old(self).at_width == width && old(self).at_height == height) && width == source.width
                && height == source.height ==> cells@ == rgb_cells(
                source.data@,
                (width as nat) * (height as nat),
            ) + filled(blank(), (width as nat) * (height as nat)),
    {
        if self.at_width == width && self.at_height == height {
            return copy_cells(&self.data);
        }
        let n = (width * height) as usize;
        let scaled = resize_nearest(source, width, height);
        assert(3 * (n as nat) <= scaled@.len()) by (nonlinear_arith)
            requires
                n == (width as nat) * (height as nat),
                scaled@.len() == 3 * (width as nat) * (height as nat),
        ;
        let mut pixels: Vec<Pixel> = Vec::new();
        push_rgb_cells(&mut pixels, &scaled, n);
        push_blanks(&mut pixels, n);
        assert(width == source.width && height == source.height ==> scaled@ == source.data@);
        self.data = copy_cells(&pixels);
        self.at_width = width;
        self.at_height = height;
        pixels
    }
}

} // verus!
