//! Rasters of three-channel, eight-bit pixels, held in the image crate's
//! buffer and described by their width, their height and the channels at
//! every coordinate.

use vstd::prelude::*;
use crate::plan::lemma_planned_covers;

verus! {

/// The three channels of a pixel: red, green, blue.
pub type Color = (u8, u8, u8);

/// An RGB raster. The pixels live in the image crate's `RgbImage`, which is
/// kept opaque: what is known of it is what the functions below state of
/// its width, its height and its pixels.
#[verifier::external_body]
pub struct Raster {
    buffer: image::RgbImage,
}

/// Number of columns of a raster.
pub uninterp spec fn raster_width(r: Raster) -> nat;

/// Number of rows of a raster.
pub uninterp spec fn raster_height(r: Raster) -> nat;

/// The bytes of a raster: the three channels of each pixel side by side,
/// the pixels of a row one after another, the rows from the top.
pub uninterp spec fn raster_bytes(r: Raster) -> Seq<u8>;

/// What a raster is: its dimensions and its pixels by coordinate.
pub struct RasterView {
    pub width: nat,
    pub height: nat,
    pub pixels: Map<(int, int), Color>,
}

/// The coordinates of a raster of the given dimensions.
pub open spec fn coordinates(width: nat, height: nat) -> Set<(int, int)> {
    Set::new(|c: (int, int)| 0 <= c.0 < width && 0 <= c.1 < height)
}

/// The pixels of an all-black raster.
pub open spec fn blank_pixels(width: nat, height: nat) -> Map<(int, int), Color> {
    Map::new(|c: (int, int)| coordinates(width, height).contains(c), |c: (int, int)| (0u8, 0u8, 0u8))
}

/// Where the pixel `(x, y)` starts among the bytes of a raster.
pub open spec fn byte_offset(width: nat, x: int, y: int) -> int {
    3 * (y * width + x)
}

/// The pixels that the bytes of a raster hold.
pub open spec fn pixels_of_bytes(width: nat, height: nat, bytes: Seq<u8>) -> Map<(int, int), Color> {
    Map::new(
        |c: (int, int)| coordinates(width, height).contains(c),
        |c: (int, int)|
            (
                bytes[byte_offset(width, c.0, c.1)],
                bytes[byte_offset(width, c.0, c.1) + 1],
                bytes[byte_offset(width, c.0, c.1) + 2],
            ),
    )
}

impl View for Raster {
    type V = RasterView;

    open spec fn view(&self) -> RasterView {
        RasterView {
            width: raster_width(*self),
            height: raster_height(*self),
            pixels: pixels_of_bytes(raster_width(*self), raster_height(*self), raster_bytes(*self)),
        }
    }
}

impl RasterView {
    /// Every coordinate inside the dimensions has a pixel, and no other.
    pub open spec fn well_formed(self) -> bool {
        self.pixels.dom() =~= coordinates(self.width, self.height)
    }

    /// Whether `(x, y)` lies inside the raster.
    pub open spec fn contains(self, x: int, y: int) -> bool {
        0 <= x < self.width && 0 <= y < self.height
    }
}

/// `ImageBuffer::from_raw`: a raster over the given bytes, or nothing when
/// they are fewer than three per pixel.
#[verifier::external_body]
fn buffer_from_raw(width: u32, height: u32, data: Vec<u8>) -> (r: Option<Raster>)
    ensures
        r.is_some() <==> 3 * width * height <= data@.len(),
        r matches Some(img) ==> raster_width(img) == width && raster_height(img) == height
            && raster_bytes(img) == data@,
{
    match image::ImageBuffer::from_raw(width, height, data) {
        Some(buffer) => Some(Raster { buffer }),
        None => None,
    }
}

/// `ImageBuffer::new`: a raster of three zero bytes for each pixel. The
/// outside function panics when that many bytes exceed the largest buffer,
/// which the precondition leaves out.
#[verifier::external_body]
fn buffer_new(width: u32, height: u32) -> (r: Raster)
    requires
        3 * width * height <= isize::MAX,
    ensures
        raster_width(r) == width,
        raster_height(r) == height,
        raster_bytes(r) == Seq::new((3 * width * height) as nat, |i: int| 0u8),
{
    Raster { buffer: image::ImageBuffer::new(width, height) }
}

/// `ImageBuffer::dimensions`: the number of columns and of rows. A buffer
/// is only ever made over at least three bytes for each of its pixels, and
/// no buffer is longer than the largest allocation.
#[verifier::external_body]
fn buffer_dimensions(r: &Raster) -> (d: (u32, u32))
    ensures
        d.0 == raster_width(*r),
        d.1 == raster_height(*r),
        3 * d.0 * d.1 <= raster_bytes(*r).len() <= isize::MAX,
{
    r.buffer.dimensions()
}

/// `ImageBuffer::get_pixel`: the three bytes of the pixel at `(x, y)`. The
/// outside function panics on a coordinate outside the buffer, which the
/// precondition leaves out.
#[verifier::external_body]
fn buffer_get(r: &Raster, x: u32, y: u32) -> (p: (u8, u8, u8))
    requires
        x < raster_width(*r),
        y < raster_height(*r),
    ensures
        p.0 == raster_bytes(*r)[byte_offset(raster_width(*r), x as int, y as int)],
        p.1 == raster_bytes(*r)[byte_offset(raster_width(*r), x as int, y as int) + 1],
        p.2 == raster_bytes(*r)[byte_offset(raster_width(*r), x as int, y as int) + 2],
{
    let px = r.buffer.get_pixel(x, y);
    (px.0[0], px.0[1], px.0[2])
}

/// `ImageBuffer::put_pixel`: overwrites the three bytes of the pixel at
/// `(x, y)` and nothing else. The outside function panics on a coordinate
/// outside the buffer, which the precondition leaves out.
#[verifier::external_body]
fn buffer_put(r: &mut Raster, x: u32, y: u32, p: (u8, u8, u8))
    requires
        x < raster_width(*old(r)),
        y < raster_height(*old(r)),
    ensures
        raster_width(*final(r)) == raster_width(*old(r)),
        raster_height(*final(r)) == raster_height(*old(r)),
        raster_bytes(*final(r)) == raster_bytes(*old(r)).update(
            byte_offset(raster_width(*old(r)), x as int, y as int),
            p.0,
        ).update(byte_offset(raster_width(*old(r)), x as int, y as int) + 1, p.1).update(
            byte_offset(raster_width(*old(r)), x as int, y as int) + 2,
            p.2,
        ),
{
    r.buffer.put_pixel(x, y, image::Rgb([p.0, p.1, p.2]));
}

/// `ImageBuffer::into_raw`: the bytes of the buffer.
#[verifier::external_body]
fn buffer_into_raw(r: Raster) -> (data: Vec<u8>)
    ensures
        data@ == raster_bytes(r),
{
    r.buffer.into_raw()
}

/// The pixels of a raster lie apart among its bytes, none beyond the last
/// byte that the dimensions ask for.
pub proof fn lemma_pixels_lie_apart(width: nat, height: nat, x: int, y: int, a: int, b: int)
    requires
        0 <= x < width,
        0 <= y < height,
        0 <= a < width,
        0 <= b < height,
    ensures
        0 <= byte_offset(width, x, y),
        byte_offset(width, x, y) + 3 <= 3 * width * height,
        (x, y) != (a, b) ==> byte_offset(width, x, y) + 3 <= byte_offset(width, a, b)
            || byte_offset(width, a, b) + 3 <= byte_offset(width, x, y),
{
    lemma_planned_covers(width, height, x, y);
    lemma_planned_covers(width, height, a, b);
    assert(3 * (width * height) == 3 * width * height) by (nonlinear_arith);
}

impl Raster {
    /// The bytes of the raster: three for each pixel, rows first.
    pub open spec fn bytes(&self) -> Seq<u8> {
        raster_bytes(*self)
    }

    /// An all-black raster of the given dimensions, or nothing when its
    /// bytes would not fit in memory.
    pub fn new(width: u32, height: u32) -> (r: Option<Raster>)
        ensures
            r.is_some() <==> 3 * width * height <= isize::MAX,
            r matches Some(img) ==> img@.width == width && img@.height == height && img@.pixels
                == blank_pixels(width as nat, height as nat) && img@.well_formed() && img.bytes()
                == Seq::new((3 * width * height) as nat, |i: int| 0u8),
    {
        assert(0 <= width * height <= 0xffff_ffff * 0xffff_ffff) by (nonlinear_arith)
            requires
                0 <= width <= 0xffff_ffff,
                0 <= height <= 0xffff_ffff,
        ;
        let area: u128 = (width as u128) * (height as u128);
        let bytes: u128 = 3 * area;
        assert(bytes == 3 * width * height) by (nonlinear_arith)
            requires
                bytes == 3 * (width * height),
        ;
        if bytes <= isize::MAX as u128 {
            let img = buffer_new(width, height);
            proof {
                assert forall|c: (int, int)|
                    coordinates(width as nat, height as nat).contains(c) implies #[trigger] img@.pixels[c]
                    == (0u8, 0u8, 0u8) by {
                    lemma_pixels_lie_apart(width as nat, height as nat, c.0, c.1, c.0, c.1);
                }
                assert(img@.pixels =~= blank_pixels(width as nat, height as nat));
            }
            Some(img)
        } else {
            None
        }
    }

    /// An all-black raster with the dimensions of `shape`.
    pub fn blank_like(shape: &Raster) -> (r: Raster)
        ensures
            r@.width == shape@.width,
            r@.height == shape@.height,
            r@.pixels == blank_pixels(shape@.width, shape@.height),
            r@.well_formed(),
    {
        let (width, height) = buffer_dimensions(shape);
        let img = buffer_new(width, height);
        proof {
            assert forall|c: (int, int)|
                coordinates(width as nat, height as nat).contains(c) implies #[trigger] img@.pixels[c]
                == (0u8, 0u8, 0u8) by {
                lemma_pixels_lie_apart(width as nat, height as nat, c.0, c.1, c.0, c.1);
            }
            assert(img@.pixels =~= blank_pixels(width as nat, height as nat));
        }
        img
    }

    /// A raster over a row-major buffer of interleaved channels, or nothing
    /// when the buffer holds fewer than three bytes per pixel.
    pub fn from_raw(width: u32, height: u32, data: Vec<u8>) -> (r: Option<Raster>)
        ensures
            r.is_some() <==> 3 * width * height <= data@.len(),
            r matches Some(img) ==> img@.width == width && img@.height == height && img@.pixels
                == pixels_of_bytes(width as nat, height as nat, data@) && img@.well_formed()
                && img.bytes() == data@,
    {
        buffer_from_raw(width, height, data)
    }

    /// The bytes of the raster, three per pixel, rows first.
    pub fn into_raw(self) -> (data: Vec<u8>)
        ensures
            data@ == self.bytes(),
            3 * self@.width * self@.height <= data@.len(),
            self@.pixels == pixels_of_bytes(self@.width, self@.height, data@),
    {
        let _ = buffer_dimensions(&self);
        buffer_into_raw(self)
    }

    /// The number of columns.
    pub fn width(&self) -> (w: u32)
        ensures
            w == self@.width,
    {
        buffer_dimensions(self).0
    }

    /// The number of rows.
    pub fn height(&self) -> (h: u32)
        ensures
            h == self@.height,
    {
        buffer_dimensions(self).1
    }

    /// The pixel at `(x, y)`.
    pub fn get_pixel(&self, x: u32, y: u32) -> (p: Color)
        requires
            self@.contains(x as int, y as int),
        ensures
            p == self@.pixels[(x as int, y as int)],
    {
        buffer_get(self, x, y)
    }

    /// Overwrites the pixel at `(x, y)`, and no other.
    pub fn put_pixel(&mut self, x: u32, y: u32, p: Color)
        requires
            old(self)@.contains(x as int, y as int),
        ensures
            final(self)@.width == old(self)@.width,
            final(self)@.height == old(self)@.height,
            final(self)@.pixels == old(self)@.pixels.insert((x as int, y as int), p),
    {
        let _ = buffer_dimensions(self);
        buffer_put(self, x, y, p);
        proof {
            let width = old(self)@.width;
            let height = old(self)@.height;
            let changed = old(self)@.pixels.insert((x as int, y as int), p);
            assert forall|c: (int, int)|
                coordinates(width, height).contains(c) implies #[trigger] self@.pixels[c]
                == changed[c] by {
                lemma_pixels_lie_apart(width, height, x as int, y as int, c.0, c.1);
                lemma_pixels_lie_apart(width, height, c.0, c.1, c.0, c.1);
            }
            assert(self@.pixels =~= changed);
        }
    }
}

} // verus!
