use vstd::prelude::*;
use crate::coords::{offset_of, ImageIndex, IndexView};
use crate::error::Error;
use crate::format::{
    lemma_bytes_round_trip, lemma_plane_round_trip, plane_bytes, plane_pixels, read_plane,
    write_plane, ImageSpec, PixelEndian, PIXEL_BYTES,
};
use crate::pixel::Pixel;

verus! {

/// The abstract value of an image: its dimensions, its optional
/// transparent color and its pixels in row-major order.
pub struct ImageView {
    pub width: u16,
    pub height: u16,
    pub transparent_color: Option<Pixel>,
    pub pixels: Seq<Pixel>,
}

impl ImageView {
    /// `(x, y)` lies inside the image.
    pub open spec fn in_bounds(self, x: u16, y: u16) -> bool {
        x < self.width && y < self.height
    }

    /// The row-major position of `(x, y)` in the pixel sequence.
    pub open spec fn index_of(self, x: u16, y: u16) -> int {
        offset_of(x as nat, y as nat, self.width as nat) as int
    }

    /// The pixel at `(x, y)`.
    pub open spec fn pixel_at(self, x: u16, y: u16) -> Pixel {
        self.pixels[self.index_of(x, y)]
    }
}

/// A `width` by `height` image of 16-bit pixels, stored row by row from
/// the top left corner, with an optional transparent color.
#[derive(Clone, Debug, PartialEq, Eq)]
pub struct Image {
    width: u16,
    height: u16,
    transparent_color: Option<Pixel>,
    pixels: Vec<Pixel>,
}

impl View for Image {
    type V = ImageView;

    closed spec fn view(&self) -> ImageView {
        ImageView {
            width: self.width,
            height: self.height,
            transparent_color: self.transparent_color,
            pixels: self.pixels@,
        }
    }
}

/// The packed value of an optional transparent color.
pub open spec fn color_value(c: Option<Pixel>) -> Option<u16> {
    match c {
        Some(p) => Some(p.0),
        None => None,
    }
}

/// The transparent color that a header's packed value stands for.
pub open spec fn color_of(c: Option<u16>) -> Option<Pixel> {
    match c {
        Some(v) => Some(Pixel(v)),
        None => None,
    }
}

/// The length of an encoded `width` by `height` image whose header takes
/// `header_len` bytes.
pub open spec fn encoded_len(header_len: nat, width: u16, height: u16) -> nat {
    (header_len + width * height * PIXEL_BYTES) as nat
}

/// A buffer of `buf_len` bytes can hold an encoded `width` by `height`
/// image whose header takes `header_len` bytes.
pub open spec fn fits_encoded(buf_len: nat, header_len: nat, width: u16, height: u16) -> bool {
    encoded_len(header_len, width, height) <= buf_len
}

/// `n` black pixels.
pub open spec fn black_pixels(n: nat) -> Seq<Pixel> {
    Seq::new(n, |i: int| Pixel(0))
}

/// Any `(x, y)` inside a `width` by `height` image has a row-major offset
/// below `width * height`.
proof fn lemma_offset_in_range(x: u16, y: u16, width: u16, height: u16)
    requires
        x < width,
        y < height,
    ensures
        offset_of(x as nat, y as nat, width as nat) < width * height,
{
    assert(y * width + x < width * height) by (nonlinear_arith)
        requires
            x < width,
            y < height,
    ;
}

/// The row-major offset of `(x, y)` in an image `width` pixels wide.
pub fn image_index(x: u16, y: u16, width: u16) -> (r: usize)
    ensures
        r == offset_of(x as nat, y as nat, width as nat),
{
    assert(y * width + x <= 0xFFFF_0000) by (nonlinear_arith)
        requires
            x <= 0xFFFF,
            y <= 0xFFFF,
            width <= 0xFFFF,
    ;
    y as usize * width as usize + x as usize
}

impl Image {
    /// The pixel count matches the dimensions.
    pub open spec fn wf(&self) -> bool {
        self@.pixels.len() == self@.width * self@.height
    }

    fn black(width: u16, height: u16, transparent_color: Option<Pixel>) -> (r: Image)
        ensures
            r.wf(),
            r@ == (ImageView {
                width,
                height,
                transparent_color,
                pixels: black_pixels((width * height) as nat),
            }),
    {
        proof {
            crate::format::lemma_dims_fit(width, height);
        }
        let n = width as usize * height as usize;
        let mut pixels: Vec<Pixel> = Vec::with_capacity(n);
        let mut i: usize = 0;
        while i < n
            invariant
                i <= n,
                pixels@ =~= black_pixels(i as nat),
            decreases n - i,
        {
            pixels.push(Pixel(0));
            i = i + 1;
        }
        Image { width, height, transparent_color, pixels }
    }

    /// A black `width` by `height` image without a transparent color.
    pub fn new(width: u16, height: u16) -> (r: Image)
        ensures
            r.wf(),
            r@ == (ImageView {
                width,
                height,
                transparent_color: None,
                pixels: black_pixels((width * height) as nat),
            }),
    {
        Image::black(width, height, None)
    }

    /// A black `width` by `height` image with the given transparent color.
    pub fn with_transparent_color(width: u16, height: u16, transparent_color: Pixel) -> (r: Image)
        ensures
            r.wf(),
            r@ == (ImageView {
                width,
                height,
                transparent_color: Some(transparent_color),
                pixels: black_pixels((width * height) as nat),
            }),
    {
        Image::black(width, height, Some(transparent_color))
    }

    /// The width in pixels.
    pub fn width(&self) -> (r: u16)
        ensures
            r == self@.width,
    {
        self.width
    }

    /// The height in pixels.
    pub fn height(&self) -> (r: u16)
        ensures
            r == self@.height,
    {
        self.height
    }

    /// A fresh row-major sequence of this image's coordinates.
    pub fn coordinates(&self) -> (r: ImageIndex)
        ensures
            r@ == (IndexView {
                width: self@.width as nat,
                height: self@.height as nat,
                position: 0,
            }),
    {
        ImageIndex::new(self.width, self.height)
    }

    /// The transparent color, if there is one.
    pub fn transparent_color(&self) -> (r: Option<Pixel>)
        ensures
            r == self@.transparent_color,
    {
        self.transparent_color
    }

    /// Replaces the transparent color; `None` removes it.
    pub fn set_transparent_color(&mut self, transparent_color: Option<Pixel>)
        ensures
            final(self)@ == (ImageView { transparent_color, ..old(self)@ }),
    {
        self.transparent_color = transparent_color;
    }

    /// The pixel at `(x, y)`, or `None` when `x >= width` or `y >= height`.
    pub fn get_pixel(&self, x: u16, y: u16) -> (r: Option<&Pixel>)
        requires
            self.wf(),
        ensures
            r.is_some() == self@.in_bounds(x, y),
            r.is_some() ==> *r.unwrap() == self@.pixel_at(x, y),
    {
        if x < self.width && y < self.height {
            Some(self.get_pixel_unchecked(x, y))
        } else {
            None
        }
    }

    /// The pixel at `(x, y)`, which the caller keeps inside the image.
    pub fn get_pixel_unchecked(&self, x: u16, y: u16) -> (r: &Pixel)
        requires
            self.wf(),
            self@.in_bounds(x, y),
        ensures
            *r == self@.pixel_at(x, y),
    {
        proof {
            lemma_offset_in_range(x, y, self.width, self.height);
        }
        &self.pixels[image_index(x, y, self.width)]
    }

    /// Writes `pixel` at `(x, y)`, which the caller keeps inside the image.
    pub fn set_pixel(&mut self, x: u16, y: u16, pixel: Pixel)
        requires
            old(self).wf(),
            old(self)@.in_bounds(x, y),
        ensures
            final(self).wf(),
            final(self)@ == (ImageView {
                pixels: old(self)@.pixels.update(old(self)@.index_of(x, y), pixel),
                ..old(self)@
            }),
    {
        proof {
            lemma_offset_in_range(x, y, self.width, self.height);
        }
        let i = image_index(x, y, self.width);
        self.pixels.set(i, pixel);
    }

    /// The pixels, row by row.
    pub fn pixels(&self) -> (r: &[Pixel])
        ensures
            r@ == self@.pixels,
    {
        self.pixels.as_slice()
    }

    /// The pixel at `(x, y)` for writing, or `None` when `x >= width` or
    /// `y >= height`.
    pub fn get_pixel_mut(&mut self, x: u16, y: u16) -> (r: Option<&mut Pixel>)
        requires
            old(self).wf(),
        ensures
            r.is_some() == old(self)@.in_bounds(x, y),
            match r {
                Some(p) => *p == old(self)@.pixel_at(x, y) && final(self)@ == (ImageView {
                    pixels: old(self)@.pixels.update(old(self)@.index_of(x, y), *final(p)),
                    ..old(self)@
                }),
                None => final(self)@ == old(self)@,
            },
    {
        if x < self.width && y < self.height {
            Some(self.get_pixel_unchecked_mut(x, y))
        } else {
            None
        }
    }

    /// The pixel at `(x, y)` for writing; the caller keeps `(x, y)` inside
    /// the image.
    pub fn get_pixel_unchecked_mut(&mut self, x: u16, y: u16) -> (r: &mut Pixel)
        requires
            old(self).wf(),
            old(self)@.in_bounds(x, y),
        ensures
            *r == old(self)@.pixel_at(x, y),
            final(self)@ == (ImageView {
                pixels: old(self)@.pixels.update(old(self)@.index_of(x, y), *final(r)),
                ..old(self)@
            }),
    {
        proof {
            lemma_offset_in_range(x, y, self.width, self.height);
        }
        let i = image_index(x, y, self.width);
        &mut self.pixels[i]
    }

    /// The pixels, row by row, for writing.
    pub fn pixels_mut(&mut self) -> (r: &mut [Pixel])
        ensures
            r@ == old(self)@.pixels,
            final(self)@ == (ImageView { pixels: final(r)@, ..old(self)@ }),
    {
        self.pixels.as_mut_slice()
    }

    /// Sets every pixel to `pixel`.
    pub fn fill(&mut self, pixel: Pixel)
        ensures
            old(self).wf() ==> final(self).wf(),
            final(self)@ == (ImageView {
                pixels: Seq::new(old(self)@.pixels.len(), |i: int| pixel),
                ..old(self)@
            }),
    {
        let n = self.pixels.len();
        let mut i: usize = 0;
        while i < n
            invariant
                i <= n,
                n == old(self)@.pixels.len(),
                self.width == old(self)@.width,
                self.height == old(self)@.height,
                self.transparent_color == old(self)@.transparent_color,
                self.pixels@.len() == n,
                forall|j: int| 0 <= j < i ==> self.pixels@[j] == pixel,
            decreases n - i,
        {
            self.pixels.set(i, pixel);
            i = i + 1;
        }
        assert(self.pixels@ =~= Seq::new(n as nat, |i: int| pixel));
    }

    /// The header metadata of this image with pixels in `endian` order.
    pub fn image_spec(&self, endian: PixelEndian) -> (r: ImageSpec)
        ensures
            r == (ImageSpec {
                width: self@.width,
                height: self@.height,
                transparent_color: color_value(self@.transparent_color),
                pixel_endian: endian,
            }),
    {
        let transparent_color = match self.transparent_color {
            Some(p) => Some(p.0),
            None => None,
        };
        ImageSpec { width: self.width, height: self.height, transparent_color, pixel_endian: endian }
    }

    /// Decodes an image from `buf`, whose first `header_len` bytes are a
    /// header that decodes to `spec`; the pixel plane follows it. Bytes
    /// after the plane are not read.
    pub fn from_buffer(buf: &[u8], header_len: usize, spec: &ImageSpec) -> (r: Result<Image, Error>)
        ensures
            r.is_ok() == fits_encoded(buf@.len(), header_len as nat, spec.width, spec.height),
            match r {
                Ok(image) => image.wf() && image@ == (ImageView {
                    width: spec.width,
                    height: spec.height,
                    transparent_color: color_of(spec.transparent_color),
                    pixels: plane_pixels(
                        buf@.subrange(header_len as int, buf@.len() as int),
                        spec.spec_num_pixels(),
                        spec.pixel_endian,
                    ),
                }),
                Err(e) => e == Error::InputBufferTooSmall,
            },
    {
        let n = spec.num_pixels();
        if header_len > buf.len() || (buf.len() - header_len) / 2 < n {
            return Err(Error::InputBufferTooSmall);
        }
        let pixels = read_plane(buf, header_len, n, spec.pixel_endian);
        let transparent_color = match spec.transparent_color {
            Some(v) => Some(Pixel(v)),
            None => None,
        };
        Ok(Image { width: spec.width, height: spec.height, transparent_color, pixels })
    }

    /// Encodes the image into the front of `buf` as `header` followed by
    /// the pixel plane in little-endian order; see `to_buffer_with_endian`.
    pub fn to_buffer(&self, buf: &mut Vec<u8>, header: &[u8]) -> (r: Result<(), Error>)
        requires
            self.wf(),
        ensures
            r.is_ok() == fits_encoded(old(buf)@.len(), header@.len(), self@.width, self@.height),
            match r {
                Ok(()) => final(buf)@ == header@ + plane_bytes(self@.pixels, PixelEndian::Little)
                    + old(buf)@.subrange(
                    encoded_len(header@.len(), self@.width, self@.height) as int,
                    old(buf)@.len() as int,
                ),
                Err(e) => e == Error::OutputBufferTooSmall && final(buf)@ == old(buf)@,
            },
    {
        self.to_buffer_with_endian(buf, header, PixelEndian::Little)
    }

    /// Encodes the image into the front of `buf`: the bytes of `header`
    /// (the encoded header of `self.image_spec(endian)`), then the pixel
    /// plane with each pixel's bytes in `endian` order. The rest of `buf`
    /// stays; a `buf` shorter than that fails and stays as it was.
    pub fn to_buffer_with_endian(
        &self,
        buf: &mut Vec<u8>,
        header: &[u8],
        endian: PixelEndian,
    ) -> (r: Result<(), Error>)
        requires
            self.wf(),
        ensures
            r.is_ok() == fits_encoded(old(buf)@.len(), header@.len(), self@.width, self@.height),
            match r {
                Ok(()) => final(buf)@ == header@ + plane_bytes(self@.pixels, endian)
                    + old(buf)@.subrange(
                    encoded_len(header@.len(), self@.width, self@.height) as int,
                    old(buf)@.len() as int,
                ),
                Err(e) => e == Error::OutputBufferTooSmall && final(buf)@ == old(buf)@,
            },
    {
        let n = self.pixels.len();
        let h = header.len();
        if h > buf.len() || (buf.len() - h) / 2 < n {
            return Err(Error::OutputBufferTooSmall);
        }
        let mut i: usize = 0;
        while i < h
            invariant
                i <= h,
                h == header@.len(),
                h + 2 * n <= old(buf)@.len(),
                buf@.len() == old(buf)@.len(),
                forall|j: int| 0 <= j < i ==> buf@[j] == header@[j],
                forall|j: int| i <= j < buf@.len() ==> buf@[j] == old(buf)@[j],
            decreases h - i,
        {
            buf.set(i, header[i]);
            i = i + 1;
        }
        write_plane(self.pixels.as_slice(), endian, buf, h);
        assert(buf@ =~= header@ + plane_bytes(self@.pixels, endian) + old(buf)@.subrange(
            h + 2 * n,
            old(buf)@.len() as int,
        ));
        Ok(())
    }
}

/// Decoding a buffer that holds a header and exactly one pixel plane, then
/// encoding the image with the same header bytes and the same byte order,
/// gives the buffer back; the decoded image describes the header's
/// metadata again.
pub proof fn lemma_decode_then_encode(buf: Seq<u8>, header_len: nat, spec: ImageSpec)
    requires
        buf.len() == encoded_len(header_len, spec.width, spec.height),
    ensures
        ({
            let n = spec.spec_num_pixels();
            let e = spec.pixel_endian;
            let pixels = plane_pixels(buf.subrange(header_len as int, buf.len() as int), n, e);
            &&& pixels.len() == n
            &&& buf.subrange(0, header_len as int) + plane_bytes(pixels, e) == buf
        }),
        color_value(color_of(spec.transparent_color)) == spec.transparent_color,
{
    let n = spec.spec_num_pixels();
    let e = spec.pixel_endian;
    let plane = buf.subrange(header_len as int, buf.len() as int);
    assert(plane.len() == 2 * n);
    lemma_bytes_round_trip(plane, n, e);
    assert(plane_pixels(plane, n, e).len() == n);
    assert(buf.subrange(0, header_len as int) + plane =~= buf);
}

/// Encoding an image and decoding the result with the same header length
/// and byte order gives the image's pixels and transparent color back.
pub proof fn lemma_encode_then_decode(image: ImageView, header: Seq<u8>, endian: PixelEndian)
    ensures
        ({
            let buf = header + plane_bytes(image.pixels, endian);
            plane_pixels(
                buf.subrange(header.len() as int, buf.len() as int),
                image.pixels.len(),
                endian,
            ) == image.pixels
        }),
        color_of(color_value(image.transparent_color)) == image.transparent_color,
{
    let buf = header + plane_bytes(image.pixels, endian);
    assert(buf.subrange(header.len() as int, buf.len() as int) =~= plane_bytes(
        image.pixels,
        endian,
    ));
    lemma_plane_round_trip(image.pixels, endian);
}

/// The encoded length is the header plus two bytes per pixel: a buffer of
/// exactly that length is large enough to encode into, one byte less is not.
pub proof fn lemma_exact_output_size(header_len: nat, width: u16, height: u16)
    ensures
        encoded_len(header_len, width, height) == header_len + width * height * PIXEL_BYTES,
        fits_encoded(encoded_len(header_len, width, height), header_len, width, height),
        encoded_len(header_len, width, height) > 0 ==> !fits_encoded(
            (encoded_len(header_len, width, height) - 1) as nat,
            header_len,
            width,
            height,
        ),
{
}

/// No coordinate on the right edge or below the bottom edge is inside the
/// image, so checked access there yields nothing.
pub proof fn lemma_bounds_rejection(image: ImageView)
    ensures
        !image.in_bounds(image.width, 0),
        !image.in_bounds(0, image.height),
        !image.in_bounds(image.width, image.height),
{
}

} // verus!
