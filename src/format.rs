use vstd::prelude::*;
use crate::pixel::Pixel;

verus! {

/// Bytes that one pixel takes in the pixel plane.
pub const PIXEL_BYTES: usize = 2;

/// Byte order of each 16-bit value in the pixel plane.
#[derive(Clone, Copy, PartialEq, Eq, Structural, Debug)]
pub enum PixelEndian {
    Little,
    Big,
}

/// What the header of an encoded image describes.
#[derive(Clone, Copy, PartialEq, Eq, Structural, Debug)]
pub struct ImageSpec {
    pub width: u16,
    pub height: u16,
    pub transparent_color: Option<u16>,
    pub pixel_endian: PixelEndian,
}

/// The two bytes of a packed value in the given byte order.
pub open spec fn word_bytes(v: u16, e: PixelEndian) -> Seq<u8> {
    match e {
        PixelEndian::Little => seq![(v % 256) as u8, (v / 256) as u8],
        PixelEndian::Big => seq![(v / 256) as u8, (v % 256) as u8],
    }
}

/// The packed value that two bytes hold in the given byte order.
pub open spec fn bytes_word(b0: u8, b1: u8, e: PixelEndian) -> u16 {
    match e {
        PixelEndian::Little => (b0 + 256 * b1) as u16,
        PixelEndian::Big => (b1 + 256 * b0) as u16,
    }
}

/// The pixel plane of a row-major pixel sequence: two bytes per pixel.
pub open spec fn plane_bytes(pixels: Seq<Pixel>, e: PixelEndian) -> Seq<u8> {
    Seq::new(2 * pixels.len(), |j: int| word_bytes(pixels[j / 2].0, e)[j % 2])
}

/// The first `n` pixels that a pixel plane holds.
pub open spec fn plane_pixels(data: Seq<u8>, n: nat, e: PixelEndian) -> Seq<Pixel> {
    Seq::new(n, |i: int| Pixel(bytes_word(data[2 * i], data[2 * i + 1], e)))
}

impl ImageSpec {
    /// The number of pixels of the described image.
    pub open spec fn spec_num_pixels(&self) -> nat {
        (self.width * self.height) as nat
    }

    /// The number of pixels of the described image.
    pub fn num_pixels(&self) -> (r: usize)
        ensures
            r == self.spec_num_pixels(),
    {
        proof {
            lemma_dims_fit(self.width, self.height);
        }
        self.width as usize * self.height as usize
    }

    /// The length of the pixel plane: `PIXEL_BYTES` per pixel.
    pub fn decoded_size(&self) -> (r: usize)
        requires
            self.spec_num_pixels() * PIXEL_BYTES <= usize::MAX,
        ensures
            r == self.spec_num_pixels() * PIXEL_BYTES,
    {
        proof {
            lemma_dims_fit(self.width, self.height);
        }
        self.num_pixels() * PIXEL_BYTES
    }

    /// The length of an encoded image whose header takes `header_len` bytes.
    pub fn encoded_size(&self, header_len: usize) -> (r: usize)
        requires
            header_len + self.spec_num_pixels() * PIXEL_BYTES <= usize::MAX,
        ensures
            r == header_len + self.spec_num_pixels() * PIXEL_BYTES,
    {
        header_len + self.decoded_size()
    }
}

/// The product of two 16-bit dimensions fits in a `usize`.
pub proof fn lemma_dims_fit(w: u16, h: u16)
    ensures
        w * h <= 0xFFFE_0001,
        w * h <= usize::MAX,
{
    assert(w * h <= 0xFFFE_0001) by (nonlinear_arith)
        requires
            w <= 0xFFFF,
            h <= 0xFFFF,
    ;
}

/// Splitting a packed value into two bytes and joining them gives it back,
/// and joining two bytes and splitting the value gives them back.
proof fn lemma_word_bytes(v: u16, b0: u8, b1: u8, e: PixelEndian)
    ensures
        bytes_word(word_bytes(v, e)[0], word_bytes(v, e)[1], e) == v,
        word_bytes(bytes_word(b0, b1, e), e) == seq![b0, b1],
{
    assert(((v % 256) as u8) + 256 * ((v / 256) as u8) == v) by (bit_vector);
    assert(((b0 + 256 * b1) as u16) % 256 == b0 && ((b0 + 256 * b1) as u16) / 256 == b1)
        by (bit_vector);
    assert(((b1 + 256 * b0) as u16) % 256 == b1 && ((b1 + 256 * b0) as u16) / 256 == b0)
        by (bit_vector);
    assert(word_bytes(bytes_word(b0, b1, e), e) =~= seq![b0, b1]);
}

/// Decoding the pixel plane of a pixel sequence gives that sequence.
pub proof fn lemma_plane_round_trip(pixels: Seq<Pixel>, e: PixelEndian)
    ensures
        plane_pixels(plane_bytes(pixels, e), pixels.len(), e) == pixels,
{
    let data = plane_bytes(pixels, e);
    assert forall|i: int| 0 <= i < pixels.len() implies #[trigger] plane_pixels(
        data,
        pixels.len(),
        e,
    )[i] == pixels[i] by {
        assert((2 * i) / 2 == i && (2 * i) % 2 == 0 && (2 * i + 1) / 2 == i && (2 * i + 1) % 2
            == 1) by (nonlinear_arith);
        lemma_word_bytes(pixels[i].0, 0, 0, e);
    }
    assert(plane_pixels(data, pixels.len(), e) =~= pixels);
}

/// Encoding the pixels that a pixel plane holds gives that plane back.
pub proof fn lemma_bytes_round_trip(data: Seq<u8>, n: nat, e: PixelEndian)
    requires
        data.len() == 2 * n,
    ensures
        plane_bytes(plane_pixels(data, n, e), e) == data,
{
    let pixels = plane_pixels(data, n, e);
    assert forall|j: int| 0 <= j < data.len() implies #[trigger] plane_bytes(pixels, e)[j]
        == data[j] by {
        let i = j / 2;
        assert(0 <= i < n && (j % 2 == 0 ==> j == 2 * i) && (j % 2 == 1 ==> j == 2 * i + 1)
            && (j % 2 == 0 || j % 2 == 1)) by (nonlinear_arith)
            requires
                0 <= j < 2 * n,
                i == j / 2,
        ;
        lemma_word_bytes(0, data[2 * i], data[2 * i + 1], e);
    }
    assert(plane_bytes(pixels, e) =~= data);
}

/// Writes the pixel plane of `pixels` into `out` from index `start` on;
/// the other bytes of `out` stay.
pub(crate) fn write_plane(pixels: &[Pixel], e: PixelEndian, out: &mut Vec<u8>, start: usize)
    requires
        start + 2 * pixels@.len() <= old(out)@.len(),
    ensures
        final(out)@ == old(out)@.subrange(0, start as int) + plane_bytes(pixels@, e)
            + old(out)@.subrange(start + 2 * pixels@.len(), old(out)@.len() as int),
{
    let ghost bytes = plane_bytes(pixels@, e);
    let n = pixels.len();
    let total = out.len();
    let mut i: usize = 0;
    while i < n
        invariant
            i <= n,
            n == pixels@.len(),
            total == old(out)@.len(),
            start + 2 * n <= total,
            bytes == plane_bytes(pixels@, e),
            out@.len() == old(out)@.len(),
            forall|j: int| 0 <= j < start ==> out@[j] == old(out)@[j],
            forall|j: int| start + 2 * n <= j < out@.len() ==> out@[j] == old(out)@[j],
            forall|j: int| 0 <= j < 2 * i ==> out@[start + j] == bytes[j],
        decreases n - i,
    {
        let v = pixels[i].0;
        let lo = (v % 256) as u8;
        let hi = (v / 256) as u8;
        let (b0, b1) = match e {
            PixelEndian::Little => (lo, hi),
            PixelEndian::Big => (hi, lo),
        };
        out.set(start + 2 * i, b0);
        out.set(start + 2 * i + 1, b1);
        proof {
            assert forall|j: int| 0 <= j < 2 * i + 2 implies out@[start + j] == bytes[j] by {
                if j >= 2 * i {
                    assert(j / 2 == i as int && j % 2 == j - 2 * i) by (nonlinear_arith)
                        requires
                            2 * i <= j < 2 * i + 2,
                    ;
                }
            }
        }
        i = i + 1;
    }
    assert(out@ =~= old(out)@.subrange(0, start as int) + bytes + old(out)@.subrange(
        start + 2 * n,
        old(out)@.len() as int,
    ));
}

/// The first `n` pixels that the pixel plane starting at `data[start]` holds.
pub(crate) fn read_plane(data: &[u8], start: usize, n: usize, e: PixelEndian) -> (r: Vec<Pixel>)
    requires
        start + 2 * n <= data@.len(),
    ensures
        r@ == plane_pixels(data@.subrange(start as int, data@.len() as int), n as nat, e),
{
    let ghost tail = data@.subrange(start as int, data@.len() as int);
    let total = data.len();
    let mut r: Vec<Pixel> = Vec::new();
    let mut i: usize = 0;
    while i < n
        invariant
            i <= n,
            total == data@.len(),
            start + 2 * n <= total,
            tail == data@.subrange(start as int, data@.len() as int),
            r@ =~= plane_pixels(tail, n as nat, e).subrange(0, i as int),
        decreases n - i,
    {
        let b0 = data[start + 2 * i];
        let b1 = data[start + 2 * i + 1];
        let v: u16 = match e {
            PixelEndian::Little => b0 as u16 + 256 * (b1 as u16),
            PixelEndian::Big => b1 as u16 + 256 * (b0 as u16),
        };
        r.push(Pixel(v));
        i = i + 1;
    }
    r
}

} // verus!
