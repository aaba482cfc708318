use vstd::prelude::*;

verus! {

/// The red field of a packed RGB565 value (bits 11 to 15).
pub open spec fn red_field(v: u16) -> nat {
    (v / 2048) as nat
}

/// The green field of a packed RGB565 value (bits 5 to 10).
pub open spec fn green_field(v: u16) -> nat {
    ((v / 32) % 64) as nat
}

/// The blue field of a packed RGB565 value (bits 0 to 4).
pub open spec fn blue_field(v: u16) -> nat {
    (v % 32) as nat
}

/// A 5-bit channel widened to 8 bits by replicating its top 3 bits.
pub open spec fn expand5(c: nat) -> nat {
    c * 8 + c / 4
}

/// A 6-bit channel widened to 8 bits by replicating its top 2 bits.
pub open spec fn expand6(c: nat) -> nat {
    c * 4 + c / 16
}

/// The packed value with the given 5-, 6- and 5-bit fields.
pub open spec fn pack(r5: nat, g6: nat, b5: nat) -> nat {
    r5 * 2048 + g6 * 32 + b5
}

/// The packed value of an 8-bit-per-channel color, each channel truncated
/// to its field width.
pub open spec fn rgb_to_packed(rgb: [u8; 3]) -> nat {
    pack((rgb[0] / 8) as nat, (rgb[1] / 4) as nat, (rgb[2] / 8) as nat)
}

/// A 16-bit RGB565 color: red in bits 11 to 15, green in bits 5 to 10,
/// blue in bits 0 to 4. Equality is equality of the packed value.
#[derive(Clone, Copy, PartialEq, Eq, Structural, Debug)]
pub struct Pixel(pub u16);

impl Pixel {
    /// Black, `0x0000`.
    pub fn black() -> (r: Pixel)
        ensures
            r.0 == 0x0000,
    {
        Pixel(0x0000)
    }

    /// Red, `0xF800`.
    pub fn red() -> (r: Pixel)
        ensures
            r.0 == 0xF800,
    {
        Pixel(0xF800)
    }

    /// Green, `0x07E0`.
    pub fn green() -> (r: Pixel)
        ensures
            r.0 == 0x07E0,
    {
        Pixel(0x07E0)
    }

    /// Blue, `0x001F`.
    pub fn blue() -> (r: Pixel)
        ensures
            r.0 == 0x001F,
    {
        Pixel(0x001F)
    }

    /// Magenta, `0xF81F`.
    pub fn magenta() -> (r: Pixel)
        ensures
            r.0 == 0xF81F,
    {
        Pixel(0xF81F)
    }

    /// Cyan, `0x07FF`.
    pub fn cyan() -> (r: Pixel)
        ensures
            r.0 == 0x07FF,
    {
        Pixel(0x07FF)
    }

    /// Yellow, `0xFFE0`.
    pub fn yellow() -> (r: Pixel)
        ensures
            r.0 == 0xFFE0,
    {
        Pixel(0xFFE0)
    }

    /// Gray, `0x7BEF`.
    pub fn gray() -> (r: Pixel)
        ensures
            r.0 == 0x7BEF,
    {
        Pixel(0x7BEF)
    }

    /// White, `0xFFFF`.
    pub fn white() -> (r: Pixel)
        ensures
            r.0 == 0xFFFF,
    {
        Pixel(0xFFFF)
    }

    /// Wraps a packed RGB565 value.
    pub fn new(color: u16) -> (r: Pixel)
        ensures
            r.0 == color,
    {
        Pixel(color)
    }

    /// The red channel, widened to 8 bits.
    pub fn r(&self) -> (r: u8)
        ensures
            r == expand5(red_field(self.0)),
    {
        let v = self.0;
        proof {
            lemma_fields(v);
        }
        let c = ((v & 0xF800u16) >> 11u16) as u8;
        proof {
            lemma_expand5(c);
        }
        (c << 3u8) | (c >> 2u8)
    }

    /// The green channel, widened to 8 bits.
    pub fn g(&self) -> (r: u8)
        ensures
            r == expand6(green_field(self.0)),
    {
        let v = self.0;
        proof {
            lemma_fields(v);
        }
        let c = ((v & 0x07E0u16) >> 5u16) as u8;
        proof {
            lemma_expand6(c);
        }
        (c << 2u8) | (c >> 4u8)
    }

    /// The blue channel, widened to 8 bits.
    pub fn b(&self) -> (r: u8)
        ensures
            r == expand5(blue_field(self.0)),
    {
        let v = self.0;
        proof {
            lemma_fields(v);
        }
        let c = (v & 0x001Fu16) as u8;
        proof {
            lemma_expand5(c);
        }
        (c << 3u8) | (c >> 2u8)
    }

    /// Sets the red channel to the top 5 bits of `r`; green and blue stay.
    pub fn set_r(&mut self, r: u8)
        ensures
            final(self).0 == pack((r / 8) as nat, green_field(old(self).0), blue_field(old(self).0)),
    {
        let v = self.0;
        let f = ((r as u16) << 8u16) & 0xF800u16;
        assert(f | (v & 0x07FFu16) == (r / 8) * 2048 + ((v / 32) % 64) * 32 + v % 32)
            by (bit_vector)
            requires
                f == ((r as u16) << 8u16) & 0xF800u16,
        ;
        self.0 = f | (v & 0x07FFu16);
    }

    /// Sets the green channel to the top 6 bits of `g`; red and blue stay.
    pub fn set_g(&mut self, g: u8)
        ensures
            final(self).0 == pack(red_field(old(self).0), (g / 4) as nat, blue_field(old(self).0)),
    {
        let v = self.0;
        let f = ((g as u16) << 3u16) & 0x07E0u16;
        assert(f | (v & 0xF81Fu16) == (v / 2048) * 2048 + (g / 4) * 32 + v % 32)
            by (bit_vector)
            requires
                f == ((g as u16) << 3u16) & 0x07E0u16,
        ;
        self.0 = f | (v & 0xF81Fu16);
    }

    /// Sets the blue channel to the top 5 bits of `b`; red and green stay.
    pub fn set_b(&mut self, b: u8)
        ensures
            final(self).0 == pack(red_field(old(self).0), green_field(old(self).0), (b / 8) as nat),
    {
        let v = self.0;
        let f = (b as u16) >> 3u16;
        assert(f | (v & 0xFFE0u16) == (v / 2048) * 2048 + ((v / 32) % 64) * 32 + b / 8)
            by (bit_vector)
            requires
                f == (b as u16) >> 3u16,
        ;
        self.0 = f | (v & 0xFFE0u16);
    }

    /// Packs an `[r, g, b]` color, each channel truncated to its field
    /// width as the setters do.
    pub fn from_rgb(rgb: [u8; 3]) -> (p: Pixel)
        ensures
            p.0 == rgb_to_packed(rgb),
    {
        let r = rgb[0] as u16;
        let g = rgb[1] as u16;
        let b = rgb[2] as u16;
        let v = ((r >> 3u16) << 11u16) | ((g >> 2u16) << 5u16) | (b >> 3u16);
        assert(v == (r / 8) * 2048 + (g / 4) * 32 + b / 8) by (bit_vector)
            requires
                v == ((r >> 3u16) << 11u16) | ((g >> 2u16) << 5u16) | (b >> 3u16),
                r < 256,
                g < 256,
                b < 256,
        ;
        Pixel(v)
    }

    /// The `[r, g, b]` channels, each widened to 8 bits as the getters do.
    pub fn into_rgb(self) -> (rgb: [u8; 3])
        ensures
            rgb@ == seq![self.r_spec(), self.g_spec(), self.b_spec()],
    {
        [self.r(), self.g(), self.b()]
    }

    /// The red channel, widened to 8 bits.
    pub open spec fn r_spec(self) -> u8 {
        expand5(red_field(self.0)) as u8
    }

    /// The green channel, widened to 8 bits.
    pub open spec fn g_spec(self) -> u8 {
        expand6(green_field(self.0)) as u8
    }

    /// The blue channel, widened to 8 bits.
    pub open spec fn b_spec(self) -> u8 {
        expand5(blue_field(self.0)) as u8
    }
}

impl From<u16> for Pixel {
    fn from(color: u16) -> (p: Pixel) {
        Pixel(color)
    }
}

impl vstd::std_specs::convert::FromSpecImpl<u16> for Pixel {
    open spec fn obeys_from_spec() -> bool {
        true
    }

    open spec fn from_spec(color: u16) -> Pixel {
        Pixel(color)
    }
}

/// Widening a channel and truncating it again gives back the field.
proof fn lemma_expand_truncate(c: nat)
    ensures
        c < 32 ==> expand5(c) / 8 == c && expand5(c) < 256,
        c < 64 ==> expand6(c) / 4 == c && expand6(c) < 256,
{
    if c < 32 {
        assert(expand5(c) / 8 == c && expand5(c) < 256) by (nonlinear_arith)
            requires
                c < 32,
                expand5(c) == c * 8 + c / 4,
        ;
    }
    if c < 64 {
        assert(expand6(c) / 4 == c && expand6(c) < 256) by (nonlinear_arith)
            requires
                c < 64,
                expand6(c) == c * 4 + c / 16,
        ;
    }
}

/// A packed value is made of its three fields.
proof fn lemma_fields_pack(v: u16)
    ensures
        pack(red_field(v), green_field(v), blue_field(v)) == v,
        red_field(v) < 32,
        green_field(v) < 64,
        blue_field(v) < 32,
{
    assert(v == (v / 2048) * 2048 + ((v / 32) % 64) * 32 + v % 32) by (bit_vector);
    assert(v / 2048 < 32) by (bit_vector);
}

/// The fields of a packed value are the ones it was packed from.
proof fn lemma_pack_fields(r5: nat, g6: nat, b5: nat)
    requires
        r5 < 32,
        g6 < 64,
        b5 < 32,
    ensures
        pack(r5, g6, b5) < 65536,
        red_field(pack(r5, g6, b5) as u16) == r5,
        green_field(pack(r5, g6, b5) as u16) == g6,
        blue_field(pack(r5, g6, b5) as u16) == b5,
{
    let v = pack(r5, g6, b5);
    assert(v < 65536 && v / 2048 == r5 && (v / 32) % 64 == g6 && v % 32 == b5)
        by (nonlinear_arith)
        requires
            r5 < 32,
            g6 < 64,
            b5 < 32,
            v == r5 * 2048 + g6 * 32 + b5,
    ;
}

/// Packing a color and reading it back keeps the top 5, 6 and 5 bits of
/// its channels and fills the low bits by replication: a zero channel
/// reads back as 0 and a full one as 255.
pub proof fn lemma_rgb_round_trip(rgb: [u8; 3])
    ensures
        ({
            let p = Pixel(rgb_to_packed(rgb) as u16);
            &&& p.r_spec() == expand5((rgb[0] / 8) as nat)
            &&& p.g_spec() == expand6((rgb[1] / 4) as nat)
            &&& p.b_spec() == expand5((rgb[2] / 8) as nat)
            &&& p.r_spec() / 8 == rgb[0] / 8
            &&& p.g_spec() / 4 == rgb[1] / 4
            &&& p.b_spec() / 8 == rgb[2] / 8
            &&& (rgb[0] == 0 ==> p.r_spec() == 0) && (rgb[0] == 255 ==> p.r_spec() == 255)
            &&& (rgb[1] == 0 ==> p.g_spec() == 0) && (rgb[1] == 255 ==> p.g_spec() == 255)
            &&& (rgb[2] == 0 ==> p.b_spec() == 0) && (rgb[2] == 255 ==> p.b_spec() == 255)
        }),
{
    let (r5, g6, b5) = ((rgb[0] / 8) as nat, (rgb[1] / 4) as nat, (rgb[2] / 8) as nat);
    lemma_pack_fields(r5, g6, b5);
    lemma_expand_truncate(r5);
    lemma_expand_truncate(g6);
    lemma_expand_truncate(b5);
}

/// Reading a pixel's channels and packing them again gives the same pixel.
pub proof fn lemma_pixel_round_trip(p: Pixel)
    ensures
        rgb_to_packed([p.r_spec(), p.g_spec(), p.b_spec()]) == p.0,
{
    lemma_fields_pack(p.0);
    lemma_expand_truncate(red_field(p.0));
    lemma_expand_truncate(green_field(p.0));
    lemma_expand_truncate(blue_field(p.0));
}

/// Setting red, green and blue one after another on any pixel gives what
/// packing the three channels at once gives.
pub proof fn lemma_setters_match_from_rgb(p: Pixel, rgb: [u8; 3])
    ensures
        ({
            let v1 = pack((rgb[0] / 8) as nat, green_field(p.0), blue_field(p.0)) as u16;
            let v2 = pack(red_field(v1), (rgb[1] / 4) as nat, blue_field(v1)) as u16;
            let v3 = pack(red_field(v2), green_field(v2), (rgb[2] / 8) as nat);
            v3 == rgb_to_packed(rgb)
        }),
{
    lemma_fields_pack(p.0);
    let v1 = pack((rgb[0] / 8) as nat, green_field(p.0), blue_field(p.0));
    lemma_pack_fields((rgb[0] / 8) as nat, green_field(p.0), blue_field(p.0));
    let v2 = pack(red_field(v1 as u16), (rgb[1] / 4) as nat, blue_field(v1 as u16));
    lemma_pack_fields(red_field(v1 as u16), (rgb[1] / 4) as nat, blue_field(v1 as u16));
}

/// The masks and shifts of the channel accessors extract the arithmetic fields.
proof fn lemma_fields(v: u16)
    ensures
        (v & 0xF800u16) >> 11u16 == v / 2048,
        (v & 0x07E0u16) >> 5u16 == (v / 32) % 64,
        v & 0x001Fu16 == v % 32,
        v / 2048 < 32,
{
    assert((v & 0xF800u16) >> 11u16 == v / 2048) by (bit_vector);
    assert((v & 0x07E0u16) >> 5u16 == (v / 32) % 64) by (bit_vector);
    assert(v & 0x001Fu16 == v % 32) by (bit_vector);
    assert(v / 2048 < 32) by (bit_vector);
}

/// Bit replication of a 5-bit field is `c * 8 + c / 4`.
proof fn lemma_expand5(c: u8)
    requires
        c < 32,
    ensures
        (c << 3u8) | (c >> 2u8) == c * 8 + c / 4,
{
    assert((c << 3u8) | (c >> 2u8) == c * 8 + c / 4) by (bit_vector)
        requires
            c < 32,
    ;
}

/// Bit replication of a 6-bit field is `c * 4 + c / 16`.
proof fn lemma_expand6(c: u8)
    requires
        c < 64,
    ensures
        (c << 2u8) | (c >> 4u8) == c * 4 + c / 16,
{
    assert((c << 2u8) | (c >> 4u8) == c * 4 + c / 16) by (bit_vector)
        requires
            c < 64,
    ;
}

} // verus!
