use limg::{image_index, Error, Image, ImageSpec, Pixel, PixelEndian, PIXEL_BYTES};

fn sample() -> Image {
    let mut image = Image::new(2, 2);
    image.set_pixel(0, 0, Pixel::red());
    image.set_pixel(1, 0, Pixel::green());
    image.set_pixel(0, 1, Pixel::blue());
    image.set_pixel(1, 1, Pixel::white());
    image
}

#[test]
fn new_is_black_without_transparent_color() {
    let image = Image::new(100, 50);
    assert_eq!(image.width(), 100);
    assert_eq!(image.height(), 50);
    assert_eq!(image.transparent_color(), None);
    assert_eq!(image.pixels().len(), 5000);
    assert!(image.pixels().iter().all(|p| *p == Pixel::black()));
}

#[test]
fn with_transparent_color_keeps_it() {
    let image = Image::with_transparent_color(100, 50, Pixel::white());
    assert_eq!(image.transparent_color(), Some(Pixel::white()));
    assert_eq!(*image.get_pixel_unchecked(0, 0), Pixel::black());
    assert_eq!(image.pixels().len(), 5000);
}

#[test]
fn zero_sized_images_have_no_pixels() {
    assert_eq!(Image::new(0, 7).pixels().len(), 0);
    assert_eq!(Image::new(7, 0).pixels().len(), 0);
    assert_eq!(Image::new(0, 0).coordinates().to_vec(), vec![]);
}

#[test]
fn set_transparent_color_replaces_it() {
    let mut image = Image::new(3, 3);
    image.set_transparent_color(Some(Pixel::white()));
    assert_eq!(image.transparent_color(), Some(Pixel::white()));
    image.set_transparent_color(None);
    assert_eq!(image.transparent_color(), None);
}

#[test]
fn set_pixel_writes_row_major() {
    let image = sample();
    assert_eq!(
        image.pixels(),
        &[Pixel::red(), Pixel::green(), Pixel::blue(), Pixel::white()][..]
    );
    assert_eq!(image.get_pixel(1, 0), Some(&Pixel::green()));
    assert_eq!(image.get_pixel(0, 1), Some(&Pixel::blue()));
}

#[test]
fn get_pixel_rejects_edges() {
    let image = Image::new(100, 50);
    assert_eq!(image.get_pixel(100, 0), None);
    assert_eq!(image.get_pixel(0, 50), None);
    assert_eq!(image.get_pixel(100, 50), None);
    // a row beyond the bottom is rejected even when the column is inside
    assert_eq!(image.get_pixel(0, 51), None);
    assert_eq!(image.get_pixel(99, 49), Some(&Pixel::black()));
}

#[test]
fn get_pixel_mut_rejects_edges_and_writes_inside() {
    let mut image = Image::new(100, 50);
    assert!(image.get_pixel_mut(100, 0).is_none());
    assert!(image.get_pixel_mut(0, 50).is_none());
    assert!(image.get_pixel_mut(100, 50).is_none());
    assert!(image.get_pixel_mut(0, 60000).is_none());
    *image.get_pixel_mut(3, 2).unwrap() = Pixel::white();
    assert_eq!(image.pixels()[2 * 100 + 3], Pixel::white());
    assert_eq!(image.pixels().iter().filter(|p| **p == Pixel::white()).count(), 1);
}

#[test]
fn unchecked_access_reads_and_writes() {
    let mut image = Image::new(4, 3);
    *image.get_pixel_unchecked_mut(3, 2) = Pixel::cyan();
    assert_eq!(*image.get_pixel_unchecked(3, 2), Pixel::cyan());
    assert_eq!(image.pixels()[11], Pixel::cyan());
}

#[test]
fn pixels_mut_writes_through() {
    let mut image = Image::new(100, 50);
    image.pixels_mut()[0] = Pixel::white();
    assert_eq!(*image.get_pixel_unchecked(0, 0), Pixel::white());
    assert_eq!(image.pixels().len(), 5000);
}

#[test]
fn fill_sets_every_pixel() {
    let mut image = Image::new(100, 50);
    image.fill(Pixel::white());
    assert_eq!(*image.get_pixel_unchecked(0, 0), Pixel::white());
    assert_eq!(*image.get_pixel_unchecked(99, 49), Pixel::white());
    assert!(image.pixels().iter().all(|p| *p == Pixel::white()));
}

#[test]
fn image_index_is_row_major() {
    assert_eq!(image_index(0, 0, 10), 0);
    assert_eq!(image_index(3, 2, 10), 23);
    assert_eq!(image_index(65535, 65535, 65535), 65535 * 65535 + 65535);
}

#[test]
fn image_spec_describes_the_image() {
    let image = Image::with_transparent_color(3, 4, Pixel::magenta());
    let spec = image.image_spec(PixelEndian::Big);
    assert_eq!(
        spec,
        ImageSpec {
            width: 3,
            height: 4,
            transparent_color: Some(0xF81F),
            pixel_endian: PixelEndian::Big,
        }
    );
    assert_eq!(Image::new(1, 1).image_spec(PixelEndian::Little).transparent_color, None);
}

#[test]
fn sizes_follow_the_dimensions() {
    let spec = ImageSpec { width: 100, height: 50, transparent_color: None, pixel_endian: PixelEndian::Little };
    assert_eq!(spec.num_pixels(), 5000);
    assert_eq!(spec.decoded_size(), 5000 * PIXEL_BYTES);
    assert_eq!(spec.encoded_size(16), 16 + 10000);
    let big = ImageSpec { width: 65535, height: 65535, transparent_color: None, pixel_endian: PixelEndian::Big };
    assert_eq!(big.num_pixels(), 65535 * 65535);
}

#[test]
fn two_by_two_little_endian_plane() {
    let image = sample();
    let header = [0x11u8, 0x22, 0x33];
    let mut buf = vec![0u8; 3 + 8];
    image.to_buffer(&mut buf, &header).unwrap();
    assert_eq!(buf, vec![0x11, 0x22, 0x33, 0x00, 0xF8, 0xE0, 0x07, 0x1F, 0x00, 0xFF, 0xFF]);
}

#[test]
fn two_by_two_big_endian_plane() {
    let image = sample();
    let mut buf = vec![0u8; 8];
    image.to_buffer_with_endian(&mut buf, &[], PixelEndian::Big).unwrap();
    assert_eq!(buf, vec![0xF8, 0x00, 0x07, 0xE0, 0x00, 0x1F, 0xFF, 0xFF]);
}

#[test]
fn exact_buffer_succeeds_and_one_byte_less_fails() {
    let image = sample();
    let header = [7u8; 5];
    let size = image.image_spec(PixelEndian::Little).encoded_size(header.len());
    assert_eq!(size, 5 + 2 * 2 * PIXEL_BYTES);
    let mut exact = vec![0u8; size];
    assert_eq!(image.to_buffer(&mut exact, &header), Ok(()));
    let mut short = vec![0xAAu8; size - 1];
    assert_eq!(image.to_buffer(&mut short, &header), Err(Error::OutputBufferTooSmall));
    assert_eq!(short, vec![0xAAu8; size - 1]);
    let mut tiny = vec![0u8; 2];
    assert_eq!(image.to_buffer(&mut tiny, &header), Err(Error::OutputBufferTooSmall));
}

#[test]
fn larger_buffer_keeps_its_tail() {
    let image = sample();
    let mut buf = vec![0x55u8; 12];
    image.to_buffer(&mut buf, &[1]).unwrap();
    assert_eq!(&buf[9..], &[0x55, 0x55, 0x55]);
}

#[test]
fn from_buffer_decodes_both_byte_orders() {
    let little = [0xEEu8, 0x00, 0xF8, 0xE0, 0x07, 0x1F, 0x00, 0xFF, 0xFF];
    let spec = ImageSpec { width: 2, height: 2, transparent_color: Some(0xFFFF), pixel_endian: PixelEndian::Little };
    let image = Image::from_buffer(&little, 1, &spec).unwrap();
    assert_eq!(image.width(), 2);
    assert_eq!(image.height(), 2);
    assert_eq!(image.transparent_color(), Some(Pixel::white()));
    assert_eq!(image, sample_with(Some(Pixel::white())));

    let big = [0xF8u8, 0x00, 0x07, 0xE0, 0x00, 0x1F, 0xFF, 0xFF];
    let spec = ImageSpec { width: 2, height: 2, transparent_color: None, pixel_endian: PixelEndian::Big };
    assert_eq!(Image::from_buffer(&big, 0, &spec).unwrap(), sample());
}

fn sample_with(transparent_color: Option<Pixel>) -> Image {
    let mut image = sample();
    image.set_transparent_color(transparent_color);
    image
}

#[test]
fn from_buffer_rejects_short_input() {
    let spec = ImageSpec { width: 2, height: 2, transparent_color: None, pixel_endian: PixelEndian::Little };
    assert_eq!(Image::from_buffer(&[0u8; 10], 3, &spec), Err(Error::InputBufferTooSmall));
    assert_eq!(Image::from_buffer(&[0u8; 2], 3, &spec), Err(Error::InputBufferTooSmall));
    assert!(Image::from_buffer(&[0u8; 11], 3, &spec).is_ok());
    assert!(Image::from_buffer(&[0u8; 12], 3, &spec).is_ok());
}

#[test]
fn decode_then_encode_gives_the_bytes_back() {
    for endian in [PixelEndian::Little, PixelEndian::Big] {
        let header = [0x4Cu8, 0x49, 0x4D, 0x47];
        let mut file = header.to_vec();
        for i in 0..(3 * 5 * 2) {
            file.push((i * 37 + 11) as u8);
        }
        let spec = ImageSpec { width: 3, height: 5, transparent_color: Some(0x1234), pixel_endian: endian };
        let image = Image::from_buffer(&file, header.len(), &spec).unwrap();
        assert_eq!(image.image_spec(endian), spec);
        let mut out = vec![0u8; file.len()];
        image.to_buffer_with_endian(&mut out, &header, endian).unwrap();
        assert_eq!(out, file);
    }
}

#[test]
fn encode_then_decode_gives_the_image_back() {
    let mut image = Image::with_transparent_color(4, 3, Pixel::gray());
    for (i, p) in image.pixels_mut().iter_mut().enumerate() {
        *p = Pixel::new((i as u16).wrapping_mul(0x2F1D));
    }
    for endian in [PixelEndian::Little, PixelEndian::Big] {
        let mut buf = vec![0u8; 2 + 24];
        image.to_buffer_with_endian(&mut buf, &[9, 9], endian).unwrap();
        let spec = image.image_spec(endian);
        assert_eq!(Image::from_buffer(&buf, 2, &spec).unwrap(), image);
    }
}
