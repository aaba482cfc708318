use limg::Pixel;

#[test]
fn named_colors_are_exact_rgb565() {
    assert_eq!(Pixel::black().0, 0x0000);
    assert_eq!(Pixel::red().0, 0xF800);
    assert_eq!(Pixel::green().0, 0x07E0);
    assert_eq!(Pixel::blue().0, 0x001F);
    assert_eq!(Pixel::magenta().0, 0xF81F);
    assert_eq!(Pixel::cyan().0, 0x07FF);
    assert_eq!(Pixel::yellow().0, 0xFFE0);
    assert_eq!(Pixel::gray().0, 0x7BEF);
    assert_eq!(Pixel::white().0, 0xFFFF);
}

#[test]
fn new_and_from_keep_the_value() {
    assert_eq!(Pixel::new(0x1234).0, 0x1234);
    assert_eq!(Pixel::from(0xABCDu16), Pixel::new(0xABCD));
}

#[test]
fn full_channels_read_as_255() {
    assert_eq!(Pixel::red().r(), 255);
    assert_eq!(Pixel::green().g(), 255);
    assert_eq!(Pixel::blue().b(), 255);
    assert_eq!(Pixel::red().g(), 0);
    assert_eq!(Pixel::red().b(), 0);
}

#[test]
fn channel_reads_replicate_high_bits() {
    // red field 0b10110 -> 0b10110101, green field 0b101101 -> 0b10110110,
    // blue field 0b00011 -> 0b00011000
    let p = Pixel::new((0b10110 << 11) | (0b101101 << 5) | 0b00011);
    assert_eq!(p.r(), 0b1011_0101);
    assert_eq!(p.g(), 0b1011_0110);
    assert_eq!(p.b(), 0b0001_1000);
    assert_eq!(Pixel::gray().into_rgb(), [123, 125, 123]);
}

#[test]
fn setters_truncate_and_splice() {
    let mut p = Pixel::black();
    p.set_r(255);
    assert_eq!(p, Pixel::red());
    let mut p = Pixel::black();
    p.set_g(255);
    assert_eq!(p, Pixel::green());
    let mut p = Pixel::black();
    p.set_b(255);
    assert_eq!(p, Pixel::blue());

    let mut p = Pixel::white();
    p.set_g(0);
    assert_eq!(p, Pixel::magenta());
    p.set_r(0b1010_0111);
    assert_eq!(p.0, (0b10100 << 11) | 0x001F);
    p.set_b(0b0000_0111);
    assert_eq!(p.0, 0b10100 << 11);
}

#[test]
fn from_rgb_packs_like_the_setters() {
    assert_eq!(Pixel::from_rgb([255, 0, 255]), Pixel::magenta());
    assert_eq!(Pixel::from_rgb([0, 0, 0]), Pixel::black());
    assert_eq!(Pixel::from_rgb([255, 255, 255]), Pixel::white());
    let rgb = [0x9C, 0x47, 0xE2];
    let mut p = Pixel::new(0x5A5A);
    p.set_r(rgb[0]);
    p.set_g(rgb[1]);
    p.set_b(rgb[2]);
    assert_eq!(Pixel::from_rgb(rgb), p);
    assert_eq!(p.0, (0x9C >> 3 << 11) | (0x47 >> 2 << 5) | (0xE2 >> 3));
}

#[test]
fn into_rgb_reads_all_channels() {
    assert_eq!(Pixel::magenta().into_rgb(), [255, 0, 255]);
    assert_eq!(Pixel::black().into_rgb(), [0, 0, 0]);
    assert_eq!(Pixel::white().into_rgb(), [255, 255, 255]);
}

#[test]
fn rgb_round_trip_exact_at_zero_and_full() {
    for c in [0u8, 255] {
        assert_eq!(Pixel::from_rgb([c, c, c]).into_rgb(), [c, c, c]);
    }
    assert_eq!(Pixel::from_rgb([0b1111_1000, 0, 0]).into_rgb()[0], 255);
    // 100 keeps its top bits 01100 / 011001 and gets them replicated below
    assert_eq!(Pixel::from_rgb([100, 100, 100]).into_rgb(), [99, 101, 99]);
}

#[test]
fn rgb_round_trip_keeps_top_bits_for_every_value() {
    for c in 0..=255u8 {
        let rgb = Pixel::from_rgb([c, c, c]).into_rgb();
        assert_eq!(rgb[0] >> 3, c >> 3);
        assert_eq!(rgb[1] >> 2, c >> 2);
        assert_eq!(rgb[2] >> 3, c >> 3);
    }
}

#[test]
fn pixel_survives_into_rgb_and_back() {
    for v in [0u16, 1, 0x1234, 0x7BEF, 0x8001, 0xFFFF] {
        let p = Pixel::new(v);
        assert_eq!(Pixel::from_rgb(p.into_rgb()), p);
    }
}
