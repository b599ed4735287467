use weather_landscape::canvas::{Image, ImageFormat, Rgba};
use weather_landscape::sprites::Sprite;

fn white() -> Rgba {
    Rgba::white()
}

fn black() -> Rgba {
    Rgba::black()
}

#[test]
fn new_canvas_is_white() {
    let img = Image::new(4, 3);
    assert_eq!(img.width(), 4);
    assert_eq!(img.height(), 3);
    assert!(img.pixels.iter().all(|&p| p == white()));
}

#[test]
fn pixels_off_the_canvas_are_clipped() {
    let mut img = Image::new(4, 3);
    img.draw_pixel(-1, 0);
    img.draw_pixel(4, 0);
    img.draw_pixel(0, 3);
    assert!(img.pixels.iter().all(|&p| p == white()));
    img.draw_pixel(3, 2);
    assert_eq!(img.get_pixel(3, 2), black());
    assert_eq!(img.pixels.iter().filter(|&&p| p == black()).count(), 1);
}

#[test]
fn inverting_twice_restores_the_canvas() {
    let mut img = Image::new(5, 2);
    img.draw_pixel(1, 1);
    img.pixels[3] = Rgba { r: 10, g: 200, b: 30, a: 128 };
    let before = img.pixels.clone();
    img.invert_pixels();
    assert_eq!(img.get_pixel(1, 1), white());
    assert_eq!(img.get_pixel(0, 0), black());
    assert_eq!(img.pixels[3], Rgba { r: 245, g: 55, b: 225, a: 128 });
    img.invert_pixels();
    assert_eq!(img.pixels, before);
}

#[test]
fn overlay_skips_transparent_pixels_and_clips() {
    let raw = vec![0, 0, 0, 255, 200, 0, 0, 255];
    let sprite = Sprite::from_rgba("dot", 2, 1, &raw);
    assert_eq!(sprite.pixels, vec![black(), Rgba::transparent()]);
    let mut img = Image::new(3, 1);
    img.draw_pixel(2, 0);
    sprite.overlay(&mut img, 1, 0);
    assert_eq!(img.pixels, vec![white(), black(), black()]);
    let mut img = Image::new(3, 1);
    sprite.overlay(&mut img, -1, 0);
    assert_eq!(img.pixels, vec![white(), white(), white()]);
    sprite.overlay(&mut img, 2, 0);
    assert_eq!(img.pixels, vec![white(), white(), black()]);
}

#[test]
fn rotation_turns_a_quarter_clockwise() {
    let mut img = Image::new(2, 1);
    img.draw_pixel(1, 0);
    let r = img.rotate90();
    assert_eq!((r.width(), r.height()), (1, 2));
    assert_eq!(r.get_pixel(0, 0), white());
    assert_eq!(r.get_pixel(0, 1), black());
}

#[test]
fn png_encoding_round_trips() {
    let mut img = Image::new(6, 4);
    img.draw_pixel(2, 3);
    let (bytes, mime) = img.encode(ImageFormat::Png).unwrap();
    assert_eq!(mime, "image/png");
    let decoded = image::load_from_memory(&bytes).unwrap().into_rgba8();
    assert_eq!(decoded.dimensions(), (6, 4));
    assert_eq!(decoded.get_pixel(2, 3).0, [0, 0, 0, 255]);
    assert_eq!(decoded.get_pixel(0, 0).0, [255, 255, 255, 255]);
}

#[test]
fn other_raster_formats_encode() {
    let img = Image::new(3, 3);
    let (gif, mime) = img.encode(ImageFormat::Gif).unwrap();
    assert_eq!(mime, "image/gif");
    assert_eq!(&gif[..3], b"GIF");
    let (bmp, mime) = img.encode(ImageFormat::Bmp).unwrap();
    assert_eq!(mime, "image/bmp");
    assert_eq!(&bmp[..2], b"BM");
}

#[test]
fn epd_buffer_packs_rotated_pixels() {
    let mut img = Image::new(296, 128);
    let (white_buf, mime) = img.encode(ImageFormat::Epd).unwrap();
    assert_eq!(mime, "application/octet-stream");
    assert_eq!(white_buf.len(), 16 * 296);
    assert!(white_buf.iter().all(|&b| b == 0xff));
    img.draw_pixel(0, 0);
    let buf = img.encode_epd().unwrap();
    assert_eq!(buf[15], 0xfe);
    assert_eq!(buf.iter().filter(|&&b| b != 0xff).count(), 1);
}

#[test]
fn sprites_decode_and_key_their_pixels() {
    let mut png = image::RgbaImage::new(3, 1);
    png.put_pixel(0, 0, image::Rgba([0, 0, 0, 255]));
    png.put_pixel(1, 0, image::Rgba([255, 255, 255, 255]));
    png.put_pixel(2, 0, image::Rgba([120, 120, 120, 255]));
    let mut bytes: Vec<u8> = Vec::new();
    png.write_to(&mut std::io::Cursor::new(&mut bytes), image::ImageFormat::Png)
        .unwrap();
    let sprite = Sprite::from_slice("probe", &bytes).unwrap();
    assert_eq!(sprite.name(), "probe");
    assert_eq!((sprite.width, sprite.height), (3, 1));
    assert_eq!(sprite.pixels, vec![black(), white(), Rgba::transparent()]);
    assert!(Sprite::from_slice("junk", &[1, 2, 3]).is_err());
}

#[test]
fn epd_buffer_bit_layout() {
    let mut img = Image::new(296, 128);
    img.draw_pixel(10, 127);
    let buf = img.encode_epd().unwrap();
    assert_eq!(buf.len(), 4736);
    assert_eq!(buf[160], 0x7f);
    assert_eq!(buf.iter().filter(|&&b| b != 0xff).count(), 1);
}
