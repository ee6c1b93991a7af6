use blockbake::texture::{check_animation, decode_texture, normalize, Animation, ImageData, Rgba, TextureError};

fn image(color: u8, depth: u8, width: u32, height: u32, data: Vec<u8>) -> ImageData {
    ImageData { width, height, color, depth, palette: vec![], trns: None, data }
}

fn rgba(r: u8, g: u8, b: u8, a: u8) -> Rgba {
    Rgba { r, g, b, a }
}

#[test]
fn indexed_four_bit_opaque() {
    let mut img = image(3, 4, 4, 1, vec![0x01, 0x20]);
    img.palette = vec![10, 11, 12, 20, 21, 22, 30, 31, 32];
    let px = normalize(&img).unwrap();
    assert_eq!(
        px,
        vec![rgba(10, 11, 12, 255), rgba(20, 21, 22, 255), rgba(30, 31, 32, 255), rgba(10, 11, 12, 255)]
    );
}

#[test]
fn indexed_out_of_palette_is_an_error() {
    let mut img = image(3, 4, 4, 1, vec![0x03, 0x20]);
    img.palette = vec![10, 11, 12, 20, 21, 22, 30, 31, 32];
    assert_eq!(normalize(&img), Err(TextureError::PaletteIndex(3)));
}

#[test]
fn indexed_with_transparency_table() {
    let mut img = image(3, 8, 3, 1, vec![0, 1, 2]);
    img.palette = vec![1, 1, 1, 2, 2, 2, 3, 3, 3];
    img.trns = Some(vec![0, 128]);
    let px = normalize(&img).unwrap();
    assert_eq!(px, vec![rgba(1, 1, 1, 0), rgba(2, 2, 2, 128), rgba(3, 3, 3, 255)]);
}

#[test]
fn indexed_rows_are_padded() {
    // Three 1-bit pixels per row, each row in a byte of its own.
    let mut img = image(3, 1, 3, 2, vec![0b1010_0000, 0b0110_0000]);
    img.palette = vec![0, 0, 0, 9, 9, 9];
    let px = normalize(&img).unwrap();
    let (k, w) = (rgba(0, 0, 0, 255), rgba(9, 9, 9, 255));
    assert_eq!(px, vec![w, k, w, k, w, w]);
}

#[test]
fn grayscale_depths() {
    let px = normalize(&image(0, 2, 4, 1, vec![0b00_01_10_11])).unwrap();
    assert_eq!(px, vec![rgba(0, 0, 0, 255), rgba(1, 1, 1, 255), rgba(2, 2, 2, 255), rgba(3, 3, 3, 255)]);
    let mut img = image(0, 8, 2, 1, vec![7, 200]);
    img.trns = Some(vec![7]);
    assert_eq!(normalize(&img).unwrap(), vec![rgba(7, 7, 7, 0), rgba(200, 200, 200, 255)]);
}

#[test]
fn rgb_and_alpha_formats() {
    let mut img = image(2, 8, 2, 1, vec![1, 2, 3, 4, 5, 6]);
    img.trns = Some(vec![4, 5, 6]);
    assert_eq!(normalize(&img).unwrap(), vec![rgba(1, 2, 3, 255), rgba(4, 5, 6, 0)]);
    let img = image(4, 8, 2, 1, vec![9, 100, 8, 50]);
    assert_eq!(normalize(&img).unwrap(), vec![rgba(9, 9, 9, 100), rgba(8, 8, 8, 50)]);
    let img = image(6, 8, 1, 2, vec![1, 2, 3, 4, 5, 6, 7, 8]);
    assert_eq!(normalize(&img).unwrap(), vec![rgba(1, 2, 3, 4), rgba(5, 6, 7, 8)]);
}

#[test]
fn format_errors() {
    assert_eq!(normalize(&image(6, 16, 1, 1, vec![0; 8])), Err(TextureError::UnsupportedFormat(6, 16)));
    assert_eq!(normalize(&image(2, 4, 1, 1, vec![0; 8])), Err(TextureError::UnsupportedFormat(2, 4)));
    let mut img = image(2, 8, 1, 1, vec![0; 3]);
    img.trns = Some(vec![0]);
    assert_eq!(normalize(&img), Err(TextureError::BadTransparency));
    assert_eq!(normalize(&image(6, 8, 2, 2, vec![0; 15])), Err(TextureError::SizeMismatch));
}

#[test]
fn animation_metadata() {
    assert_eq!(check_animation(16, 64, &vec![0, 3, 1]), Ok(()));
    assert_eq!(check_animation(16, 64, &vec![4]), Err(TextureError::FrameOutOfRange(4, 4)));
    assert_eq!(check_animation(16, 40, &vec![]), Err(TextureError::NonProportional));
    assert_eq!(check_animation(0, 40, &vec![]), Err(TextureError::NonProportional));
    let a = Animation::new();
    assert_eq!((a.interpolate, a.frametime, a.frames.len()), (false, 1, 0));
    assert_eq!(a.check(16, 48), Ok(()));
    let a = Animation { interpolate: true, frametime: 2, frames: vec![0, 5] };
    assert_eq!(a.check(16, 48), Err(TextureError::FrameOutOfRange(5, 3)));
}

fn encode_png(width: u32, height: u32, color: png::ColorType, data: &[u8]) -> Vec<u8> {
    let mut out = Vec::new();
    {
        let mut enc = png::Encoder::new(&mut out, width, height);
        enc.set_color(color);
        enc.set_depth(png::BitDepth::Eight);
        let mut w = enc.write_header().unwrap();
        w.write_image_data(data).unwrap();
    }
    out
}

#[test]
fn decode_png_file() {
    let bytes = encode_png(2, 1, png::ColorType::Rgb, &[1, 2, 3, 4, 5, 6]);
    let (img, px) = decode_texture(&bytes).unwrap();
    assert_eq!((img.width, img.height, img.color, img.depth), (2, 1, 2, 8));
    assert_eq!(px, vec![rgba(1, 2, 3, 255), rgba(4, 5, 6, 255)]);
    assert_eq!(decode_texture(&vec![1, 2, 3]).err(), Some(TextureError::Decode));
}
