use rustgamex::image::{load_rgba, rgb_to_rgba};

fn encode(width: u32, height: u32, color: png::ColorType, data: &[u8]) -> Vec<u8> {
    let mut out = Vec::new();
    {
        let mut enc = png::Encoder::new(&mut out, width, height);
        enc.set_color(color);
        enc.set_depth(png::BitDepth::Eight);
        let mut w = enc.write_header().unwrap();
        w.write_image_data(data).unwrap();
    }
    out
}

#[test]
fn rgb_gains_an_opaque_alpha_channel() {
    assert_eq!(rgb_to_rgba(&vec![1, 2, 3, 4, 5, 6, 7]), vec![1, 2, 3, 255, 4, 5, 6, 255]);
}

#[test]
fn rgb_png_decodes_to_rgba() {
    let bytes = encode(2, 1, png::ColorType::Rgb, &[10, 20, 30, 40, 50, 60]);
    let img = load_rgba(&bytes, "sheet.png").unwrap();
    assert_eq!((img.width, img.height, img.pitch), (2, 1, 8));
    assert_eq!(img.pixels, vec![10, 20, 30, 255, 40, 50, 60, 255]);
}

#[test]
fn rgba_png_is_kept_as_is() {
    let bytes = encode(1, 1, png::ColorType::Rgba, &[1, 2, 3, 4]);
    let img = load_rgba(&bytes, "a.png").unwrap();
    assert_eq!(img.pixels, vec![1, 2, 3, 4]);
}

#[test]
fn grayscale_png_is_refused() {
    let bytes = encode(1, 1, png::ColorType::Grayscale, &[7]);
    let err = load_rgba(&bytes, "g.png").err().unwrap();
    assert_eq!(err, "g.png: unsupported PNG color type Grayscale");
}

#[test]
fn garbage_is_a_decoding_error_naming_the_file() {
    let err = load_rgba(&vec![1, 2, 3], "bad.png").err().unwrap();
    assert!(err.starts_with("bad.png: "), "{}", err);
}
