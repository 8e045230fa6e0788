//! Decoding the PNG sprite sheets into 32-bit RGBA pixels ready to upload as
//! a texture. The PNG decoding itself is the `png` crate's; this module
//! accepts what the renderer can take and normalises it to RGBA.
use vstd::prelude::*;

verus! {

/// A decoded PNG frame: its size, colour layout, bits per sample, and the
/// decoded bytes.
pub struct DecodedPng {
    pub width: u32,
    pub height: u32,
    /// The `png` crate's colour-type code (0, 2, 3, 4 or 6).
    pub color_code: u8,
    /// Bits per sample (1, 2, 4, 8 or 16).
    pub bit_depth: u8,
    pub data: Vec<u8>,
}

/// What decoding gave: the frame, or the decoder's error message.
pub enum PngDecode {
    Image(DecodedPng),
    Error(String),
}

pub struct DecodedPngView {
    pub width: u32,
    pub height: u32,
    pub color_code: u8,
    pub bit_depth: u8,
    pub data: Seq<u8>,
}

pub enum PngDecodeView {
    Image(DecodedPngView),
    Error(Seq<char>),
}

impl View for DecodedPng {
    type V = DecodedPngView;

    open spec fn view(&self) -> DecodedPngView {
        DecodedPngView {
            width: self.width,
            height: self.height,
            color_code: self.color_code,
            bit_depth: self.bit_depth,
            data: self.data@,
        }
    }
}

impl View for PngDecode {
    type V = PngDecodeView;

    open spec fn view(&self) -> PngDecodeView {
        match self {
            PngDecode::Image(d) => PngDecodeView::Image(d@),
            PngDecode::Error(e) => PngDecodeView::Error(e@),
        }
    }
}

/// What the `png` crate decodes from these bytes (header, then the first
/// frame), or the text of its error.
pub uninterp spec fn png_decode_spec(bytes: Seq<u8>) -> PngDecodeView;

/// Decode PNG bytes with the `png` crate: `Decoder::new`, `read_info`, then
/// `next_frame` into a buffer of `output_buffer_size` bytes. The contract
/// claims only that the outcome is a function of the bytes; the colour type
/// and bit depth are passed on as the crate's numeric codes.
#[verifier::external_body]
fn png_decode(bytes: &Vec<u8>) -> (r: PngDecode)
    ensures
        r@ == png_decode_spec(bytes@),
{
    let mut reader = match png::Decoder::new(bytes.as_slice()).read_info() {
        Ok(reader) => reader,
        Err(e) => return PngDecode::Error(format!("{e}")),
    };
    let mut data = vec![0u8; reader.output_buffer_size()];
    match reader.next_frame(&mut data) {
        Ok(info) => PngDecode::Image(DecodedPng {
            width: info.width,
            height: info.height,
            color_code: info.color_type as u8,
            bit_depth: info.bit_depth as u8,
            data,
        }),
        Err(e) => PngDecode::Error(format!("{e}")),
    }
}

/// How the `png` crate names a bit depth.
pub open spec fn depth_name(bits: u8) -> Seq<char> {
    if bits == 1 {
        "One"@
    } else if bits == 2 {
        "Two"@
    } else if bits == 4 {
        "Four"@
    } else if bits == 16 {
        "Sixteen"@
    } else {
        "Eight"@
    }
}

/// How the `png` crate names a colour type.
pub open spec fn color_name(code: u8) -> Seq<char> {
    if code == 0 {
        "Grayscale"@
    } else if code == 3 {
        "Indexed"@
    } else if code == 4 {
        "GrayscaleAlpha"@
    } else if code == 2 {
        "Rgb"@
    } else {
        "Rgba"@
    }
}

/// 32-bit RGBA pixels (R, G, B, A byte order), `pitch` bytes per row.
pub struct RgbaImage {
    pub width: u32,
    pub height: u32,
    pub pitch: u32,
    pub pixels: Vec<u8>,
}

pub struct RgbaView {
    pub width: u32,
    pub height: u32,
    pub pitch: u32,
    pub pixels: Seq<u8>,
}

impl View for RgbaImage {
    type V = RgbaView;

    open spec fn view(&self) -> RgbaView {
        RgbaView { width: self.width, height: self.height, pitch: self.pitch, pixels: self.pixels@ }
    }
}

/// RGB bytes with an opaque alpha byte added after every whole pixel; a
/// trailing partial pixel is dropped.
pub open spec fn rgb_to_rgba_spec(data: Seq<u8>) -> Seq<u8> {
    Seq::new(
        (data.len() / 3) * 4,
        |i: int|
            if i % 4 == 3 {
                0xffu8
            } else {
                data[(i / 4) * 3 + i % 4]
            },
    )
}

/// The RGBA image of a decoded PNG, or the error the game reports for
/// `path`: decoder errors are passed on, only 8-bit RGB and RGBA images are
/// accepted, and RGB gains an opaque alpha channel.
pub open spec fn rgba_spec(d: PngDecodeView, path: Seq<char>) -> Result<RgbaView, Seq<char>> {
    match d {
        PngDecodeView::Error(e) => Err(path + ": "@ + e),
        PngDecodeView::Image(img) => if img.bit_depth != 8 {
            Err(path + ": unsupported PNG bit depth "@ + depth_name(img.bit_depth))
        } else if img.color_code == 6 {
            Ok(
                RgbaView {
                    width: img.width,
                    height: img.height,
                    pitch: (img.width * 4) as u32,
                    pixels: img.data,
                },
            )
        } else if img.color_code == 2 {
            Ok(
                RgbaView {
                    width: img.width,
                    height: img.height,
                    pitch: (img.width * 4) as u32,
                    pixels: rgb_to_rgba_spec(img.data),
                },
            )
        } else {
            Err(path + ": unsupported PNG color type "@ + color_name(img.color_code))
        },
    }
}

pub open spec fn result_view(r: Result<RgbaImage, String>) -> Result<RgbaView, Seq<char>> {
    match r {
        Ok(img) => Ok(img@),
        Err(e) => Err(e@),
    }
}

proof fn lemma_quad(k: int, j: int)
    requires
        0 <= k,
        0 <= j < 4,
    ensures
        (4 * k + j) / 4 == k,
        (4 * k + j) % 4 == j,
{
    vstd::arithmetic::div_mod::lemma_fundamental_div_mod_converse(4 * k + j, 4, k, j);
}

/// Expand RGB bytes to RGBA with an opaque alpha byte.
pub fn rgb_to_rgba(data: &Vec<u8>) -> (r: Vec<u8>)
    requires
        (data@.len() / 3) * 4 <= usize::MAX,
    ensures
        r@ == rgb_to_rgba_spec(data@),
{
    let n = data.len() / 3;
    let mut out: Vec<u8> = Vec::new();
    let mut k: usize = 0;
    while k < n
        invariant
            n == data@.len() / 3,
            n * 4 <= usize::MAX,
            k <= n,
            out@.len() == 4 * k,
            forall|i: int| 0 <= i < 4 * k ==> #[trigger] out@[i] == rgb_to_rgba_spec(data@)[i],
        decreases n - k,
    {
        proof {
            assert(3 * k + 2 < data@.len()) by (nonlinear_arith)
                requires
                    k < n,
                    n == data@.len() / 3,
            ;
            assert(4 * k + 4 <= n * 4) by (nonlinear_arith)
                requires
                    k < n,
            ;
        }
        out.push(data[3 * k]);
        out.push(data[3 * k + 1]);
        out.push(data[3 * k + 2]);
        out.push(0xff);
        proof {
            assert forall|i: int| 4 * k <= i < 4 * k + 4 implies #[trigger] out@[i]
                == rgb_to_rgba_spec(data@)[i] by {
                lemma_quad(k as int, i - 4 * k);
            }
        }
        k = k + 1;
    }
    assert(out@ =~= rgb_to_rgba_spec(data@));
    out
}

fn depth_text(bits: u8) -> (r: &'static str)
    ensures
        r@ == depth_name(bits),
{
    if bits == 1 {
        "One"
    } else if bits == 2 {
        "Two"
    } else if bits == 4 {
        "Four"
    } else if bits == 16 {
        "Sixteen"
    } else {
        "Eight"
    }
}

fn color_text(code: u8) -> (r: &'static str)
    ensures
        r@ == color_name(code),
{
    if code == 0 {
        "Grayscale"
    } else if code == 3 {
        "Indexed"
    } else if code == 4 {
        "GrayscaleAlpha"
    } else if code == 2 {
        "Rgb"
    } else {
        "Rgba"
    }
}

fn message(path: &str, text: &str, detail: &str) -> (r: String)
    ensures
        r@ == path@ + text@ + detail@,
{
    let mut s = String::from_str(path);
    s.append(text);
    s.append(detail);
    s
}

/// The RGBA image of a decoded PNG, or the error reported for `path`.
pub fn rgba_from_decoded(d: PngDecode, path: &str) -> (r: Result<RgbaImage, String>)
    requires
        d matches PngDecode::Image(img) ==> img.width <= 0x3fff_ffff && (img.data@.len() / 3) * 4
            <= usize::MAX,
    ensures
        result_view(r) == rgba_spec(d@, path@),
{
    match d {
        PngDecode::Error(e) => Err(message(path, ": ", e.as_str())),
        PngDecode::Image(img) => {
            if img.bit_depth != 8 {
                return Err(
                    message(path, ": unsupported PNG bit depth ", depth_text(img.bit_depth)),
                );
            }
            let pitch = img.width * 4;
            if img.color_code == 6 {
                Ok(RgbaImage { width: img.width, height: img.height, pitch, pixels: img.data })
            } else if img.color_code == 2 {
                let pixels = rgb_to_rgba(&img.data);
                Ok(RgbaImage { width: img.width, height: img.height, pitch, pixels })
            } else {
                Err(message(path, ": unsupported PNG color type ", color_text(img.color_code)))
            }
        },
    }
}

/// Decode the PNG file contents `bytes` (read from `path`) into RGBA pixels.
/// A frame too wide for a 32-bit row pitch, or one whose RGBA expansion would
/// not fit in memory, is reported as an error rather than decoded.
pub fn load_rgba(bytes: &Vec<u8>, path: &str) -> (r: Result<RgbaImage, String>)
    ensures
        match png_decode_spec(bytes@) {
            PngDecodeView::Image(img) => if img.width <= 0x3fff_ffff && (img.data.len() / 3) * 4
                <= usize::MAX {
                result_view(r) == rgba_spec(png_decode_spec(bytes@), path@)
            } else {
                result_view(r) == Err::<RgbaView, Seq<char>>(path@ + ": image too large"@)
            },
            PngDecodeView::Error(_) => result_view(r) == rgba_spec(
                png_decode_spec(bytes@),
                path@,
            ),
        },
{
    let d = png_decode(bytes);
    let fits = match &d {
        PngDecode::Image(img) => img.width <= 0x3fff_ffff && img.data.len() / 3 <= usize::MAX / 4,
        PngDecode::Error(_) => true,
    };
    if !fits {
        proof {
            reveal_strlit("");
        }
        return Err(message(path, ": image too large", ""));
    }
    rgba_from_decoded(d, path)
}

} // verus!
