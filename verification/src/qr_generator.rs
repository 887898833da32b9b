//! The code renderer: turns a payload string into a scannable matrix-code
//! image, delivered as a base64-encoded PNG.
//!
//! The matrix-code encoding, the PNG encoder and the base64 encoder are
//! outside calls; each is deterministic in its input, so its result carries a
//! name that the contracts compose. The pixel rasterization between them —
//! scaling each module to a 4x4 block inside an 8-pixel quiet border — is
//! verified exactly.

use vstd::prelude::*;
use vstd::string::StringExecFns;

use base64::Engine;

verus! {

/// Why rendering failed.
#[derive(Debug)]
pub enum QrGeneratorError {
    /// The payload could not be encoded, e.g. it exceeds capacity.
    QrCodeGeneration(String),
    /// The pixel data could not be encoded as an image.
    ImageEncoding(String),
}

/// Whether the matrix-code encoder accepts a payload at the medium
/// error-correction level: the success of `QrCode::with_error_correction_level`,
/// which is deterministic in the payload (it fails exactly when the data
/// exceeds the capacity of the largest symbol version).
pub uninterp spec fn qr_fits(s: Seq<char>) -> bool;

/// The module grid (dark flags, row-major) that `to_colors` yields for a
/// payload encoded at the medium error-correction level. The encoding
/// depends on the payload alone, so its result carries this name; it is
/// meaningful when `qr_fits` holds of the payload.
pub uninterp spec fn qr_modules_of(s: Seq<char>) -> Seq<bool>;

/// Whether the PNG write step accepts an image: the success of `write_to`
/// with the PNG format, which is deterministic in the dimensions and pixel
/// bytes.
pub uninterp spec fn png_ok(width: nat, height: nat, rgb: Seq<u8>) -> bool;

/// The PNG encoding of a raw RGB pixel buffer: the bytes `write_to` emits.
/// Deterministic in its arguments, so its result carries this name.
pub uninterp spec fn png_of(width: nat, height: nat, rgb: Seq<u8>) -> Seq<u8>;

/// The standard base64 encoding (with padding) of a byte string.
pub uninterp spec fn base64_of(b: Seq<u8>) -> Seq<char>;

/// The side length of the module grid for a payload.
pub open spec fn qr_width(s: Seq<char>) -> nat {
    choose|w: nat| qr_modules_of(s).len() == #[trigger] (w * w)
}

/// Relies on qrcode's `QrCode::with_error_correction_level` at `EcLevel::M`,
/// `width` and `to_colors`: encoding is deterministic in the payload, so it
/// succeeds exactly when `qr_fits` holds; the grid is square with at most
/// 177 modules per side (the largest standard version); it fails when the
/// payload exceeds capacity.
#[verifier::external_body]
fn qr_encode(data: &str) -> (r: Result<(usize, Vec<bool>), String>)
    ensures
        (r is Ok) == qr_fits(data@),
        match r {
            Ok(p) => p.1@ == qr_modules_of(data@) && p.1@.len() == p.0 * p.0 && p.0 <= 177,
            Err(_) => true,
        },
{
    let qr = match qrcode::QrCode::with_error_correction_level(data, qrcode::EcLevel::M) {
        Ok(q) => q,
        Err(e) => return Err(e.to_string()),
    };
    let dark_of = |c: &qrcode::Color| match c {
        qrcode::Color::Dark => true,
        qrcode::Color::Light => false,
    };
    let modules: Vec<bool> = qr.to_colors().iter().map(dark_of).collect();
    Ok((qr.width(), modules))
}

/// Relies on image's `RgbImage::from_raw` and `write_to` with the PNG
/// format: `from_raw` accepts a buffer of exactly 3 bytes per pixel, the
/// encoder is deterministic in the dimensions and pixel bytes (so it
/// succeeds exactly when `png_ok` holds), and a successful stream begins
/// with the eight-byte PNG signature.
#[verifier::external_body]
fn png_encode(width: u32, height: u32, rgb: &Vec<u8>) -> (r: Result<Vec<u8>, String>)
    requires
        rgb@.len() == 3 * (width as nat) * (height as nat),
    ensures
        (r is Ok) == png_ok(width as nat, height as nat, rgb@),
        match r {
            Ok(b) => b@ == png_of(width as nat, height as nat, rgb@) && b@.len() >= 8,
            Err(_) => true,
        },
{
    let img = match image::RgbImage::from_raw(width, height, rgb.clone()) {
        Some(i) => i,
        None => return Err("pixel buffer does not match the image dimensions".to_string()),
    };
    let mut png: Vec<u8> = Vec::new();
    let mut cursor = std::io::Cursor::new(&mut png);
    if let Err(e) = img.write_to(&mut cursor, image::ImageOutputFormat::Png) {
        return Err(e.to_string());
    }
    Ok(png)
}

/// Relies on base64's `STANDARD` engine: four output characters for every
/// three input bytes, padded; deterministic in the bytes. The length bound
/// keeps the encoder's own size computation from overflowing.
#[verifier::external_body]
fn base64_encode(bytes: &Vec<u8>) -> (r: String)
    requires
        bytes@.len() <= usize::MAX / 4,
    ensures
        r@ == base64_of(bytes@),
        r@.len() == 4 * ((bytes@.len() + 2) / 3),
{
    base64::engine::general_purpose::STANDARD.encode(bytes)
}

/// The image side: each module scaled four-fold, plus an 8-pixel border on
/// both sides.
pub open spec fn img_side(w: nat) -> nat {
    4 * w + 16
}

/// Whether the image pixel at `(x, y)` is dark: inside the border it shows
/// its module, the border itself is light.
pub open spec fn pixel_dark(modules: Seq<bool>, w: nat, x: int, y: int) -> bool {
    &&& 8 <= x < 8 + 4 * w
    &&& 8 <= y < 8 + 4 * w
    &&& modules[((y - 8) / 4) * (w as int) + ((x - 8) / 4)]
}

/// The raw RGB bytes of the scaled image: three equal channel bytes per
/// pixel, 0 for dark and 255 for light, row-major.
pub open spec fn rgb_of(modules: Seq<bool>, w: nat) -> Seq<u8> {
    Seq::new(
        3 * img_side(w) * img_side(w),
        |k: int|
            if pixel_dark(
                modules,
                w,
                (k / 3) % (img_side(w) as int),
                (k / 3) / (img_side(w) as int),
            ) {
                0u8
            } else {
                255u8
            },
    )
}

proof fn lemma_sqrt_unique(a: nat, b: nat)
    requires
        a * a == b * b,
    ensures
        a == b,
{
    assert(a == b) by (nonlinear_arith)
        requires
            a * a == b * b,
            a >= 0,
            b >= 0,
    ;
}

/// Rasterizes a module grid into raw RGB pixel bytes, scaling each module to
/// a 4x4 block inside an 8-pixel light border.
pub fn render_rgb(w: usize, modules: &Vec<bool>) -> (r: Vec<u8>)
    requires
        w <= 177,
        modules@.len() == w * w,
    ensures
        r@ == rgb_of(modules@, w as nat),
{
    let ghost target = rgb_of(modules@, w as nat);
    let side = 4 * w + 16;
    proof {
        assert(side * side <= 724 * 724) by (nonlinear_arith)
            requires
                0 <= side <= 724,
        ;
    }
    let total = side * side;
    proof {
        assert(target.len() == 3 * (side * side)) by (nonlinear_arith)
            requires
                target.len() == 3 * img_side(w as nat) * img_side(w as nat),
                side == img_side(w as nat),
        ;
        assert(target.take(0) =~= Seq::<u8>::empty());
    }
    let mut buf: Vec<u8> = Vec::new();
    let mut p: usize = 0;
    while p < total
        invariant
            w <= 177,
            modules@.len() == w * w,
            side == 4 * w + 16,
            total == side * side,
            target == rgb_of(modules@, w as nat),
            target.len() == 3 * total,
            p <= total,
            buf@ == target.take(3 * p as int),
        decreases total - p,
    {
        let x = p % side;
        let y = p / side;
        proof {
            assert(x < side && y < side) by (nonlinear_arith)
                requires
                    x == p % side,
                    y == p / side,
                    0 <= p < total,
                    total == side * side,
                    side > 0,
            ;
        }
        let dark = if x >= 8 && x < 8 + 4 * w && y >= 8 && y < 8 + 4 * w {
            let mx = (x - 8) / 4;
            let my = (y - 8) / 4;
            proof {
                assert(mx < w && my < w);
                assert(my * w + mx < w * w && my * w <= w * w && w * w <= 177 * 177) by (
                nonlinear_arith)
                    requires
                        mx < w,
                        my < w,
                        w <= 177,
                ;
            }
            modules[my * w + mx]
        } else {
            false
        };
        proof {
            assert(dark == pixel_dark(modules@, w as nat, x as int, y as int));
        }
        let v: u8 = if dark {
            0
        } else {
            255
        };
        let ghost bpre = buf@;
        buf.push(v);
        buf.push(v);
        buf.push(v);
        proof {
            assert forall|c: int| 0 <= c < 3 implies #[trigger] target[3 * p + c] == v by {
                let k = 3 * p + c;
                assert(k / 3 == p as int) by (nonlinear_arith)
                    requires
                        k == 3 * p + c,
                        0 <= c < 3,
                        p >= 0,
                ;
                assert((k / 3) % (side as int) == x && (k / 3) / (side as int) == y) by (
                nonlinear_arith)
                    requires
                        k / 3 == p as int,
                        x == p % side,
                        y == p / side,
                        side > 0,
                        p >= 0,
                ;
                assert(target[k] == (if pixel_dark(modules@, w as nat, x as int, y as int) {
                    0u8
                } else {
                    255u8
                }));
            }
            assert(buf@ =~= target.take(3 * (p + 1)));
        }
        p = p + 1;
    }
    proof {
        assert(target.take(3 * total as int) =~= target);
    }
    buf
}

/// The code renderer.
#[derive(Clone, Copy)]
pub struct QrGenerator;

impl QrGenerator {
    /// A renderer; it carries no state.
    pub fn new() -> (r: Self) {
        QrGenerator
    }

    /// Renders the payload as a scannable image and returns it as a
    /// base64-encoded PNG. Deterministic in the payload: it succeeds exactly
    /// when the payload encodes at the medium error-correction level, the
    /// rasterized image encodes as a PNG, and that PNG is within the base64
    /// size bound; the result is then exactly, and non-emptily, the base64 of
    /// that PNG. It fails with `QrCodeGeneration` exactly when the payload
    /// cannot be encoded, and with `ImageEncoding` exactly when the pixel
    /// data cannot be.
    pub fn generate_qr_base64(&self, data: &str) -> (r: Result<String, QrGeneratorError>)
        ensures
            ({
                let w = qr_width(data@);
                let side = img_side(w);
                let rgb = rgb_of(qr_modules_of(data@), w);
                let png = png_of(side, side, rgb);
                &&& (r is Ok) == (qr_fits(data@) && png_ok(side, side, rgb) && png.len()
                    <= usize::MAX / 4)
                &&& (r matches Err(QrGeneratorError::QrCodeGeneration(_))) == !qr_fits(data@)
                &&& (r matches Err(QrGeneratorError::ImageEncoding(_))) == (qr_fits(data@) && !(
                png_ok(side, side, rgb) && png.len() <= usize::MAX / 4))
                &&& (r matches Ok(s) ==> {
                    &&& qr_modules_of(data@).len() == w * w
                    &&& w <= 177
                    &&& s@ == base64_of(png)
                    &&& s@.len() == 4 * ((png.len() + 2) / 3)
                    &&& s@.len() > 0
                })
            }),
    {
        let (w, modules) = match qr_encode(data) {
            Ok(p) => p,
            Err(e) => {
                return Err(QrGeneratorError::QrCodeGeneration(e));
            },
        };
        proof {
            let ww = qr_width(data@);
            assert(qr_modules_of(data@).len() == (w as nat) * (w as nat));
            assert(qr_modules_of(data@).len() == ww * ww);
            lemma_sqrt_unique(ww, w as nat);
        }
        let rgb = render_rgb(w, &modules);
        let side = 4 * w + 16;
        proof {
            assert(rgb@.len() == 3 * (side as nat) * (side as nat)) by (nonlinear_arith)
                requires
                    rgb@.len() == 3 * img_side(w as nat) * img_side(w as nat),
                    side == img_side(w as nat),
            ;
        }
        let png = match png_encode(side as u32, side as u32, &rgb) {
            Ok(b) => b,
            Err(e) => {
                return Err(QrGeneratorError::ImageEncoding(e));
            },
        };
        if png.len() > usize::MAX / 4 {
            return Err(
                QrGeneratorError::ImageEncoding(
                    String::from_str("encoded image exceeds the supported size"),
                ),
            );
        }
        Ok(base64_encode(&png))
    }
}

} // verus!
